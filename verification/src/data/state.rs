//! The state of one browsing session and the commands that change it.

use vstd::prelude::*;
use crate::data::filter::{
    count_filtered,
    filter_deps,
    filtered,
    lemma_filtered_positions,
    lemma_filtered_push,
    nth_filtered,
};
use crate::data::metadata::{Metadata, Package};
use crate::data::resolve::{lemma_resolved_in_order, lemma_zero_has_no_dependencies, resolve, resolved};
use crate::data::sort::{
    in_order,
    insert_stable,
    law_sorted_in_order,
    law_sorted_of_ordered,
    lemma_sorted_len,
    precedes,
    sorted,
    sorting_impl,
};
use crate::data::store::{lookup, MetadataStore};
use crate::data::summary::{joined, joined_path, names_of, summarize, total_size, Summary};
use crate::ui::screen::OrderBy;

verus! {

/// A browsing session as mathematical values.
pub struct Session {
    /// The records of the graph, by identifier.
    pub store: Map<Seq<char>, Package>,
    /// The packages entered so far, the root first and the current one last.
    pub breadcrumb: Seq<Package>,
    /// The dependencies of the current package, ordered, before the filter.
    pub current: Seq<Package>,
    /// The dependencies of the entry that was last selected, ordered.
    pub preview: Seq<Package>,
    /// The selected row of the filtered list.
    pub selected_index: nat,
    /// The text that a record's name must hold to be listed.
    pub filter: Seq<char>,
    pub ascending: bool,
    /// Listing direct dependencies only, rather than all that can be reached.
    pub direct: bool,
    pub order: OrderBy,
}

impl Session {
    /// The dependencies of the current package that pass the filter.
    pub open spec fn visible(self) -> Seq<Package> {
        filtered(self.current, self.filter)
    }

    /// The selected entry, or the zero record where nothing is listed.
    pub open spec fn selected(self) -> Package {
        if self.selected_index < self.visible().len() {
            self.visible()[self.selected_index as int]
        } else {
            Package::zero()
        }
    }

    /// The dependencies of `parent` as this session lists them.
    pub open spec fn dependencies_of(self, parent: Package) -> Seq<Package> {
        resolved(self.store, parent, self.direct, self.order, self.ascending)
    }

    /// What holds of a session at all times: it is inside some package, the
    /// selection is on a listed row or on row zero, nothing is previewed
    /// while nothing is listed, and both lists are in order.
    pub open spec fn well_formed(self) -> bool {
        &&& self.breadcrumb.len() > 0
        &&& (self.selected_index == 0 || self.selected_index < self.visible().len())
        &&& (self.visible().len() == 0 ==> self.preview.len() == 0)
        &&& in_order(self.current, self.order, self.ascending)
        &&& in_order(self.preview, self.order, self.ascending)
    }

    /// The session with the preview made anew for the selected entry.
    pub open spec fn refresh_preview(self) -> Session {
        Session { preview: self.dependencies_of(self.selected()), ..self }
    }

    /// The session with the first row selected.
    pub open spec fn select_first(self) -> Session {
        Session { selected_index: 0, ..self }.refresh_preview()
    }

    /// A session that has not loaded anything: an empty graph under the zero record.
    pub open spec fn empty() -> Session {
        Session {
            store: Map::empty(),
            breadcrumb: seq![Package::zero()],
            current: Seq::empty(),
            preview: Seq::empty(),
            selected_index: 0,
            filter: Seq::empty(),
            ascending: false,
            direct: true,
            order: OrderBy::Size,
        }
    }

    /// The session as it starts on `root`: direct dependencies, largest first.
    pub open spec fn start(store: Map<Seq<char>, Package>, root: Package) -> Session {
        let fresh = Session { store: store, breadcrumb: seq![root], ..Session::empty() };
        Session { current: fresh.dependencies_of(root), ..fresh }.select_first()
    }

    /// Entering the selected entry. Nothing happens where the preview is empty.
    pub open spec fn drill_in(self) -> Session {
        if self.preview.len() == 0 {
            self
        } else {
            Session { breadcrumb: self.breadcrumb.push(self.selected()), current: self.preview, ..self }.select_first()
        }
    }

    /// Going back to the package before. Nothing happens at the root.
    pub open spec fn drill_out(self) -> Session {
        if self.breadcrumb.len() <= 1 {
            self
        } else {
            let crumbs = self.breadcrumb.drop_last();
            Session { breadcrumb: crumbs, current: self.dependencies_of(crumbs.last()), ..self }.select_first()
        }
    }

    /// Selecting the row above. Nothing happens on the first row.
    pub open spec fn move_up(self) -> Session {
        if self.selected_index > 0 {
            Session { selected_index: (self.selected_index - 1) as nat, ..self }.refresh_preview()
        } else {
            self
        }
    }

    /// Selecting the row below. Nothing happens on the last row.
    pub open spec fn move_down(self) -> Session {
        if self.selected_index + 1 < self.visible().len() {
            Session { selected_index: self.selected_index + 1, ..self }.refresh_preview()
        } else {
            self
        }
    }

    /// Listing by another filter text, from the first row.
    pub open spec fn with_filter(self, text: Seq<char>) -> Session {
        Session { filter: text, ..self }.select_first()
    }

    /// Listing the direct dependencies, or all that can be reached, from the first row.
    pub open spec fn with_mode(self, direct: bool) -> Session {
        let switched = Session { direct: direct, ..self };
        Session { current: switched.dependencies_of(switched.breadcrumb.last()), ..switched }.select_first()
    }

    /// Both lists ordered anew, the selected row left where it is.
    pub open spec fn resorted(self, order: OrderBy, ascending: bool) -> Session {
        Session {
            current: sorted(self.current, order, ascending),
            preview: sorted(self.preview, order, ascending),
            order: order,
            ascending: ascending,
            ..self
        }
    }

    /// The row as far from the bottom as the selected row is from the top.
    pub open spec fn mirrored_index(self) -> nat {
        if self.visible().len() == 0 {
            0
        } else {
            (self.visible().len() - 1 - self.selected_index) as nat
        }
    }

    /// Ordering by another key. The selected row stays where it is.
    pub open spec fn with_order(self, order: OrderBy) -> Session {
        self.resorted(order, self.ascending)
    }

    /// Ordering in the given direction. Where that turns the direction
    /// round, the selection moves to the mirrored row.
    pub open spec fn with_direction(self, ascending: bool) -> Session {
        let again = self.resorted(self.order, ascending);
        if ascending != self.ascending {
            Session { selected_index: again.mirrored_index(), ..again }
        } else {
            again
        }
    }
}

/// Adding a record to an ordered list adds it to what the filter lists, or adds nothing.
proof fn lemma_insert_filtered_len(s: Seq<Package>, x: Package, order: OrderBy, asc: bool, text: Seq<char>)
    ensures
        filtered(insert_stable(s, x, order, asc), text).len() == filtered(s.push(x), text).len(),
    decreases s.len(),
{
    if s.len() == 0 || !precedes(x, s.last(), order, asc) {
    } else {
        let front = s.drop_last();
        lemma_insert_filtered_len(front, x, order, asc, text);
        lemma_filtered_push(insert_stable(front, x, order, asc), s.last(), text);
        lemma_filtered_push(front, x, text);
        lemma_filtered_push(front, s.last(), text);
        lemma_filtered_push(s, x, text);
        assert(front.push(s.last()) =~= s);
    }
}

/// The filter lists as many records after ordering as before.
pub proof fn lemma_sorted_filtered_len(s: Seq<Package>, order: OrderBy, asc: bool, text: Seq<char>)
    ensures
        filtered(sorted(s, order, asc), text).len() == filtered(s, text).len(),
    decreases s.len(),
{
    if s.len() > 0 {
        let front = s.drop_last();
        lemma_sorted_filtered_len(front, order, asc, text);
        lemma_insert_filtered_len(sorted(front, order, asc), s.last(), order, asc, text);
        lemma_filtered_push(sorted(front, order, asc), s.last(), text);
        lemma_filtered_push(front, s.last(), text);
        assert(front.push(s.last()) =~= s);
    }
}

/// The empty session keeps to the rules, and so does every session at its start.
pub proof fn law_start_well_formed(store: Map<Seq<char>, Package>, root: Package)
    ensures
        Session::empty().well_formed(),
        Session::start(store, root).well_formed(),
{
    reveal(Seq::filter);
    let fresh = Session { store: store, breadcrumb: seq![root], ..Session::empty() };
    let listed = Session { current: fresh.dependencies_of(root), ..fresh };
    lemma_resolved_in_order(store, root, true, OrderBy::Size, false);
    lemma_refresh_well_formed(Session { selected_index: 0, ..listed });
}

/// Making the preview anew gives a session that keeps to the rules.
proof fn lemma_refresh_well_formed(s: Session)
    requires
        s.breadcrumb.len() > 0,
        s.selected_index == 0 || s.selected_index < s.visible().len(),
        in_order(s.current, s.order, s.ascending),
    ensures
        s.refresh_preview().well_formed(),
{
    if s.visible().len() == 0 {
        lemma_zero_has_no_dependencies(s.store, s.direct, s.order, s.ascending);
    }
    lemma_resolved_in_order(s.store, s.selected(), s.direct, s.order, s.ascending);
}

/// What a session lists is in order: no listed entry has to stand before
/// one that is listed in front of it.
pub proof fn law_visible_in_order(s: Session)
    requires
        s.well_formed(),
    ensures
        in_order(s.visible(), s.order, s.ascending),
{
    assert forall|i: int, j: int| 0 <= i < j < s.visible().len() implies !precedes(
        s.visible()[j],
        s.visible()[i],
        s.order,
        s.ascending,
    ) by {
        let at = lemma_filtered_positions(s.current, s.filter, i, j);
    }
}

/// Every command takes a session that keeps to the rules to one that does.
pub proof fn law_commands_keep_well_formed(
    s: Session,
    text: Seq<char>,
    direct: bool,
    order: OrderBy,
    ascending: bool,
)
    requires
        s.well_formed(),
    ensures
        s.refresh_preview().well_formed(),
        s.drill_in().well_formed(),
        s.drill_out().well_formed(),
        s.move_up().well_formed(),
        s.move_down().well_formed(),
        s.with_filter(text).well_formed(),
        s.with_mode(direct).well_formed(),
        s.with_order(order).well_formed(),
        s.with_direction(ascending).well_formed(),
{
    lemma_refresh_well_formed(s);
    if s.preview.len() > 0 {
        lemma_refresh_well_formed(
            Session { breadcrumb: s.breadcrumb.push(s.selected()), current: s.preview, selected_index: 0, ..s },
        );
    }
    if s.breadcrumb.len() > 1 {
        let crumbs = s.breadcrumb.drop_last();
        lemma_resolved_in_order(s.store, crumbs.last(), s.direct, s.order, s.ascending);
        lemma_refresh_well_formed(
            Session { breadcrumb: crumbs, current: s.dependencies_of(crumbs.last()), selected_index: 0, ..s },
        );
    }
    if s.selected_index > 0 {
        lemma_refresh_well_formed(Session { selected_index: (s.selected_index - 1) as nat, ..s });
    }
    if s.selected_index + 1 < s.visible().len() {
        lemma_refresh_well_formed(Session { selected_index: s.selected_index + 1, ..s });
    }
    lemma_refresh_well_formed(Session { filter: text, selected_index: 0, ..s });
    let switched = Session { direct: direct, ..s };
    lemma_resolved_in_order(s.store, s.breadcrumb.last(), direct, s.order, s.ascending);
    lemma_refresh_well_formed(
        Session { current: switched.dependencies_of(switched.breadcrumb.last()), selected_index: 0, ..switched },
    );
    lemma_sorted_filtered_len(s.current, order, s.ascending, s.filter);
    lemma_sorted_len(s.preview, order, s.ascending);
    law_sorted_in_order(s.current, order, s.ascending);
    law_sorted_in_order(s.preview, order, s.ascending);
    lemma_sorted_filtered_len(s.current, s.order, ascending, s.filter);
    lemma_sorted_len(s.preview, s.order, ascending);
    law_sorted_in_order(s.current, s.order, ascending);
    law_sorted_in_order(s.preview, s.order, ascending);
}

/// Ordering by another key leaves the selected row where it is.
pub proof fn law_order_keeps_selection(s: Session, order: OrderBy)
    ensures
        s.with_order(order).selected_index == s.selected_index,
        s.with_order(order).ascending == s.ascending,
        s.with_order(order).visible().len() == s.visible().len(),
{
    lemma_sorted_filtered_len(s.current, order, s.ascending, s.filter);
}

/// Turning the direction round moves the selection from the row that is
/// `n` from the top to the row that is `n` from the bottom; turning it
/// round again moves it back.
pub proof fn law_direction_mirrors_selection(s: Session)
    requires
        s.well_formed(),
        s.visible().len() > 0,
    ensures
        s.with_direction(!s.ascending).selected_index == s.visible().len() - 1 - s.selected_index,
        s.with_direction(!s.ascending).with_direction(s.ascending).selected_index == s.selected_index,
        s.with_direction(s.ascending).selected_index == s.selected_index,
{
    lemma_sorted_filtered_len(s.current, s.order, !s.ascending, s.filter);
    let turned = s.with_direction(!s.ascending);
    lemma_sorted_filtered_len(turned.current, turned.order, s.ascending, turned.filter);
    lemma_sorted_filtered_len(s.current, s.order, s.ascending, s.filter);
}

/// Ordering by the key and in the direction that the lists are in changes nothing.
pub proof fn law_same_order_changes_nothing(s: Session)
    requires
        s.well_formed(),
    ensures
        s.with_order(s.order) == s,
        s.with_direction(s.ascending) == s,
{
    law_sorted_of_ordered(s.current, s.order, s.ascending);
    law_sorted_of_ordered(s.preview, s.order, s.ascending);
}

/// Setting the filter text a second time gives the session that setting it once gave.
pub proof fn law_filter_twice(s: Session, text: Seq<char>)
    ensures
        s.with_filter(text).with_filter(text) == s.with_filter(text),
        s.with_filter(text).visible() == filtered(s.current, text),
{
}

/// The state of a browsing session: the graph, the way into it, and what is
/// listed and selected.
pub struct DataState {
    selected_index: usize,
    deps_map: MetadataStore,
    level1_deps: Vec<Metadata>,
    level2_deps: Vec<Metadata>,
    selected_package: Vec<Metadata>,
    filter_input: String,
    sorting_asc: bool,
    is_direct: bool,
    order: OrderBy,
}

/// A session taken apart, to be changed and put together again.
struct Parts {
    selected_index: usize,
    deps_map: MetadataStore,
    level1_deps: Vec<Metadata>,
    level2_deps: Vec<Metadata>,
    selected_package: Vec<Metadata>,
    filter_input: String,
    sorting_asc: bool,
    is_direct: bool,
    order: OrderBy,
}

impl View for Parts {
    type V = Session;

    closed spec fn view(&self) -> Session {
        Session {
            store: self.deps_map@,
            breadcrumb: self.selected_package.deep_view(),
            current: self.level1_deps.deep_view(),
            preview: self.level2_deps.deep_view(),
            selected_index: self.selected_index as nat,
            filter: self.filter_input@,
            ascending: self.sorting_asc,
            direct: self.is_direct,
            order: self.order,
        }
    }
}

impl View for DataState {
    type V = Session;

    closed spec fn view(&self) -> Session {
        Session {
            store: self.deps_map@,
            breadcrumb: self.selected_package.deep_view(),
            current: self.level1_deps.deep_view(),
            preview: self.level2_deps.deep_view(),
            selected_index: self.selected_index as nat,
            filter: self.filter_input@,
            ascending: self.sorting_asc,
            direct: self.is_direct,
            order: self.order,
        }
    }
}

impl DataState {
    #[verifier::type_invariant]
    spec fn inv(self) -> bool {
        self@.well_formed()
    }

    /// A session on an empty graph, inside the zero record.
    pub fn default() -> (state: DataState)
        ensures
            state@ == Session::empty(),
    {
        let mut crumbs: Vec<Metadata> = Vec::new();
        crumbs.push(Metadata::default());
        let state = DataState {
            selected_index: 0,
            deps_map: MetadataStore::new(),
            level1_deps: Vec::new(),
            level2_deps: Vec::new(),
            selected_package: crumbs,
            filter_input: String::new(),
            sorting_asc: false,
            is_direct: true,
            order: OrderBy::Size,
        };
        proof {
            reveal(Seq::filter);
            assert(state.selected_package.deep_view() =~= seq![Package::zero()]);
            assert(state.level1_deps.deep_view() =~= Seq::<Package>::empty());
            assert(state.level2_deps.deep_view() =~= Seq::<Package>::empty());
        }
        state
    }

    /// A session on the graph of `store` that starts inside `root`, listing
    /// its direct dependencies by size, largest first.
    pub fn new(store: MetadataStore, root: Metadata) -> (state: DataState)
        ensures
            state@ == Session::start(store@, root@),
    {
        let listed = resolve(&store, &root, true, OrderBy::Size, false);
        let mut crumbs: Vec<Metadata> = Vec::new();
        crumbs.push(root);
        proof {
            assert(crumbs.deep_view() =~= seq![root@]);
            lemma_resolved_in_order(store@, root@, true, OrderBy::Size, false);
        }
        DataState::with_preview(
            Parts {
                selected_index: 0,
                deps_map: store,
                level1_deps: listed,
                level2_deps: Vec::new(),
                selected_package: crumbs,
                filter_input: String::new(),
                sorting_asc: false,
                is_direct: true,
                order: OrderBy::Size,
            },
        )
    }

    /// Takes the session apart, leaving an empty one in its place.
    fn take(&mut self) -> (parts: Parts)
        ensures
            parts@ == old(self)@,
    {
        let mut taken = DataState::default();
        std::mem::swap(self, &mut taken);
        let DataState {
            selected_index,
            deps_map,
            level1_deps,
            level2_deps,
            selected_package,
            filter_input,
            sorting_asc,
            is_direct,
            order,
        } = taken;
        Parts {
            selected_index,
            deps_map,
            level1_deps,
            level2_deps,
            selected_package,
            filter_input,
            sorting_asc,
            is_direct,
            order,
        }
    }

    /// Puts a session together.
    fn assemble(parts: Parts) -> (state: DataState)
        requires
            parts@.well_formed(),
        ensures
            state@ == parts@,
    {
        DataState {
            selected_index: parts.selected_index,
            deps_map: parts.deps_map,
            level1_deps: parts.level1_deps,
            level2_deps: parts.level2_deps,
            selected_package: parts.selected_package,
            filter_input: parts.filter_input,
            sorting_asc: parts.sorting_asc,
            is_direct: parts.is_direct,
            order: parts.order,
        }
    }

    /// Puts a session together, with the preview made for the selected row.
    fn with_preview(parts: Parts) -> (state: DataState)
        requires
            parts@.breadcrumb.len() > 0,
            parts@.selected_index == 0 || parts@.selected_index < parts@.visible().len(),
            in_order(parts@.current, parts@.order, parts@.ascending),
        ensures
            state@ == parts@.refresh_preview(),
    {
        let mut parts = parts;
        let chosen = match nth_filtered(&parts.level1_deps, parts.filter_input.as_str(), parts.selected_index) {
            Some(entry) => entry,
            None => Metadata::default(),
        };
        proof {
            lemma_refresh_well_formed(parts@);
        }
        parts.level2_deps = resolve(&parts.deps_map, &chosen, parts.is_direct, parts.order, parts.sorting_asc);
        DataState::assemble(parts)
    }

    /// Copies of the entries of the current list that pass the filter.
    pub fn get_filter_deps(&self) -> (deps: Vec<Metadata>)
        ensures
            deps.deep_view() == self@.visible(),
    {
        filter_deps(&self.level1_deps, self.filter_input.as_str())
    }

    /// The number of entries of the current list that pass the filter.
    pub fn visible_len(&self) -> (n: usize)
        ensures
            n == self@.visible().len(),
    {
        count_filtered(&self.level1_deps, self.filter_input.as_str())
    }

    /// A copy of the selected entry, or the zero record where nothing is listed.
    pub fn get_selected_dep(&self) -> (entry: Metadata)
        ensures
            entry@ == self@.selected(),
    {
        match nth_filtered(&self.level1_deps, self.filter_input.as_str(), self.selected_index) {
            Some(entry) => entry,
            None => Metadata::default(),
        }
    }

    /// The dependencies of `parent` as this session lists them.
    pub fn get_deps(&self, parent: Metadata) -> (deps: Vec<Metadata>)
        ensures
            deps.deep_view() == self@.dependencies_of(parent@),
    {
        resolve(&self.deps_map, &parent, self.is_direct, self.order, self.sorting_asc)
    }

    /// A copy of the record kept under `id`, or the zero record where none is kept.
    pub fn get_metadata(&self, id: String) -> (record: Metadata)
        ensures
            record@ == lookup(self@.store, id@),
    {
        self.deps_map.get_metadata(id.as_str())
    }

    /// The selected row of the filtered list. It is a listed row, or row
    /// zero where nothing is listed.
    pub fn selected_index(&self) -> (index: usize)
        ensures
            index == self@.selected_index,
            self@.well_formed(),
    {
        proof {
            use_type_invariant(self);
        }
        self.selected_index
    }

    /// The records of the graph.
    pub fn deps_map(&self) -> (store: &MetadataStore)
        ensures
            store@ == self@.store,
    {
        &self.deps_map
    }

    /// The packages entered so far, the root first.
    pub fn selected_package(&self) -> (crumbs: &Vec<Metadata>)
        ensures
            crumbs.deep_view() == self@.breadcrumb,
            crumbs.len() > 0,
    {
        proof {
            use_type_invariant(self);
        }
        &self.selected_package
    }

    /// The dependencies of the current package, ordered, before the filter.
    pub fn level1_deps(&self) -> (deps: &Vec<Metadata>)
        ensures
            deps.deep_view() == self@.current,
    {
        &self.level1_deps
    }

    /// The dependencies that are previewed.
    pub fn level2_deps(&self) -> (deps: &Vec<Metadata>)
        ensures
            deps.deep_view() == self@.preview,
    {
        &self.level2_deps
    }

    /// The filter text.
    pub fn filter_input(&self) -> (text: &str)
        ensures
            text@ == self@.filter,
    {
        self.filter_input.as_str()
    }

    /// Whether the lists are in ascending order.
    pub fn sorting_asc(&self) -> (ascending: bool)
        ensures
            ascending == self@.ascending,
    {
        self.sorting_asc
    }

    /// Whether direct dependencies only are listed.
    pub fn is_direct(&self) -> (direct: bool)
        ensures
            direct == self@.direct,
    {
        self.is_direct
    }

    /// The key by which the lists are ordered.
    pub fn order(&self) -> (order: OrderBy)
        ensures
            order == self@.order,
    {
        self.order
    }

    /// Count and total size of the entries that pass the filter.
    pub fn stats(&self) -> (summary: Summary)
        ensures
            summary.count == self@.visible().len(),
            summary.total_size == if total_size(self@.visible()) <= u64::MAX {
                total_size(self@.visible())
            } else {
                u64::MAX as nat
            },
    {
        summarize(&self.level1_deps, self.filter_input.as_str())
    }

    /// The names of the packages entered so far, with a slash between each two.
    pub fn path(&self) -> (path: String)
        ensures
            path@ == joined(names_of(self@.breadcrumb), '/'),
    {
        joined_path(&self.selected_package)
    }

    /// The documentation link of the selected entry, if it has one.
    pub fn documentation(&self) -> (link: Option<String>)
        ensures
            match link {
                Some(url) => url@ == self@.selected().documentation && url@.len() > 0,
                None => self@.selected().documentation.len() == 0,
            },
    {
        let entry = self.get_selected_dep();
        if entry.documentation.as_str().is_empty() {
            None
        } else {
            Some(entry.documentation)
        }
    }

    /// Makes the preview anew for the selected entry.
    pub fn get_level2_dep(&mut self)
        ensures
            final(self)@ == old(self)@.refresh_preview(),
    {
        proof {
            use_type_invariant(&*self);
        }
        let parts = self.take();
        *self = DataState::with_preview(parts);
    }

    /// Enters the selected entry: it becomes the current package, what was
    /// previewed becomes the current list, and the first row is selected.
    /// Nothing happens where the preview is empty.
    pub fn drill_in(&mut self)
        ensures
            final(self)@ == old(self)@.drill_in(),
    {
        proof {
            use_type_invariant(&*self);
        }
        if self.level2_deps.len() > 0 {
            let entered = self.get_selected_dep();
            let mut parts = self.take();
            parts.selected_package.push(entered);
            parts.level1_deps = parts.level2_deps;
            parts.level2_deps = Vec::new();
            parts.selected_index = 0;
            proof {
                assert(parts.selected_package.deep_view() =~= old(self)@.breadcrumb.push(entered@));
                assert(parts.level2_deps.deep_view() =~= Seq::<Package>::empty());
            }
            *self = DataState::with_preview(parts);
        }
    }

    /// Goes back to the package before: its dependencies are listed and the
    /// first row is selected. Nothing happens at the root.
    pub fn drill_out(&mut self)
        ensures
            final(self)@ == old(self)@.drill_out(),
    {
        proof {
            use_type_invariant(&*self);
        }
        if self.selected_package.len() > 1 {
            let mut parts = self.take();
            parts.selected_package.pop();
            assert(parts.selected_package.deep_view() =~= old(self)@.breadcrumb.drop_last());
            parts.level1_deps = resolve(
                &parts.deps_map,
                &parts.selected_package[parts.selected_package.len() - 1],
                parts.is_direct,
                parts.order,
                parts.sorting_asc,
            );
            parts.selected_index = 0;
            proof {
                lemma_resolved_in_order(
                    old(self)@.store,
                    old(self)@.breadcrumb.drop_last().last(),
                    old(self)@.direct,
                    old(self)@.order,
                    old(self)@.ascending,
                );
            }
            *self = DataState::with_preview(parts);
        }
    }

    /// Selects the row above and previews it. Nothing happens on the first row.
    pub fn move_up(&mut self)
        ensures
            final(self)@ == old(self)@.move_up(),
    {
        proof {
            use_type_invariant(&*self);
        }
        if self.selected_index > 0 {
            let mut parts = self.take();
            parts.selected_index = parts.selected_index - 1;
            *self = DataState::with_preview(parts);
        }
    }

    /// Selects the row below and previews it. Nothing happens on the last row.
    pub fn move_down(&mut self)
        ensures
            final(self)@ == old(self)@.move_down(),
    {
        proof {
            use_type_invariant(&*self);
        }
        let listed = self.visible_len();
        if listed > 0 && self.selected_index < listed - 1 {
            let mut parts = self.take();
            parts.selected_index = parts.selected_index + 1;
            *self = DataState::with_preview(parts);
        }
    }

    /// Lists by another filter text: the first row is selected and previewed.
    pub fn set_filter(&mut self, text: String)
        ensures
            final(self)@ == old(self)@.with_filter(text@),
    {
        proof {
            use_type_invariant(&*self);
        }
        let mut parts = self.take();
        parts.filter_input = text;
        parts.selected_index = 0;
        *self = DataState::with_preview(parts);
    }

    /// Lists the direct dependencies of the current package if `direct`,
    /// else all that can be reached from it; the first row is selected and
    /// previewed.
    pub fn set_direct(&mut self, direct: bool)
        ensures
            final(self)@ == old(self)@.with_mode(direct),
    {
        proof {
            use_type_invariant(&*self);
        }
        let mut parts = self.take();
        parts.is_direct = direct;
        parts.level1_deps = resolve(
            &parts.deps_map,
            &parts.selected_package[parts.selected_package.len() - 1],
            direct,
            parts.order,
            parts.sorting_asc,
        );
        parts.selected_index = 0;
        proof {
            lemma_resolved_in_order(
                old(self)@.store,
                old(self)@.breadcrumb.last(),
                direct,
                old(self)@.order,
                old(self)@.ascending,
            );
        }
        *self = DataState::with_preview(parts);
    }

    /// Changes between direct dependencies and all that can be reached.
    pub fn switch_mode(&mut self)
        ensures
            final(self)@ == old(self)@.with_mode(!old(self)@.direct),
    {
        let direct = !self.is_direct;
        self.set_direct(direct);
    }

    /// Orders both lists by `order`, in the direction they are in. The
    /// selected row stays where it is.
    pub fn order_by(&mut self, order: OrderBy)
        ensures
            final(self)@ == old(self)@.with_order(order),
    {
        proof {
            use_type_invariant(&*self);
            law_commands_keep_well_formed(self@, self@.filter, self@.direct, order, self@.ascending);
        }
        let mut parts = self.take();
        parts.order = order;
        sorting_impl(&mut parts.level1_deps, order, parts.sorting_asc);
        sorting_impl(&mut parts.level2_deps, order, parts.sorting_asc);
        *self = DataState::assemble(parts);
    }

    /// Orders both lists ascending if `sorting_asc`, else descending. Where
    /// that turns the direction round, the selection moves to the row as far
    /// from the bottom as it was from the top.
    pub fn sorting(&mut self, sorting_asc: bool)
        ensures
            final(self)@ == old(self)@.with_direction(sorting_asc),
    {
        proof {
            use_type_invariant(&*self);
            law_commands_keep_well_formed(self@, self@.filter, self@.direct, self@.order, sorting_asc);
            lemma_sorted_filtered_len(self@.current, self@.order, sorting_asc, self@.filter);
        }
        let mut parts = self.take();
        let turned = sorting_asc != parts.sorting_asc;
        parts.sorting_asc = sorting_asc;
        sorting_impl(&mut parts.level1_deps, parts.order, sorting_asc);
        sorting_impl(&mut parts.level2_deps, parts.order, sorting_asc);
        if turned {
            let listed = count_filtered(&parts.level1_deps, parts.filter_input.as_str());
            parts.selected_index = if listed == 0 {
                0
            } else {
                listed - 1 - parts.selected_index
            };
        }
        *self = DataState::assemble(parts);
    }
}

} // verus!
