//! The dependencies of a package: the direct ones, or all that can be reached.

use vstd::prelude::*;
use vstd::hash_set::StringHashSet;
use vstd::set_lib::lemma_len_subset;
use crate::data::metadata::{Metadata, Package};
use crate::data::sort::{
    in_order,
    law_sorted_in_order,
    law_sorted_same_records,
    lemma_sorted_len,
    sorted,
    sorting_impl,
};
use crate::data::store::{lookup, MetadataStore};
use crate::ui::screen::OrderBy;

verus! {

/// Depth-first discovery. `found` holds what was discovered so far, in the
/// order of discovery. The identifiers of `pending` are visited from left to
/// right: one that is `root` or already in `found` is passed over, any other
/// is added to `found` and the dependencies of its record are visited before
/// the rest of `pending`. At most `depth` levels are entered below `pending`.
pub open spec fn discover(
    store: Map<Seq<char>, Package>,
    root: Seq<char>,
    pending: Seq<Seq<char>>,
    found: Seq<Seq<char>>,
    depth: nat,
) -> Seq<Seq<char>>
    decreases depth, pending.len(),
{
    if pending.len() == 0 {
        found
    } else {
        let id = pending[0];
        let rest = pending.drop_first();
        if id == root || found.contains(id) {
            discover(store, root, rest, found, depth)
        } else if depth == 0 {
            discover(store, root, rest, found.push(id), depth)
        } else {
            let below = discover(store, root, lookup(store, id).dependencies, found.push(id), (depth - 1) as nat);
            discover(store, root, rest, below, depth)
        }
    }
}

/// The identifiers that can be reached from `parent`, in the order in which a
/// depth-first walk over its dependencies first meets them. The walk never
/// enters `parent`'s own identifier. No walk is deeper than the number of
/// records, so the depth given here is never used up: any larger depth
/// gives the same.
pub open spec fn closure_order(store: Map<Seq<char>, Package>, parent: Package) -> Seq<Seq<char>> {
    discover(store, parent.id, parent.dependencies, Seq::empty(), store.dom().len())
}

/// The identifiers that are listed for `parent`: its direct dependencies as
/// its record gives them, or the closure of them.
pub open spec fn dependency_ids(store: Map<Seq<char>, Package>, parent: Package, direct: bool) -> Seq<Seq<char>> {
    if direct {
        parent.dependencies
    } else {
        closure_order(store, parent)
    }
}

/// The records that `store` gives for `ids`, one for each, in their order.
pub open spec fn records_of(store: Map<Seq<char>, Package>, ids: Seq<Seq<char>>) -> Seq<Package> {
    ids.map_values(|id: Seq<char>| lookup(store, id))
}

/// The dependencies of `parent` as records, in order.
pub open spec fn resolved(
    store: Map<Seq<char>, Package>,
    parent: Package,
    direct: bool,
    order: OrderBy,
    asc: bool,
) -> Seq<Package> {
    sorted(records_of(store, dependency_ids(store, parent, direct)), order, asc)
}

/// The list has one record for each identifier, and what it holds of a
/// record is what `store` gives for the identifiers.
pub proof fn law_resolved_records(
    store: Map<Seq<char>, Package>,
    parent: Package,
    direct: bool,
    order: OrderBy,
    asc: bool,
)
    ensures
        resolved(store, parent, direct, order, asc).len() == dependency_ids(store, parent, direct).len(),
        resolved(store, parent, direct, order, asc).to_multiset() == records_of(
            store,
            dependency_ids(store, parent, direct),
        ).to_multiset(),
{
    let records = records_of(store, dependency_ids(store, parent, direct));
    lemma_sorted_len(records, order, asc);
    law_sorted_same_records(records, order, asc);
}

/// The list of a package of which nothing is known is empty.
pub proof fn lemma_zero_has_no_dependencies(store: Map<Seq<char>, Package>, direct: bool, order: OrderBy, asc: bool)
    ensures
        resolved(store, Package::zero(), direct, order, asc) == Seq::<Package>::empty(),
{
    let ids = dependency_ids(store, Package::zero(), direct);
    assert(ids =~= Seq::<Seq<char>>::empty());
    assert(records_of(store, ids) =~= Seq::<Package>::empty());
}

/// The dependencies of a package are listed in order.
pub proof fn lemma_resolved_in_order(
    store: Map<Seq<char>, Package>,
    parent: Package,
    direct: bool,
    order: OrderBy,
    asc: bool,
)
    ensures
        in_order(resolved(store, parent, direct, order, asc), order, asc),
{
    law_sorted_in_order(records_of(store, dependency_ids(store, parent, direct)), order, asc);
}

/// A direct dependency without a record is listed all the same, as the zero record.
pub proof fn law_unknown_is_listed(
    store: Map<Seq<char>, Package>,
    parent: Package,
    id: Seq<char>,
    order: OrderBy,
    asc: bool,
)
    requires
        parent.dependencies.contains(id),
        !store.contains_key(id),
    ensures
        resolved(store, parent, true, order, asc).contains(Package::zero()),
        resolved(store, parent, true, order, asc).len() == parent.dependencies.len(),
{
    broadcast use vstd::seq_lib::group_to_multiset_ensures;

    let records = records_of(store, parent.dependencies);
    law_resolved_records(store, parent, true, order, asc);
    let i = choose|i: int| 0 <= i < parent.dependencies.len() && parent.dependencies[i] == id;
    assert(records[i] == Package::zero());
    assert(records.contains(Package::zero()));
    assert(records.to_multiset().count(Package::zero()) > 0);
}

/// What a sequence holds after a push: what it held before, and the new item.
pub proof fn lemma_push_contains(s: Seq<Seq<char>>, x: Seq<char>)
    ensures
        forall|y: Seq<char>| s.push(x).contains(y) <==> s.contains(y) || y == x,
{
    assert forall|y: Seq<char>| s.push(x).contains(y) <==> s.contains(y) || y == x by {
        if s.contains(y) {
            let i = choose|i: int| 0 <= i < s.len() && s[i] == y;
            assert(s.push(x)[i] == y);
        }
        if y == x {
            assert(s.push(x)[s.len() as int] == y);
        }
    }
}

/// A list of dependencies whose visit was interrupted to visit the
/// dependencies of one of its items.
struct Frame {
    pending: Vec<String>,
    next: usize,
}

/// What `discover` yields once the interrupted visits of `stack` are resumed,
/// innermost first, after the innermost of them has left `found`.
spec fn resume(
    store: Map<Seq<char>, Package>,
    root: Seq<char>,
    stack: Seq<Frame>,
    found: Seq<Seq<char>>,
    depth: nat,
) -> Seq<Seq<char>>
    decreases stack.len(),
{
    if stack.len() == 0 {
        found
    } else {
        let frame = stack.last();
        let after = discover(store, root, frame.pending.deep_view().skip(frame.next as int), found, depth);
        resume(store, root, stack.drop_last(), after, depth + 1)
    }
}

/// The identifiers of all packages that can be reached from `parent` along
/// dependencies, each once, in the order of first discovery.
pub fn get_deps_ids(store: &MetadataStore, parent: &Metadata) -> (ids: Vec<String>)
    ensures
        ids.deep_view() == closure_order(store@, parent@),
{
    let known = store.len();
    let mut found: Vec<String> = Vec::new();
    let mut seen = StringHashSet::with_capacity(known);
    let mut stack: Vec<Frame> = Vec::new();
    let mut pending: Vec<String> = parent.dependencies.clone();
    let mut next: usize = 0;
    let ghost mut entered: Set<Seq<char>> = Set::empty();
    proof {
        assert(found.deep_view() =~= Seq::<Seq<char>>::empty());
        assert(pending.deep_view() =~= parent@.dependencies);
        assert(pending.deep_view().skip(0) =~= pending.deep_view());
    }
    loop
        invariant
            store@.dom().finite(),
            next <= pending.len(),
            forall|id: Seq<char>| seen@.contains(id) <==> found.deep_view().contains(id),
            entered.finite(),
            entered.subset_of(store@.dom()),
            forall|id: Seq<char>| entered.contains(id) ==> found.deep_view().contains(id),
            stack.len() <= entered.len() <= store@.len(),
            forall|k: int| 0 <= k < stack.len() ==> stack@[k].next <= stack@[k].pending.len(),
            resume(
                store@,
                parent@.id,
                stack@,
                discover(
                    store@,
                    parent@.id,
                    pending.deep_view().skip(next as int),
                    found.deep_view(),
                    (store@.len() - stack.len()) as nat,
                ),
                (store@.len() - stack.len() + 1) as nat,
            ) == closure_order(store@, parent@),
        decreases store@.len() - entered.len(), stack.len(), pending.len() - next,
    {
        let ghost depth = (store@.len() - stack.len()) as nat;
        let ghost todo = pending.deep_view().skip(next as int);
        let ghost found_before = found.deep_view();
        if next < pending.len() {
            let id = pending[next].clone();
            assert(todo[0] == id@);
            assert(todo.drop_first() =~= pending.deep_view().skip(next + 1));
            next += 1;
            proof {
                if id@ == parent@.id || found_before.contains(id@) {
                    assert(discover(store@, parent@.id, todo, found_before, depth) == discover(
                        store@,
                        parent@.id,
                        todo.drop_first(),
                        found_before,
                        depth,
                    ));
                }
            }
            if !(id == parent.id) && !seen.contains(id.as_str()) {
                let record = store.get_metadata(id.as_str());
                seen.insert(id.clone());
                found.push(id);
                proof {
                    assert(found.deep_view() =~= found_before.push(id@));
                    lemma_push_contains(found_before, id@);
                }
                if record.dependencies.len() > 0 {
                    proof {
                        assert(store@.contains_key(id@)) by {
                            if !store@.contains_key(id@) {
                                assert(record@.dependencies =~= Seq::<Seq<char>>::empty());
                                assert(record.dependencies.deep_view().len() == 0);
                            }
                        }
                        assert(!entered.contains(id@));
                        lemma_len_subset(entered.insert(id@), store@.dom());
                        entered = entered.insert(id@);
                        assert(depth >= 1);
                    }
                    let ghost rest = pending.deep_view().skip(next as int);
                    let ghost stack_before = stack@;
                    let frame = Frame { pending: pending, next: next };
                    stack.push(frame);
                    pending = record.dependencies;
                    next = 0;
                    proof {
                        assert(pending.deep_view().skip(0) =~= lookup(store@, id@).dependencies);
                        assert(stack@.drop_last() =~= stack_before);
                        assert(stack@.last().pending.deep_view().skip(stack@.last().next as int) == rest);
                        let below = discover(
                            store@,
                            parent@.id,
                            lookup(store@, id@).dependencies,
                            found.deep_view(),
                            (depth - 1) as nat,
                        );
                        let after = discover(store@, parent@.id, rest, below, depth);
                        assert(discover(store@, parent@.id, todo, found_before, depth) == after);
                        assert(resume(store@, parent@.id, stack@, below, depth) == resume(
                            store@,
                            parent@.id,
                            stack_before,
                            after,
                            depth + 1,
                        ));
                    }
                } else {
                    proof {
                        assert(lookup(store@, id@).dependencies =~= Seq::<Seq<char>>::empty());
                        if depth > 0 {
                            assert(discover(
                                store@,
                                parent@.id,
                                Seq::<Seq<char>>::empty(),
                                found.deep_view(),
                                (depth - 1) as nat,
                            ) == found.deep_view());
                        }
                        assert(discover(store@, parent@.id, todo, found_before, depth) == discover(
                            store@,
                            parent@.id,
                            todo.drop_first(),
                            found.deep_view(),
                            depth,
                        ));
                    }
                }
            }
        } else {
            proof {
                assert(todo.len() == 0);
            }
            let ghost old_stack = stack@;
            match stack.pop() {
                None => {
                    return found;
                },
                Some(frame) => {
                    pending = frame.pending;
                    next = frame.next;
                    proof {
                        assert(discover(store@, parent@.id, todo, found_before, depth) == found_before);
                        let resumed = discover(
                            store@,
                            parent@.id,
                            pending.deep_view().skip(next as int),
                            found_before,
                            depth + 1,
                        );
                        assert(resume(store@, parent@.id, old_stack, found_before, depth + 1) == resume(
                            store@,
                            parent@.id,
                            stack@,
                            resumed,
                            depth + 2,
                        ));
                    }
                },
            }
        }
    }
}

/// The records of the dependencies of `parent`, ordered by `order`: of the
/// direct ones if `direct`, else of all that can be reached. An identifier
/// without a record gives the zero record.
pub fn resolve(store: &MetadataStore, parent: &Metadata, direct: bool, order: OrderBy, asc: bool) -> (deps: Vec<
    Metadata,
>)
    ensures
        deps.deep_view() == resolved(store@, parent@, direct, order, asc),
{
    let ids = if direct {
        parent.dependencies.clone()
    } else {
        get_deps_ids(store, parent)
    };
    assert(ids.deep_view() =~= dependency_ids(store@, parent@, direct));
    let mut deps: Vec<Metadata> = Vec::new();
    let mut i: usize = 0;
    while i < ids.len()
        invariant
            i <= ids.len(),
            deps.len() == i,
            forall|k: int| 0 <= k < i ==> deps@[k]@ == lookup(store@, ids@[k]@),
        decreases ids.len() - i,
    {
        deps.push(store.get_metadata(ids[i].as_str()));
        i += 1;
    }
    assert(deps.deep_view() =~= records_of(store@, ids.deep_view()));
    sorting_impl(&mut deps, order, asc);
    deps
}

} // verus!
