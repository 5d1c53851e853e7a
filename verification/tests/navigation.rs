use depnav::data::metadata::Metadata;
use depnav::data::state::DataState;
use depnav::data::store::MetadataStore;
use depnav::ui::screen::OrderBy;

fn package(id: &str, name: &str, version: &str, size: u64, dependencies: &[&str]) -> Metadata {
    Metadata {
        id: id.to_string(),
        name: name.to_string(),
        version: version.to_string(),
        license: "MIT".to_string(),
        size,
        documentation: String::new(),
        description: String::new(),
        dependencies: dependencies.iter().map(|d| d.to_string()).collect(),
    }
}

fn plain(id: &str, dependencies: &[&str]) -> Metadata {
    package(id, id, "1.0.0", 0, dependencies)
}

fn session(root: &str, packages: Vec<Metadata>) -> DataState {
    let mut store = MetadataStore::new();
    for p in packages {
        store.insert(p);
    }
    let root = store.get_metadata(root);
    DataState::new(store, root)
}

fn names(records: &[Metadata]) -> Vec<String> {
    records.iter().map(|r| r.name.clone()).collect()
}

fn small_tree() -> DataState {
    session("R", vec![plain("R", &["A", "B"]), plain("A", &["C"]), plain("B", &[]), plain("C", &[])])
}

fn five_by_size() -> DataState {
    session(
        "R",
        vec![
            plain("R", &["a", "b", "c", "d", "e"]),
            package("a", "apple", "0.5.0", 50, &["x"]),
            package("b", "banana", "0.4.0", 40, &[]),
            package("c", "cherry", "0.3.0", 30, &["y", "z"]),
            package("d", "date", "0.2.0", 20, &[]),
            package("e", "elder", "0.1.0", 10, &[]),
            plain("x", &[]),
            plain("y", &[]),
            plain("z", &[]),
        ],
    )
}

#[test]
fn default_session_is_empty() {
    let state = DataState::default();
    assert_eq!(state.selected_index(), 0);
    assert!(state.level1_deps().is_empty());
    assert!(state.level2_deps().is_empty());
    assert_eq!(state.selected_package().len(), 1);
    assert_eq!(state.selected_package()[0].name, "");
    assert_eq!(state.filter_input(), "");
    assert!(state.is_direct());
    assert!(!state.sorting_asc());
    assert_eq!(state.order(), OrderBy::Size);
    assert_eq!(state.get_selected_dep().name, "");
    assert_eq!(state.path(), "");
}

#[test]
fn commands_on_empty_session_do_nothing() {
    let mut state = DataState::default();
    state.drill_in();
    state.drill_out();
    state.move_up();
    state.move_down();
    state.sorting(true);
    state.sorting(false);
    state.order_by(OrderBy::Name);
    state.switch_mode();
    state.set_filter("x".to_string());
    assert_eq!(state.selected_index(), 0);
    assert!(state.get_filter_deps().is_empty());
    assert!(state.level2_deps().is_empty());
    assert_eq!(state.selected_package().len(), 1);
    assert!(state.documentation().is_none());
}

#[test]
fn end_to_end_drill_in_and_out() {
    let mut state = small_tree();
    assert_eq!(names(state.selected_package()), vec!["R"]);
    assert_eq!(names(state.level1_deps()), vec!["A", "B"]);
    assert_eq!(names(state.level2_deps()), vec!["C"]);
    assert_eq!(state.selected_index(), 0);

    state.drill_in();
    assert_eq!(names(state.level1_deps()), vec!["C"]);
    assert_eq!(names(state.selected_package()), vec!["R", "A"]);
    assert_eq!(state.selected_index(), 0);
    assert!(state.level2_deps().is_empty());
    assert_eq!(state.path(), "R/A");

    state.drill_in();
    assert_eq!(names(state.selected_package()), vec!["R", "A"]);

    state.drill_out();
    assert_eq!(names(state.selected_package()), vec!["R"]);
    assert_eq!(names(state.level1_deps()), vec!["A", "B"]);
    assert_eq!(state.selected_index(), 0);
    assert_eq!(names(state.level2_deps()), vec!["C"]);

    state.drill_out();
    assert_eq!(names(state.selected_package()), vec!["R"]);
}

#[test]
fn drill_out_resets_selection() {
    let mut state = small_tree();
    state.drill_in();
    state.drill_out();
    state.move_down();
    assert_eq!(state.selected_index(), 1);
    state.drill_in();
    assert_eq!(names(state.selected_package()), vec!["R"]);
    assert_eq!(state.selected_index(), 1);
}

#[test]
fn transitive_mode_lists_the_closure() {
    let mut state = small_tree();
    state.switch_mode();
    assert!(!state.is_direct());
    let mut all = names(state.level1_deps());
    all.sort();
    assert_eq!(all, vec!["A", "B", "C"]);
    assert_eq!(state.selected_index(), 0);
    state.switch_mode();
    assert!(state.is_direct());
    assert_eq!(names(state.level1_deps()), vec!["A", "B"]);
    state.set_direct(true);
    assert_eq!(names(state.level1_deps()), vec!["A", "B"]);
    state.set_direct(false);
    assert_eq!(state.level1_deps().len(), 3);
}

#[test]
fn selection_is_clamped() {
    let mut state = five_by_size();
    assert_eq!(names(state.level1_deps()), vec!["apple", "banana", "cherry", "date", "elder"]);
    state.move_up();
    assert_eq!(state.selected_index(), 0);
    for _ in 0..10 {
        state.move_down();
    }
    assert_eq!(state.selected_index(), 4);
    assert_eq!(state.get_selected_dep().name, "elder");
    state.move_up();
    assert_eq!(state.selected_index(), 3);
}

#[test]
fn moving_previews_the_selected_entry() {
    let mut state = five_by_size();
    assert_eq!(names(state.level2_deps()), vec!["x"]);
    state.move_down();
    assert!(state.level2_deps().is_empty());
    state.move_down();
    assert_eq!(names(state.level2_deps()), vec!["y", "z"]);
    state.move_up();
    assert!(state.level2_deps().is_empty());
}

#[test]
fn direction_toggle_mirrors_the_selection() {
    let mut state = five_by_size();
    state.move_down();
    assert_eq!(state.selected_index(), 1);
    assert_eq!(state.get_filter_deps().len(), 5);
    state.sorting(true);
    assert_eq!(state.selected_index(), 3);
    assert!(state.sorting_asc());
    assert_eq!(names(state.level1_deps()), vec!["elder", "date", "cherry", "banana", "apple"]);
    assert_eq!(state.get_selected_dep().name, "banana");
    state.sorting(false);
    assert_eq!(state.selected_index(), 1);
    assert_eq!(state.get_selected_dep().name, "banana");
}

#[test]
fn same_direction_does_not_move_the_selection() {
    let mut state = five_by_size();
    state.move_down();
    state.sorting(false);
    assert_eq!(state.selected_index(), 1);
    assert!(!state.sorting_asc());
    assert_eq!(names(state.level1_deps()), vec!["apple", "banana", "cherry", "date", "elder"]);
}

#[test]
fn direction_toggle_on_filtered_list() {
    let mut state = five_by_size();
    state.set_filter("e".to_string());
    assert_eq!(names(&state.get_filter_deps()), vec!["apple", "cherry", "date", "elder"]);
    state.move_down();
    state.sorting(true);
    assert_eq!(state.selected_index(), 2);
    assert_eq!(names(&state.get_filter_deps()), vec!["elder", "date", "cherry", "apple"]);
}

#[test]
fn direction_toggle_on_empty_list_keeps_zero() {
    let mut state = five_by_size();
    state.set_filter("nothing".to_string());
    assert!(state.get_filter_deps().is_empty());
    state.sorting(true);
    assert_eq!(state.selected_index(), 0);
    state.sorting(false);
    assert_eq!(state.selected_index(), 0);
}

#[test]
fn key_change_keeps_the_selected_row() {
    let mut state = five_by_size();
    state.move_down();
    state.order_by(OrderBy::Name);
    assert_eq!(state.selected_index(), 1);
    assert_eq!(state.order(), OrderBy::Name);
    assert!(!state.sorting_asc());
    assert_eq!(names(state.level1_deps()), vec!["elder", "date", "cherry", "banana", "apple"]);
    assert_eq!(state.get_selected_dep().name, "date");
    state.order_by(OrderBy::Version);
    assert_eq!(state.selected_index(), 1);
    assert_eq!(names(state.level1_deps()), vec!["apple", "banana", "cherry", "date", "elder"]);
    state.order_by(OrderBy::Size);
    assert_eq!(state.selected_index(), 1);
}

#[test]
fn sorting_orders_the_preview_too() {
    let mut state = session(
        "R",
        vec![
            plain("R", &["A"]),
            plain("A", &["x", "y"]),
            package("x", "xenon", "1.0.0", 1, &[]),
            package("y", "yak", "1.0.0", 2, &[]),
        ],
    );
    assert_eq!(names(state.level2_deps()), vec!["yak", "xenon"]);
    state.sorting(true);
    assert_eq!(names(state.level2_deps()), vec!["xenon", "yak"]);
    state.order_by(OrderBy::Name);
    assert_eq!(names(state.level2_deps()), vec!["xenon", "yak"]);
}

#[test]
fn filter_narrows_by_name() {
    let mut state = five_by_size();
    state.move_down();
    state.move_down();
    state.set_filter("an".to_string());
    assert_eq!(state.filter_input(), "an");
    assert_eq!(state.selected_index(), 0);
    assert_eq!(names(&state.get_filter_deps()), vec!["banana"]);
    assert_eq!(state.visible_len(), 1);
    assert_eq!(names(state.level1_deps()).len(), 5);
    assert!(state.level2_deps().is_empty());
    state.set_filter("ch".to_string());
    assert_eq!(names(&state.get_filter_deps()), vec!["cherry"]);
    assert_eq!(names(state.level2_deps()), vec!["y", "z"]);
    state.set_filter(String::new());
    assert_eq!(state.get_filter_deps().len(), 5);
}

#[test]
fn filter_applied_twice_is_filter_applied_once() {
    let mut once = five_by_size();
    once.set_filter("e".to_string());
    let mut twice = five_by_size();
    twice.set_filter("e".to_string());
    twice.set_filter("e".to_string());
    assert_eq!(names(&once.get_filter_deps()), names(&twice.get_filter_deps()));
    assert_eq!(once.selected_index(), twice.selected_index());
    assert_eq!(names(once.level2_deps()), names(twice.level2_deps()));
}

#[test]
fn filter_with_no_match_empties_the_preview() {
    let mut state = five_by_size();
    state.set_filter("zzz".to_string());
    assert!(state.get_filter_deps().is_empty());
    assert_eq!(state.selected_index(), 0);
    assert!(state.level2_deps().is_empty());
    assert_eq!(state.get_selected_dep().name, "");
    state.drill_in();
    assert_eq!(state.selected_package().len(), 1);
    state.move_down();
    assert_eq!(state.selected_index(), 0);
}

#[test]
fn drill_in_enters_the_filtered_selection() {
    let mut state = five_by_size();
    state.set_filter("ch".to_string());
    state.drill_in();
    assert_eq!(names(state.selected_package()), vec!["R", "cherry"]);
    assert_eq!(names(state.level1_deps()), vec!["y", "z"]);
    assert!(state.get_filter_deps().is_empty());
    assert_eq!(state.filter_input(), "ch");
    state.set_filter(String::new());
    assert_eq!(names(&state.get_filter_deps()), vec!["y", "z"]);
}

#[test]
fn stats_count_the_filtered_list() {
    let mut state = five_by_size();
    let all = state.stats();
    assert_eq!(all.count, 5);
    assert_eq!(all.total_size, 150);
    state.set_filter("e".to_string());
    let some = state.stats();
    assert_eq!(some.count, 4);
    assert_eq!(some.total_size, 110);
    state.set_filter("q".to_string());
    let none = state.stats();
    assert_eq!(none.count, 0);
    assert_eq!(none.total_size, 0);
}

#[test]
fn stats_total_stops_at_the_largest_number() {
    let state = session(
        "R",
        vec![
            plain("R", &["a", "b", "c"]),
            package("a", "a", "1", u64::MAX - 1, &[]),
            package("b", "b", "1", 5, &[]),
            package("c", "c", "1", 7, &[]),
        ],
    );
    assert_eq!(state.stats().count, 3);
    assert_eq!(state.stats().total_size, u64::MAX);
}

#[test]
fn documentation_of_the_selected_entry() {
    let mut with_docs = package("a", "apple", "1.0.0", 2, &[]);
    with_docs.documentation = "https://docs.example/apple".to_string();
    let mut state = session("R", vec![plain("R", &["a", "b"]), with_docs, package("b", "b", "1", 1, &[])]);
    assert_eq!(state.documentation(), Some("https://docs.example/apple".to_string()));
    state.move_down();
    assert_eq!(state.documentation(), None);
}

#[test]
fn get_deps_and_get_metadata_read_the_store() {
    let state = small_tree();
    let a = state.get_metadata("A".to_string());
    assert_eq!(a.dependencies, vec!["C"]);
    assert_eq!(names(&state.get_deps(a)), vec!["C"]);
    let unknown = state.get_metadata("Q".to_string());
    assert_eq!(unknown.name, "");
    assert!(state.get_deps(unknown).is_empty());
}

#[test]
fn preview_is_made_anew_on_request() {
    let mut state = small_tree();
    state.order_by(OrderBy::Name);
    assert_eq!(names(state.level1_deps()), vec!["B", "A"]);
    assert_eq!(state.get_selected_dep().name, "B");
    assert_eq!(names(state.level2_deps()), vec!["C"]);
    state.get_level2_dep();
    assert!(state.level2_deps().is_empty());
    state.move_down();
    assert_eq!(names(state.level2_deps()), vec!["C"]);
}

#[test]
fn root_without_record_starts_an_empty_session() {
    let state = session("missing", vec![plain("A", &[])]);
    assert_eq!(state.selected_package().len(), 1);
    assert_eq!(state.selected_package()[0].name, "");
    assert!(state.level1_deps().is_empty());
    assert!(state.level2_deps().is_empty());
}
