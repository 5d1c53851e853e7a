use depnav::data::metadata::Metadata;
use depnav::data::resolve::{get_deps_ids, resolve};
use depnav::data::store::MetadataStore;
use depnav::ui::screen::OrderBy;

fn package(id: &str, size: u64, dependencies: &[&str]) -> Metadata {
    Metadata {
        id: id.to_string(),
        name: id.to_string(),
        version: "1.0.0".to_string(),
        license: String::new(),
        size,
        documentation: String::new(),
        description: String::new(),
        dependencies: dependencies.iter().map(|d| d.to_string()).collect(),
    }
}

fn store_of(packages: Vec<Metadata>) -> MetadataStore {
    let mut store = MetadataStore::new();
    for p in packages {
        store.insert(p);
    }
    store
}

fn names(records: &[Metadata]) -> Vec<String> {
    records.iter().map(|r| r.name.clone()).collect()
}

#[test]
fn direct_dependencies_keep_source_order() {
    let store = store_of(vec![
        package("R", 0, &["A", "B"]),
        package("A", 0, &["C"]),
        package("B", 0, &[]),
        package("C", 0, &[]),
    ]);
    let root = store.get_metadata("R");
    let direct = resolve(&store, &root, true, OrderBy::Size, false);
    assert_eq!(names(&direct), vec!["A", "B"]);
}

#[test]
fn direct_dependencies_keep_duplicates() {
    let store = store_of(vec![package("R", 0, &["A", "A"]), package("A", 0, &[])]);
    let root = store.get_metadata("R");
    let direct = resolve(&store, &root, true, OrderBy::Name, true);
    assert_eq!(names(&direct), vec!["A", "A"]);
}

#[test]
fn closure_of_small_tree() {
    let store = store_of(vec![
        package("R", 0, &["A", "B"]),
        package("A", 0, &["C"]),
        package("B", 0, &[]),
        package("C", 0, &[]),
    ]);
    let root = store.get_metadata("R");
    assert_eq!(get_deps_ids(&store, &root), vec!["A", "C", "B"]);
    let mut all = names(&resolve(&store, &root, false, OrderBy::Name, true));
    all.sort();
    assert_eq!(all, vec!["A", "B", "C"]);
}

#[test]
fn closure_visits_depth_first() {
    let store = store_of(vec![
        package("R", 0, &["A", "B"]),
        package("A", 0, &["C", "D"]),
        package("B", 0, &["E"]),
        package("C", 0, &["F"]),
        package("D", 0, &[]),
        package("E", 0, &[]),
        package("F", 0, &[]),
    ]);
    let root = store.get_metadata("R");
    assert_eq!(get_deps_ids(&store, &root), vec!["A", "C", "F", "D", "B", "E"]);
}

#[test]
fn closure_of_diamond_has_no_duplicates() {
    let store = store_of(vec![
        package("R", 0, &["A", "B"]),
        package("A", 0, &["D"]),
        package("B", 0, &["D"]),
        package("D", 0, &[]),
    ]);
    let root = store.get_metadata("R");
    assert_eq!(get_deps_ids(&store, &root), vec!["A", "D", "B"]);
}

#[test]
fn closure_of_cycle_ends_and_leaves_the_start_out() {
    let store = store_of(vec![package("A", 0, &["B"]), package("B", 0, &["A"])]);
    let a = store.get_metadata("A");
    assert_eq!(get_deps_ids(&store, &a), vec!["B"]);
    let listed = resolve(&store, &a, false, OrderBy::Size, false);
    assert_eq!(names(&listed), vec!["B"]);
}

#[test]
fn closure_of_self_loop_is_empty() {
    let store = store_of(vec![package("A", 0, &["A"])]);
    let a = store.get_metadata("A");
    assert!(get_deps_ids(&store, &a).is_empty());
}

#[test]
fn closure_of_longer_cycle() {
    let store = store_of(vec![
        package("A", 0, &["B"]),
        package("B", 0, &["C"]),
        package("C", 0, &["A", "B", "D"]),
        package("D", 0, &[]),
    ]);
    let a = store.get_metadata("A");
    assert_eq!(get_deps_ids(&store, &a), vec!["B", "C", "D"]);
    let b = store.get_metadata("B");
    assert_eq!(get_deps_ids(&store, &b), vec!["C", "A", "D"]);
}

#[test]
fn closure_counts_identifiers_without_record() {
    let store = store_of(vec![package("A", 0, &["X", "B"]), package("B", 0, &["Y", "X"])]);
    let a = store.get_metadata("A");
    assert_eq!(get_deps_ids(&store, &a), vec!["X", "B", "Y"]);
    let listed = resolve(&store, &a, false, OrderBy::Name, true);
    assert_eq!(names(&listed), vec!["", "", "B"]);
}

#[test]
fn unknown_identifier_gives_zero_record() {
    let store = store_of(vec![package("A", 7, &["X"])]);
    let a = store.get_metadata("A");
    let listed = resolve(&store, &a, true, OrderBy::Size, false);
    assert_eq!(listed.len(), 1);
    let zero = &listed[0];
    assert_eq!(zero.id, "");
    assert_eq!(zero.name, "");
    assert_eq!(zero.version, "");
    assert_eq!(zero.license, "");
    assert_eq!(zero.documentation, "");
    assert_eq!(zero.description, "");
    assert_eq!(zero.size, 0);
    assert!(zero.dependencies.is_empty());
}

#[test]
fn lookup_of_unknown_is_zero_record() {
    let store = MetadataStore::new();
    let zero = store.get_metadata("nothing");
    assert_eq!(zero.name, "");
    assert_eq!(zero.size, 0);
    assert!(zero.dependencies.is_empty());
    assert_eq!(store.len(), 0);
}

#[test]
fn first_record_under_an_identifier_stays() {
    let mut store = MetadataStore::new();
    assert!(store.insert(package("A", 1, &["B"])));
    assert!(!store.insert(package("A", 2, &["C"])));
    assert_eq!(store.len(), 1);
    assert!(store.contains("A"));
    assert!(!store.contains("B"));
    let kept = store.get_metadata("A");
    assert_eq!(kept.size, 1);
    assert_eq!(kept.dependencies, vec!["B"]);
}

#[test]
fn closure_of_parent_that_is_not_on_record() {
    let store = store_of(vec![package("B", 0, &["C"]), package("C", 0, &[])]);
    let parent = package("P", 0, &["B"]);
    assert_eq!(get_deps_ids(&store, &parent), vec!["B", "C"]);
}

#[test]
fn closure_of_deep_chain() {
    let mut packages = Vec::new();
    for i in 0..2000 {
        let next = format!("p{}", i + 1);
        packages.push(package(&format!("p{}", i), 0, &[next.as_str()]));
    }
    let store = store_of(packages);
    let first = store.get_metadata("p0");
    let ids = get_deps_ids(&store, &first);
    assert_eq!(ids.len(), 2000);
    assert_eq!(ids[0], "p1");
    assert_eq!(ids[1999], "p2000");
}
