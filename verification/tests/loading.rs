use depnav::app::App;
use depnav::data::json::{get_string_from, get_vec_from};
use depnav::data::load::{archive_path, build_store, load, parse, read_packages, read_root_id, trim_value, RawPackage};
use depnav::data::metadata::Metadata;
use depnav::data::text::replace_all;
use depnav::data::trim::trim_padding;
use depnav::error::Errors;

const DOCUMENT: &str = r#"{
  "packages": [
    {
      "name": "demo",
      "version": "0.1.0",
      "id": "path+file:///work/demo#0.1.0",
      "license": "MIT",
      "description": "A demo",
      "documentation": null,
      "manifest_path": "/work/demo/Cargo.toml"
    },
    {
      "name": "serde",
      "version": "1.0.200",
      "id": "registry+https://github.com/rust-lang/crates.io-index#serde@1.0.200",
      "license": "MIT OR Apache-2.0",
      "description": "A serialization framework",
      "documentation": "https://docs.rs/serde",
      "manifest_path": "/home/u/.cargo/registry/src/index.crates.io-1949/serde-1.0.200/Cargo.toml"
    },
    {
      "name": "itoa",
      "version": "1.0.11",
      "id": "registry+https://github.com/rust-lang/crates.io-index#itoa@1.0.11",
      "manifest_path": "/home/u/.cargo/registry/src/index.crates.io-1949/itoa-1.0.11/Cargo.toml"
    },
    {
      "name": "serde",
      "version": "9.9.9",
      "id": "registry+https://github.com/rust-lang/crates.io-index#serde@1.0.200",
      "license": "other",
      "manifest_path": "/elsewhere/Cargo.toml"
    },
    { "version": "1.0.0", "id": "no-name" },
    { "name": "no-version", "id": "no-version" },
    { "name": 7, "version": [1, 2], "id": 5 }
  ],
  "resolve": {
    "nodes": [
      {
        "id": "registry+https://github.com/rust-lang/crates.io-index#serde@1.0.200",
        "dependencies": ["registry+https://github.com/rust-lang/crates.io-index#itoa@1.0.11", 3, null]
      },
      {
        "id": "path+file:///work/demo#0.1.0",
        "dependencies": [
          "registry+https://github.com/rust-lang/crates.io-index#serde@1.0.200",
          "registry+https://github.com/rust-lang/crates.io-index#itoa@1.0.11"
        ]
      },
      {
        "id": "path+file:///work/demo#0.1.0",
        "dependencies": ["shadowed"]
      },
      { "id": "registry+https://github.com/rust-lang/crates.io-index#itoa@1.0.11" }
    ]
  },
  "workspace_default_members": ["path+file:///work/demo#0.1.0", "other"]
}"#;

const SERDE: &str = "registry+https://github.com/rust-lang/crates.io-index#serde@1.0.200";
const ITOA: &str = "registry+https://github.com/rust-lang/crates.io-index#itoa@1.0.11";
const DEMO: &str = "path+file:///work/demo#0.1.0";

fn document() -> serde_json::Value {
    parse(DOCUMENT.as_bytes()).unwrap()
}

#[test]
fn parse_reads_json() {
    let value = parse(b"{\"a\": \"x\", \"b\": [\"p\", 1, \"q\"]}").unwrap();
    assert_eq!(get_string_from(&value, "a"), "x");
    assert_eq!(get_string_from(&value, "b"), "");
    assert_eq!(get_string_from(&value, "c"), "");
    assert_eq!(get_vec_from(&value, "b"), vec!["p", "q"]);
    assert!(get_vec_from(&value, "a").is_empty());
    assert!(get_vec_from(&value, "c").is_empty());
}

#[test]
fn parse_fails_on_what_is_no_json() {
    assert!(matches!(parse(b"not json"), Err(Errors::ParseMetadata)));
    assert!(matches!(parse(b""), Err(Errors::ParseMetadata)));
    assert!(matches!(parse(b"{\"a\": "), Err(Errors::ParseMetadata)));
    assert!(parse(b"null").is_ok());
}

#[test]
fn fields_of_values_that_are_no_objects() {
    let list = parse(b"[\"a\"]").unwrap();
    assert_eq!(get_string_from(&list, "0"), "");
    assert!(get_vec_from(&list, "0").is_empty());
    let text = parse(b"\"a\"").unwrap();
    assert_eq!(get_string_from(&text, "a"), "");
}

#[test]
fn values_are_trimmed_as_printed() {
    assert_eq!(trim_value(&parse(b"\"serde\"").unwrap()), "serde");
    assert_eq!(trim_value(&parse(b"\"  padded \"").unwrap()), "padded");
    assert_eq!(trim_value(&parse(b"\"\"").unwrap()), "");
    assert_eq!(trim_value(&parse(b"12").unwrap()), "12");
    assert_eq!(trim_value(&parse(b"null").unwrap()), "null");
    assert_eq!(trim_value(&parse(b"[\"a\", \"b\"]").unwrap()), "[\"a\",\"b\"]");
    assert_eq!(trim_value(&parse(b"\"a\\\"b\"").unwrap()), "a\\\"b");
}

#[test]
fn trimming_takes_white_space_and_quotes_off_both_ends() {
    assert_eq!(trim_padding(""), "");
    assert_eq!(trim_padding("   "), "");
    assert_eq!(trim_padding("\"\""), "");
    assert_eq!(trim_padding(" \" a b \"\t\n"), "a b");
    assert_eq!(trim_padding("a\"b"), "a\"b");
    assert_eq!(trim_padding("\u{a0}x\u{2003}"), "x");
    for s in ["", " a ", "\"a\"", "a", " \"\" x \"\" ", "\t\"q"] {
        let expected = s.trim().trim_matches(|c: char| c.is_whitespace() || c == '"');
        assert_eq!(trim_padding(s), expected);
    }
}

#[test]
fn replacing_goes_from_left_to_right() {
    assert_eq!(replace_all("a/src/b/src/c", "/src/", "/cache/"), "a/cache/b/cache/c");
    assert_eq!(replace_all("aaa", "aa", "b"), "ba");
    assert_eq!(replace_all("abc", "x", "y"), "abc");
    assert_eq!(replace_all("", "x", "y"), "");
    assert_eq!(replace_all("abc", "", "y"), "abc");
    assert_eq!(replace_all("abc", "abc", ""), "");
    assert_eq!(replace_all("ab", "abc", "x"), "ab");
    for (s, from, to) in [("banana", "an", "AN"), ("banana", "ana", ""), ("xxxx", "xx", "x"), ("héllo", "é", "e")] {
        assert_eq!(replace_all(s, from, to), s.replace(from, to));
    }
}

#[test]
fn archive_lies_in_the_cache() {
    assert_eq!(
        archive_path("/home/u/.cargo/registry/src/index.crates.io-1949/rust-argon2-0.8.3/Cargo.toml"),
        "/home/u/.cargo/registry/cache/index.crates.io-1949/rust-argon2-0.8.3.crate"
    );
    assert_eq!(archive_path("/work/demo/Cargo.toml"), "/work/demo.crate");
    assert_eq!(archive_path(""), "");
}

#[test]
fn packages_are_read_in_order() {
    let packages = read_packages(&document());
    let ids: Vec<&str> = packages.iter().map(|p| p.record.id.as_str()).collect();
    assert_eq!(ids, vec![DEMO, SERDE, ITOA, SERDE, ""]);
    let demo = &packages[0];
    assert_eq!(demo.record.name, "demo");
    assert_eq!(demo.record.version, "0.1.0");
    assert_eq!(demo.record.license, "MIT");
    assert_eq!(demo.record.description, "A demo");
    assert_eq!(demo.record.documentation, "");
    assert_eq!(demo.record.size, 0);
    assert_eq!(demo.record.dependencies, vec![SERDE, ITOA]);
    assert_eq!(demo.manifest_path, "/work/demo/Cargo.toml");
    let serde = &packages[1];
    assert_eq!(serde.record.documentation, "https://docs.rs/serde");
    assert_eq!(serde.record.dependencies, vec![ITOA]);
    let itoa = &packages[2];
    assert_eq!(itoa.record.license, "");
    assert!(itoa.record.dependencies.is_empty());
    let odd = &packages[4];
    assert_eq!(odd.record.name, "7");
    assert_eq!(odd.record.version, "[1,2]");
    assert!(odd.record.dependencies.is_empty());
    assert_eq!(odd.manifest_path, "");
}

#[test]
fn documents_without_lists_have_no_packages() {
    assert!(read_packages(&parse(b"null").unwrap()).is_empty());
    assert!(read_packages(&parse(b"{\"packages\": [{\"name\": \"a\", \"version\": \"1\"}]}").unwrap()).is_empty());
    assert!(read_packages(&parse(b"{\"packages\": {}, \"resolve\": {\"nodes\": []}}").unwrap()).is_empty());
    assert!(read_packages(&parse(b"{\"packages\": [], \"resolve\": {\"nodes\": 1}}").unwrap()).is_empty());
    let one = read_packages(
        &parse(b"{\"packages\": [{\"name\": \"a\", \"version\": \"1\", \"id\": \"a 1\"}], \"resolve\": {\"nodes\": []}}")
            .unwrap(),
    );
    assert_eq!(one.len(), 1);
    assert_eq!(one[0].record.id, "a 1");
    assert!(one[0].record.dependencies.is_empty());
}

#[test]
fn root_is_the_first_default_member() {
    assert_eq!(read_root_id(&document()), DEMO);
    assert_eq!(read_root_id(&parse(b"null").unwrap()), "");
    assert_eq!(read_root_id(&parse(b"{\"workspace_default_members\": []}").unwrap()), "");
    assert_eq!(read_root_id(&parse(b"{\"workspace_default_members\": [3]}").unwrap()), "");
    assert_eq!(read_root_id(&parse(b"{\"workspace_default_members\": {\"0\": \"x\"}}").unwrap()), "");
    assert_eq!(read_root_id(&parse(b"{\"workspace_default_members\": \"x\"}").unwrap()), "");
}

#[test]
fn store_keeps_the_first_of_each_identifier() {
    let packages = read_packages(&document());
    let store = build_store(&packages, &vec![11, 22, 33, 44, 55]);
    assert_eq!(store.len(), 4);
    let serde = store.get_metadata(SERDE);
    assert_eq!(serde.version, "1.0.200");
    assert_eq!(serde.license, "MIT OR Apache-2.0");
    assert_eq!(serde.size, 22);
    assert_eq!(store.get_metadata(DEMO).size, 11);
    assert_eq!(store.get_metadata(ITOA).size, 33);
    assert_eq!(store.get_metadata("").size, 55);
    assert_eq!(store.get_metadata("").name, "7");
}

#[test]
fn missing_sizes_count_as_zero() {
    let packages = read_packages(&document());
    let store = build_store(&packages, &vec![11]);
    assert_eq!(store.get_metadata(DEMO).size, 11);
    assert_eq!(store.get_metadata(SERDE).size, 0);
    let none = build_store(&Vec::new(), &vec![1, 2]);
    assert_eq!(none.len(), 0);
}

#[test]
fn store_from_records_made_by_hand() {
    let raw = |id: &str, name: &str| RawPackage {
        record: Metadata {
            id: id.to_string(),
            name: name.to_string(),
            version: String::new(),
            license: String::new(),
            size: 99,
            documentation: String::new(),
            description: String::new(),
            dependencies: Vec::new(),
        },
        manifest_path: String::new(),
    };
    let store = build_store(&vec![raw("a", "first"), raw("b", "other"), raw("a", "second")], &vec![1, 2, 3]);
    assert_eq!(store.len(), 2);
    assert_eq!(store.get_metadata("a").name, "first");
    assert_eq!(store.get_metadata("a").size, 1);
    assert_eq!(store.get_metadata("b").size, 2);
}

#[test]
fn session_on_a_loaded_document() {
    let value = document();
    let packages = read_packages(&value);
    let store = build_store(&packages, &vec![0, 500, 100, 0, 0]);
    let app = App::new(store, read_root_id(&value).as_str());
    let state = app.state();
    assert_eq!(state.selected_package()[0].name, "demo");
    let listed: Vec<&str> = state.level1_deps().iter().map(|r| r.name.as_str()).collect();
    assert_eq!(listed, vec!["serde", "itoa"]);
    let previewed: Vec<&str> = state.level2_deps().iter().map(|r| r.name.as_str()).collect();
    assert_eq!(previewed, vec!["itoa"]);
    assert_eq!(state.stats().total_size, 600);
    assert_eq!(state.documentation(), Some("https://docs.rs/serde".to_string()));
}

#[test]
fn session_on_a_document_that_cannot_be_read() {
    let packages = match parse(b"oops") {
        Ok(value) => read_packages(&value),
        Err(_) => Vec::new(),
    };
    let app = App::new(build_store(&packages, &Vec::new()), "");
    assert!(app.state().level1_deps().is_empty());
    assert_eq!(app.state().selected_package().len(), 1);
    assert_eq!(app.state().selected_package()[0].name, "");
}

#[test]
fn load_gives_packages_and_root() {
    let (loaded, failure) = load(DOCUMENT.as_bytes());
    assert!(failure.is_none());
    assert_eq!(loaded.packages.len(), 5);
    assert_eq!(loaded.root_id, DEMO);
    let app = App::start(&loaded, &vec![1, 2, 3, 4, 5]);
    assert_eq!(app.state().selected_package()[0].name, "demo");
    assert_eq!(app.state().selected_package()[0].size, 1);
    assert_eq!(app.state().stats().total_size, 5);
    assert_eq!(app.state().deps_map().len(), 4);
}

#[test]
fn load_of_what_cannot_be_read_starts_empty() {
    let (loaded, failure) = load(b"{");
    assert!(matches!(failure, Some(Errors::ParseMetadata)));
    assert!(loaded.packages.is_empty());
    assert_eq!(loaded.root_id, "");
    let app = App::start(&loaded, &Vec::new());
    assert!(app.state().level1_deps().is_empty());
    assert_eq!(app.state().selected_package().len(), 1);
    assert_eq!(app.state().selected_package()[0].id, "");
    assert_eq!(app.state().deps_map().len(), 0);
}
