use depnav::data::dependency::Dependency;
use depnav::data::lock::{lock_path, parse_lock_file};

fn pairs(crates: &[Dependency]) -> Vec<(String, String)> {
    crates.iter().map(|c| (c.name.clone(), c.version.clone())).collect()
}

fn pair(name: &str, version: &str) -> (String, String) {
    (name.to_string(), version.to_string())
}

fn by_the_standard_library(content: &str) -> Vec<(String, String)> {
    let mut crates = Vec::new();
    let mut name = String::new();
    for line in content.lines() {
        if let Some((key, value)) = line.split_once('=') {
            let key = key.trim();
            let value = value.trim().trim_matches(|c: char| c.is_whitespace() || c == '"');
            match key {
                "name" => name = value.to_string(),
                "version" => {
                    let version = value.to_string();
                    if !name.is_empty() && !version.is_empty() {
                        crates.push((name.clone(), version));
                        name = String::new();
                    }
                }
                _ => {}
            }
        }
    }
    crates
}

const LOCK: &str = r#"# This file is automatically @generated by Cargo.
version = 3

[[package]]
name = "anstyle"
version = "1.0.6"
source = "registry+https://github.com/rust-lang/crates.io-index"
checksum = "8901269c6307e8d93993578286ac0edf7f195079ffff5ebdeea6a59ffb7e36bc"

[[package]]
name = "demo"
version = "0.1.0"
dependencies = [
 "anstyle",
]
"#;

#[test]
fn lock_file_pins_name_and_version() {
    assert_eq!(pairs(&parse_lock_file(LOCK)), vec![pair("anstyle", "1.0.6"), pair("demo", "0.1.0")]);
}

#[test]
fn lock_file_without_packages() {
    assert!(parse_lock_file("").is_empty());
    assert!(parse_lock_file("\n\n").is_empty());
    assert!(parse_lock_file("version = 3\n").is_empty());
    assert!(parse_lock_file("name = \"a\"\n").is_empty());
    assert!(parse_lock_file("name = \"\"\nversion = \"1\"\n").is_empty());
    assert!(parse_lock_file("name = \"a\"\nversion = \"\"\n").is_empty());
    assert!(parse_lock_file("name \"a\"\nversion \"1\"\n").is_empty());
}

#[test]
fn lock_file_details() {
    assert_eq!(pairs(&parse_lock_file("name=a\nversion=1")), vec![pair("a", "1")]);
    assert_eq!(pairs(&parse_lock_file("  name\t=  \" a b \"  \r\nversion = \"1=2\"\r\n")), vec![pair("a b", "1=2")]);
    assert_eq!(pairs(&parse_lock_file("name = \"a\"\nname = \"b\"\nversion = \"1\"\nversion = \"2\"\n")), vec![pair("b", "1")]);
    assert_eq!(pairs(&parse_lock_file("name = \"a\"\nother = 1\n\nversion = \"1\"")), vec![pair("a", "1")]);
    assert_eq!(pairs(&parse_lock_file("Name = \"a\"\nversion = \"1\"")), Vec::<(String, String)>::new());
    assert_eq!(pairs(&parse_lock_file("name = \"a\"\nversion = \"\"\nversion = \"2\"")), vec![pair("a", "2")]);
}

#[test]
fn lock_file_agrees_with_the_standard_library() {
    for content in [
        LOCK,
        "",
        "=",
        "==\n=",
        "name=\nversion=1\nname = x\r\nversion =\t\"2\"\r",
        "name = \"multi\nline\"\nversion = '1'\n",
        " name = \"ä\" \n version = \"1.0.0-β\" ",
        "name=a=b\nversion==",
        "version = 1\nname = n\nversion = 2\nversion = 3\nname = m\n\nversion = 4\n",
    ] {
        assert_eq!(pairs(&parse_lock_file(content)), by_the_standard_library(content), "{:?}", content);
    }
}

#[test]
fn lock_lies_beside_the_manifest() {
    assert_eq!(lock_path("/work/demo/Cargo.toml"), "/work/demo/Cargo.lock");
    assert_eq!(lock_path("/work/demo"), "/work/demo");
}
