//! From the document that the build tool prints to the records of a store.

use vstd::prelude::*;
use serde_json::Value;
use crate::data::json::{
    array_len,
    from_slice,
    get_string_from,
    get_vec_from,
    item,
    json_item,
    json_len,
    json_member,
    json_parsed,
    json_rendered,
    json_string,
    member,
    render,
    as_str,
    text_under,
    texts_under,
};
use crate::data::metadata::{Metadata, Package};
use crate::data::store::MetadataStore;
use crate::data::text::{replace_all, replaced};
use crate::data::trim::{trim_padding, trimmed};
use crate::error::Errors;

verus! {

/// A package as the document lists it: its record, without the size, and
/// where its manifest lies.
#[derive(Debug)]
pub struct RawPackage {
    pub record: Metadata,
    pub manifest_path: String,
}

/// A listed package as mathematical values.
pub struct Listed {
    pub record: Package,
    pub manifest_path: Seq<char>,
}

impl DeepView for RawPackage {
    type V = Listed;

    open spec fn deep_view(&self) -> Listed {
        Listed { record: self.record@, manifest_path: self.manifest_path@ }
    }
}

impl View for RawPackage {
    type V = Listed;

    open spec fn view(&self) -> Listed {
        self.deep_view()
    }
}

/// The dependencies that the first of the nodes from `from` up to `n` with
/// the identifier `id` gives, or none where no such node has it.
pub open spec fn dependencies_from(nodes: Value, from: nat, n: nat, id: Seq<char>) -> Seq<Seq<char>>
    decreases n - from,
{
    if from >= n {
        Seq::empty()
    } else {
        match json_item(nodes, from) {
            Some(node) => if text_under(node, "id"@) == id {
                texts_under(node, "dependencies"@)
            } else {
                dependencies_from(nodes, from + 1, n, id)
            },
            None => dependencies_from(nodes, from + 1, n, id),
        }
    }
}

/// The package that an entry of the package list stands for, or none where
/// the entry has no name or no version. Name and version are taken as they
/// are printed, without the quotes and white space around them.
pub open spec fn listed_package(entry: Value, nodes: Value, n: nat) -> Option<Listed> {
    match (json_member(entry, "name"@), json_member(entry, "version"@)) {
        (Some(name), Some(version)) => Some(
            Listed {
                record: Package {
                    id: text_under(entry, "id"@),
                    name: trimmed(json_rendered(name)),
                    version: trimmed(json_rendered(version)),
                    license: text_under(entry, "license"@),
                    size: 0,
                    documentation: text_under(entry, "documentation"@),
                    description: text_under(entry, "description"@),
                    dependencies: dependencies_from(nodes, 0, n, text_under(entry, "id"@)),
                },
                manifest_path: text_under(entry, "manifest_path"@),
            },
        ),
        _ => None,
    }
}

/// The packages that the first `count` entries of the package list stand for.
pub open spec fn listed_upto(packages: Value, count: nat, nodes: Value, n: nat) -> Seq<Listed>
    decreases count,
{
    if count == 0 {
        Seq::empty()
    } else {
        let front = listed_upto(packages, (count - 1) as nat, nodes, n);
        match json_item(packages, (count - 1) as nat) {
            Some(entry) => match listed_package(entry, nodes, n) {
                Some(listed) => front.push(listed),
                None => front,
            },
            None => front,
        }
    }
}

/// The list of nodes of the document: what stands under `nodes` under `resolve`.
pub open spec fn nodes_of(document: Value) -> Option<Value> {
    match json_member(document, "resolve"@) {
        Some(resolve) => json_member(resolve, "nodes"@),
        None => None,
    }
}

/// The packages of the document, in its order: those of the list under
/// `packages`, where that is an array and the document has an array of
/// nodes; none otherwise.
pub open spec fn packages_of(document: Value) -> Seq<Listed> {
    match (nodes_of(document), json_member(document, "packages"@)) {
        (Some(nodes), Some(packages)) => match (json_len(nodes), json_len(packages)) {
            (Some(n), Some(count)) => listed_upto(packages, count, nodes, n),
            _ => Seq::empty(),
        },
        _ => Seq::empty(),
    }
}

/// The identifier of the package to start in: the first of the default
/// members of the workspace, or the empty text where the document names none.
pub open spec fn root_id_of(document: Value) -> Seq<char> {
    match json_member(document, "workspace_default_members"@) {
        Some(members) => match json_item(members, 0) {
            Some(first) => match json_string(first) {
                Some(id) => id,
                None => Seq::empty(),
            },
            None => Seq::empty(),
        },
        None => Seq::empty(),
    }
}

/// Reads the document that the build tool printed. What cannot be read
/// gives `ParseMetadata`.
pub fn parse(bytes: &[u8]) -> (result: Result<Value, Errors>)
    ensures
        match result {
            Ok(document) => json_parsed(bytes@) == Some(document),
            Err(e) => e is ParseMetadata && json_parsed(bytes@) is None,
        },
{
    match from_slice(bytes) {
        Ok(document) => Ok(document),
        Err(_) => Err(Errors::ParseMetadata),
    }
}

/// What a document gives to start from: its packages and the identifier
/// of the package to start in.
#[derive(Debug)]
pub struct Loaded {
    pub packages: Vec<RawPackage>,
    pub root_id: String,
}

/// What the bytes give to start from: the packages and the root of the
/// document that they hold, or no package and no root where they hold none
/// that can be read.
pub open spec fn loaded_from(bytes: Seq<u8>) -> (Seq<Listed>, Seq<char>) {
    match json_parsed(bytes) {
        Some(document) => (packages_of(document), root_id_of(document)),
        None => (Seq::empty(), Seq::empty()),
    }
}

/// Reads what the build tool printed. Where that cannot be read, nothing
/// is loaded and `ParseMetadata` tells so; a session can start all the same.
pub fn load(bytes: &[u8]) -> (result: (Loaded, Option<Errors>))
    ensures
        result.0.packages.deep_view() == loaded_from(bytes@).0,
        result.0.root_id@ == loaded_from(bytes@).1,
        result.1 is None <==> json_parsed(bytes@) is Some,
        result.1 is Some ==> result.1->0 is ParseMetadata,
{
    match parse(bytes) {
        Ok(document) => (Loaded { packages: read_packages(&document), root_id: read_root_id(&document) }, None),
        Err(e) => {
            let none: Vec<RawPackage> = Vec::new();
            assert(none.deep_view() =~= Seq::<Listed>::empty());
            (Loaded { packages: none, root_id: String::new() }, Some(e))
        },
    }
}

/// What a value is printed as, without the quotes and white space around it.
pub fn trim_value(value: &Value) -> (text: String)
    ensures
        text@ == trimmed(json_rendered(*value)),
{
    let printed = render(value);
    trim_padding(printed.as_str())
}

/// The dependencies that the first node with the identifier `id` gives.
fn find_dependencies(nodes: &Value, n: usize, id: &String) -> (dependencies: Vec<String>)
    ensures
        dependencies.deep_view() == dependencies_from(*nodes, 0, n as nat, id@),
{
    let mut i: usize = 0;
    while i < n
        invariant
            i <= n,
            dependencies_from(*nodes, i as nat, n as nat, id@) == dependencies_from(*nodes, 0, n as nat, id@),
        decreases n - i,
    {
        match item(nodes, i) {
            Some(node) => {
                let node_id = get_string_from(node, "id");
                if node_id == *id {
                    return get_vec_from(node, "dependencies");
                }
            },
            None => {},
        }
        i += 1;
    }
    let none: Vec<String> = Vec::new();
    assert(none.deep_view() =~= Seq::<Seq<char>>::empty());
    none
}

/// The package that an entry of the package list stands for, if it has a
/// name and a version.
fn read_package(entry: &Value, nodes: &Value, n: usize) -> (package: Option<RawPackage>)
    ensures
        match package {
            Some(raw) => listed_package(*entry, *nodes, n as nat) == Some(raw@),
            None => listed_package(*entry, *nodes, n as nat) is None,
        },
{
    match member(entry, "name") {
        Some(name) => match member(entry, "version") {
            Some(version) => {
                let id = get_string_from(entry, "id");
                let dependencies = find_dependencies(nodes, n, &id);
                Some(
                    RawPackage {
                        record: Metadata {
                            id: id,
                            name: trim_value(name),
                            version: trim_value(version),
                            license: get_string_from(entry, "license"),
                            size: 0,
                            documentation: get_string_from(entry, "documentation"),
                            description: get_string_from(entry, "description"),
                            dependencies: dependencies,
                        },
                        manifest_path: get_string_from(entry, "manifest_path"),
                    },
                )
            },
            None => None,
        },
        None => None,
    }
}

/// The packages that the document lists, in its order, each with the
/// dependencies that the document's nodes give for its identifier.
pub fn read_packages(document: &Value) -> (packages: Vec<RawPackage>)
    ensures
        packages.deep_view() == packages_of(*document),
{
    let mut packages: Vec<RawPackage> = Vec::new();
    assert(packages.deep_view() =~= Seq::<Listed>::empty());
    let nodes = match member(document, "resolve") {
        Some(resolve) => member(resolve, "nodes"),
        None => None,
    };
    match nodes {
        Some(nodes) => match member(document, "packages") {
            Some(list) => match array_len(nodes) {
                Some(n) => match array_len(list) {
                    Some(count) => {
                        let mut i: usize = 0;
                        while i < count
                            invariant
                                i <= count,
                                packages.deep_view() == listed_upto(*list, i as nat, *nodes, n as nat),
                            decreases count - i,
                        {
                            let ghost before = packages.deep_view();
                            match item(list, i) {
                                Some(entry) => match read_package(entry, nodes, n) {
                                    Some(raw) => {
                                        packages.push(raw);
                                        assert(packages.deep_view() =~= before.push(raw@));
                                    },
                                    None => {},
                                },
                                None => {},
                            }
                            i += 1;
                        }
                        packages
                    },
                    None => packages,
                },
                None => packages,
            },
            None => packages,
        },
        None => packages,
    }
}

/// The identifier of the package to start in.
pub fn read_root_id(document: &Value) -> (id: String)
    ensures
        id@ == root_id_of(*document),
{
    match member(document, "workspace_default_members") {
        Some(members) => match item(members, 0) {
            Some(first) => match as_str(first) {
                Some(id) => id.to_owned(),
                None => String::new(),
            },
            None => String::new(),
        },
        None => String::new(),
    }
}

/// Where the archive of a package lies, given where its manifest lies: the
/// manifest's directory with `.crate` behind it, in the cache in place of
/// the sources.
pub open spec fn archive_of(manifest_path: Seq<char>) -> Seq<char> {
    replaced(replaced(manifest_path, "/Cargo.toml"@, ".crate"@), "/src/"@, "/cache/"@)
}

/// The path of the archive of the package whose manifest lies at `path`.
pub fn archive_path(path: &str) -> (archive: String)
    ensures
        archive@ == archive_of(path@),
{
    let renamed = replace_all(path, "/Cargo.toml", ".crate");
    replace_all(renamed.as_str(), "/src/", "/cache/")
}

/// The size at position `i`, or zero where `sizes` is shorter.
pub open spec fn size_at(sizes: Seq<u64>, i: int) -> u64 {
    if 0 <= i < sizes.len() {
        sizes[i]
    } else {
        0
    }
}

/// The record of the package at position `i`, with its size.
pub open spec fn sized(packages: Seq<Listed>, sizes: Seq<u64>, i: int) -> Package {
    Package { size: size_at(sizes, i), ..packages[i].record }
}

/// The store made of the packages in their order: each is kept under its
/// identifier with the size at its position, unless a package before it
/// has the same identifier.
pub open spec fn built(packages: Seq<Listed>, sizes: Seq<u64>) -> Map<Seq<char>, Package>
    decreases packages.len(),
{
    if packages.len() == 0 {
        Map::empty()
    } else {
        let front = built(packages.drop_last(), sizes);
        let id = packages.last().record.id;
        if front.contains_key(id) {
            front
        } else {
            front.insert(id, sized(packages, sizes, packages.len() - 1))
        }
    }
}

/// The identifier of the package at position `i`.
pub open spec fn id_at(packages: Seq<Listed>, i: int) -> Seq<char> {
    packages[i].record.id
}

/// The store has a record under an identifier exactly where a package has it.
proof fn lemma_built_domain(packages: Seq<Listed>, sizes: Seq<u64>, id: Seq<char>)
    ensures
        built(packages, sizes).contains_key(id) <==> exists|i: int|
            0 <= i < packages.len() && #[trigger] id_at(packages, i) == id,
    decreases packages.len(),
{
    if packages.len() > 0 {
        let front = packages.drop_last();
        let last = packages.len() - 1;
        lemma_built_domain(front, sizes, id);
        if built(front, sizes).contains_key(id) {
            let i = choose|i: int| 0 <= i < front.len() && #[trigger] id_at(front, i) == id;
            assert(id_at(packages, i) == id);
        }
        if id_at(packages, last) == id {
            assert(0 <= last < packages.len() && id_at(packages, last) == id);
        }
        if exists|i: int| 0 <= i < packages.len() && #[trigger] id_at(packages, i) == id {
            let i = choose|i: int| 0 <= i < packages.len() && #[trigger] id_at(packages, i) == id;
            if i < last {
                assert(id_at(front, i) == id);
            }
        }
    }
}

/// The record under the identifier of a package that has no package with
/// the same identifier before it is the record of that package.
proof fn lemma_first_kept(packages: Seq<Listed>, sizes: Seq<u64>, i: int)
    requires
        0 <= i < packages.len(),
        forall|j: int| 0 <= j < i ==> #[trigger] id_at(packages, j) != id_at(packages, i),
    ensures
        built(packages, sizes).contains_key(id_at(packages, i)),
        built(packages, sizes)[id_at(packages, i)] == sized(packages, sizes, i),
    decreases packages.len(),
{
    let front = packages.drop_last();
    let last = packages.len() - 1;
    let id = id_at(packages, i);
    if i == last {
        lemma_built_domain(front, sizes, id);
        if built(front, sizes).contains_key(id) {
            let j = choose|j: int| 0 <= j < front.len() && #[trigger] id_at(front, j) == id;
            assert(id_at(packages, j) == id);
        }
    } else {
        assert forall|j: int| 0 <= j < i implies #[trigger] id_at(front, j) != id_at(front, i) by {
            assert(id_at(packages, j) != id_at(packages, i));
        }
        lemma_first_kept(front, sizes, i);
        assert(sized(front, sizes, i) == sized(packages, sizes, i));
    }
}

/// Of the packages with one identifier the first is kept: the store has a
/// record under an identifier exactly where a package has it, and the
/// record is that of the first such package, with its size.
pub proof fn law_first_wins(packages: Seq<Listed>, sizes: Seq<u64>)
    ensures
        forall|id: Seq<char>|
            built(packages, sizes).contains_key(id) <==> exists|i: int|
                0 <= i < packages.len() && #[trigger] id_at(packages, i) == id,
        forall|i: int|
            0 <= i < packages.len() && (forall|j: int|
                0 <= j < i ==> #[trigger] id_at(packages, j) != id_at(packages, i)) ==> #[trigger] built(
                packages,
                sizes,
            )[id_at(packages, i)] == sized(packages, sizes, i),
{
    assert forall|id: Seq<char>|
        built(packages, sizes).contains_key(id) <==> exists|i: int|
            0 <= i < packages.len() && #[trigger] id_at(packages, i) == id by {
        lemma_built_domain(packages, sizes, id);
    }
    assert forall|i: int|
        0 <= i < packages.len() && (forall|j: int|
            0 <= j < i ==> #[trigger] id_at(packages, j) != id_at(packages, i)) implies #[trigger] built(
        packages,
        sizes,
    )[id_at(packages, i)] == sized(packages, sizes, i) by {
        lemma_first_kept(packages, sizes, i);
    }
}

/// The store of the packages, each with the size at its position in
/// `sizes`, or zero where `sizes` is shorter. Of two packages with one
/// identifier the first is kept.
pub fn build_store(packages: &Vec<RawPackage>, sizes: &Vec<u64>) -> (store: MetadataStore)
    ensures
        store@ == built(packages.deep_view(), sizes@),
{
    let mut store = MetadataStore::new();
    let mut i: usize = 0;
    assert(packages.deep_view().take(0) =~= Seq::<Listed>::empty());
    while i < packages.len()
        invariant
            i <= packages.len(),
            store@ == built(packages.deep_view().take(i as int), sizes@),
        decreases packages.len() - i,
    {
        let mut record = packages[i].record.clone();
        record.size = if i < sizes.len() {
            sizes[i]
        } else {
            0
        };
        proof {
            let all = packages.deep_view();
            assert(all.take(i + 1).drop_last() =~= all.take(i as int));
            assert(all.take(i + 1).last() == all[i as int]);
            assert(record@ == sized(all.take(i + 1), sizes@, i as int));
        }
        store.insert(record);
        i += 1;
    }
    assert(packages.deep_view().take(i as int) =~= packages.deep_view());
    store
}

} // verus!
