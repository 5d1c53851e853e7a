//! The record kept for each package of the graph.

use vstd::prelude::*;

verus! {

/// What is known of one package. An empty string stands for a piece of
/// information that is absent, and a size of zero for an unknown size.
#[derive(Debug)]
pub struct Metadata {
    /// Identifier of the package, unique in a graph.
    pub id: String,
    pub name: String,
    pub version: String,
    pub license: String,
    /// Bytes taken by the package's archive on disk.
    pub size: u64,
    pub documentation: String,
    pub description: String,
    /// Identifiers of the direct dependencies, in the order of the source.
    pub dependencies: Vec<String>,
}

/// A package record as mathematical values.
pub struct Package {
    pub id: Seq<char>,
    pub name: Seq<char>,
    pub version: Seq<char>,
    pub license: Seq<char>,
    pub size: u64,
    pub documentation: Seq<char>,
    pub description: Seq<char>,
    pub dependencies: Seq<Seq<char>>,
}

impl Package {
    /// The record that stands for a package of which nothing is known.
    pub open spec fn zero() -> Package {
        Package {
            id: Seq::empty(),
            name: Seq::empty(),
            version: Seq::empty(),
            license: Seq::empty(),
            size: 0,
            documentation: Seq::empty(),
            description: Seq::empty(),
            dependencies: Seq::empty(),
        }
    }
}

impl DeepView for Metadata {
    type V = Package;

    open spec fn deep_view(&self) -> Package {
        Package {
            id: self.id@,
            name: self.name@,
            version: self.version@,
            license: self.license@,
            size: self.size,
            documentation: self.documentation@,
            description: self.description@,
            dependencies: self.dependencies.deep_view(),
        }
    }
}

impl View for Metadata {
    type V = Package;

    open spec fn view(&self) -> Package {
        self.deep_view()
    }
}

impl Default for Metadata {
    fn default() -> (m: Metadata)
        ensures
            m@ == Package::zero(),
    {
        let m = Metadata {
            id: String::new(),
            name: String::new(),
            version: String::new(),
            license: String::new(),
            size: 0,
            documentation: String::new(),
            description: String::new(),
            dependencies: Vec::new(),
        };
        assert(m.dependencies.deep_view() =~= Seq::<Seq<char>>::empty());
        m
    }
}

impl Clone for Metadata {
    fn clone(&self) -> (m: Metadata)
        ensures
            m@ == self@,
    {
        let m = Metadata {
            id: self.id.clone(),
            name: self.name.clone(),
            version: self.version.clone(),
            license: self.license.clone(),
            size: self.size,
            documentation: self.documentation.clone(),
            description: self.description.clone(),
            dependencies: self.dependencies.clone(),
        };
        assert(m.dependencies.deep_view() =~= self.dependencies.deep_view());
        m
    }
}

} // verus!
