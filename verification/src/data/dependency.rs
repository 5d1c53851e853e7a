//! A package named by name and version.

use vstd::prelude::*;
use crate::data::text::{push_char, push_unquoted, unquoted};

verus! {

/// A package as a lock file names it.
#[derive(Debug)]
pub struct Dependency {
    pub name: String,
    pub version: String,
}

/// A package named by name and version, as mathematical values.
pub struct Pinned {
    pub name: Seq<char>,
    pub version: Seq<char>,
}

impl DeepView for Dependency {
    type V = Pinned;

    open spec fn deep_view(&self) -> Pinned {
        Pinned { name: self.name@, version: self.version@ }
    }
}

impl View for Dependency {
    type V = Pinned;

    open spec fn view(&self) -> Pinned {
        self.deep_view()
    }
}

impl Clone for Dependency {
    fn clone(&self) -> (dep: Dependency)
        ensures
            dep@ == self@,
    {
        Dependency { name: self.name.clone(), version: self.version.clone() }
    }
}

/// Name and version with a hyphen between them and no double quote left.
pub open spec fn key_of(name: Seq<char>, version: Seq<char>) -> Seq<char> {
    unquoted(name + seq!['-'] + version)
}

impl Dependency {
    /// The key under which the package's directory is found: name, hyphen,
    /// version, without any double quote.
    pub fn get_key(dep: &Dependency) -> (key: String)
        ensures
            key@ == key_of(dep.name@, dep.version@),
    {
        let mut key = String::new();
        push_unquoted(&mut key, dep.name.as_str());
        push_char(&mut key, '-');
        push_unquoted(&mut key, dep.version.as_str());
        proof {
            let quoteless = |c: char| c != '"';
            let hyphen = seq!['-'];
            reveal(Seq::filter);
            assert(hyphen.drop_last() =~= Seq::<char>::empty());
            assert(hyphen.filter(quoteless) =~= hyphen);
            Seq::filter_distributes_over_add(dep.name@, hyphen, quoteless);
            Seq::filter_distributes_over_add(dep.name@ + hyphen, dep.version@, quoteless);
            assert(key@ =~= unquoted(dep.name@) + hyphen + unquoted(dep.version@));
        }
        key
    }
}

} // verus!
