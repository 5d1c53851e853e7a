//! The package records of one graph, found by identifier.

use vstd::prelude::*;
use vstd::hash_map::StringHashMap;
use crate::data::metadata::{Metadata, Package};

verus! {

/// The record that `store` gives for `id`: the one kept under `id`, or the
/// zero record where none is kept.
pub open spec fn lookup(store: Map<Seq<char>, Package>, id: Seq<char>) -> Package {
    if store.contains_key(id) {
        store[id]
    } else {
        Package::zero()
    }
}

/// Package records by identifier. Each record is kept under its own
/// identifier, and the first record added under an identifier stays.
pub struct MetadataStore {
    records: StringHashMap<Metadata>,
}

impl View for MetadataStore {
    type V = Map<Seq<char>, Package>;

    closed spec fn view(&self) -> Map<Seq<char>, Package> {
        self.records@.map_values(|m: Metadata| m@)
    }
}

impl MetadataStore {
    #[verifier::type_invariant]
    spec fn inv(self) -> bool {
        &&& self.records@.dom().finite()
        &&& forall|id: Seq<char>| #[trigger] self.records@.contains_key(id) ==> self.records@[id].id@ == id
    }

    /// A store with no record.
    pub fn new() -> (store: MetadataStore)
        ensures
            store@ == Map::<Seq<char>, Package>::empty(),
    {
        let store = MetadataStore { records: StringHashMap::new() };
        assert(store@ =~= Map::<Seq<char>, Package>::empty());
        store
    }

    /// The number of records. A store never holds more than finitely many,
    /// and each stands under the identifier that it carries.
    pub fn len(&self) -> (n: usize)
        ensures
            self@.dom().finite(),
            n == self@.len(),
            forall|id: Seq<char>| #[trigger] self@.contains_key(id) ==> self@[id].id == id,
    {
        proof {
            use_type_invariant(self);
        }
        assert(self@.dom() =~= self.records@.dom());
        self.records.len()
    }

    /// Tells whether a record is kept under `id`.
    pub fn contains(&self, id: &str) -> (r: bool)
        ensures
            r == self@.contains_key(id@),
    {
        self.records.contains_key(id)
    }

    /// Adds `record` under its identifier unless a record is kept there
    /// already, and tells whether it was added.
    pub fn insert(&mut self, record: Metadata) -> (added: bool)
        ensures
            added == !old(self)@.contains_key(record@.id),
            added ==> final(self)@ == old(self)@.insert(record@.id, record@),
            !added ==> final(self)@ == old(self)@,
    {
        proof {
            use_type_invariant(&*self);
        }
        if self.records.contains_key(record.id.as_str()) {
            false
        } else {
            let key = record.id.clone();
            let mut records = StringHashMap::new();
            std::mem::swap(&mut records, &mut self.records);
            records.insert(key, record);
            self.records = records;
            assert(self@ =~= old(self)@.insert(record@.id, record@));
            true
        }
    }

    /// A copy of the record kept under `id`, or the zero record where none
    /// is kept. A record that is kept carries the identifier it is kept under.
    pub fn get_metadata(&self, id: &str) -> (record: Metadata)
        ensures
            record@ == lookup(self@, id@),
            self@.contains_key(id@) ==> record@.id == id@,
    {
        proof {
            use_type_invariant(self);
        }
        match self.records.get(id) {
            Some(found) => found.clone(),
            None => Metadata::default(),
        }
    }
}

} // verus!
