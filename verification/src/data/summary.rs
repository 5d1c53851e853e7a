//! Figures over a list of records.

use vstd::prelude::*;
use crate::data::filter::{filtered, lemma_filtered_push, passes_filter};
use crate::data::metadata::{Metadata, Package};

verus! {

/// The sizes of the records added up.
pub open spec fn total_size(records: Seq<Package>) -> nat
    decreases records.len(),
{
    if records.len() == 0 {
        0
    } else {
        total_size(records.drop_last()) + records.last().size as nat
    }
}

/// How many records a list holds and how many bytes they take together.
#[derive(Clone, Copy, Debug, PartialEq, Eq, Structural)]
pub struct Summary {
    pub count: usize,
    /// The sum of the sizes, or `u64::MAX` where the sum is larger.
    pub total_size: u64,
}

/// Count and total size of the records that pass the filter text.
pub fn summarize(records: &Vec<Metadata>, text: &str) -> (summary: Summary)
    ensures
        summary.count == filtered(records.deep_view(), text@).len(),
        summary.total_size == if total_size(filtered(records.deep_view(), text@)) <= u64::MAX {
            total_size(filtered(records.deep_view(), text@))
        } else {
            u64::MAX as nat
        },
{
    let mut count: usize = 0;
    let mut total: u64 = 0;
    let mut i: usize = 0;
    assert(records.deep_view().take(0) =~= Seq::<Package>::empty());
    while i < records.len()
        invariant
            i <= records.len(),
            count <= i,
            count == filtered(records.deep_view().take(i as int), text@).len(),
            total == if total_size(filtered(records.deep_view().take(i as int), text@)) <= u64::MAX {
                total_size(filtered(records.deep_view().take(i as int), text@))
            } else {
                u64::MAX as nat
            },
        decreases records.len() - i,
    {
        proof {
            let front = records.deep_view().take(i as int);
            assert(records.deep_view().take(i + 1) =~= front.push(records@[i as int]@));
            lemma_filtered_push(front, records@[i as int]@, text@);
            assert(filtered(front, text@).push(records@[i as int]@).drop_last() =~= filtered(front, text@));
        }
        if passes_filter(&records[i], text) {
            count += 1;
            let size = records[i].size;
            if size > u64::MAX - total {
                total = u64::MAX;
            } else {
                total = total + size;
            }
        }
        i += 1;
    }
    assert(records.deep_view().take(i as int) =~= records.deep_view());
    Summary { count, total_size: total }
}

/// The texts of `parts` in a row with `separator` between each two.
pub open spec fn joined(parts: Seq<Seq<char>>, separator: char) -> Seq<char>
    decreases parts.len(),
{
    if parts.len() == 0 {
        Seq::empty()
    } else if parts.len() == 1 {
        parts[0]
    } else {
        joined(parts.drop_last(), separator).push(separator) + parts.last()
    }
}

/// The names of the records.
pub open spec fn names_of(records: Seq<Package>) -> Seq<Seq<char>> {
    records.map_values(|record: Package| record.name)
}

/// The names of the records in a row with a slash between each two.
pub fn joined_path(records: &Vec<Metadata>) -> (path: String)
    ensures
        path@ == joined(names_of(records.deep_view()), '/'),
{
    let mut path = String::new();
    let mut i: usize = 0;
    let ghost names = names_of(records.deep_view());
    assert(names.take(0) =~= Seq::<Seq<char>>::empty());
    while i < records.len()
        invariant
            i <= records.len(),
            names == names_of(records.deep_view()),
            path@ == joined(names.take(i as int), '/'),
        decreases records.len() - i,
    {
        let ghost before = path@;
        if i > 0 {
            crate::data::text::push_char(&mut path, '/');
        }
        vstd::string::StringExecFns::append(&mut path, records[i].name.as_str());
        proof {
            assert(names.take(i + 1).drop_last() =~= names.take(i as int));
            assert(names.take(i + 1).last() == records@[i as int]@.name);
            if i == 0 {
                assert(path@ =~= names.take(1)[0]);
            } else {
                assert(path@ =~= before.push('/') + names.take(i + 1).last());
            }
        }
        i += 1;
    }
    assert(names.take(i as int) =~= names);
    path
}

} // verus!
