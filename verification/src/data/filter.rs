//! Narrowing a list of records to those whose name holds a given text.

use vstd::prelude::*;
use crate::data::metadata::{Metadata, Package};
use crate::data::text::{is_substring, str_contains};

verus! {

/// A named filter.
#[derive(Debug)]
pub struct Filter {
    pub title: String,
}

impl Filter {
    /// A filter without a title, whatever the arguments.
    pub fn new(filter_string: &str, any: bool) -> (filter: Filter)
        ensures
            filter.title@ == Seq::<char>::empty(),
    {
        Filter { title: String::new() }
    }
}

impl Default for Filter {
    fn default() -> (filter: Filter)
        ensures
            filter.title@ == Seq::<char>::empty(),
    {
        Filter { title: String::new() }
    }
}

impl Clone for Filter {
    fn clone(&self) -> (filter: Filter)
        ensures
            filter.title@ == self.title@,
    {
        Filter { title: self.title.clone() }
    }
}

/// The record passes the filter text: the text is empty or stands in the record's name.
pub open spec fn passes(text: Seq<char>, record: Package) -> bool {
    text.len() == 0 || is_substring(text, record.name)
}

/// The records of `records` that pass the filter text, in their order.
pub open spec fn filtered(records: Seq<Package>, text: Seq<char>) -> Seq<Package> {
    records.filter(|record: Package| passes(text, record))
}

/// What the filter makes of a list with one more record at its end.
pub proof fn lemma_filtered_push(records: Seq<Package>, record: Package, text: Seq<char>)
    ensures
        filtered(records.push(record), text) == if passes(text, record) {
            filtered(records, text).push(record)
        } else {
            filtered(records, text)
        },
{
    reveal(Seq::filter);
    assert(records.push(record).drop_last() =~= records);
}

/// Every record that the filter lets through passes it.
pub proof fn lemma_filtered_pass(records: Seq<Package>, text: Seq<char>)
    ensures
        forall|i: int| 0 <= i < filtered(records, text).len() ==> passes(text, #[trigger] filtered(records, text)[i]),
        filtered(records, text).len() <= records.len(),
    decreases records.len(),
{
    reveal(Seq::filter);
    if records.len() > 0 {
        lemma_filtered_pass(records.drop_last(), text);
    }
}

/// Filtering by a text what was already filtered by that text changes nothing.
pub proof fn law_filter_idempotent(records: Seq<Package>, text: Seq<char>)
    ensures
        filtered(filtered(records, text), text) == filtered(records, text),
    decreases records.len(),
{
    reveal(Seq::filter);
    if records.len() > 0 {
        let front = records.drop_last();
        let last = records.last();
        law_filter_idempotent(front, text);
        if passes(text, last) {
            lemma_filtered_push(filtered(front, text), last, text);
        }
    }
}

/// Every record that the filter lists is a record of the list, and two
/// records stand in the filtered list in the order they have in the list.
pub proof fn lemma_filtered_positions(records: Seq<Package>, text: Seq<char>, i: int, j: int) -> (at: (int, int))
    requires
        0 <= i < j < filtered(records, text).len(),
    ensures
        0 <= at.0 < at.1 < records.len(),
        records[at.0] == filtered(records, text)[i],
        records[at.1] == filtered(records, text)[j],
    decreases records.len(),
{
    reveal(Seq::filter);
    let front = records.drop_last();
    let kept = filtered(front, text);
    if passes(text, records.last()) && j == kept.len() {
        lemma_filtered_push(front, records.last(), text);
        assert(front.push(records.last()) =~= records);
        let k = lemma_filtered_position(front, text, i);
        (k, records.len() - 1)
    } else {
        lemma_filtered_positions(front, text, i, j)
    }
}

/// Every record that the filter lists is a record of the list.
pub proof fn lemma_filtered_position(records: Seq<Package>, text: Seq<char>, i: int) -> (at: int)
    requires
        0 <= i < filtered(records, text).len(),
    ensures
        0 <= at < records.len(),
        records[at] == filtered(records, text)[i],
    decreases records.len(),
{
    reveal(Seq::filter);
    let front = records.drop_last();
    let kept = filtered(front, text);
    if passes(text, records.last()) && i == kept.len() {
        records.len() - 1
    } else {
        lemma_filtered_position(front, text, i)
    }
}

/// Tells whether `record` passes the filter text.
pub fn passes_filter(record: &Metadata, text: &str) -> (r: bool)
    ensures
        r == passes(text@, record@),
{
    text.is_empty() || str_contains(record.name.as_str(), text)
}

/// Copies of the records that pass the filter text, in their order.
pub fn filter_deps(records: &Vec<Metadata>, text: &str) -> (kept: Vec<Metadata>)
    ensures
        kept.deep_view() == filtered(records.deep_view(), text@),
{
    let mut kept: Vec<Metadata> = Vec::new();
    let mut i: usize = 0;
    assert(records.deep_view().take(0) =~= Seq::<Package>::empty());
    assert(kept.deep_view() =~= Seq::<Package>::empty());
    while i < records.len()
        invariant
            i <= records.len(),
            kept.deep_view() == filtered(records.deep_view().take(i as int), text@),
        decreases records.len() - i,
    {
        let ghost kept_before = kept.deep_view();
        proof {
            let front = records.deep_view().take(i as int);
            assert(records.deep_view().take(i + 1) =~= front.push(records@[i as int]@));
            lemma_filtered_push(front, records@[i as int]@, text@);
        }
        if passes_filter(&records[i], text) {
            kept.push(records[i].clone());
            assert(kept.deep_view() =~= kept_before.push(records@[i as int]@));
        }
        i += 1;
    }
    assert(records.deep_view().take(i as int) =~= records.deep_view());
    kept
}

/// A copy of the record in row `index` of what the filter lists, if there is such a row.
pub fn nth_filtered(records: &Vec<Metadata>, text: &str, index: usize) -> (entry: Option<Metadata>)
    ensures
        match entry {
            Some(record) => index < filtered(records.deep_view(), text@).len() && record@ == filtered(
                records.deep_view(),
                text@,
            )[index as int],
            None => index >= filtered(records.deep_view(), text@).len(),
        },
{
    let mut n: usize = 0;
    let mut i: usize = 0;
    assert(records.deep_view().take(0) =~= Seq::<Package>::empty());
    while i < records.len()
        invariant
            i <= records.len(),
            n <= index,
            n == filtered(records.deep_view().take(i as int), text@).len(),
        decreases records.len() - i,
    {
        proof {
            let all = records.deep_view();
            let front = all.take(i as int);
            assert(all.take(i + 1) =~= front.push(records@[i as int]@));
            lemma_filtered_push(front, records@[i as int]@, text@);
            assert(all =~= all.take(i + 1) + all.skip(i + 1));
            Seq::filter_distributes_over_add(
                all.take(i + 1),
                all.skip(i + 1),
                |record: Package| passes(text@, record),
            );
        }
        if passes_filter(&records[i], text) {
            if n == index {
                return Some(records[i].clone());
            }
            n += 1;
        }
        i += 1;
    }
    assert(records.deep_view().take(i as int) =~= records.deep_view());
    None
}

/// The number of records that pass the filter text.
pub fn count_filtered(records: &Vec<Metadata>, text: &str) -> (n: usize)
    ensures
        n == filtered(records.deep_view(), text@).len(),
{
    let mut n: usize = 0;
    let mut i: usize = 0;
    assert(records.deep_view().take(0) =~= Seq::<Package>::empty());
    while i < records.len()
        invariant
            i <= records.len(),
            n <= i,
            n == filtered(records.deep_view().take(i as int), text@).len(),
        decreases records.len() - i,
    {
        proof {
            let front = records.deep_view().take(i as int);
            assert(records.deep_view().take(i + 1) =~= front.push(records@[i as int]@));
            lemma_filtered_push(front, records@[i as int]@, text@);
        }
        if passes_filter(&records[i], text) {
            n += 1;
        }
        i += 1;
    }
    assert(records.deep_view().take(i as int) =~= records.deep_view());
    n
}

} // verus!
