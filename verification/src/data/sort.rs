//! Stable ordering of package records by one key, in either direction.

use vstd::prelude::*;
use crate::data::metadata::{Metadata, Package};
use crate::data::text::{lemma_lex_irreflexive, lemma_lex_total, lemma_lex_transitive, lex_less, str_less};
use crate::ui::screen::OrderBy;

verus! {

/// `a` must stand before `b` when records are ordered by `order`, ascending
/// if `asc` and descending if not. Records with equal keys precede neither way.
pub open spec fn precedes(a: Package, b: Package, order: OrderBy, asc: bool) -> bool {
    let x = if asc { a } else { b };
    let y = if asc { b } else { a };
    match order {
        OrderBy::Size => x.size < y.size,
        OrderBy::Name => lex_less(x.name, y.name),
        OrderBy::Version => lex_less(x.version, y.version),
    }
}

/// The ordered sequence `s` with `x` added behind every record that `x` does
/// not have to stand before.
pub open spec fn insert_stable(s: Seq<Package>, x: Package, order: OrderBy, asc: bool) -> Seq<Package>
    decreases s.len(),
{
    if s.len() == 0 || !precedes(x, s.last(), order, asc) {
        s.push(x)
    } else {
        insert_stable(s.drop_last(), x, order, asc).push(s.last())
    }
}

/// The records of `s` in order, those with equal keys in the order they have in `s`.
pub open spec fn sorted(s: Seq<Package>, order: OrderBy, asc: bool) -> Seq<Package>
    decreases s.len(),
{
    if s.len() == 0 {
        s
    } else {
        insert_stable(sorted(s.drop_last(), order, asc), s.last(), order, asc)
    }
}

/// Neither of the two has to stand before the other: their keys are equal.
pub open spec fn ties(a: Package, b: Package, order: OrderBy, asc: bool) -> bool {
    !precedes(a, b, order, asc) && !precedes(b, a, order, asc)
}

/// No record of `s` has to stand before one that is in front of it.
pub open spec fn in_order(s: Seq<Package>, order: OrderBy, asc: bool) -> bool {
    forall|i: int, j: int| 0 <= i < j < s.len() ==> !precedes(s[j], s[i], order, asc)
}

/// `precedes` is a strict order in which having equal keys is an
/// equivalence: it never holds both ways, it carries over a record in the
/// middle, and a record with the key of another stands where the other does.
pub proof fn lemma_precedes_is_order(a: Package, b: Package, c: Package, order: OrderBy, asc: bool)
    ensures
        !precedes(a, a, order, asc),
        !(precedes(a, b, order, asc) && precedes(b, a, order, asc)),
        precedes(a, b, order, asc) && precedes(b, c, order, asc) ==> precedes(a, c, order, asc),
        precedes(a, c, order, asc) ==> precedes(a, b, order, asc) || precedes(b, c, order, asc),
        ties(a, b, order, asc) && ties(b, c, order, asc) ==> ties(a, c, order, asc),
{
    let ka = match order {
        OrderBy::Size => Seq::<char>::empty(),
        OrderBy::Name => a.name,
        OrderBy::Version => a.version,
    };
    let kb = match order {
        OrderBy::Size => Seq::<char>::empty(),
        OrderBy::Name => b.name,
        OrderBy::Version => b.version,
    };
    let kc = match order {
        OrderBy::Size => Seq::<char>::empty(),
        OrderBy::Name => c.name,
        OrderBy::Version => c.version,
    };
    lemma_lex_irreflexive(ka);
    lemma_lex_total(ka, kb);
    lemma_lex_total(kb, kc);
    lemma_lex_total(ka, kc);
    if lex_less(ka, kb) && lex_less(kb, kc) {
        lemma_lex_transitive(ka, kb, kc);
    }
    if lex_less(kc, kb) && lex_less(kb, ka) {
        lemma_lex_transitive(kc, kb, ka);
    }
}

/// Where `insert_stable` puts a record into `s`.
pub open spec fn insert_point(s: Seq<Package>, x: Package, order: OrderBy, asc: bool) -> int
    decreases s.len(),
{
    if s.len() == 0 || !precedes(x, s.last(), order, asc) {
        s.len() as int
    } else {
        insert_point(s.drop_last(), x, order, asc)
    }
}

/// `insert_stable` puts the record in front of the records that it has to
/// stand before, the last ones of the list, and behind all others.
pub proof fn lemma_insert_point(s: Seq<Package>, x: Package, order: OrderBy, asc: bool)
    ensures
        0 <= insert_point(s, x, order, asc) <= s.len(),
        insert_stable(s, x, order, asc) == s.insert(insert_point(s, x, order, asc), x),
        forall|k: int| insert_point(s, x, order, asc) <= k < s.len() ==> precedes(x, s[k], order, asc),
        insert_point(s, x, order, asc) > 0 ==> !precedes(x, s[insert_point(s, x, order, asc) - 1], order, asc),
    decreases s.len(),
{
    if s.len() == 0 || !precedes(x, s.last(), order, asc) {
        assert(s.push(x) =~= s.insert(s.len() as int, x));
    } else {
        let front = s.drop_last();
        lemma_insert_point(front, x, order, asc);
        let at = insert_point(front, x, order, asc);
        assert(front.insert(at, x).push(s.last()) =~= s.insert(at, x));
        assert forall|k: int| at <= k < s.len() implies precedes(x, s[k], order, asc) by {
            if k < front.len() {
                assert(front[k] == s[k]);
            }
        }
    }
}

/// A list in order stays in order when `insert_stable` adds a record.
proof fn lemma_insert_in_order(s: Seq<Package>, x: Package, order: OrderBy, asc: bool)
    requires
        in_order(s, order, asc),
    ensures
        in_order(insert_stable(s, x, order, asc), order, asc),
{
    lemma_insert_point(s, x, order, asc);
    let at = insert_point(s, x, order, asc);
    let r = s.insert(at, x);
    assert forall|i: int, j: int| 0 <= i < j < r.len() implies !precedes(r[j], r[i], order, asc) by {
        if j == at {
            // r[j] is the new record, r[i] stood in front of the insert point
            assert(r[i] == s[i]);
            lemma_precedes_is_order(x, s[at - 1], s[i], order, asc);
            if i < at - 1 {
                assert(!precedes(s[at - 1], s[i], order, asc));
            }
        } else if i == at {
            assert(r[j] == s[j - 1]);
            lemma_precedes_is_order(x, s[j - 1], x, order, asc);
        } else {
            let si = if i < at { i } else { i - 1 };
            let sj = if j < at { j } else { j - 1 };
            assert(r[i] == s[si] && r[j] == s[sj]);
        }
    }
}

/// The ordered list is in order.
pub proof fn law_sorted_in_order(s: Seq<Package>, order: OrderBy, asc: bool)
    ensures
        in_order(sorted(s, order, asc), order, asc),
    decreases s.len(),
{
    if s.len() > 0 {
        law_sorted_in_order(s.drop_last(), order, asc);
        lemma_insert_in_order(sorted(s.drop_last(), order, asc), s.last(), order, asc);
    }
}

/// Ordering a list that is in order changes nothing.
pub proof fn law_sorted_of_ordered(s: Seq<Package>, order: OrderBy, asc: bool)
    requires
        in_order(s, order, asc),
    ensures
        sorted(s, order, asc) == s,
    decreases s.len(),
{
    if s.len() > 0 {
        let front = s.drop_last();
        assert forall|i: int, j: int| 0 <= i < j < front.len() implies !precedes(front[j], front[i], order, asc) by {
            assert(front[i] == s[i] && front[j] == s[j]);
        }
        law_sorted_of_ordered(front, order, asc);
        if front.len() > 0 {
            assert(front.last() == s[s.len() - 2]);
        }
        assert(front.push(s.last()) =~= s);
    }
}

/// The ordered list holds the records of the list, each as often as the list does.
pub proof fn law_sorted_same_records(s: Seq<Package>, order: OrderBy, asc: bool)
    ensures
        sorted(s, order, asc).to_multiset() == s.to_multiset(),
    decreases s.len(),
{
    broadcast use vstd::seq_lib::group_to_multiset_ensures;

    if s.len() > 0 {
        let front = s.drop_last();
        let done = sorted(front, order, asc);
        law_sorted_same_records(front, order, asc);
        lemma_insert_point(done, s.last(), order, asc);
        let at = insert_point(done, s.last(), order, asc);
        vstd::seq_lib::to_multiset_insert(done, at, s.last());
        vstd::seq_lib::to_multiset_build(front, s.last());
        assert(front.push(s.last()) =~= s);
    } else {
        assert(sorted(s, order, asc) =~= s);
    }
}

/// Records with equal keys keep the order that they have in the list: what
/// the ordered list holds of the records with the key of `y` is what the
/// list holds of them, in the same order.
pub proof fn law_sorted_is_stable(s: Seq<Package>, y: Package, order: OrderBy, asc: bool)
    ensures
        tied_with(sorted(s, order, asc), y, order, asc) == tied_with(s, y, order, asc),
    decreases s.len(),
{
    reveal(Seq::filter);
    let same = |p: Package| ties(p, y, order, asc);
    if s.len() > 0 {
        let front = s.drop_last();
        let x = s.last();
        let done = sorted(front, order, asc);
        law_sorted_is_stable(front, y, order, asc);
        lemma_insert_point(done, x, order, asc);
        let at = insert_point(done, x, order, asc);
        let head = done.take(at);
        let tail = done.skip(at);
        assert(done =~= head + tail);
        assert(done.insert(at, x) =~= head + seq![x] + tail);
        Seq::filter_distributes_over_add(head, tail, same);
        Seq::filter_distributes_over_add(head, seq![x], same);
        Seq::filter_distributes_over_add(head + seq![x], tail, same);
        assert(seq![x].drop_last() =~= Seq::<Package>::empty());
        assert(seq![x].last() == x);
        assert(Seq::<Package>::empty().filter(same) =~= Seq::<Package>::empty());
        if same(x) {
            // nothing behind the insert point has the key of `y`
            assert forall|k: int| 0 <= k < tail.len() implies !same(tail[k]) by {
                assert(precedes(x, done[at + k], order, asc));
                lemma_precedes_is_order(tail[k], y, x, order, asc);
                lemma_precedes_is_order(x, tail[k], x, order, asc);
            }
            tail.lemma_all_neg_filter_empty(same);
            assert(tail.filter(same) =~= Seq::<Package>::empty());
            assert(seq![x].filter(same) =~= seq![x]);
            assert(sorted(s, order, asc).filter(same) =~= done.filter(same).push(x));
        } else {
            assert(seq![x].filter(same) =~= Seq::<Package>::empty());
            assert(sorted(s, order, asc).filter(same) =~= done.filter(same));
        }
    }
}

/// What `s` holds of the records with the key of `y`, in the order of `s`.
pub open spec fn tied_with(s: Seq<Package>, y: Package, order: OrderBy, asc: bool) -> Seq<Package> {
    s.filter(|p: Package| ties(p, y, order, asc))
}

/// `r` holds the records of `s`, each as often as `s` does, in order, and
/// those with equal keys in the order that they have in `s`.
pub open spec fn is_stable_ordering(r: Seq<Package>, s: Seq<Package>, order: OrderBy, asc: bool) -> bool {
    &&& r.to_multiset() == s.to_multiset()
    &&& in_order(r, order, asc)
    &&& forall|y: Package| #[trigger] tied_with(r, y, order, asc) == tied_with(s, y, order, asc)
}

/// What a list with one more record at its end holds of the records with
/// the key of `y`.
proof fn lemma_tied_push(s: Seq<Package>, x: Package, y: Package, order: OrderBy, asc: bool)
    ensures
        tied_with(s.push(x), y, order, asc) == if ties(x, y, order, asc) {
            tied_with(s, y, order, asc).push(x)
        } else {
            tied_with(s, y, order, asc)
        },
{
    reveal(Seq::filter);
    assert(s.push(x).drop_last() =~= s);
}

/// Two lists in order that hold the same records, those with equal keys in
/// the same order, are one list.
proof fn lemma_stable_ordering_unique(a: Seq<Package>, b: Seq<Package>, order: OrderBy, asc: bool)
    requires
        a.to_multiset() == b.to_multiset(),
        in_order(a, order, asc),
        in_order(b, order, asc),
        forall|y: Package| #[trigger] tied_with(a, y, order, asc) == tied_with(b, y, order, asc),
    ensures
        a == b,
    decreases a.len(),
{
    broadcast use vstd::seq_lib::group_to_multiset_ensures;

    vstd::seq_lib::to_multiset_len(a);
    vstd::seq_lib::to_multiset_len(b);
    if a.len() == 0 {
        assert(a =~= b);
    } else {
        let x = a.last();
        let z = b.last();
        let fa = a.drop_last();
        let fb = b.drop_last();
        assert(fa.push(x) =~= a);
        assert(fb.push(z) =~= b);
        lemma_precedes_is_order(x, x, x, order, asc);
        lemma_tied_push(fa, x, x, order, asc);
        lemma_tied_push(fb, z, x, order, asc);
        assert(tied_with(a, x, order, asc) == tied_with(b, x, order, asc));
        if !ties(z, x, order, asc) {
            // `z` stands in `a` in front of `x`, and `x` in `b` in front of `z`
            assert(b.contains(z));
            assert(a.to_multiset().count(z) > 0);
            assert(a.contains(z));
            let m = choose|m: int| 0 <= m < a.len() && a[m] == z;
            assert(m < a.len() - 1);
            assert(!precedes(a[a.len() - 1], a[m], order, asc));
            assert(a.contains(x));
            assert(b.to_multiset().count(x) > 0);
            assert(b.contains(x));
            let k = choose|k: int| 0 <= k < b.len() && b[k] == x;
            assert(k < b.len() - 1);
            assert(!precedes(b[b.len() - 1], b[k], order, asc));
        }
        assert(tied_with(a, x, order, asc).last() == x);
        assert(tied_with(b, x, order, asc).last() == z);
        assert(x == z);
        assert(fa.to_multiset() =~= fb.to_multiset()) by {
            assert(fa.to_multiset() =~= a.to_multiset().remove(x));
            assert(fb.to_multiset() =~= b.to_multiset().remove(x));
        }
        assert forall|i: int, j: int| 0 <= i < j < fa.len() implies !precedes(fa[j], fa[i], order, asc) by {
            assert(fa[i] == a[i] && fa[j] == a[j]);
        }
        assert forall|i: int, j: int| 0 <= i < j < fb.len() implies !precedes(fb[j], fb[i], order, asc) by {
            assert(fb[i] == b[i] && fb[j] == b[j]);
        }
        assert forall|y: Package| #[trigger] tied_with(fa, y, order, asc) == tied_with(fb, y, order, asc) by {
            lemma_tied_push(fa, x, y, order, asc);
            lemma_tied_push(fb, x, y, order, asc);
            assert(tied_with(a, y, order, asc) == tied_with(b, y, order, asc));
            if ties(x, y, order, asc) {
                assert(tied_with(fa, y, order, asc) =~= tied_with(a, y, order, asc).drop_last());
                assert(tied_with(fb, y, order, asc) =~= tied_with(b, y, order, asc).drop_last());
            }
        }
        lemma_stable_ordering_unique(fa, fb, order, asc);
    }
}

/// The ordered list is the one stable ordering of the list: it is one, and
/// every stable ordering of the list is the ordered list.
pub proof fn law_sorted_is_the_stable_ordering(r: Seq<Package>, s: Seq<Package>, order: OrderBy, asc: bool)
    ensures
        is_stable_ordering(sorted(s, order, asc), s, order, asc),
        is_stable_ordering(r, s, order, asc) ==> r == sorted(s, order, asc),
{
    law_sorted_same_records(s, order, asc);
    law_sorted_in_order(s, order, asc);
    assert forall|y: Package| #[trigger]
        tied_with(sorted(s, order, asc), y, order, asc) == tied_with(s, y, order, asc) by {
        law_sorted_is_stable(s, y, order, asc);
    }
    if is_stable_ordering(r, s, order, asc) {
        assert forall|y: Package| #[trigger]
            tied_with(r, y, order, asc) == tied_with(sorted(s, order, asc), y, order, asc) by {
            assert(tied_with(r, y, order, asc) == tied_with(s, y, order, asc));
        }
        lemma_stable_ordering_unique(r, sorted(s, order, asc), order, asc);
    }
}

/// Ordering adds and drops no record.
pub proof fn lemma_sorted_len(s: Seq<Package>, order: OrderBy, asc: bool)
    ensures
        sorted(s, order, asc).len() == s.len(),
    decreases s.len(),
{
    if s.len() > 0 {
        lemma_sorted_len(s.drop_last(), order, asc);
        lemma_insert_len(sorted(s.drop_last(), order, asc), s.last(), order, asc);
    }
}

proof fn lemma_insert_len(s: Seq<Package>, x: Package, order: OrderBy, asc: bool)
    ensures
        insert_stable(s, x, order, asc).len() == s.len() + 1,
    decreases s.len(),
{
    if s.len() > 0 && precedes(x, s.last(), order, asc) {
        lemma_insert_len(s.drop_last(), x, order, asc);
    }
}

/// Where `insert_stable` puts `x`: behind position `at`, given that `x` must
/// stand before everything from `at` on and not before the record in front of `at`.
proof fn lemma_insert_position(s: Seq<Package>, x: Package, order: OrderBy, asc: bool, at: int)
    requires
        0 <= at <= s.len(),
        forall|k: int| at <= k < s.len() ==> precedes(x, s[k], order, asc),
        at > 0 ==> !precedes(x, s[at - 1], order, asc),
    ensures
        insert_stable(s, x, order, asc) == s.insert(at, x),
    decreases s.len() - at,
{
    if at == s.len() {
        assert(s.push(x) =~= s.insert(at, x));
    } else {
        let t = s.drop_last();
        lemma_insert_position(t, x, order, asc, at);
        assert(t.insert(at, x).push(s.last()) =~= s.insert(at, x));
    }
}

/// Tells whether `a` must stand before `b`.
pub fn before(a: &Metadata, b: &Metadata, order: OrderBy, asc: bool) -> (r: bool)
    ensures
        r == precedes(a@, b@, order, asc),
{
    let x = if asc { a } else { b };
    let y = if asc { b } else { a };
    match order {
        OrderBy::Size => x.size < y.size,
        OrderBy::Name => str_less(x.name.as_str(), y.name.as_str()),
        OrderBy::Version => str_less(x.version.as_str(), y.version.as_str()),
    }
}

/// Orders `vec` by `order`, ascending if `sorting_asc` and descending if not.
/// Records with equal keys keep their order.
pub fn sorting_impl(vec: &mut Vec<Metadata>, order: OrderBy, sorting_asc: bool)
    ensures
        final(vec).deep_view() == sorted(old(vec).deep_view(), order, sorting_asc),
{
    let ghost orig = vec.deep_view();
    let mut i: usize = 0;
    assert(orig.take(0) =~= Seq::<Package>::empty());
    while i < vec.len()
        invariant
            i <= vec.len(),
            vec.len() == orig.len(),
            vec.deep_view().take(i as int) == sorted(orig.take(i as int), order, sorting_asc),
            vec.deep_view().skip(i as int) == orig.skip(i as int),
        decreases vec.len() - i,
    {
        let ghost before_step = vec.deep_view();
        let x = vec.remove(i);
        let ghost prefix = before_step.take(i as int);
        assert(x@ == orig[i as int]) by {
            assert(before_step.skip(i as int)[0] == orig.skip(i as int)[0]);
        }
        let mut j: usize = i;
        while j > 0 && before(&x, &vec[j - 1], order, sorting_asc)
            invariant
                j <= i,
                i < vec.len() + 1,
                vec.deep_view().take(i as int) == prefix,
                forall|k: int| j <= k < i ==> precedes(x@, prefix[k], order, sorting_asc),
            decreases j,
        {
            j -= 1;
        }
        proof {
            assert(vec.deep_view().take(i as int) =~= prefix);
            if j > 0 {
                assert(prefix[j - 1] == vec@[j - 1]@);
            }
            lemma_insert_position(prefix, x@, order, sorting_asc, j as int);
            assert(orig.take(i + 1).drop_last() =~= orig.take(i as int));
            assert(orig.take(i + 1).last() == orig[i as int]);
        }
        let ghost rest = vec.deep_view().skip(i as int);
        assert(rest =~= before_step.skip(i + 1));
        vec.insert(j, x);
        proof {
            assert(vec.deep_view().take(i + 1) =~= prefix.insert(j as int, x@));
            assert(vec.deep_view().skip(i + 1) =~= rest);
            assert(rest =~= orig.skip(i + 1)) by {
                assert forall|k: int| 0 <= k < rest.len() implies rest[k] == orig.skip(i + 1)[k] by {
                    assert(rest[k] == before_step.skip(i as int)[k + 1]);
                }
            }
        }
        i += 1;
    }
    assert(vec.deep_view().take(i as int) =~= vec.deep_view());
    assert(orig.take(i as int) =~= orig);
}

} // verus!
