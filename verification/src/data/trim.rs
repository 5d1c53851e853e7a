//! Taking white space and quotes off the ends of a text.

use vstd::prelude::*;
use crate::data::text::{chars_of, push_char};

verus! {

/// Whether a character is white space, as `char::is_whitespace` of the
/// standard library tells it.
pub uninterp spec fn is_space(c: char) -> bool;

/// `char::is_whitespace` of the standard library. Nothing is claimed of
/// which characters are white space, only that the answer depends on the
/// character alone.
#[verifier::external_body]
pub(crate) fn char_is_whitespace(c: char) -> (r: bool)
    ensures
        r == is_space(c),
{
    c.is_whitespace()
}

/// A character that trimming takes off: white space, and a double quote
/// where `quotes` says so.
pub open spec fn is_padding(c: char, quotes: bool) -> bool {
    is_space(c) || (quotes && c == '"')
}

/// The number of padding characters at the start of `s`.
pub open spec fn padding_front(s: Seq<char>, quotes: bool) -> nat
    decreases s.len(),
{
    if s.len() > 0 && is_padding(s[0], quotes) {
        1 + padding_front(s.drop_first(), quotes)
    } else {
        0
    }
}

/// The number of padding characters at the end of `s`.
pub open spec fn padding_back(s: Seq<char>, quotes: bool) -> nat
    decreases s.len(),
{
    if s.len() > 0 && is_padding(s.last(), quotes) {
        1 + padding_back(s.drop_last(), quotes)
    } else {
        0
    }
}

/// `s` without the padding at its two ends.
pub open spec fn stripped(s: Seq<char>, quotes: bool) -> Seq<char> {
    let rest = s.skip(padding_front(s, quotes) as int);
    rest.take(rest.len() - padding_back(rest, quotes))
}

/// `s` without the white space and double quotes at its two ends.
pub open spec fn trimmed(s: Seq<char>) -> Seq<char> {
    stripped(s, true)
}

proof fn lemma_padding_front(s: Seq<char>, quotes: bool, k: int)
    requires
        0 <= k <= s.len(),
        forall|i: int| 0 <= i < k ==> is_padding(s[i], quotes),
        k < s.len() ==> !is_padding(s[k], quotes),
    ensures
        padding_front(s, quotes) == k,
    decreases k,
{
    if k > 0 {
        lemma_padding_front(s.drop_first(), quotes, k - 1);
    }
}

proof fn lemma_padding_back(s: Seq<char>, quotes: bool, k: int)
    requires
        0 <= k <= s.len(),
        forall|i: int| s.len() - k <= i < s.len() ==> is_padding(s[i], quotes),
        k < s.len() ==> !is_padding(s[s.len() - k - 1], quotes),
    ensures
        padding_back(s, quotes) == k,
    decreases k,
{
    if k > 0 {
        lemma_padding_back(s.drop_last(), quotes, k - 1);
    }
}

fn is_padding_char(c: char, quotes: bool) -> (r: bool)
    ensures
        r == is_padding(c, quotes),
{
    char_is_whitespace(c) || (quotes && c == '"')
}

/// The characters from `from` up to `to`, without the padding at the two ends.
pub(crate) fn strip_range(chars: &Vec<char>, from: usize, to: usize, quotes: bool) -> (r: String)
    requires
        from <= to <= chars.len(),
    ensures
        r@ == stripped(chars@.subrange(from as int, to as int), quotes),
{
    let ghost part = chars@.subrange(from as int, to as int);
    let mut start: usize = from;
    while start < to && is_padding_char(chars[start], quotes)
        invariant
            from <= start <= to <= chars.len(),
            part == chars@.subrange(from as int, to as int),
            forall|i: int| 0 <= i < start - from ==> is_padding(part[i], quotes),
        decreases to - start,
    {
        start += 1;
    }
    let mut end: usize = to;
    while end > start && is_padding_char(chars[end - 1], quotes)
        invariant
            from <= start <= end <= to <= chars.len(),
            part == chars@.subrange(from as int, to as int),
            forall|i: int| end - from <= i < part.len() ==> is_padding(part[i], quotes),
        decreases end,
    {
        end -= 1;
    }
    let ghost rest = part.skip(start - from);
    proof {
        if start < to {
            assert(part[start - from] == chars@[start as int]);
        }
        lemma_padding_front(part, quotes, start - from);
        if end > start {
            assert(rest[end - start - 1] == chars@[end - 1]);
        }
        assert forall|i: int| rest.len() - (to - end) <= i < rest.len() implies is_padding(rest[i], quotes) by {
            assert(rest[i] == part[i + (start - from)]);
        }
        lemma_padding_back(rest, quotes, to - end);
    }
    let mut r = String::new();
    let mut i: usize = start;
    assert(rest.take(0) =~= Seq::<char>::empty());
    while i < end
        invariant
            from <= start <= i <= end <= to <= chars.len(),
            rest == chars@.subrange(from as int, to as int).skip(start - from),
            r@ == rest.take(i - start),
        decreases end - i,
    {
        push_char(&mut r, chars[i]);
        assert(rest.take(i + 1 - start) =~= rest.take(i - start).push(chars@[i as int]));
        i += 1;
    }
    r
}

/// A copy of `s` without the white space and double quotes at its two ends.
pub fn trim_padding(s: &str) -> (r: String)
    ensures
        r@ == trimmed(s@),
{
    let chars = chars_of(s);
    assert(chars@.subrange(0, chars.len() as int) =~= chars@);
    strip_range(&chars, 0, chars.len(), true)
}

} // verus!
