//! Numbers and sizes in bytes as short texts.

use vstd::prelude::*;
use vstd::string::StringExecFns;
use crate::data::text::push_char;

verus! {

/// The character for a digit below ten.
pub open spec fn digit(d: nat) -> char {
    if d == 0 {
        '0'
    } else if d == 1 {
        '1'
    } else if d == 2 {
        '2'
    } else if d == 3 {
        '3'
    } else if d == 4 {
        '4'
    } else if d == 5 {
        '5'
    } else if d == 6 {
        '6'
    } else if d == 7 {
        '7'
    } else if d == 8 {
        '8'
    } else {
        '9'
    }
}

/// The number in decimal digits, without leading zeros.
pub open spec fn decimal(n: nat) -> Seq<char>
    decreases n,
{
    if n < 10 {
        seq![digit(n)]
    } else {
        decimal(n / 10).push(digit(n % 10))
    }
}

fn digit_char(d: u64) -> (c: char)
    requires
        d < 10,
    ensures
        c == digit(d as nat),
{
    if d == 0 {
        '0'
    } else if d == 1 {
        '1'
    } else if d == 2 {
        '2'
    } else if d == 3 {
        '3'
    } else if d == 4 {
        '4'
    } else if d == 5 {
        '5'
    } else if d == 6 {
        '6'
    } else if d == 7 {
        '7'
    } else if d == 8 {
        '8'
    } else {
        '9'
    }
}

/// Appends the decimal digits of `n` to `out`.
pub fn push_decimal(out: &mut String, n: u64)
    ensures
        final(out)@ == old(out)@ + decimal(n as nat),
{
    let mut digits: Vec<char> = Vec::new();
    digits.push(digit_char(n % 10));
    let mut rest: u64 = n / 10;
    assert(digits@.reverse() =~= seq![digit((n % 10) as nat)]);
    assert(decimal(n as nat) =~= (if rest == 0 {
        Seq::<char>::empty()
    } else {
        decimal(rest as nat)
    }) + digits@.reverse());
    while rest > 0
        invariant
            digits.len() > 0,
            decimal(n as nat) == (if rest == 0 {
                Seq::<char>::empty()
            } else {
                decimal(rest as nat)
            }) + digits@.reverse(),
        decreases rest,
    {
        let ghost before = digits@;
        let ghost was = rest;
        digits.push(digit_char(rest % 10));
        rest = rest / 10;
        proof {
            let d = digit((was % 10) as nat);
            assert(digits@.reverse() =~= seq![d] + before.reverse());
            let head = if rest == 0 {
                Seq::<char>::empty()
            } else {
                decimal(rest as nat)
            };
            assert(decimal(was as nat) =~= head + seq![d]);
            assert(decimal(n as nat) =~= head + digits@.reverse());
        }
    }
    let mut i: usize = digits.len();
    assert(digits@.reverse().take(0) =~= Seq::<char>::empty());
    while i > 0
        invariant
            i <= digits.len(),
            out@ == old(out)@ + digits@.reverse().take(digits.len() - i),
        decreases i,
    {
        i -= 1;
        let ghost shown = digits@.reverse().take(digits.len() - i - 1);
        push_char(out, digits[i]);
        assert(digits@.reverse().take(digits.len() - i) =~= shown.push(digits@[i as int]));
    }
    assert(digits@.reverse().take(digits.len() as int) =~= digits@.reverse());
}

/// The unit in which a size of `size` bytes is shown: the largest of bytes,
/// KB, MB and GB, each 1024 of the one before, of which it holds at least
/// one; bytes for a size below 1024.
pub open spec fn unit_of(size: u64) -> Seq<char> {
    if size < 1024 {
        seq!['B']
    } else if size / 1024 < 1024 {
        seq!['K', 'B']
    } else if size / 1024 / 1024 < 1024 {
        seq!['M', 'B']
    } else {
        seq!['G', 'B']
    }
}

/// The number of whole units of `unit_of(size)` in `size` bytes.
pub open spec fn units_in(size: u64) -> nat {
    if size < 1024 {
        size as nat
    } else if size / 1024 < 1024 {
        (size / 1024) as nat
    } else if size / 1024 / 1024 < 1024 {
        (size / 1024 / 1024) as nat
    } else {
        (size / 1024 / 1024 / 1024) as nat
    }
}

/// The text for a size: the whole units, a space, and the unit.
pub open spec fn size_text(size: u64) -> Seq<char> {
    decimal(units_in(size)) + seq![' '] + unit_of(size)
}

/// A size in bytes as whole units of the largest fitting unit up to GB,
/// such as `3 KB` for 4000.
pub fn get_size(size: u64) -> (text: String)
    ensures
        text@ == size_text(size),
{
    let mut size = size;
    let mut unit = "B";
    proof {
        reveal_strlit("B");
        reveal_strlit("KB");
        reveal_strlit("MB");
        reveal_strlit("GB");
        assert("B"@ =~= seq!['B']);
        assert("KB"@ =~= seq!['K', 'B']);
        assert("MB"@ =~= seq!['M', 'B']);
        assert("GB"@ =~= seq!['G', 'B']);
    }
    if size >= 1024 {
        size = size / 1024;
        unit = "KB";
    }
    if size >= 1024 {
        size = size / 1024;
        unit = "MB";
    }
    if size >= 1024 {
        size = size / 1024;
        unit = "GB";
    }
    let mut text = String::new();
    push_decimal(&mut text, size);
    push_char(&mut text, ' ');
    text.append(unit);
    assert(text@ =~= decimal(size as nat) + seq![' '] + unit@);
    text
}

} // verus!
