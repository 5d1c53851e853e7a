//! The packages that a lock file pins.
//!
//! A lock file is read line by line. A line with an equals sign assigns the
//! text behind the sign to the key in front of it; white space around both,
//! and double quotes around the text, do not count. A `name` is remembered
//! until a `version` follows, and the two together pin a package.

use vstd::prelude::*;
use vstd::string::StringExecFns;
use crate::data::dependency::{Dependency, Pinned};
use crate::data::text::{chars_of, find_char, first_index, replace_all, replaced};
use crate::data::trim::{strip_range, stripped};

verus! {

/// The lines of `s`: the runs between its line feeds.
pub open spec fn lines_of(s: Seq<char>) -> Seq<Seq<char>>
    decreases s.len(),
{
    let end = first_index(s, '\n') as int;
    if end >= s.len() {
        seq![s]
    } else {
        seq![s.take(end)] + lines_of(s.skip(end + 1))
    }
}

/// Key and text of a line that assigns, or none for a line without an
/// equals sign.
pub open spec fn assignment(line: Seq<char>) -> Option<(Seq<char>, Seq<char>)> {
    let sign = first_index(line, '=') as int;
    if sign < line.len() {
        Some((stripped(line.take(sign), false), stripped(line.skip(sign + 1), true)))
    } else {
        None
    }
}

/// What is known after some lines: the name that waits for its version,
/// empty if none does, and the packages pinned so far.
pub struct Scan {
    pub name: Seq<char>,
    pub pinned: Seq<Pinned>,
}

/// What is known after one more line. A `name` replaces the name that
/// waits. A `version` pins a package if a name waits and the version is
/// not empty, and then no name waits any more. Any other line changes nothing.
pub open spec fn scan_line(before: Scan, line: Seq<char>) -> Scan {
    match assignment(line) {
        Some((key, text)) => if key == "name"@ {
            Scan { name: text, ..before }
        } else if key == "version"@ && before.name.len() > 0 && text.len() > 0 {
            Scan { name: Seq::empty(), pinned: before.pinned.push(Pinned { name: before.name, version: text }) }
        } else {
            before
        },
        None => before,
    }
}

/// What is known after the lines, read in order.
pub open spec fn scan(lines: Seq<Seq<char>>) -> Scan
    decreases lines.len(),
{
    if lines.len() == 0 {
        Scan { name: Seq::empty(), pinned: Seq::empty() }
    } else {
        scan_line(scan(lines.drop_last()), lines.last())
    }
}

/// The packages that the lock file with the text `content` pins, in its order.
pub open spec fn pinned_by(content: Seq<char>) -> Seq<Pinned> {
    scan(lines_of(content)).pinned
}

/// Where the lock file lies that belongs to the manifest at `path`.
pub fn lock_path(path: &str) -> (lock: String)
    ensures
        lock@ == replaced(path@, "/Cargo.toml"@, "/Cargo.lock"@),
{
    replace_all(path, "/Cargo.toml", "/Cargo.lock")
}

/// The packages that the lock file with the text `content` pins, in its order.
pub fn parse_lock_file(content: &str) -> (crates: Vec<Dependency>)
    ensures
        crates.deep_view() == pinned_by(content@),
{
    let chars = chars_of(content);
    let name_key = String::from_str("name");
    let version_key = String::from_str("version");
    let mut crates: Vec<Dependency> = Vec::new();
    let mut name = String::new();
    let mut start: usize = 0;
    let ghost mut done: Seq<Seq<char>> = Seq::empty();
    proof {
        assert(chars@.skip(0) =~= chars@);
        assert(done + lines_of(chars@) =~= lines_of(chars@));
        assert(crates.deep_view() =~= Seq::<Pinned>::empty());
    }
    loop
        invariant
            start <= chars.len(),
            chars@ == content@,
            name_key@ == "name"@,
            version_key@ == "version"@,
            done + lines_of(chars@.skip(start as int)) == lines_of(chars@),
            scan(done) == (Scan { name: name@, pinned: crates.deep_view() }),
        decreases chars.len() - start,
    {
        let end = find_char(&chars, start, chars.len(), '\n');
        let sign = find_char(&chars, start, end, '=');
        let ghost rest = chars@.skip(start as int);
        let ghost line = chars@.subrange(start as int, end as int);
        let ghost before = scan(done);
        let ghost pinned_before = crates.deep_view();
        proof {
            assert(rest =~= chars@.subrange(start as int, chars.len() as int));
            assert(first_index(rest, '\n') == end - start);
            if end < chars.len() {
                assert(rest.take(end - start) =~= line);
                assert(rest.skip(end - start + 1) =~= chars@.skip(end + 1));
            } else {
                assert(rest =~= line);
            }
            assert(line.take(sign - start) =~= chars@.subrange(start as int, sign as int));
            if sign < end {
                assert(line.skip(sign - start + 1) =~= chars@.subrange(sign + 1, end as int));
            }
            assert(done.push(line).drop_last() =~= done);
        }
        if sign < end {
            let key = strip_range(&chars, start, sign, false);
            let text = strip_range(&chars, sign + 1, end, true);
            if key == name_key {
                name = text;
            } else if key == version_key {
                if !name.as_str().is_empty() && !text.as_str().is_empty() {
                    crates.push(Dependency { name: name, version: text });
                    name = String::new();
                    assert(crates.deep_view() =~= pinned_before.push(
                        Pinned { name: before.name, version: text@ },
                    ));
                }
            }
        }
        proof {
            assert(scan(done.push(line)) == scan_line(before, line));
            assert(scan(done.push(line)) == (Scan { name: name@, pinned: crates.deep_view() }));
        }
        if end == chars.len() {
            proof {
                assert(lines_of(rest) =~= seq![line]);
                assert(done + seq![line] =~= done.push(line));
            }
            return crates;
        }
        proof {
            assert(lines_of(rest) =~= seq![line] + lines_of(chars@.skip(end + 1)));
            assert(done.push(line) + lines_of(chars@.skip(end + 1)) =~= done + lines_of(rest));
            done = done.push(line);
        }
        start = end + 1;
    }
}

} // verus!
