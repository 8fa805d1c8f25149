//! Reading the active toolchain out of `rustup show active-toolchain`.
use vstd::prelude::*;
use crate::diff::{split_lines, str_lines};
use crate::text::{chars_of, string_of_range, trim, trim_bounds};
use crate::toml_model::utf8_text;
use vstd::utf8::{decode_utf8, valid_utf8};

verus! {

/// `s` up to (not including) its first space.
pub open spec fn up_to_space(s: Seq<char>) -> Seq<char>
    decreases s.len(),
{
    if s.len() == 0 || s[0] == ' ' {
        Seq::empty()
    } else {
        seq![s[0]] + up_to_space(s.drop_first())
    }
}

/// The toolchain a line of rustup's output names: the trimmed line, cut
/// at its first space (which drops a ` (default)` annotation).
pub open spec fn toolchain_head(line: Seq<char>) -> Seq<char> {
    up_to_space(trim(line))
}

/// The first line that names a toolchain, if any.
pub open spec fn first_toolchain(lines: Seq<Seq<char>>) -> Option<Seq<char>>
    decreases lines.len(),
{
    if lines.len() == 0 {
        None
    } else if toolchain_head(lines[0]).len() > 0 {
        Some(toolchain_head(lines[0]))
    } else {
        first_toolchain(lines.drop_first())
    }
}

/// What rustup's standard output names: nothing when it is not UTF-8,
/// else the first line that names a toolchain.
pub open spec fn active_toolchain(stdout: Seq<u8>) -> Option<Seq<char>> {
    if valid_utf8(stdout) {
        first_toolchain(str_lines(decode_utf8(stdout)))
    } else {
        None
    }
}

/// The toolchain named by one line, as a fresh `String`; `None` when the
/// line names none.
fn line_head(line: &String) -> (r: Option<String>)
    ensures
        match r {
            None => toolchain_head(line@).len() == 0,
            Some(s) => s@ == toolchain_head(line@) && s@.len() > 0,
        },
{
    let cs = chars_of(line.as_str());
    let (a, b) = trim_bounds(&cs, 0, cs.len());
    let mut j = a;
    while j < b && cs[j] != ' '
        invariant
            a <= j <= b <= cs@.len(),
            cs@ == line@,
            cs@.subrange(a as int, b as int) == trim(cs@.subrange(0, cs@.len() as int)),
            up_to_space(cs@.subrange(a as int, b as int)) == cs@.subrange(a as int, j as int) + up_to_space(
                cs@.subrange(j as int, b as int),
            ),
        decreases b - j,
    {
        let ghost t = cs@.subrange(j as int, b as int);
        assert(t.drop_first() =~= cs@.subrange(j + 1, b as int));
        assert(t[0] == cs@[j as int]);
        assert(cs@.subrange(a as int, j + 1) =~= cs@.subrange(a as int, j as int) + seq![cs@[j as int]]);
        j = j + 1;
    }
    proof {
        let t = cs@.subrange(j as int, b as int);
        assert(j < b ==> t[0] == cs@[j as int]);
        assert(up_to_space(t) =~= Seq::<char>::empty());
        assert(cs@.subrange(0, cs@.len() as int) =~= line@);
        assert(cs@.subrange(a as int, j as int) + Seq::<char>::empty() =~= cs@.subrange(a as int, j as int));
    }
    if j == a {
        None
    } else {
        Some(string_of_range(&cs, a, j))
    }
}

/// Parses `rustup show active-toolchain` output: the first line that is
/// not blank, trimmed and cut at its first space; `None` when the bytes
/// are not UTF-8 or no line names a toolchain.
pub fn parse_active_toolchain(stdout: &[u8]) -> (r: Option<String>)
    ensures
        match active_toolchain(stdout@) {
            None => r is None,
            Some(t) => r matches Some(s) && s@ == t,
        },
{
    let text = match utf8_text(stdout) {
        Ok(t) => t,
        Err(_) => {
            return None;
        },
    };
    let lines = split_lines(text.as_str());
    let ghost ls = lines.deep_view();
    assert(ls.subrange(0, ls.len() as int) =~= ls);
    let mut i: usize = 0;
    while i < lines.len()
        invariant
            i <= lines@.len(),
            ls == lines.deep_view(),
            ls == str_lines(decode_utf8(stdout@)),
            valid_utf8(stdout@),
            first_toolchain(ls) == first_toolchain(ls.subrange(i as int, ls.len() as int)),
        decreases lines@.len() - i,
    {
        let head = line_head(&lines[i]);
        let ghost rest = ls.subrange(i as int, ls.len() as int);
        assert(rest[0] == lines@[i as int]@);
        assert(rest.drop_first() =~= ls.subrange(i + 1, ls.len() as int));
        if head.is_some() {
            return head;
        }
        i = i + 1;
    }
    assert(ls.subrange(i as int, ls.len() as int) =~= Seq::<Seq<char>>::empty());
    None
}

} // verus!
