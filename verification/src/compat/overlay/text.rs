//! Text-level parts of the overlay manifest: recovering the comments the
//! TOML model drops, and the byte shape of the serialized manifest.
use vstd::prelude::*;
use crate::diff::{line_scan, split_lines, str_lines, strip_cr};
use crate::text::{chars_of, push_char, string_of_range, strip_end, trail_count, trim, trim_bounds};

verus! {

/// Where the comment scanner stands.
#[derive(PartialEq, Eq, Structural, Clone, Copy)]
pub enum ScanMode {
    /// Outside any string.
    Out,
    /// Inside `"..."`.
    Basic,
    /// Inside `'...'`.
    Literal,
    /// Inside `"""..."""`.
    MultiBasic,
    /// Inside `'''...'''`.
    MultiLiteral,
}

/// `s[i..i+3]` is three copies of `q`.
pub open spec fn triple_at(s: Seq<char>, i: int, q: char) -> bool {
    i + 2 < s.len() && s[i] == q && s[i + 1] == q && s[i + 2] == q
}

/// Length of the closing delimiter of a multi-line string at `i`, where
/// `s[i..i+3]` is three copies of `q`: a run of up to five quotes closes
/// the string on its last quote, the first one or two belonging to the
/// string's content.
pub open spec fn closing_len(s: Seq<char>, i: int, q: char) -> int {
    if i + 3 < s.len() && s[i + 3] == q {
        if i + 4 < s.len() && s[i + 4] == q {
            5
        } else {
            4
        }
    } else {
        3
    }
}

/// The end of the line that contains position `j`: the first `\n` at or
/// after `j`, or the end of `s`.
pub open spec fn line_end(s: Seq<char>, j: int) -> int
    decreases s.len() - j,
{
    if j < 0 || j >= s.len() || s[j] == '\n' {
        if j < 0 { 0 } else if j >= s.len() { s.len() as int } else { j }
    } else {
        line_end(s, j + 1)
    }
}

/// The comments found from position `i` on, reading in mode `m`: each
/// `#` outside every TOML string form starts one, which runs to the end
/// of its line and is reported trimmed and without the `#`.
pub open spec fn scan_comments(s: Seq<char>, i: int, m: ScanMode) -> Seq<Seq<char>>
    decreases s.len() - i, 1int,
{
    if i < 0 || i >= s.len() {
        Seq::empty()
    } else {
        let c = s[i];
        match m {
            ScanMode::MultiBasic => if c == '\\' && i + 1 < s.len() {
                scan_comments(s, i + 2, m)
            } else if triple_at(s, i, '"') {
                scan_comments(s, i + closing_len(s, i, '"'), ScanMode::Out)
            } else {
                scan_comments(s, i + 1, m)
            },
            ScanMode::MultiLiteral => if triple_at(s, i, '\'') {
                scan_comments(s, i + closing_len(s, i, '\''), ScanMode::Out)
            } else {
                scan_comments(s, i + 1, m)
            },
            ScanMode::Basic => if c == '\\' && i + 1 < s.len() {
                scan_comments(s, i + 2, m)
            } else if c == '"' || c == '\n' {
                scan_comments(s, i + 1, ScanMode::Out)
            } else {
                scan_comments(s, i + 1, m)
            },
            ScanMode::Literal => if c == '\'' || c == '\n' {
                scan_comments(s, i + 1, ScanMode::Out)
            } else {
                scan_comments(s, i + 1, m)
            },
            ScanMode::Out => if c == '#' {
                let e = line_end(s, i + 1);
                if i < e <= s.len() {
                    seq![trim(s.subrange(i + 1, e))] + scan_comments(s, e, ScanMode::Out)
                } else {
                    Seq::empty()
                }
            } else if c == '"' {
                if triple_at(s, i, '"') {
                    scan_comments(s, i + 3, ScanMode::MultiBasic)
                } else {
                    scan_comments(s, i + 1, ScanMode::Basic)
                }
            } else if c == '\'' {
                if triple_at(s, i, '\'') {
                    scan_comments(s, i + 3, ScanMode::MultiLiteral)
                } else {
                    scan_comments(s, i + 1, ScanMode::Literal)
                }
            } else {
                scan_comments(s, i + 1, m)
            },
        }
    }
}

pub proof fn lemma_line_end_bounds(s: Seq<char>, j: int)
    requires
        0 <= j <= s.len(),
    ensures
        j <= line_end(s, j) <= s.len(),
        forall|k: int| j <= k < line_end(s, j) ==> s[k] != '\n',
        line_end(s, j) < s.len() ==> s[line_end(s, j)] == '\n',
    decreases s.len() - j,
{
    if j < s.len() && s[j] != '\n' {
        lemma_line_end_bounds(s, j + 1);
    }
}

fn triple(cs: &Vec<char>, i: usize, q: char) -> (r: bool)
    requires
        i < cs@.len(),
    ensures
        r == triple_at(cs@, i as int, q),
{
    cs.len() - i > 2 && cs[i] == q && cs[i + 1] == q && cs[i + 2] == q
}

fn closing(cs: &Vec<char>, i: usize, q: char) -> (r: usize)
    requires
        triple_at(cs@, i as int, q),
    ensures
        r == closing_len(cs@, i as int, q),
        i + r <= cs@.len(),
{
    if cs.len() - i > 3 && cs[i + 3] == q {
        if cs.len() - i > 4 && cs[i + 4] == q {
            5
        } else {
            4
        }
    } else {
        3
    }
}

/// The comments of a TOML document, in order, each trimmed and without
/// its `#`; a `#` inside any of the four string forms is not a comment.
pub fn scan_dropped_comments(text: &str) -> (out: Vec<String>)
    ensures
        out.deep_view() == scan_comments(text@, 0, ScanMode::Out),
{
    let cs = chars_of(text);
    let ghost s = cs@;
    let n = cs.len();
    let mut out: Vec<String> = Vec::new();
    let mut i: usize = 0;
    let mut m = ScanMode::Out;
    while i < n
        invariant
            s == cs@,
            s == text@,
            n == s.len(),
            i <= n,
            out.deep_view() + scan_comments(s, i as int, m) == scan_comments(s, 0, ScanMode::Out),
        decreases n - i,
    {
        let c = cs[i];
        let ghost before = out.deep_view();
        match m {
            ScanMode::MultiBasic => {
                if c == '\\' && i + 1 < n {
                    i = i + 2;
                } else if triple(&cs, i, '"') {
                    m = ScanMode::Out;
                    i = i + closing(&cs, i, '"');
                } else {
                    i = i + 1;
                }
            },
            ScanMode::MultiLiteral => {
                if triple(&cs, i, '\'') {
                    m = ScanMode::Out;
                    i = i + closing(&cs, i, '\'');
                } else {
                    i = i + 1;
                }
            },
            ScanMode::Basic => {
                if c == '\\' && i + 1 < n {
                    i = i + 2;
                } else if c == '"' || c == '\n' {
                    m = ScanMode::Out;
                    i = i + 1;
                } else {
                    i = i + 1;
                }
            },
            ScanMode::Literal => {
                if c == '\'' || c == '\n' {
                    m = ScanMode::Out;
                }
                i = i + 1;
            },
            ScanMode::Out => {
                if c == '#' {
                    let start = i + 1;
                    let mut end = start;
                    proof {
                        lemma_line_end_bounds(s, start as int);
                    }
                    while end < n && cs[end] != '\n'
                        invariant
                            s == cs@,
                            n == s.len(),
                            start <= end <= n,
                            start <= line_end(s, start as int) <= n,
                            line_end(s, start as int) == line_end(s, end as int),
                        decreases n - end,
                    {
                        end = end + 1;
                    }
                    let (a, b) = trim_bounds(&cs, start, end);
                    let body = string_of_range(&cs, a, b);
                    out.push(body);
                    proof {
                        assert(line_end(s, end as int) == end);
                        assert(out.deep_view() =~= before.push(trim(s.subrange(start as int, end as int))));
                        assert(out.deep_view() + scan_comments(s, end as int, ScanMode::Out) =~= before + (seq![
                            trim(s.subrange(start as int, end as int)),
                        ] + scan_comments(s, end as int, ScanMode::Out)));
                    }
                    i = end;
                } else if c == '"' {
                    if triple(&cs, i, '"') {
                        m = ScanMode::MultiBasic;
                        i = i + 3;
                    } else {
                        m = ScanMode::Basic;
                        i = i + 1;
                    }
                } else if c == '\'' {
                    if triple(&cs, i, '\'') {
                        m = ScanMode::MultiLiteral;
                        i = i + 3;
                    } else {
                        m = ScanMode::Literal;
                        i = i + 1;
                    }
                } else {
                    i = i + 1;
                }
            },
        }
    }
    proof {
        assert(out.deep_view() + Seq::<Seq<char>>::empty() =~= out.deep_view());
    }
    out
}

/// The first comment on `line`, if it has one.
pub fn extract_unquoted_comment(line: &str) -> (r: Option<String>)
    ensures
        match r {
            None => scan_comments(line@, 0, ScanMode::Out).len() == 0,
            Some(c) => scan_comments(line@, 0, ScanMode::Out).len() > 0 && c@ == scan_comments(
                line@,
                0,
                ScanMode::Out,
            )[0],
        },
{
    let mut comments = scan_dropped_comments(line);
    if comments.len() == 0 {
        None
    } else {
        Some(comments.remove(0))
    }
}

/// Padding `post_process_output` strips from line ends.
pub open spec fn is_line_pad(c: char) -> bool {
    c == ' ' || c == '\t' || c == '\r'
}

/// `l` with every `\r` dropped.
pub open spec fn no_cr(l: Seq<char>) -> Seq<char>
    decreases l.len(),
{
    if l.len() == 0 {
        l
    } else if l.last() == '\r' {
        no_cr(l.drop_last())
    } else {
        no_cr(l.drop_last()).push(l.last())
    }
}

/// The lines of `input`, each without any `\r` and without padding at
/// its end.
pub open spec fn padless_lines(input: Seq<char>) -> Seq<Seq<char>> {
    str_lines(input).map_values(|l: Seq<char>| strip_end(no_cr(l), |c: char| is_line_pad(c)))
}

/// `ls` with every blank line that follows a blank line dropped.
pub open spec fn collapse_blank_runs(ls: Seq<Seq<char>>) -> Seq<Seq<char>>
    decreases ls.len(),
{
    if ls.len() == 0 {
        Seq::empty()
    } else {
        let pre = collapse_blank_runs(ls.drop_last());
        if ls.last().len() == 0 && ls.len() >= 2 && ls[ls.len() - 2].len() == 0 {
            pre
        } else {
            pre.push(ls.last())
        }
    }
}

/// Each line followed by `\n`.
pub open spec fn render_lines(ls: Seq<Seq<char>>) -> Seq<char>
    decreases ls.len(),
{
    if ls.len() == 0 {
        Seq::empty()
    } else {
        render_lines(ls.drop_last()) + ls.last() + seq!['\n']
    }
}

/// The byte shape of a serialized manifest: lines without end padding,
/// no two blank lines in a row, and exactly one `\n` at the end.
pub open spec fn post_process(input: Seq<char>) -> Seq<char> {
    strip_end(render_lines(collapse_blank_runs(padless_lines(input))), |c: char| c == '\n') + seq!['\n']
}

fn char_is_line_pad(c: char) -> (r: bool)
    ensures
        r == is_line_pad(c),
{
    c == ' ' || c == '\t' || c == '\r'
}

/// `line` without any `\r` and without padding at its end, as characters.
fn padless(line: &String) -> (r: Vec<char>)
    ensures
        r@ == strip_end(no_cr(line@), |c: char| is_line_pad(c)),
{
    let raw = chars_of(line.as_str());
    let mut cs: Vec<char> = Vec::new();
    let mut i: usize = 0;
    while i < raw.len()
        invariant
            i <= raw@.len(),
            cs@ == no_cr(raw@.take(i as int)),
        decreases raw@.len() - i,
    {
        assert(raw@.take(i + 1).drop_last() =~= raw@.take(i as int));
        assert(raw@.take(i + 1).last() == raw@[i as int]);
        if raw[i] != '\r' {
            cs.push(raw[i]);
        }
        i = i + 1;
    }
    assert(raw@.take(raw@.len() as int) =~= raw@);
    let ghost p = |c: char| is_line_pad(c);
    assert(cs@.subrange(0, cs@.len() as int) =~= cs@);
    let mut j = cs.len();
    while j > 0 && char_is_line_pad(cs[j - 1])
        invariant
            j <= cs@.len(),
            p == (|c: char| is_line_pad(c)),
            trail_count(cs@, p) == (cs@.len() - j) + trail_count(cs@.subrange(0, j as int), p),
        decreases j,
    {
        assert(cs@.subrange(0, j as int).drop_last() =~= cs@.subrange(0, j - 1));
        assert(cs@.subrange(0, j as int).last() == cs@[j - 1]);
        assert(p(cs@[j - 1]));
        j = j - 1;
    }
    assert(cs@.subrange(0, cs@.len() as int) =~= cs@);
    let mut r: Vec<char> = Vec::new();
    let mut i: usize = 0;
    while i < j
        invariant
            i <= j <= cs@.len(),
            r@ == cs@.subrange(0, i as int),
        decreases j - i,
    {
        r.push(cs[i]);
        assert(r@ =~= cs@.subrange(0, i + 1));
        i = i + 1;
    }
    r
}

/// Applies the manifest byte shape: `\n` line ends and no `\r` at all,
/// no padding at line ends, runs of blank lines collapsed to one, one final `\n`.
pub fn post_process_output(input: &str) -> (out: String)
    ensures
        out@ == post_process(input@),
{
    let lines = split_lines(input);
    let ghost pl = padless_lines(input@);
    let mut tl: Vec<Vec<char>> = Vec::new();
    let mut i: usize = 0;
    while i < lines.len()
        invariant
            i <= lines@.len(),
            lines.deep_view() == str_lines(input@),
            pl == padless_lines(input@),
            tl@.len() == i,
            forall|k: int| 0 <= k < i ==> (#[trigger] tl@[k])@ == pl[k],
        decreases lines@.len() - i,
    {
        let t = padless(&lines[i]);
        tl.push(t);
        i = i + 1;
    }
    let ghost tv = Seq::new(tl@.len(), |k: int| tl@[k]@);
    assert(tv =~= pl);
    let mut body: Vec<char> = Vec::new();
    let mut prev_blank = false;
    let mut i: usize = 0;
    while i < tl.len()
        invariant
            i <= tl@.len(),
            tv == Seq::new(tl@.len(), |k: int| tl@[k]@),
            body@ == render_lines(collapse_blank_runs(tv.take(i as int))),
            prev_blank == (i > 0 && tv[i - 1].len() == 0),
        decreases tl@.len() - i,
    {
        let line = &tl[i];
        let is_blank = line.len() == 0;
        let ghost pre = tv.take(i as int);
        assert(tv.take(i + 1).drop_last() =~= pre);
        assert(tv.take(i + 1).last() == line@);
        if is_blank && prev_blank {
            assert(tv.take(i + 1)[i - 1] == tv[i - 1]);
        } else {
            let ghost b0 = body@;
            let mut k: usize = 0;
            while k < line.len()
                invariant
                    k <= line@.len(),
                    body@ == b0 + line@.subrange(0, k as int),
                decreases line@.len() - k,
            {
                body.push(line[k]);
                assert(body@ =~= b0 + line@.subrange(0, k + 1));
                k = k + 1;
            }
            body.push('\n');
            proof {
                assert(line@.subrange(0, line@.len() as int) =~= line@);
                assert(body@ =~= b0 + line@ + seq!['\n']);
                if i > 0 {
                    assert(tv.take(i + 1)[i - 1] == tv[i - 1]);
                }
                let c0 = collapse_blank_runs(pre);
                assert(collapse_blank_runs(tv.take(i + 1)) == c0.push(line@));
                assert(c0.push(line@).drop_last() =~= c0);
            }
            prev_blank = is_blank;
        }
        i = i + 1;
    }
    assert(tv.take(tl@.len() as int) =~= tv);
    let ghost nl = |c: char| c == '\n';
    assert(body@.subrange(0, body@.len() as int) =~= body@);
    let mut j = body.len();
    while j > 0 && body[j - 1] == '\n'
        invariant
            j <= body@.len(),
            nl == (|c: char| c == '\n'),
            trail_count(body@, nl) == (body@.len() - j) + trail_count(body@.subrange(0, j as int), nl),
        decreases j,
    {
        assert(body@.subrange(0, j as int).drop_last() =~= body@.subrange(0, j - 1));
        assert(body@.subrange(0, j as int).last() == body@[j - 1]);
        j = j - 1;
    }
    assert(body@.subrange(0, body@.len() as int) =~= body@);
    let mut out = string_of_range(&body, 0, j);
    push_char(&mut out, '\n');
    out
}

/// Cargo's table order for the top level of a manifest.
pub open spec fn canonical_keys() -> Seq<Seq<char>> {
    seq![
        "package"@,
        "lib"@,
        "bin"@,
        "example"@,
        "test"@,
        "bench"@,
        "dependencies"@,
        "dev-dependencies"@,
        "build-dependencies"@,
        "target"@,
        "features"@,
        "patch"@,
        "replace"@,
        "profile"@,
        "workspace"@,
    ]
}

/// Cargo's table order for the top level of a manifest; other keys come
/// after these, alphabetically.
pub fn canonical_key_order() -> (r: Vec<&'static str>)
    ensures
        r@.len() == 15,
        forall|i: int| 0 <= i < 15 ==> (#[trigger] r@[i])@ == canonical_keys()[i],
{
    vec![
        "package",
        "lib",
        "bin",
        "example",
        "test",
        "bench",
        "dependencies",
        "dev-dependencies",
        "build-dependencies",
        "target",
        "features",
        "patch",
        "replace",
        "profile",
        "workspace",
    ]
}

proof fn lemma_strip_end_last(s: Seq<char>, p: spec_fn(char) -> bool)
    ensures
        strip_end(s, p).len() > 0 ==> !p(strip_end(s, p).last()),
        strip_end(s, p).len() <= s.len(),
    decreases s.len(),
{
    crate::text::lemma_trail_count_bound(s, p);
    if s.len() > 0 && p(s.last()) {
        lemma_strip_end_last(s.drop_last(), p);
        crate::text::lemma_trail_count_bound(s.drop_last(), p);
        assert(strip_end(s, p) =~= strip_end(s.drop_last(), p));
    } else {
        assert(strip_end(s, p) =~= s);
    }
}

/// A post-processed manifest ends with exactly one `\n`.
pub proof fn lemma_post_process_one_final_newline(input: Seq<char>)
    ensures
        post_process(input).len() >= 1,
        post_process(input).last() == '\n',
        post_process(input).len() >= 2 ==> post_process(input)[post_process(input).len() - 2] != '\n',
{
    let r = render_lines(collapse_blank_runs(padless_lines(input)));
    let p = |c: char| c == '\n';
    lemma_strip_end_last(r, p);
    let t = strip_end(r, p);
    assert(post_process(input) == t + seq!['\n']);
    if t.len() > 0 {
        assert(post_process(input)[post_process(input).len() - 2] == t.last());
    }
}

/// A line as the post-processing keeps it: no `\n` inside and no
/// padding at its end.
pub open spec fn line_ok(l: Seq<char>) -> bool {
    &&& forall|k: int| 0 <= k < l.len() ==> l[k] != '\n' && l[k] != '\r'
    &&& l.len() > 0 ==> !is_line_pad(l.last())
}

/// `l` keeps no `\r`, and no `\n` unless `l` had one.
proof fn lemma_no_cr(l: Seq<char>)
    ensures
        no_cr(l).len() <= l.len(),
        forall|k: int| 0 <= k < no_cr(l).len() ==> no_cr(l)[k] != '\r',
        (forall|j: int| 0 <= j < l.len() ==> l[j] != '\n') ==> forall|k: int|
            0 <= k < no_cr(l).len() ==> no_cr(l)[k] != '\n',
    decreases l.len(),
{
    if l.len() > 0 {
        let t = l.drop_last();
        lemma_no_cr(t);
        if (forall|j: int| 0 <= j < l.len() ==> l[j] != '\n') {
            assert forall|j: int| 0 <= j < t.len() implies t[j] != '\n' by {
                assert(t[j] == l[j]);
            }
        }
        if l.last() != '\r' {
            let c = no_cr(t).push(l.last());
            assert forall|k: int| 0 <= k < c.len() implies c[k] != '\r' by {
                if k < no_cr(t).len() {
                    assert(c[k] == no_cr(t)[k]);
                }
            }
            if (forall|j: int| 0 <= j < l.len() ==> l[j] != '\n') {
                assert forall|k: int| 0 <= k < c.len() implies c[k] != '\n' by {
                    if k < no_cr(t).len() {
                        assert(c[k] == no_cr(t)[k]);
                    } else {
                        assert(l[l.len() - 1] != '\n');
                    }
                }
            }
        }
    }
}

/// No `\r` anywhere.
pub open spec fn no_cr_in(s: Seq<char>) -> bool {
    forall|i: int| 0 <= i < s.len() ==> #[trigger] s[i] != '\r'
}

proof fn lemma_render_no_cr(ls: Seq<Seq<char>>)
    requires
        forall|k: int| 0 <= k < ls.len() ==> line_ok(#[trigger] ls[k]),
    ensures
        no_cr_in(render_lines(ls)),
    decreases ls.len(),
{
    if ls.len() > 0 {
        let t = ls.drop_last();
        assert forall|k: int| 0 <= k < t.len() implies line_ok(#[trigger] t[k]) by {
            assert(t[k] == ls[k]);
        }
        lemma_render_no_cr(t);
        let pre = render_lines(t);
        let l = ls.last();
        assert(line_ok(ls[ls.len() - 1]));
        let r = render_lines(ls);
        assert(r == pre + l + seq!['\n']);
        assert forall|i: int| 0 <= i < r.len() implies #[trigger] r[i] != '\r' by {
            if i < pre.len() {
                assert(r[i] == pre[i]);
            } else if i < pre.len() + l.len() {
                assert(r[i] == l[i - pre.len()]);
            }
        }
    }
}

/// No padding right before a `\n`.
pub open spec fn no_pad_before_newline(s: Seq<char>) -> bool {
    forall|i: int| 0 <= i && i + 1 < s.len() && s[i + 1] == '\n' ==> !is_line_pad(#[trigger] s[i])
}

/// No two blank lines in a row: no `\n\n\n`.
pub open spec fn no_blank_run(s: Seq<char>) -> bool {
    forall|i: int|
        0 <= i && i + 2 < s.len() && #[trigger] s[i] == '\n' && s[i + 1] == '\n' ==> s[i + 2] != '\n'
}

proof fn lemma_line_scan_no_newline(s: Seq<char>, i: int)
    ensures
        forall|j: int, k: int|
            0 <= j < line_scan(s, i).0.len() && 0 <= k < line_scan(s, i).0[j].len() ==> #[trigger] line_scan(
                s,
                i,
            ).0[j][k] != '\n',
        forall|k: int| 0 <= k < line_scan(s, i).1.len() ==> #[trigger] line_scan(s, i).1[k] != '\n',
    decreases i,
{
    if i > 0 {
        lemma_line_scan_no_newline(s, i - 1);
        let prev = line_scan(s, i - 1);
        if s[i - 1] == '\n' {
            let c = strip_cr(prev.1);
            assert forall|k: int| 0 <= k < c.len() implies c[k] != '\n' by {
                assert(c[k] == prev.1[k]);
            }
            let n = prev.0.push(c);
            assert forall|j: int, k: int| 0 <= j < n.len() && 0 <= k < n[j].len() implies #[trigger] n[j][k] != '\n' by {
                if j < prev.0.len() {
                    assert(n[j] == prev.0[j]);
                }
            }
        } else {
            let cur = prev.1.push(s[i - 1]);
            assert forall|k: int| 0 <= k < cur.len() implies #[trigger] cur[k] != '\n' by {
                if k < prev.1.len() {
                    assert(cur[k] == prev.1[k]);
                }
            }
        }
    }
}

proof fn lemma_padless_lines_ok(input: Seq<char>)
    ensures
        forall|j: int| 0 <= j < padless_lines(input).len() ==> line_ok(#[trigger] padless_lines(input)[j]),
{
    let r = line_scan(input, input.len() as int);
    lemma_line_scan_no_newline(input, input.len() as int);
    let ls = str_lines(input);
    assert forall|j: int, k: int| 0 <= j < ls.len() && 0 <= k < ls[j].len() implies #[trigger] ls[j][k] != '\n' by {
        if j < r.0.len() {
            assert(ls[j] == r.0[j]);
            assert(r.0[j][k] != '\n');
        } else {
            assert(ls[j] == r.1);
            assert(r.1[k] != '\n');
        }
    }
    let p = |c: char| is_line_pad(c);
    assert forall|j: int| 0 <= j < padless_lines(input).len() implies line_ok(#[trigger] padless_lines(input)[j]) by {
        let l0 = ls[j];
        assert forall|k: int| 0 <= k < l0.len() implies l0[k] != '\n' by {
            assert(ls[j][k] != '\n');
        }
        lemma_no_cr(l0);
        let l = no_cr(l0);
        let t = strip_end(l, p);
        assert(padless_lines(input)[j] == t);
        lemma_strip_end_last(l, p);
        crate::text::lemma_trail_count_bound(l, p);
        assert forall|k: int| 0 <= k < t.len() implies t[k] != '\n' && t[k] != '\r' by {
            assert(t[k] == l[k]);
        }
    }
}

proof fn lemma_collapse_shape(ls: Seq<Seq<char>>)
    requires
        forall|k: int| 0 <= k < ls.len() ==> line_ok(#[trigger] ls[k]),
    ensures
        forall|k: int| 0 <= k < collapse_blank_runs(ls).len() ==> line_ok(#[trigger] collapse_blank_runs(ls)[k]),
        forall|k: int|
            0 <= k && k + 1 < collapse_blank_runs(ls).len() && (#[trigger] collapse_blank_runs(ls)[k]).len() == 0
                ==> collapse_blank_runs(ls)[k + 1].len() > 0,
        ls.len() > 0 ==> collapse_blank_runs(ls).len() > 0 && collapse_blank_runs(ls).last() == ls.last(),
    decreases ls.len(),
{
    if ls.len() > 0 {
        let t = ls.drop_last();
        assert forall|k: int| 0 <= k < t.len() implies line_ok(#[trigger] t[k]) by {
            assert(t[k] == ls[k]);
        }
        lemma_collapse_shape(t);
        let pre = collapse_blank_runs(t);
        let l = ls.last();
        if !(l.len() == 0 && ls.len() >= 2 && ls[ls.len() - 2].len() == 0) {
            let c = pre.push(l);
            assert forall|k: int| 0 <= k < c.len() implies line_ok(#[trigger] c[k]) by {
                if k < pre.len() {
                    assert(c[k] == pre[k]);
                }
            }
            assert forall|k: int| 0 <= k && k + 1 < c.len() && (#[trigger] c[k]).len() == 0 implies c[k + 1].len() > 0 by {
                if k + 1 < pre.len() {
                    assert(c[k] == pre[k]);
                    assert(c[k + 1] == pre[k + 1]);
                } else {
                    assert(c[k] == pre.last());
                    assert(pre.last() == t.last());
                    assert(t.last() == ls[ls.len() - 2]);
                }
            }
        } else {
            assert(pre.last() == t.last());
        }
    }
}

proof fn lemma_render_shape(ls: Seq<Seq<char>>)
    requires
        forall|k: int| 0 <= k < ls.len() ==> line_ok(#[trigger] ls[k]),
        forall|k: int| 0 <= k && k + 1 < ls.len() && (#[trigger] ls[k]).len() == 0 ==> ls[k + 1].len() > 0,
    ensures
        no_pad_before_newline(render_lines(ls)),
        no_blank_run(render_lines(ls)),
        render_lines(ls).len() > 0 ==> render_lines(ls).last() == '\n',
        render_lines(ls).len() >= 2 && render_lines(ls)[render_lines(ls).len() - 2] == '\n' ==> ls.last().len() == 0,
        ls.len() > 0 ==> render_lines(ls).len() > 0,
    decreases ls.len(),
{
    if ls.len() > 0 {
        let t = ls.drop_last();
        assert forall|k: int| 0 <= k < t.len() implies line_ok(#[trigger] t[k]) by {
            assert(t[k] == ls[k]);
        }
        assert forall|k: int| 0 <= k && k + 1 < t.len() && (#[trigger] t[k]).len() == 0 implies t[k + 1].len() > 0 by {
            assert(t[k] == ls[k]);
            assert(t[k + 1] == ls[k + 1]);
        }
        lemma_render_shape(t);
        let pre = render_lines(t);
        let l = ls.last();
        assert(line_ok(ls[ls.len() - 1]));
        let r = render_lines(ls);
        assert(r == pre + l + seq!['\n']);
        let pn: int = pre.len() as int;
        let ln: int = l.len() as int;
        assert(r.len() == pn + ln + 1);
        assert forall|i: int| 0 <= i < pn implies r[i] == pre[i] by {}
        assert forall|i: int| pn <= i < pn + ln implies r[i] == l[i - pn] by {}
        assert(r[pn + ln] == '\n');
        if ln == 0 && pn > 0 {
            assert(t.len() > 0);
            assert(t.last() == ls[ls.len() - 2]);
            assert(ls[ls.len() - 2].len() > 0);
        }
        assert forall|i: int| 0 <= i && i + 1 < r.len() && r[i + 1] == '\n' implies !is_line_pad(#[trigger] r[i]) by {
            if i + 1 < pn {
                assert(pre[i + 1] == '\n');
                assert(r[i] == pre[i]);
            } else if i + 1 < pn + ln {
                assert(r[i + 1] == l[i + 1 - pn]);
                assert(l[i + 1 - pn] != '\n');
            } else if i + 1 == pn + ln {
                if ln > 0 {
                    assert(r[i] == l.last());
                } else {
                    assert(r[i] == pre.last());
                }
            }
        }
        assert forall|i: int|
            0 <= i && i + 2 < r.len() && #[trigger] r[i] == '\n' && r[i + 1] == '\n' implies r[i + 2] != '\n' by {
            if i + 2 < pn {
                assert(pre[i] == '\n' && pre[i + 1] == '\n');
                assert(r[i + 2] == pre[i + 2]);
            } else if i + 2 == pn {
                assert(pre[pn - 2] == '\n');
                assert(t.last().len() == 0);
                assert(t.last() == ls[ls.len() - 2]);
                assert(ln > 0);
                assert(r[i + 2] == l[0]);
            } else {
                if i + 1 < pn + ln {
                    if i + 1 >= pn {
                        assert(r[i + 1] == l[i + 1 - pn]);
                    } else {
                        assert(i + 1 == pn - 1);
                        assert(r[i + 2] == l[0]);
                        assert(ln > 0);
                    }
                }
            }
        }
        if r.len() >= 2 && r[r.len() - 2] == '\n' {
            if ln > 0 {
                assert(r[r.len() - 2] == l.last());
            }
        }
    }
}

/// Dropping the final newlines of a rendered text and adding one back
/// keeps its line shape.
proof fn lemma_one_newline_shape(r: Seq<char>)
    requires
        no_pad_before_newline(r),
        no_blank_run(r),
        r.len() > 0 ==> r.last() == '\n',
    ensures
        no_pad_before_newline(strip_end(r, |c: char| c == '\n') + seq!['\n']),
        no_blank_run(strip_end(r, |c: char| c == '\n') + seq!['\n']),
{
    let p = |c: char| c == '\n';
    crate::text::lemma_trail_count_bound(r, p);
    lemma_strip_end_last(r, p);
    let t = strip_end(r, p);
    let out = t + seq!['\n'];
    assert forall|i: int| 0 <= i < t.len() implies out[i] == r[i] && t[i] == r[i] by {}
    assert(out[t.len() as int] == '\n');
    if t.len() > 0 {
        assert(t.len() < r.len()) by {
            if t.len() == r.len() {
                assert(t =~= r);
            }
        }
        lemma_strip_end_next(r, p);
        assert(r[t.len() as int] == '\n');
    }
    assert forall|i: int| 0 <= i && i + 1 < out.len() && out[i + 1] == '\n' implies !is_line_pad(#[trigger] out[i]) by {
        assert(out[i] == r[i]);
        if i + 1 < t.len() {
            assert(r[i + 1] == out[i + 1]);
        } else {
            assert(r[i + 1] == '\n');
        }
    }
    assert forall|i: int|
        0 <= i && i + 2 < out.len() && #[trigger] out[i] == '\n' && out[i + 1] == '\n' implies out[i + 2] != '\n' by {
        assert(out[i] == r[i]);
        assert(out[i + 1] == r[i + 1]);
        if i + 2 < t.len() {
            assert(out[i + 2] == r[i + 2]);
        } else {
            assert(i + 1 == t.len() - 1);
            assert(t.last() != '\n');
        }
    }
}

/// The byte shape of a post-processed manifest: no `\r` anywhere, no
/// padding at the end of any line, never two blank lines in a row, and
/// exactly one `\n` at the end.
pub proof fn lemma_post_process_shape(input: Seq<char>)
    ensures
        no_cr_in(post_process(input)),
        no_pad_before_newline(post_process(input)),
        no_blank_run(post_process(input)),
        post_process(input).last() == '\n',
        post_process(input).len() >= 2 ==> post_process(input)[post_process(input).len() - 2] != '\n',
{
    lemma_post_process_one_final_newline(input);
    let pl = padless_lines(input);
    lemma_padless_lines_ok(input);
    lemma_collapse_shape(pl);
    let ls = collapse_blank_runs(pl);
    lemma_render_shape(ls);
    lemma_one_newline_shape(render_lines(ls));
    lemma_render_no_cr(ls);
    let r = render_lines(ls);
    let nl = |c: char| c == '\n';
    crate::text::lemma_trail_count_bound(r, nl);
    let out = strip_end(r, nl) + seq!['\n'];
    assert forall|i: int| 0 <= i < out.len() implies #[trigger] out[i] != '\r' by {
        if i < strip_end(r, nl).len() {
            assert(out[i] == r[i]);
        }
    }
}

/// After stripping a suffix, the next character of the original is one of
/// the stripped ones.
proof fn lemma_strip_end_next(s: Seq<char>, p: spec_fn(char) -> bool)
    ensures
        strip_end(s, p).len() < s.len() ==> p(s[strip_end(s, p).len() as int]),
    decreases s.len(),
{
    crate::text::lemma_trail_count_bound(s, p);
    if s.len() > 0 && p(s.last()) {
        lemma_strip_end_next(s.drop_last(), p);
        crate::text::lemma_trail_count_bound(s.drop_last(), p);
        assert(strip_end(s, p) =~= strip_end(s.drop_last(), p));
        if strip_end(s, p).len() == s.len() - 1 {
        } else {
            assert(s[strip_end(s, p).len() as int] == s.drop_last()[strip_end(s, p).len() as int]);
        }
    } else {
        assert(strip_end(s, p) =~= s);
    }
}

} // verus!
