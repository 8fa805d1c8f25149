//! Line-granularity unified diff (Myers edit script, GNU `-U3` hunks) with
//! size guardrails.
use vstd::prelude::*;
use crate::text::{chars_of, decimal, push_char, push_decimal, push_str, push_string};
use crate::verdict::Verdict;
use crate::myers::{deletes_first, myers_diff, shortest_script};

verus! {

/// Soft input ceiling: above it the diff still runs but is flagged.
pub const SOFT_LINE_CEILING: usize = 10000;

/// Hard input ceiling: above it no diff is computed.
pub const HARD_LINE_CEILING: usize = 100000;

/// Diff outcome.
#[derive(Debug, Clone)]
pub enum DiffResult {
    /// The two inputs split into the same lines.
    NoChange,
    /// Inputs differ; carries the rendered unified diff.
    Diff { diff: String, warn: bool },
    /// Inputs exceed the hard ceiling; carries counts and heads.
    TooLarge {
        actual_lines: usize,
        expected_lines: usize,
        actual_head: String,
        expected_head: String,
    },
}

/// A line terminated by `\n` loses one trailing `\r`.
pub open spec fn strip_cr(l: Seq<char>) -> Seq<char> {
    if l.len() > 0 && l.last() == '\r' {
        l.drop_last()
    } else {
        l
    }
}

/// Lines completed, and the line in progress, after reading `s[..i]`.
pub open spec fn line_scan(s: Seq<char>, i: int) -> (Seq<Seq<char>>, Seq<char>)
    decreases i,
{
    if i <= 0 {
        (Seq::empty(), Seq::empty())
    } else {
        let prev = line_scan(s, i - 1);
        if s[i - 1] == '\n' {
            (prev.0.push(strip_cr(prev.1)), Seq::empty())
        } else {
            (prev.0, prev.1.push(s[i - 1]))
        }
    }
}

/// The lines of `s` as `str::lines` yields them: split at `\n`, a `\r`
/// before a `\n` dropped, and no empty line after a final `\n`.
pub open spec fn str_lines(s: Seq<char>) -> Seq<Seq<char>> {
    let r = line_scan(s, s.len() as int);
    if r.1.len() > 0 {
        r.0.push(r.1)
    } else {
        r.0
    }
}

/// Lines joined with `\n` (no trailing newline).
pub open spec fn join_lines(ls: Seq<Seq<char>>) -> Seq<char>
    decreases ls.len(),
{
    if ls.len() == 0 {
        Seq::empty()
    } else if ls.len() == 1 {
        ls[0]
    } else {
        join_lines(ls.drop_last()).push('\n') + ls.last()
    }
}

fn string_from_range(cs: &Vec<char>, lo: usize, hi: usize) -> (s: String)
    requires
        lo <= hi <= cs@.len(),
    ensures
        s@ == cs@.subrange(lo as int, hi as int),
{
    let mut s = String::new();
    let mut i = lo;
    while i < hi
        invariant
            lo <= i <= hi <= cs@.len(),
            s@ == cs@.subrange(lo as int, i as int),
        decreases hi - i,
    {
        push_char(&mut s, cs[i]);
        i = i + 1;
        proof {
            assert(s@ =~= cs@.subrange(lo as int, i as int));
        }
    }
    s
}

/// Splits `s` into lines (see [`str_lines`]).
pub fn split_lines(s: &str) -> (out: Vec<String>)
    ensures
        out.deep_view() == str_lines(s@),
{
    let cs = chars_of(s);
    let mut out: Vec<String> = Vec::new();
    let mut cur: Vec<char> = Vec::new();
    let mut i: usize = 0;
    while i < cs.len()
        invariant
            cs@ == s@,
            i <= cs@.len(),
            out.deep_view() == line_scan(s@, i as int).0,
            cur@ == line_scan(s@, i as int).1,
        decreases cs@.len() - i,
    {
        let c = cs[i];
        if c == '\n' {
            let mut l = cur.len();
            if l > 0 && cur[l - 1] == '\r' {
                l = l - 1;
            }
            let line = string_from_range(&cur, 0, l);
            proof {
                assert(line@ =~= strip_cr(cur@));
            }
            out.push(line);
            cur = Vec::new();
        } else {
            cur.push(c);
        }
        i = i + 1;
        proof {
            assert(out.deep_view() =~= line_scan(s@, i as int).0);
            assert(cur@ =~= line_scan(s@, i as int).1);
        }
    }
    if cur.len() > 0 {
        let len = cur.len();
        let line = string_from_range(&cur, 0, len);
        proof {
            assert(line@ =~= cur@);
        }
        out.push(line);
        proof {
            assert(out.deep_view() =~= str_lines(s@));
        }
    }
    out
}

/// The first `n` lines (or fewer) joined with `\n`.
fn head(lines: &Vec<String>, n: usize) -> (s: String)
    ensures
        s@ == join_lines(lines.deep_view().take(if n < lines@.len() { n as int } else { lines@.len() as int })),
{
    let lim = if n < lines.len() { n } else { lines.len() };
    let mut s = String::new();
    let mut i: usize = 0;
    while i < lim
        invariant
            lim <= lines@.len(),
            i <= lim,
            lim == (if n < lines@.len() { n as int } else { lines@.len() as int }),
            s@ == join_lines(lines.deep_view().take(i as int)),
        decreases lim - i,
    {
        if i > 0 {
            push_char(&mut s, '\n');
        }
        push_string(&mut s, &lines[i]);
        proof {
            let t = lines.deep_view().take(i + 1);
            assert(t.drop_last() =~= lines.deep_view().take(i as int));
            if i == 0 {
                assert(s@ =~= join_lines(t));
            } else {
                assert(s@ =~= join_lines(t));
            }
        }
        i = i + 1;
    }
    s
}

fn lines_equal(a: &Vec<String>, b: &Vec<String>) -> (r: bool)
    ensures
        r == (a.deep_view() == b.deep_view()),
{
    if a.len() != b.len() {
        proof {
            assert(a.deep_view().len() != b.deep_view().len());
        }
        return false;
    }
    let mut i: usize = 0;
    while i < a.len()
        invariant
            a@.len() == b@.len(),
            i <= a@.len(),
            forall|j: int| 0 <= j < i ==> a@[j]@ == b@[j]@,
        decreases a@.len() - i,
    {
        if a[i] != b[i] {
            proof {
                assert(a.deep_view()[i as int] != b.deep_view()[i as int]);
            }
            return false;
        }
        i = i + 1;
    }
    proof {
        assert(a.deep_view() =~= b.deep_view());
    }
    true
}

} // verus!

verus! {

/// One step of an edit script turning `a` into `b`.
#[derive(Debug, Clone, Copy, PartialEq, Eq)]
pub enum Op {
    /// Line `a` of the old side equals line `b` of the new side.
    Equal { a: usize, b: usize },
    /// Line `a` of the old side was removed.
    Delete { a: usize },
    /// Line `b` of the new side was added.
    Insert { b: usize },
}

/// `ops` walks from position `(x, y)` to the ends of both sides, each
/// step naming the lines it consumes and `Equal` steps pairing equal lines.
pub open spec fn script_from(ops: Seq<Op>, a: Seq<Seq<char>>, b: Seq<Seq<char>>, x: int, y: int) -> bool
    decreases ops.len(),
{
    if ops.len() == 0 {
        x == a.len() && y == b.len()
    } else {
        match ops[0] {
            Op::Equal { a: i, b: j } => i == x && j == y && 0 <= x < a.len() && 0 <= y < b.len()
                && a[x] == b[y] && script_from(ops.drop_first(), a, b, x + 1, y + 1),
            Op::Delete { a: i } => i == x && 0 <= x < a.len() && script_from(
                ops.drop_first(),
                a,
                b,
                x + 1,
                y,
            ),
            Op::Insert { b: j } => j == y && 0 <= y < b.len() && script_from(
                ops.drop_first(),
                a,
                b,
                x,
                y + 1,
            ),
        }
    }
}

/// `ops` is an edit script turning `a` into `b`.
pub open spec fn edit_script(ops: Seq<Op>, a: Seq<Seq<char>>, b: Seq<Seq<char>>) -> bool {
    script_from(ops, a, b, 0, 0)
}

/// The position an op starts from, given the position after it.
pub open spec fn op_valid_before(op: Op, a: Seq<Seq<char>>, b: Seq<Seq<char>>, x: int, y: int) -> bool {
    match op {
        Op::Equal { a: i, b: j } => i == x - 1 && j == y - 1 && 1 <= x <= a.len() && 1 <= y
            <= b.len() && a[x - 1] == b[y - 1],
        Op::Delete { a: i } => i == x - 1 && 1 <= x <= a.len(),
        Op::Insert { b: j } => j == y - 1 && 1 <= y <= b.len(),
    }
}

pub open spec fn op_prev_x(op: Op, x: int) -> int {
    match op {
        Op::Insert { .. } => x,
        _ => x - 1,
    }
}

pub open spec fn op_prev_y(op: Op, y: int) -> int {
    match op {
        Op::Delete { .. } => y,
        _ => y - 1,
    }
}

proof fn lemma_script_prepend(op: Op, rest: Seq<Op>, a: Seq<Seq<char>>, b: Seq<Seq<char>>, x: int, y: int)
    requires
        script_from(rest, a, b, x, y),
        op_valid_before(op, a, b, x, y),
    ensures
        script_from(seq![op] + rest, a, b, op_prev_x(op, x), op_prev_y(op, y)),
{
    let s = seq![op] + rest;
    assert(s.drop_first() =~= rest);
    assert(s[0] == op);
}

/// Ops collected back to front: `rev` holds `suffix` reversed.
pub open spec fn reversed_of(rev: Seq<Op>, suffix: Seq<Op>) -> bool {
    &&& rev.len() == suffix.len()
    &&& forall|i: int| 0 <= i < rev.len() ==> #[trigger] rev[i] == suffix[suffix.len() - 1 - i]
}

pub(crate) fn push_back_step(rev: &mut Vec<Op>, op: Op, Ghost(suffix): Ghost<Seq<Op>>, Ghost(a): Ghost<Seq<Seq<char>>>, Ghost(b): Ghost<Seq<Seq<char>>>, Ghost(x): Ghost<int>, Ghost(y): Ghost<int>) -> (new_suffix: Ghost<Seq<Op>>)
    requires
        reversed_of(old(rev)@, suffix),
        script_from(suffix, a, b, x, y),
        op_valid_before(op, a, b, x, y),
    ensures
        new_suffix@ == seq![op] + suffix,
        reversed_of(final(rev)@, new_suffix@),
        script_from(new_suffix@, a, b, op_prev_x(op, x), op_prev_y(op, y)),
{
    proof {
        lemma_script_prepend(op, suffix, a, b, x, y);
    }
    rev.push(op);
    let ghost ns = seq![op] + suffix;
    proof {
        assert forall|i: int| 0 <= i < rev@.len() implies #[trigger] rev@[i] == ns[ns.len() - 1 - i] by {
            if i < suffix.len() {
                assert(rev@[i] == old(rev)@[i]);
            }
        }
    }
    Ghost(ns)
}

pub(crate) fn unreverse(rev: &Vec<Op>, Ghost(suffix): Ghost<Seq<Op>>) -> (out: Vec<Op>)
    requires
        reversed_of(rev@, suffix),
    ensures
        out@ == suffix,
{
    let mut out: Vec<Op> = Vec::new();
    let mut i = rev.len();
    while i > 0
        invariant
            reversed_of(rev@, suffix),
            i <= rev@.len(),
            out@ == suffix.subrange(0, (rev@.len() - i) as int),
        decreases i,
    {
        i = i - 1;
        out.push(rev[i]);
        proof {
            assert(out@ =~= suffix.subrange(0, (rev@.len() - i) as int));
        }
    }
    proof {
        assert(out@ =~= suffix);
    }
    out
}

} // verus!


verus! {

pub open spec fn is_change(op: Op) -> bool {
    !(op is Equal)
}

/// Op `j` lies within `c` ops of some change.
pub open spec fn covered(ops: Seq<Op>, c: int, j: int) -> bool {
    &&& 0 <= j < ops.len()
    &&& exists|i: int| 0 <= i < ops.len() && is_change(ops[i]) && i - c <= j <= i + c
}

/// `w` lists the maximal runs of covered ops, in order: each window is
/// covered throughout, windows are separated by at least one uncovered op,
/// and every covered op lies in a window.
pub open spec fn windows_ok(ops: Seq<Op>, c: int, w: Seq<(usize, usize)>) -> bool {
    &&& forall|h: int| 0 <= h < w.len() ==> #[trigger] w[h].0 <= w[h].1 < ops.len()
    &&& forall|h: int| 0 <= h < w.len() - 1 ==> #[trigger] w[h].1 + 1 < w[h + 1].0
    &&& forall|h: int, j: int| #![trigger w[h], covered(ops, c, j)] 0 <= h < w.len() && w[h].0 <= j <= w[h].1 ==> covered(ops, c, j)
    &&& forall|j: int| covered(ops, c, j) ==> exists|h: int| 0 <= h < w.len() && #[trigger] w[h].0 <= j
        <= w[h].1
}

/// `r` lists the maximal runs of change ops, in order.
pub open spec fn runs_ok(ops: Seq<Op>, r: Seq<(usize, usize)>) -> bool {
    &&& forall|h: int| 0 <= h < r.len() ==> #[trigger] r[h].0 <= r[h].1 < ops.len()
    &&& forall|h: int| 0 <= h < r.len() - 1 ==> #[trigger] r[h].1 + 1 < r[h + 1].0
    &&& forall|h: int, j: int| #![trigger r[h], ops[j]] 0 <= h < r.len() && r[h].0 <= j <= r[h].1 ==> is_change(ops[j])
    &&& forall|j: int| 0 <= j < ops.len() && is_change(ops[j]) ==> exists|h: int|
        0 <= h < r.len() && #[trigger] r[h].0 <= j <= r[h].1
}

fn is_change_op(op: &Op) -> (r: bool)
    ensures
        r == is_change(*op),
{
    match op {
        Op::Equal { .. } => false,
        _ => true,
    }
}

/// Maximal runs of consecutive change ops.
fn change_runs(ops: &Vec<Op>) -> (runs: Vec<(usize, usize)>)
    ensures
        runs_ok(ops@, runs@),
{
    let mut runs: Vec<(usize, usize)> = Vec::new();
    let mut i: usize = 0;
    while i < ops.len()
        invariant
            i <= ops@.len(),
            forall|h: int| 0 <= h < runs@.len() ==> #[trigger] runs@[h].0 <= runs@[h].1 < i,
            forall|h: int| 0 <= h < runs@.len() - 1 ==> #[trigger] runs@[h].1 + 1 < runs@[h + 1].0,
            forall|h: int, j: int| #![trigger runs@[h], ops@[j]]
                0 <= h < runs@.len() && runs@[h].0 <= j <= runs@[h].1 ==> is_change(ops@[j]),
            forall|j: int| 0 <= j < i && is_change(ops@[j]) ==> exists|h: int|
                0 <= h < runs@.len() && #[trigger] runs@[h].0 <= j <= runs@[h].1,
            runs@.len() > 0 ==> runs@.last().1 + 1 < i || (runs@.last().1 + 1 == i && (i
                == ops@.len() || !is_change(ops@[i as int]))),
        decreases ops@.len() - i,
    {
        if !is_change_op(&ops[i]) {
            i = i + 1;
        } else {
            let start = i;
            while i < ops.len() && is_change_op(&ops[i])
                invariant
                    start < i <= ops@.len() || (start == i && i < ops@.len() && is_change(ops@[i as int])),
                    forall|j: int| start <= j < i ==> is_change(ops@[j]),
                decreases ops@.len() - i,
            {
                i = i + 1;
            }
            let ghost old_runs = runs@;
            runs.push((start, i - 1));
            proof {
                assert forall|j: int| 0 <= j < i && is_change(ops@[j]) implies exists|h: int|
                    0 <= h < runs@.len() && #[trigger] runs@[h].0 <= j <= runs@[h].1 by {
                    if j >= start {
                        assert(runs@[runs@.len() - 1].0 <= j <= runs@[runs@.len() - 1].1);
                    } else {
                        let h = choose|h: int| 0 <= h < old_runs.len() && #[trigger] old_runs[h].0 <= j <= old_runs[h].1;
                        assert(runs@[h] == old_runs[h]);
                    }
                }
            }
        }
    }
    runs
}

} // verus!

verus! {

pub open spec fn in_windows(w: Seq<(usize, usize)>, j: int) -> bool {
    exists|h: int| 0 <= h < w.len() && #[trigger] w[h].0 <= j <= w[h].1
}

pub open spec fn in_extended(runs: Seq<(usize, usize)>, r: int, c: int, len: int, j: int) -> bool {
    exists|q: int| 0 <= q < r && ext_start(#[trigger] runs[q], c) <= j <= ext_end(runs[q], c, len)
}

pub open spec fn ext_start(r: (usize, usize), c: int) -> int {
    if r.0 >= c { r.0 - c } else { 0 }
}

pub open spec fn ext_end(r: (usize, usize), c: int, len: int) -> int {
    if r.1 + c < len - 1 { r.1 + c } else { len - 1 }
}

/// Extends each run by `context` ops on both sides (clipped to the script)
/// and merges windows that overlap or touch.
fn change_windows(ops: &Vec<Op>, runs: &Vec<(usize, usize)>, context: usize) -> (w: Vec<(usize, usize)>)
    requires
        runs_ok(ops@, runs@),
        ops@.len() + context < usize::MAX,
    ensures
        windows_ok(ops@, context as int, w@),
{
    let ghost c = context as int;
    let len = ops.len();
    let mut w: Vec<(usize, usize)> = Vec::new();
    let mut r: usize = 0;
    while r < runs.len()
        invariant
            runs_ok(ops@, runs@),
            len == ops@.len(),
            c == context,
            ops@.len() + context < usize::MAX,
            r <= runs@.len(),
            forall|h: int| 0 <= h < w@.len() ==> #[trigger] w@[h].0 <= w@[h].1 < len,
            forall|h: int| 0 <= h < w@.len() - 1 ==> #[trigger] w@[h].1 + 1 < w@[h + 1].0,
            forall|j: int| #[trigger] in_windows(w@, j) <==> in_extended(runs@, r as int, c, len as int, j),
            w@.len() <= r,
            r > 0 ==> w@.len() > 0 && w@.last().0 <= ext_start(runs@[r - 1], c),
        decreases runs@.len() - r,
    {
        let (s, e) = runs[r];
        proof {
            if r > 0 {
                assert(runs@[r - 1].1 < runs@[r as int].0);
            }
        }
        let new_s = if s >= context { s - context } else { 0 };
        let new_e = if e + context < len - 1 { e + context } else { len - 1 };
        let wl = w.len();
        let ghost old_w = w@;
        proof {
            if wl > 0 {
                assert(w@[wl - 1].0 <= w@[wl - 1].1 < len);
            }
        }
        if wl > 0 && new_s <= w[wl - 1].1 + 1 {
            let (ls, le) = w[wl - 1];
            let me = if le > new_e { le } else { new_e };
            w.set(wl - 1, (ls, me));
            proof {
                assert forall|j: int| #[trigger] in_windows(w@, j) <==> in_extended(runs@, r + 1, c, len as int, j) by {
                    if exists|h: int| 0 <= h < w@.len() && #[trigger] w@[h].0 <= j <= w@[h].1 {
                        let h = choose|h: int| 0 <= h < w@.len() && #[trigger] w@[h].0 <= j <= w@[h].1;
                        if h < wl - 1 {
                            assert(old_w[h].0 <= j <= old_w[h].1);
                            assert(in_windows(old_w, j));
                        } else if j <= le {
                            assert(old_w[wl - 1].0 <= j <= old_w[wl - 1].1);
                            assert(in_windows(old_w, j));
                        } else {
                            assert(ext_start(runs@[r as int], c) <= j <= ext_end(runs@[r as int], c, len as int));
                        }
                    }
                    if exists|q: int| 0 <= q < r + 1 && ext_start(#[trigger] runs@[q], c) <= j <= ext_end(runs@[q], c, len as int) {
                        let q = choose|q: int| 0 <= q < r + 1 && ext_start(#[trigger] runs@[q], c) <= j <= ext_end(runs@[q], c, len as int);
                        if q < r {
                            assert(in_extended(runs@, r as int, c, len as int, j));
                            assert(in_windows(old_w, j));
                            let h = choose|h: int| 0 <= h < old_w.len() && #[trigger] old_w[h].0 <= j <= old_w[h].1;
                            assert(w@[h].0 <= j <= w@[h].1);
                        } else {
                            assert(w@[wl - 1].0 <= j <= w@[wl - 1].1);
                        }
                    }
                }
            }
        } else {
            w.push((new_s, new_e));
            proof {
                assert forall|j: int| #[trigger] in_windows(w@, j) <==> in_extended(runs@, r + 1, c, len as int, j) by {
                    if exists|h: int| 0 <= h < w@.len() && #[trigger] w@[h].0 <= j <= w@[h].1 {
                        let h = choose|h: int| 0 <= h < w@.len() && #[trigger] w@[h].0 <= j <= w@[h].1;
                        if h < wl {
                            assert(old_w[h].0 <= j <= old_w[h].1);
                            assert(in_windows(old_w, j));
                        } else {
                            assert(ext_start(runs@[r as int], c) <= j <= ext_end(runs@[r as int], c, len as int));
                        }
                    }
                    if exists|q: int| 0 <= q < r + 1 && ext_start(#[trigger] runs@[q], c) <= j <= ext_end(runs@[q], c, len as int) {
                        let q = choose|q: int| 0 <= q < r + 1 && ext_start(#[trigger] runs@[q], c) <= j <= ext_end(runs@[q], c, len as int);
                        if q < r {
                            assert(in_extended(runs@, r as int, c, len as int, j));
                            assert(in_windows(old_w, j));
                            let h = choose|h: int| 0 <= h < old_w.len() && #[trigger] old_w[h].0 <= j <= old_w[h].1;
                            assert(w@[h].0 <= j <= w@[h].1);
                        } else {
                            assert(w@[wl as int].0 <= j <= w@[wl as int].1);
                        }
                    }
                }
            }
        }
        r = r + 1;
    }
    proof {
        assert forall|h: int, j: int| #![trigger w@[h], covered(ops@, c, j)]
            0 <= h < w@.len() && w@[h].0 <= j <= w@[h].1 implies covered(ops@, c, j) by {
            assert(in_windows(w@, j));
            let q = choose|q: int| 0 <= q < r && ext_start(#[trigger] runs@[q], c) <= j <= ext_end(runs@[q], c, len as int);
            let rq = runs@[q];
            assert(rq.0 <= rq.1 < len);
            assert(ops@[rq.0 as int] == ops@[rq.0 as int]);
            if j < rq.0 {
                assert(is_change(ops@[rq.0 as int]));
            } else if j > rq.1 {
                assert(is_change(ops@[rq.1 as int]));
            } else {
                assert(is_change(ops@[j]));
            }
        }
        assert forall|j: int| covered(ops@, c, j) implies exists|h: int| 0 <= h < w@.len() && #[trigger] w@[h].0 <= j
            <= w@[h].1 by {
            let i = choose|i: int| 0 <= i < ops@.len() && is_change(ops@[i]) && i - c <= j <= i + c;
            let q = choose|q: int| 0 <= q < runs@.len() && #[trigger] runs@[q].0 <= i <= runs@[q].1;
            assert(ext_start(runs@[q], c) <= j <= ext_end(runs@[q], c, len as int));
            assert(in_extended(runs@, r as int, c, len as int, j));
            assert(in_windows(w@, j));
        }
    }
    w
}

} // verus!

verus! {

/// The op's indices name existing lines, and `Equal` pairs equal lines.
pub open spec fn op_in_bounds(op: Op, a: Seq<Seq<char>>, b: Seq<Seq<char>>) -> bool {
    match op {
        Op::Equal { a: i, b: j } => i < a.len() && j < b.len() && a[i as int] == b[j as int],
        Op::Delete { a: i } => i < a.len(),
        Op::Insert { b: j } => j < b.len(),
    }
}

proof fn lemma_script_bounds(ops: Seq<Op>, a: Seq<Seq<char>>, b: Seq<Seq<char>>, x: int, y: int)
    requires
        script_from(ops, a, b, x, y),
    ensures
        forall|j: int| 0 <= j < ops.len() ==> op_in_bounds(#[trigger] ops[j], a, b),
    decreases ops.len(),
{
    if ops.len() > 0 {
        let rest = ops.drop_first();
        match ops[0] {
            Op::Equal { .. } => lemma_script_bounds(rest, a, b, x + 1, y + 1),
            Op::Delete { .. } => lemma_script_bounds(rest, a, b, x + 1, y),
            Op::Insert { .. } => lemma_script_bounds(rest, a, b, x, y + 1),
        }
        assert forall|j: int| 0 <= j < ops.len() implies op_in_bounds(#[trigger] ops[j], a, b) by {
            if j > 0 {
                assert(ops[j] == rest[j - 1]);
            }
        }
    }
}

/// Rendered form of one op inside a hunk.
pub open spec fn op_line(op: Op, a: Seq<Seq<char>>, b: Seq<Seq<char>>) -> Seq<char> {
    match op {
        Op::Equal { a: i, .. } => seq![' '] + a[i as int] + seq!['\n'],
        Op::Delete { a: i } => seq!['-'] + a[i as int] + seq!['\n'],
        Op::Insert { b: j } => seq!['+'] + b[j as int] + seq!['\n'],
    }
}

/// Rendered ops `ops[s..=e]`.
pub open spec fn body_text(ops: Seq<Op>, a: Seq<Seq<char>>, b: Seq<Seq<char>>, s: int, e: int) -> Seq<char>
    decreases e - s + 1,
{
    if e < s {
        Seq::empty()
    } else {
        body_text(ops, a, b, s, e - 1) + op_line(ops[e], a, b)
    }
}

/// Old-side lines in `ops[s..=e]`.
pub open spec fn count_a(ops: Seq<Op>, s: int, e: int) -> int
    decreases e - s + 1,
{
    if e < s {
        0
    } else {
        count_a(ops, s, e - 1) + (if ops[e] is Insert { 0int } else { 1int })
    }
}

/// New-side lines in `ops[s..=e]`.
pub open spec fn count_b(ops: Seq<Op>, s: int, e: int) -> int
    decreases e - s + 1,
{
    if e < s {
        0
    } else {
        count_b(ops, s, e - 1) + (if ops[e] is Delete { 0int } else { 1int })
    }
}

/// First old-side index in `ops[s..=e]`, or 0 when there is none.
pub open spec fn first_a(ops: Seq<Op>, s: int, e: int) -> int
    decreases e - s + 1,
{
    if e < s {
        0
    } else {
        match ops[s] {
            Op::Equal { a: i, .. } => i as int,
            Op::Delete { a: i } => i as int,
            Op::Insert { .. } => first_a(ops, s + 1, e),
        }
    }
}

/// First new-side index in `ops[s..=e]`, or 0 when there is none.
pub open spec fn first_b(ops: Seq<Op>, s: int, e: int) -> int
    decreases e - s + 1,
{
    if e < s {
        0
    } else {
        match ops[s] {
            Op::Equal { b: j, .. } => j as int,
            Op::Insert { b: j } => j as int,
            Op::Delete { .. } => first_b(ops, s + 1, e),
        }
    }
}

/// `@@ -<as>,<ac> +<bs>,<bc> @@` and a newline.
pub open spec fn header_text(a_start: nat, a_count: nat, b_start: nat, b_count: nat) -> Seq<char> {
    "@@ -"@ + decimal(a_start) + ","@ + decimal(a_count) + " +"@ + decimal(b_start) + ","@ + decimal(
        b_count,
    ) + " @@\n"@
}

/// Header start of a side's range: 1-based first line, or 0 for an
/// empty range, as GNU diff prints it.
pub open spec fn range_start(first: int, count: int) -> nat {
    if count == 0 {
        0
    } else {
        (first + 1) as nat
    }
}

/// The hunk covering `ops[s..=e]`: starts, line counts, and body.
pub open spec fn hunk_text(ops: Seq<Op>, a: Seq<Seq<char>>, b: Seq<Seq<char>>, s: int, e: int) -> Seq<char> {
    header_text(
        range_start(first_a(ops, s, e), count_a(ops, s, e)),
        count_a(ops, s, e) as nat,
        range_start(first_b(ops, s, e), count_b(ops, s, e)),
        count_b(ops, s, e) as nat,
    ) + body_text(ops, a, b, s, e)
}

/// The first `k` hunks of window list `w`, rendered in order.
pub open spec fn hunks_text(ops: Seq<Op>, w: Seq<(usize, usize)>, a: Seq<Seq<char>>, b: Seq<Seq<char>>, k: int) -> Seq<char>
    decreases k,
{
    if k <= 0 {
        Seq::empty()
    } else {
        hunks_text(ops, w, a, b, k - 1) + hunk_text(ops, a, b, w[k - 1].0 as int, w[k - 1].1 as int)
    }
}

/// The full unified diff for script `ops` grouped into windows `w`.
pub open spec fn unified_text(ops: Seq<Op>, w: Seq<(usize, usize)>, a: Seq<Seq<char>>, b: Seq<Seq<char>>) -> Seq<char> {
    "--- expected\n+++ actual\n"@ + hunks_text(ops, w, a, b, w.len() as int)
}

enum HunkLine {
    Context(String),
    Delete(String),
    Insert(String),
}

spec fn hunk_line_text(l: HunkLine) -> Seq<char> {
    match l {
        HunkLine::Context(t) => seq![' '] + t@ + seq!['\n'],
        HunkLine::Delete(t) => seq!['-'] + t@ + seq!['\n'],
        HunkLine::Insert(t) => seq!['+'] + t@ + seq!['\n'],
    }
}

spec fn lines_text(ls: Seq<HunkLine>) -> Seq<char>
    decreases ls.len(),
{
    if ls.len() == 0 {
        Seq::empty()
    } else {
        lines_text(ls.drop_last()) + hunk_line_text(ls.last())
    }
}

struct Hunk {
    a_start: usize,
    a_count: usize,
    b_start: usize,
    b_count: usize,
    lines: Vec<HunkLine>,
}

impl Hunk {
    spec fn text(&self) -> Seq<char> {
        header_text(self.a_start as nat, self.a_count as nat, self.b_start as nat, self.b_count as nat)
            + lines_text(self.lines@)
    }

    fn render(&self) -> (s: String)
        ensures
            s@ == self.text(),
    {
        let mut s = String::new();
        push_str(&mut s, "@@ -");
        push_decimal(&mut s, self.a_start);
        push_str(&mut s, ",");
        push_decimal(&mut s, self.a_count);
        push_str(&mut s, " +");
        push_decimal(&mut s, self.b_start);
        push_str(&mut s, ",");
        push_decimal(&mut s, self.b_count);
        push_str(&mut s, " @@\n");
        let ghost hdr = s@;
        proof {
            assert(hdr =~= header_text(self.a_start as nat, self.a_count as nat, self.b_start as nat, self.b_count as nat));
        }
        let mut i: usize = 0;
        while i < self.lines.len()
            invariant
                i <= self.lines@.len(),
                s@ == hdr + lines_text(self.lines@.subrange(0, i as int)),
            decreases self.lines@.len() - i,
        {
            let ghost before = s@;
            match &self.lines[i] {
                HunkLine::Context(t) => {
                    push_char(&mut s, ' ');
                    push_string(&mut s, t);
                    push_char(&mut s, '\n');
                },
                HunkLine::Delete(t) => {
                    push_char(&mut s, '-');
                    push_string(&mut s, t);
                    push_char(&mut s, '\n');
                },
                HunkLine::Insert(t) => {
                    push_char(&mut s, '+');
                    push_string(&mut s, t);
                    push_char(&mut s, '\n');
                },
            }
            proof {
                let sub = self.lines@.subrange(0, i + 1);
                assert(sub.drop_last() =~= self.lines@.subrange(0, i as int));
                assert(s@ =~= before + hunk_line_text(self.lines@[i as int]));
                assert(s@ =~= hdr + lines_text(sub));
            }
            i = i + 1;
        }
        proof {
            assert(self.lines@.subrange(0, i as int) =~= self.lines@);
        }
        s
    }
}

/// The hunk for window `ops[s..=e]`.
#[verifier::spinoff_prover]
#[verifier::rlimit(30)]
fn hunk_for_window(ops: &Vec<Op>, a: &Vec<String>, b: &Vec<String>, s: usize, e: usize) -> (h: Hunk)
    requires
        edit_script(ops@, a.deep_view(), b.deep_view()),
        s <= e < ops@.len(),
        a@.len() <= HARD_LINE_CEILING,
        b@.len() <= HARD_LINE_CEILING,
        ops@.len() < usize::MAX,
    ensures
        h.text() == hunk_text(ops@, a.deep_view(), b.deep_view(), s as int, e as int),
{
    let ghost ga = a.deep_view();
    let ghost gb = b.deep_view();
    proof {
        lemma_script_bounds(ops@, ga, gb, 0, 0);
    }
    let mut a_start: Option<usize> = None;
    let mut b_start: Option<usize> = None;
    let mut i = s;
    while i <= e && !(a_start.is_some() && b_start.is_some())
        invariant
            s <= i <= e + 1,
            e < ops@.len() < usize::MAX,
            a@.len() <= HARD_LINE_CEILING,
            b@.len() <= HARD_LINE_CEILING,
            ga == a.deep_view(),
            gb == b.deep_view(),
            forall|j: int| 0 <= j < ops@.len() ==> op_in_bounds(#[trigger] ops@[j], ga, gb),
            a_start matches Some(v) ==> v < a@.len(),
            b_start matches Some(v) ==> v < b@.len(),
            match a_start {
                Some(v) => first_a(ops@, s as int, e as int) == v,
                None => first_a(ops@, s as int, e as int) == first_a(ops@, i as int, e as int),
            },
            match b_start {
                Some(v) => first_b(ops@, s as int, e as int) == v,
                None => first_b(ops@, s as int, e as int) == first_b(ops@, i as int, e as int),
            },
        decreases e + 1 - i,
    {
        match ops[i] {
            Op::Equal { a: ai, b: bi } => {
                if a_start.is_none() {
                    a_start = Some(ai);
                }
                if b_start.is_none() {
                    b_start = Some(bi);
                }
            },
            Op::Delete { a: ai } => {
                if a_start.is_none() {
                    a_start = Some(ai);
                }
            },
            Op::Insert { b: bi } => {
                if b_start.is_none() {
                    b_start = Some(bi);
                }
            },
        }
        i = i + 1;
    }
    let a_start_idx = match a_start {
        Some(v) => v,
        None => 0,
    };
    let b_start_idx = match b_start {
        Some(v) => v,
        None => 0,
    };
    proof {
        if a_start is None {
            assert(i == e + 1);
        }
        if b_start is None {
            assert(i == e + 1);
        }
    }
    let mut lines: Vec<HunkLine> = Vec::new();
    let mut a_count: usize = 0;
    let mut b_count: usize = 0;
    let mut j = s;
    while j <= e
        invariant
            s <= j <= e + 1,
            e < ops@.len() < usize::MAX,
            ga == a.deep_view(),
            gb == b.deep_view(),
            forall|q: int| 0 <= q < ops@.len() ==> op_in_bounds(#[trigger] ops@[q], ga, gb),
            a_count == count_a(ops@, s as int, j - 1),
            b_count == count_b(ops@, s as int, j - 1),
            a_count <= j - s,
            b_count <= j - s,
            lines_text(lines@) == body_text(ops@, ga, gb, s as int, j - 1),
        decreases e + 1 - j,
    {
        let ghost before = lines@;
        assert(op_in_bounds(ops@[j as int], ga, gb));
        match ops[j] {
            Op::Equal { a: ai, b: _ } => {
                lines.push(HunkLine::Context(a[ai].clone()));
                a_count = a_count + 1;
                b_count = b_count + 1;
            },
            Op::Delete { a: ai } => {
                lines.push(HunkLine::Delete(a[ai].clone()));
                a_count = a_count + 1;
            },
            Op::Insert { b: bi } => {
                lines.push(HunkLine::Insert(b[bi].clone()));
                b_count = b_count + 1;
            },
        }
        proof {
            assert(lines@.drop_last() =~= before);
        }
        j = j + 1;
    }
    proof {
        assert(a_start_idx == first_a(ops@, s as int, e as int));
        assert(b_start_idx == first_b(ops@, s as int, e as int));
    }
    Hunk {
        a_start: if a_count == 0 { 0 } else { a_start_idx + 1 },
        a_count,
        b_start: if b_count == 0 { 0 } else { b_start_idx + 1 },
        b_count,
        lines,
    }
}

} // verus!

verus! {

proof fn lemma_script_len(ops: Seq<Op>, a: Seq<Seq<char>>, b: Seq<Seq<char>>, x: int, y: int)
    requires
        script_from(ops, a, b, x, y),
    ensures
        ops.len() <= (a.len() - x) + (b.len() - y),
    decreases ops.len(),
{
    if ops.len() > 0 {
        let rest = ops.drop_first();
        match ops[0] {
            Op::Equal { .. } => lemma_script_len(rest, a, b, x + 1, y + 1),
            Op::Delete { .. } => lemma_script_len(rest, a, b, x + 1, y),
            Op::Insert { .. } => lemma_script_len(rest, a, b, x, y + 1),
        }
    }
}

/// Groups an edit script into unified-diff hunks with `context` ops of
/// surrounding context, merging hunks whose context touches.
fn ops_to_hunks(ops: &Vec<Op>, a: &Vec<String>, b: &Vec<String>, context: usize) -> (hunks: Vec<Hunk>)
    requires
        edit_script(ops@, a.deep_view(), b.deep_view()),
        a@.len() <= HARD_LINE_CEILING,
        b@.len() <= HARD_LINE_CEILING,
        context <= 3,
    ensures
        exists|w: Seq<(usize, usize)>| {
            &&& windows_ok(ops@, context as int, w)
            &&& hunks@.len() == w.len()
            &&& forall|h: int| 0 <= h < w.len() ==> (#[trigger] hunks@[h]).text() == hunk_text(
                ops@,
                a.deep_view(),
                b.deep_view(),
                w[h].0 as int,
                w[h].1 as int,
            )
        },
{
    proof {
        lemma_script_len(ops@, a.deep_view(), b.deep_view(), 0, 0);
    }
    let mut hunks: Vec<Hunk> = Vec::new();
    if ops.len() == 0 {
        proof {
            assert(windows_ok(ops@, context as int, Seq::empty()));
        }
        return hunks;
    }
    let runs = change_runs(ops);
    if runs.len() == 0 {
        proof {
            assert forall|j: int| !covered(ops@, context as int, j) by {
                if covered(ops@, context as int, j) {
                    let i = choose|i: int| 0 <= i < ops@.len() && is_change(ops@[i]) && i - context <= j <= i + context;
                    assert(exists|h: int| 0 <= h < runs@.len() && #[trigger] runs@[h].0 <= i <= runs@[h].1);
                }
            }
            assert(windows_ok(ops@, context as int, Seq::empty()));
        }
        return hunks;
    }
    let windows = change_windows(ops, &runs, context);
    let mut h: usize = 0;
    while h < windows.len()
        invariant
            windows_ok(ops@, context as int, windows@),
            edit_script(ops@, a.deep_view(), b.deep_view()),
            a@.len() <= HARD_LINE_CEILING,
            b@.len() <= HARD_LINE_CEILING,
            ops@.len() <= 2 * HARD_LINE_CEILING,
            h <= windows@.len(),
            hunks@.len() == h,
            forall|q: int| 0 <= q < h ==> (#[trigger] hunks@[q]).text() == hunk_text(
                ops@,
                a.deep_view(),
                b.deep_view(),
                windows@[q].0 as int,
                windows@[q].1 as int,
            ),
        decreases windows@.len() - h,
    {
        let (s, e) = windows[h];
        proof {
            assert(windows@[h as int].0 <= windows@[h as int].1 < ops@.len());
        }
        let hunk = hunk_for_window(ops, a, b, s, e);
        hunks.push(hunk);
        h = h + 1;
    }
    hunks
}

/// The unified diff of two line lists: header, then every hunk with three
/// lines of context.
fn render_unified_diff(a: &Vec<String>, b: &Vec<String>) -> (out: String)
    requires
        a@.len() <= HARD_LINE_CEILING,
        b@.len() <= HARD_LINE_CEILING,
    ensures
        exists|ops: Seq<Op>, w: Seq<(usize, usize)>|
            #![trigger shortest_script(ops, a.deep_view(), b.deep_view()), windows_ok(ops, 3, w)]
            shortest_script(ops, a.deep_view(), b.deep_view()) && deletes_first(ops) && windows_ok(ops, 3, w) && out@
                == unified_text(ops, w, a.deep_view(), b.deep_view()) && patched_from(
                ops,
                w,
                a.deep_view(),
                b.deep_view(),
                0,
            ) == b.deep_view(),
{
    let ops = myers_diff(a, b);
    let hunks = ops_to_hunks(&ops, a, b, 3);
    let ghost w = choose|w: Seq<(usize, usize)>| {
        &&& windows_ok(ops@, 3, w)
        &&& hunks@.len() == w.len()
        &&& forall|h: int| 0 <= h < w.len() ==> (#[trigger] hunks@[h]).text() == hunk_text(
            ops@,
            a.deep_view(),
            b.deep_view(),
            w[h].0 as int,
            w[h].1 as int,
        )
    };
    let mut out = String::new();
    push_str(&mut out, "--- expected\n+++ actual\n");
    let mut h: usize = 0;
    while h < hunks.len()
        invariant
            h <= hunks@.len(),
            hunks@.len() == w.len(),
            forall|q: int| 0 <= q < w.len() ==> (#[trigger] hunks@[q]).text() == hunk_text(
                ops@,
                a.deep_view(),
                b.deep_view(),
                w[q].0 as int,
                w[q].1 as int,
            ),
            out@ == "--- expected\n+++ actual\n"@ + hunks_text(ops@, w, a.deep_view(), b.deep_view(), h as int),
        decreases hunks@.len() - h,
    {
        let t = hunks[h].render();
        push_string(&mut out, &t);
        proof {
            assert(hunks@[h as int].text() == hunk_text(ops@, a.deep_view(), b.deep_view(), w[h as int].0 as int, w[h as int].1 as int));
            assert(out@ =~= "--- expected\n+++ actual\n"@ + hunks_text(ops@, w, a.deep_view(), b.deep_view(), h + 1));
        }
        h = h + 1;
    }
    proof {
        lemma_hunks_rebuild_new(ops@, 3, w, a.deep_view(), b.deep_view());
        assert(shortest_script(ops@, a.deep_view(), b.deep_view()) && deletes_first(ops@) && windows_ok(ops@, 3, w) && out@ == unified_text(ops@, w, a.deep_view(), b.deep_view()));
    }
    out
}

/// Larger of the two line counts.
pub open spec fn max_len(x: int, y: int) -> int {
    if x > y { x } else { y }
}

/// Computes a unified diff between `expected` and `actual`, split into lines
/// (a trailing newline does not count as a difference).
///
/// Above [`HARD_LINE_CEILING`] lines on either side no diff is run and the
/// first 100 lines of each side are returned; identical line lists give
/// `NoChange`; otherwise the rendered diff of a shortest edit script whose
/// deletions come before its insertions in each run of changes, flagged when
/// either side exceeds [`SOFT_LINE_CEILING`]. Applying its hunks to the
/// expected lines gives back the actual lines (see [`patched_from`],
/// [`lemma_hunks_rebuild_new`] and [`lemma_hunk_lines_in_place`]).
pub fn unified_diff(expected: &str, actual: &str) -> (r: DiffResult)
    ensures
        ({
            let e = str_lines(expected@);
            let a = str_lines(actual@);
            let n = max_len(e.len() as int, a.len() as int);
            if n > HARD_LINE_CEILING {
                r matches DiffResult::TooLarge { actual_lines, expected_lines, actual_head, expected_head }
                    && actual_lines == a.len() && expected_lines == e.len()
                    && actual_head@ == join_lines(a.take(if 100 < a.len() { 100 } else { a.len() as int }))
                    && expected_head@ == join_lines(e.take(if 100 < e.len() { 100 } else { e.len() as int }))
            } else if e == a {
                r is NoChange
            } else {
                r matches DiffResult::Diff { diff, warn } && warn == (n > SOFT_LINE_CEILING)
                    && exists|ops: Seq<Op>, w: Seq<(usize, usize)>|
                    #![trigger shortest_script(ops, e, a), windows_ok(ops, 3, w)]
                    shortest_script(ops, e, a) && deletes_first(ops) && windows_ok(ops, 3, w) && diff@ == unified_text(ops, w, e, a)
                        && patched_from(ops, w, e, a, 0) == a
            }
        }),
{
    let expected_lines = split_lines(expected);
    let actual_lines = split_lines(actual);
    let n = if expected_lines.len() > actual_lines.len() {
        expected_lines.len()
    } else {
        actual_lines.len()
    };
    if n > HARD_LINE_CEILING {
        return DiffResult::TooLarge {
            actual_lines: actual_lines.len(),
            expected_lines: expected_lines.len(),
            actual_head: head(&actual_lines, 100),
            expected_head: head(&expected_lines, 100),
        };
    }
    if lines_equal(&expected_lines, &actual_lines) {
        return DiffResult::NoChange;
    }
    let warn = n > SOFT_LINE_CEILING;
    let diff = render_unified_diff(&expected_lines, &actual_lines);
    DiffResult::Diff { diff, warn }
}

/// Verdict for the snapshot comparison: none when nothing changed.
pub fn diff_to_verdict(result: DiffResult) -> (v: Option<Verdict>)
    ensures
        match result {
            DiffResult::NoChange => v is None,
            DiffResult::Diff { diff, .. } => v == Some(Verdict::SnapshotDiff { diff }),
            DiffResult::TooLarge { actual_lines, expected_lines, actual_head, expected_head } => v == Some(
                Verdict::SnapshotDiffTooLarge { actual_lines, expected_lines, actual_head, expected_head },
            ),
        },
{
    match result {
        DiffResult::NoChange => None,
        DiffResult::Diff { diff, .. } => Some(Verdict::SnapshotDiff { diff }),
        DiffResult::TooLarge { actual_lines, expected_lines, actual_head, expected_head } => Some(
            Verdict::SnapshotDiffTooLarge { actual_lines, expected_lines, actual_head, expected_head },
        ),
    }
}

} // verus!

verus! {

/// Op `i` lies inside one of the hunks `w`.
pub open spec fn in_hunk(w: Seq<(usize, usize)>, i: int) -> bool {
    exists|h: int| 0 <= h < w.len() && #[trigger] w[h].0 <= i <= w[h].1
}

/// The new lines that applying the hunks `w` of script `ops` to the old
/// lines `a` writes, from op `i` on: inside a hunk its `' '` lines (read
/// from `a`) and `'+'` lines are written and its `'-'` lines dropped;
/// outside every hunk the old line is copied.
pub open spec fn patched_from(ops: Seq<Op>, w: Seq<(usize, usize)>, a: Seq<Seq<char>>, b: Seq<Seq<char>>, i: int) -> Seq<Seq<char>>
    decreases ops.len() - i,
{
    if i < 0 || i >= ops.len() {
        Seq::empty()
    } else {
        let rest = patched_from(ops, w, a, b, i + 1);
        if in_hunk(w, i) {
            match ops[i] {
                Op::Equal { a: x, .. } => seq![a[x as int]] + rest,
                Op::Insert { b: j } => seq![b[j as int]] + rest,
                Op::Delete { .. } => rest,
            }
        } else {
            match ops[i] {
                Op::Equal { a: x, .. } => seq![a[x as int]] + rest,
                Op::Delete { a: x } => seq![a[x as int]] + rest,
                Op::Insert { .. } => rest,
            }
        }
    }
}

/// Outside every hunk there are only equal lines.
proof fn lemma_outside_hunks_equal(ops: Seq<Op>, c: int, w: Seq<(usize, usize)>, i: int)
    requires
        windows_ok(ops, c, w),
        c >= 0,
        0 <= i < ops.len(),
        !in_hunk(w, i),
    ensures
        ops[i] is Equal,
{
    if is_change(ops[i]) {
        assert(covered(ops, c, i));
    }
}

proof fn lemma_patched_suffix(ops: Seq<Op>, c: int, w: Seq<(usize, usize)>, a: Seq<Seq<char>>, b: Seq<Seq<char>>, i: int, x: int, y: int)
    requires
        windows_ok(ops, c, w),
        c >= 0,
        0 <= i <= ops.len(),
        0 <= y <= b.len(),
        script_from(ops.subrange(i, ops.len() as int), a, b, x, y),
    ensures
        patched_from(ops, w, a, b, i) == b.subrange(y, b.len() as int),
    decreases ops.len() - i,
{
    let s = ops.subrange(i, ops.len() as int);
    if i == ops.len() {
        assert(b.subrange(y, b.len() as int) =~= Seq::<Seq<char>>::empty());
    } else {
        assert(s[0] == ops[i]);
        assert(s.drop_first() =~= ops.subrange(i + 1, ops.len() as int));
        if !in_hunk(w, i) {
            lemma_outside_hunks_equal(ops, c, w, i);
        }
        match ops[i] {
            Op::Equal { .. } => {
                lemma_patched_suffix(ops, c, w, a, b, i + 1, x + 1, y + 1);
                assert(b.subrange(y, b.len() as int) =~= seq![b[y]] + b.subrange(y + 1, b.len() as int));
            },
            Op::Insert { .. } => {
                lemma_patched_suffix(ops, c, w, a, b, i + 1, x, y + 1);
                assert(b.subrange(y, b.len() as int) =~= seq![b[y]] + b.subrange(y + 1, b.len() as int));
            },
            Op::Delete { .. } => {
                lemma_patched_suffix(ops, c, w, a, b, i + 1, x + 1, y);
            },
        }
    }
}

/// Applying the hunks of a diff to the old lines gives the new lines:
/// for an edit script from `a` to `b` grouped into hunks with `c` lines
/// of context, copying the old lines outside the hunks and, inside them,
/// writing the `' '` and `'+'` lines and dropping the `'-'` lines yields
/// exactly `b`.
pub proof fn lemma_hunks_rebuild_new(ops: Seq<Op>, c: int, w: Seq<(usize, usize)>, a: Seq<Seq<char>>, b: Seq<Seq<char>>)
    requires
        edit_script(ops, a, b),
        windows_ok(ops, c, w),
        c >= 0,
    ensures
        patched_from(ops, w, a, b, 0) == b,
{
    assert(ops.subrange(0, ops.len() as int) =~= ops);
    lemma_patched_suffix(ops, c, w, a, b, 0, 0, 0);
    assert(b.subrange(0, b.len() as int) =~= b);
}


/// The `' '` and `'-'` lines of `ops[s..=e]`, as old lines.
pub open spec fn old_lines(ops: Seq<Op>, a: Seq<Seq<char>>, s: int, e: int) -> Seq<Seq<char>>
    decreases e - s + 1,
{
    if e < s {
        Seq::empty()
    } else {
        match ops[e] {
            Op::Equal { a: i, .. } => old_lines(ops, a, s, e - 1).push(a[i as int]),
            Op::Delete { a: i } => old_lines(ops, a, s, e - 1).push(a[i as int]),
            Op::Insert { .. } => old_lines(ops, a, s, e - 1),
        }
    }
}

/// The `' '` and `'+'` lines of `ops[s..=e]`, as new lines.
pub open spec fn new_lines(ops: Seq<Op>, b: Seq<Seq<char>>, s: int, e: int) -> Seq<Seq<char>>
    decreases e - s + 1,
{
    if e < s {
        Seq::empty()
    } else {
        match ops[e] {
            Op::Equal { b: j, .. } => new_lines(ops, b, s, e - 1).push(b[j as int]),
            Op::Insert { b: j } => new_lines(ops, b, s, e - 1).push(b[j as int]),
            Op::Delete { .. } => new_lines(ops, b, s, e - 1),
        }
    }
}

/// Old and new positions reached before op `i`.
pub open spec fn pos_a(ops: Seq<Op>, i: int) -> int {
    count_a(ops, 0, i - 1)
}

pub open spec fn pos_b(ops: Seq<Op>, i: int) -> int {
    count_b(ops, 0, i - 1)
}

/// Each op of an edit script names the lines at the positions reached
/// before it.
proof fn lemma_script_positions(ops: Seq<Op>, a: Seq<Seq<char>>, b: Seq<Seq<char>>, i: int)
    requires
        edit_script(ops, a, b),
        0 <= i <= ops.len(),
    ensures
        script_from(ops.subrange(i, ops.len() as int), a, b, pos_a(ops, i), pos_b(ops, i)),
    decreases i,
{
    if i == 0 {
        assert(ops.subrange(0, ops.len() as int) =~= ops);
    } else {
        lemma_script_positions(ops, a, b, i - 1);
        let t = ops.subrange(i - 1, ops.len() as int);
        assert(t[0] == ops[i - 1]);
        assert(t.drop_first() =~= ops.subrange(i, ops.len() as int));
    }
}

proof fn lemma_op_at_position(ops: Seq<Op>, a: Seq<Seq<char>>, b: Seq<Seq<char>>, i: int)
    requires
        edit_script(ops, a, b),
        0 <= i < ops.len(),
    ensures
        match ops[i] {
            Op::Equal { a: x, b: y } => x == pos_a(ops, i) && y == pos_b(ops, i) && x < a.len() && y < b.len()
                && a[x as int] == b[y as int],
            Op::Delete { a: x } => x == pos_a(ops, i) && x < a.len(),
            Op::Insert { b: y } => y == pos_b(ops, i) && y < b.len(),
        },
{
    lemma_script_positions(ops, a, b, i);
    let t = ops.subrange(i, ops.len() as int);
    assert(t[0] == ops[i]);
}

/// An op with an old line sits at the start of a range's old lines.
proof fn lemma_count_a_front(ops: Seq<Op>, s: int, e: int)
    requires
        0 <= s <= e < ops.len(),
    ensures
        count_a(ops, s, e) == (if ops[s] is Insert { 0int } else { 1int }) + count_a(ops, s + 1, e),
        count_b(ops, s, e) == (if ops[s] is Delete { 0int } else { 1int }) + count_b(ops, s + 1, e),
    decreases e - s,
{
    if e > s {
        lemma_count_a_front(ops, s, e - 1);
    } else {
        assert(count_a(ops, s, s - 1) == 0);
        assert(count_b(ops, s, s - 1) == 0);
    }
}

proof fn lemma_count_nonneg(ops: Seq<Op>, s: int, e: int)
    ensures
        count_a(ops, s, e) >= 0,
        count_b(ops, s, e) >= 0,
    decreases e - s + 1,
{
    if e >= s {
        lemma_count_nonneg(ops, s, e - 1);
    }
}

proof fn lemma_first_a_at(ops: Seq<Op>, a: Seq<Seq<char>>, b: Seq<Seq<char>>, s: int, e: int)
    requires
        edit_script(ops, a, b),
        0 <= s <= e < ops.len(),
        count_a(ops, s, e) > 0,
    ensures
        first_a(ops, s, e) == pos_a(ops, s),
    decreases e - s,
{
    lemma_op_at_position(ops, a, b, s);
    lemma_count_a_front(ops, s, e);
    if ops[s] is Insert {
        assert(s < e);
        lemma_first_a_at(ops, a, b, s + 1, e);
        assert(count_a(ops, 0, s) == count_a(ops, 0, s - 1));
    }
}

proof fn lemma_first_b_at(ops: Seq<Op>, a: Seq<Seq<char>>, b: Seq<Seq<char>>, s: int, e: int)
    requires
        edit_script(ops, a, b),
        0 <= s <= e < ops.len(),
        count_b(ops, s, e) > 0,
    ensures
        first_b(ops, s, e) == pos_b(ops, s),
    decreases e - s,
{
    lemma_op_at_position(ops, a, b, s);
    lemma_count_a_front(ops, s, e);
    if ops[s] is Delete {
        assert(s < e);
        lemma_first_b_at(ops, a, b, s + 1, e);
        assert(count_b(ops, 0, s) == count_b(ops, 0, s - 1));
    }
}

proof fn lemma_first_none(ops: Seq<Op>, s: int, e: int)
    requires
        0 <= s,
        e < ops.len(),
    ensures
        count_a(ops, s, e) == 0 ==> first_a(ops, s, e) == 0,
        count_b(ops, s, e) == 0 ==> first_b(ops, s, e) == 0,
    decreases e - s + 1,
{
    if s <= e {
        lemma_count_a_front(ops, s, e);
        lemma_count_nonneg(ops, s + 1, e);
        lemma_first_none(ops, s + 1, e);
    }
}

proof fn lemma_count_split(ops: Seq<Op>, s: int, e: int)
    requires
        0 <= s <= e + 1,
        e < ops.len(),
    ensures
        count_a(ops, 0, e) == count_a(ops, 0, s - 1) + count_a(ops, s, e),
        count_b(ops, 0, e) == count_b(ops, 0, s - 1) + count_b(ops, s, e),
    decreases e - s + 1,
{
    if e >= s {
        lemma_count_split(ops, s, e - 1);
    }
}

proof fn lemma_lines_consecutive(ops: Seq<Op>, a: Seq<Seq<char>>, b: Seq<Seq<char>>, s: int, e: int)
    requires
        edit_script(ops, a, b),
        0 <= s <= e + 1,
        e < ops.len(),
    ensures
        pos_a(ops, s) + count_a(ops, s, e) <= a.len(),
        pos_b(ops, s) + count_b(ops, s, e) <= b.len(),
        old_lines(ops, a, s, e) == a.subrange(pos_a(ops, s), pos_a(ops, s) + count_a(ops, s, e)),
        new_lines(ops, b, s, e) == b.subrange(pos_b(ops, s), pos_b(ops, s) + count_b(ops, s, e)),
    decreases e - s + 1,
{
    lemma_script_positions(ops, a, b, s);
    lemma_script_len_bounds(ops.subrange(s, ops.len() as int), a, b, pos_a(ops, s), pos_b(ops, s));
    lemma_count_nonneg(ops, 0, s - 1);
    lemma_count_nonneg(ops, s, e);
    if e < s {
        assert(a.subrange(pos_a(ops, s), pos_a(ops, s)) =~= Seq::<Seq<char>>::empty());
        assert(b.subrange(pos_b(ops, s), pos_b(ops, s)) =~= Seq::<Seq<char>>::empty());
    } else {
        lemma_lines_consecutive(ops, a, b, s, e - 1);
        lemma_op_at_position(ops, a, b, e);
        lemma_count_split(ops, s, e - 1);
        lemma_count_nonneg(ops, s, e - 1);
        let xa = pos_a(ops, s);
        let xb = pos_b(ops, s);
        let ca = count_a(ops, s, e - 1);
        let cb = count_b(ops, s, e - 1);
        if !(ops[e] is Insert) {
            assert(xa + ca < a.len());
            assert(a.subrange(xa, xa + ca).push(a[xa + ca]) =~= a.subrange(xa, xa + ca + 1));
        }
        if !(ops[e] is Delete) {
            assert(xb + cb < b.len());
            assert(b.subrange(xb, xb + cb).push(b[xb + cb]) =~= b.subrange(xb, xb + cb + 1));
        }
    }
}

proof fn lemma_script_len_bounds(ops: Seq<Op>, a: Seq<Seq<char>>, b: Seq<Seq<char>>, x: int, y: int)
    requires
        script_from(ops, a, b, x, y),
    ensures
        x <= a.len(),
        y <= b.len(),
    decreases ops.len(),
{
    if ops.len() > 0 {
        lemma_script_len_bounds(ops.drop_first(), a, b, if ops[0] is Insert { x } else { x + 1 }, if ops[0] is Delete { y } else { y + 1 });
    }
}

/// A hunk reads its `' '` and `'-'` lines from the old side and writes
/// its `' '` and `'+'` lines on the new side at the places its header
/// names: for ops `s..=e` of an edit script from `a` to `b`, the old lines
/// are the `count_a` lines of `a` from `first_a` on, and the new lines the
/// `count_b` lines of `b` from `first_b` on (the header prints these
/// starts 1-based, or 0 for an empty side).
pub proof fn lemma_hunk_lines_in_place(ops: Seq<Op>, a: Seq<Seq<char>>, b: Seq<Seq<char>>, s: int, e: int)
    requires
        edit_script(ops, a, b),
        0 <= s <= e < ops.len(),
    ensures
        old_lines(ops, a, s, e) == a.subrange(first_a(ops, s, e), first_a(ops, s, e) + count_a(ops, s, e)),
        new_lines(ops, b, s, e) == b.subrange(first_b(ops, s, e), first_b(ops, s, e) + count_b(ops, s, e)),
{
    lemma_lines_consecutive(ops, a, b, s, e);
    lemma_count_nonneg(ops, 0, s - 1);
    lemma_count_nonneg(ops, s, e);
    if count_a(ops, s, e) > 0 {
        lemma_first_a_at(ops, a, b, s, e);
    } else {
        assert(old_lines(ops, a, s, e).len() == 0) by {
            assert(a.subrange(pos_a(ops, s), pos_a(ops, s)).len() == 0);
        }
        lemma_first_none(ops, s, e);
        assert(old_lines(ops, a, s, e) =~= a.subrange(first_a(ops, s, e), first_a(ops, s, e)));
    }
    if count_b(ops, s, e) > 0 {
        lemma_first_b_at(ops, a, b, s, e);
    } else {
        assert(new_lines(ops, b, s, e).len() == 0) by {
            assert(b.subrange(pos_b(ops, s), pos_b(ops, s)).len() == 0);
        }
        lemma_first_none(ops, s, e);
        assert(new_lines(ops, b, s, e) =~= b.subrange(first_b(ops, s, e), first_b(ops, s, e)));
    }
}

} // verus!
