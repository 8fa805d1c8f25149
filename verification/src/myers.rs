//! Shortest edit scripts. Myers' search follows, for each number of edits,
//! the furthest-reaching path on every diagonal of the edit graph; the
//! script backtracked through the recorded rounds is a shortest one.
use vstd::prelude::*;
use crate::diff::{
    edit_script, is_change, push_back_step, reversed_of, script_from, unreverse, Op, HARD_LINE_CEILING,
};

verus! {

/// A step of a path through the edit graph of two line lists.
pub enum Move {
    /// Both lines at the current position are equal and consumed.
    Diag,
    /// An old line is consumed.
    Right,
    /// A new line is consumed.
    Down,
}

/// Where `ms` leads from the origin, if each diagonal step sits on two
/// equal lines. Right and down steps may leave the grid.
pub open spec fn walk(ms: Seq<Move>, a: Seq<Seq<char>>, b: Seq<Seq<char>>) -> Option<(int, int)>
    decreases ms.len(),
{
    if ms.len() == 0 {
        Some((0, 0))
    } else {
        match walk(ms.drop_last(), a, b) {
            None => None,
            Some(p) => match ms.last() {
                Move::Diag => if 0 <= p.0 < a.len() && 0 <= p.1 < b.len() && a[p.0] == b[p.1] {
                    Some((p.0 + 1, p.1 + 1))
                } else {
                    None
                },
                Move::Right => Some((p.0 + 1, p.1)),
                Move::Down => Some((p.0, p.1 + 1)),
            },
        }
    }
}

/// Number of non-diagonal steps.
pub open spec fn move_changes(ms: Seq<Move>) -> int
    decreases ms.len(),
{
    if ms.len() == 0 {
        0
    } else {
        move_changes(ms.drop_last()) + if ms.last() is Diag { 0int } else { 1int }
    }
}

/// Number of deletions and insertions in an edit script.
pub open spec fn change_count(ops: Seq<Op>) -> int
    decreases ops.len(),
{
    if ops.len() == 0 {
        0
    } else {
        change_count(ops.drop_last()) + if is_change(ops.last()) { 1int } else { 0int }
    }
}

/// `ops` turns `a` into `b` with no more deletions and insertions than
/// any other edit script.
pub open spec fn shortest_script(ops: Seq<Op>, a: Seq<Seq<char>>, b: Seq<Seq<char>>) -> bool {
    &&& edit_script(ops, a, b)
    &&& forall|o: Seq<Op>| #[trigger] edit_script(o, a, b) ==> change_count(ops) <= change_count(o)
}

/// Within each run of changes the deletions come before the insertions:
/// no insertion is directly followed by a deletion.
pub open spec fn deletes_first(ops: Seq<Op>) -> bool {
    forall|i: int| 0 <= i < ops.len() - 1 ==> !(#[trigger] ops[i] is Insert && ops[i + 1] is Delete)
}

proof fn lemma_deletes_first_prepend(op: Op, s: Seq<Op>)
    requires
        deletes_first(s),
        !(op is Insert && s.len() > 0 && s[0] is Delete),
    ensures
        deletes_first(seq![op] + s),
{
    let c = seq![op] + s;
    assert forall|i: int| 0 <= i < c.len() - 1 implies !(#[trigger] c[i] is Insert && c[i + 1] is Delete) by {
        if i > 0 {
            assert(c[i] == s[i - 1]);
            assert(c[i + 1] == s[i]);
        } else {
            assert(c[0] == op);
            assert(c[1] == s[0]);
        }
    }
}

pub open spec fn move_of(op: Op) -> Move {
    match op {
        Op::Equal { .. } => Move::Diag,
        Op::Delete { .. } => Move::Right,
        Op::Insert { .. } => Move::Down,
    }
}

pub open spec fn moves_of(ops: Seq<Op>) -> Seq<Move> {
    ops.map_values(|o: Op| move_of(o))
}

pub open spec fn same_parity(p: int, q: int) -> bool {
    (p - q) % 2 == 0
}

/// Diagonal `k` is one the round with `d` edits visits.
pub open spec fn on_diag(d: int, k: int) -> bool {
    -d <= k <= d && same_parity(k, d)
}

proof fn lemma_push_unfold(ms: Seq<Move>, m: Move)
    ensures
        ms.push(m).drop_last() == ms,
        ms.push(m).last() == m,
        ms.push(m).len() == ms.len() + 1,
{
    assert(ms.push(m).drop_last() =~= ms);
}

/// A walk stays in the quadrant, and its diagonal is reached with a
/// matching number of changes.
proof fn lemma_walk_basic(ms: Seq<Move>, a: Seq<Seq<char>>, b: Seq<Seq<char>>)
    requires
        walk(ms, a, b) is Some,
    ensures
        ({
            let p = walk(ms, a, b).unwrap();
            0 <= p.0 && 0 <= p.1 && move_changes(ms) >= 0 && on_diag(move_changes(ms), p.0 - p.1)
        }),
    decreases ms.len(),
{
    if ms.len() > 0 {
        lemma_walk_basic(ms.drop_last(), a, b);
    }
}

proof fn lemma_change_count_append(s: Seq<Op>, t: Seq<Op>)
    ensures
        change_count(s + t) == change_count(s) + change_count(t),
    decreases t.len(),
{
    if t.len() == 0 {
        assert(s + t =~= s);
    } else {
        lemma_change_count_append(s, t.drop_last());
        assert((s + t).drop_last() =~= s + t.drop_last());
    }
}

proof fn lemma_moves_changes(ops: Seq<Op>)
    ensures
        move_changes(moves_of(ops)) == change_count(ops),
    decreases ops.len(),
{
    if ops.len() > 0 {
        lemma_moves_changes(ops.drop_last());
        assert(moves_of(ops).drop_last() =~= moves_of(ops.drop_last()));
    }
}

/// The steps of an edit script from `(x, y)`, after a path reaching
/// `(x, y)`, walk to the end of both sides.
proof fn lemma_script_walk(ops: Seq<Op>, a: Seq<Seq<char>>, b: Seq<Seq<char>>, pre: Seq<Move>, x: int, y: int)
    requires
        script_from(ops, a, b, x, y),
        walk(pre, a, b) == Some((x, y)),
    ensures
        walk(pre + moves_of(ops), a, b) == Some((a.len() as int, b.len() as int)),
    decreases ops.len(),
{
    if ops.len() == 0 {
        assert(pre + moves_of(ops) =~= pre);
    } else {
        let m = move_of(ops[0]);
        lemma_push_unfold(pre, m);
        let nx = if ops[0] is Insert { x } else { x + 1 };
        let ny = if ops[0] is Delete { y } else { y + 1 };
        assert(walk(pre.push(m), a, b) == Some((nx, ny)));
        lemma_script_walk(ops.drop_first(), a, b, pre.push(m), nx, ny);
        assert(pre.push(m) + moves_of(ops.drop_first()) =~= pre + moves_of(ops));
    }
}

/// Extending a path along equal lines of diagonal `k`.
proof fn lemma_snake_walk(ms: Seq<Move>, a: Seq<Seq<char>>, b: Seq<Seq<char>>, k: int, x: int, e: int) -> (out: Seq<Move>)
    requires
        walk(ms, a, b) == Some((x, x - k)),
        x <= e,
        snake_eq(a, b, k, x, e),
    ensures
        walk(out, a, b) == Some((e, e - k)),
        move_changes(out) == move_changes(ms),
    decreases e - x,
{
    if x == e {
        ms
    } else {
        lemma_push_unfold(ms, Move::Diag);
        assert(cell_eq(a, b, k, x));
        lemma_snake_walk(ms.push(Move::Diag), a, b, k, x + 1, e)
    }
}

/// `i` old lines removed, then `j` new lines added.
proof fn lemma_rights_downs(a: Seq<Seq<char>>, b: Seq<Seq<char>>, i: int, j: int) -> (ms: Seq<Move>)
    requires
        0 <= i,
        0 <= j,
    ensures
        walk(ms, a, b) == Some((i, j)),
        move_changes(ms) == i + j,
    decreases i + j,
{
    if j > 0 {
        let p = lemma_rights_downs(a, b, i, j - 1);
        lemma_push_unfold(p, Move::Down);
        p.push(Move::Down)
    } else if i > 0 {
        let p = lemma_rights_downs(a, b, i - 1, 0);
        lemma_push_unfold(p, Move::Right);
        p.push(Move::Right)
    } else {
        Seq::empty()
    }
}

pub open spec fn max0(v: int) -> int {
    if v > 0 { v } else { 0 }
}

pub open spec fn min_of(v: int, w: int) -> int {
    if v < w { v } else { w }
}

/// A path that leaves the grid can be cut back to one that ends at the
/// clamped point, saving one change per step outside.
proof fn lemma_clip(ms: Seq<Move>, a: Seq<Seq<char>>, b: Seq<Seq<char>>) -> (out: Seq<Move>)
    requires
        walk(ms, a, b) is Some,
    ensures
        ({
            let p = walk(ms, a, b).unwrap();
            &&& walk(out, a, b) == Some((min_of(p.0, a.len() as int), min_of(p.1, b.len() as int)))
            &&& move_changes(out) == move_changes(ms) - max0(p.0 - a.len()) - max0(p.1 - b.len())
        }),
    decreases ms.len(),
{
    if ms.len() == 0 {
        ms
    } else {
        let pre = ms.drop_last();
        lemma_walk_basic(pre, a, b);
        let c = lemma_clip(pre, a, b);
        let q = walk(pre, a, b).unwrap();
        match ms.last() {
            Move::Diag => {
                lemma_push_unfold(c, Move::Diag);
                c.push(Move::Diag)
            },
            Move::Right => {
                if q.0 < a.len() {
                    lemma_push_unfold(c, Move::Right);
                    c.push(Move::Right)
                } else {
                    c
                }
            },
            Move::Down => {
                if q.1 < b.len() {
                    lemma_push_unfold(c, Move::Down);
                    c.push(Move::Down)
                } else {
                    c
                }
            },
        }
    }
}

// Rounds of the search. `v[k + off]` holds the furthest `x` reached on
// diagonal `k`.
pub open spec fn vat(v: Seq<isize>, off: int, k: int) -> int {
    v[k + off] as int
}

/// The round with `d` edits extends diagonal `k` from diagonal `k + 1`
/// (an insertion) rather than from `k - 1` (a deletion).
pub open spec fn pick_up(v: Seq<isize>, off: int, d: int, k: int) -> bool {
    k == -d || (k != d && vat(v, off, k - 1) < vat(v, off, k + 1))
}

/// Where the round with `d` edits starts on diagonal `k`, given the
/// previous round.
pub open spec fn start_x(v: Seq<isize>, off: int, d: int, k: int) -> int {
    if pick_up(v, off, d, k) {
        vat(v, off, k + 1)
    } else {
        vat(v, off, k - 1) + 1
    }
}

/// A diagonal step is possible at `x` on diagonal `k`.
pub open spec fn cell_eq(a: Seq<Seq<char>>, b: Seq<Seq<char>>, k: int, x: int) -> bool {
    0 <= x < a.len() && 0 <= x - k < b.len() && a[x] == b[x - k]
}

/// Lines `lo..hi` of `a` equal the lines of `b` on diagonal `k`.
pub open spec fn snake_eq(a: Seq<Seq<char>>, b: Seq<Seq<char>>, k: int, lo: int, hi: int) -> bool {
    forall|i: int| lo <= i < hi ==> #[trigger] cell_eq(a, b, k, i)
}

/// No diagonal step is possible at `x` on diagonal `k`.
pub open spec fn snake_stops(a: Seq<Seq<char>>, b: Seq<Seq<char>>, k: int, x: int) -> bool {
    !cell_eq(a, b, k, x)
}

/// Diagonal `k` of round `d`: from its start, along equal lines, as far
/// as they go.
pub open spec fn diag_ok(prev: Seq<isize>, cur: Seq<isize>, off: int, d: int, k: int, a: Seq<Seq<char>>, b: Seq<Seq<char>>) -> bool {
    let s = start_x(prev, off, d, k);
    let e = vat(cur, off, k);
    &&& s <= e
    &&& snake_eq(a, b, k, s, e)
    &&& snake_stops(a, b, k, e)
}

/// Every diagonal of round `d` up to `kmax` is done right.
pub open spec fn round_ok(prev: Seq<isize>, cur: Seq<isize>, off: int, d: int, kmax: int, a: Seq<Seq<char>>, b: Seq<Seq<char>>) -> bool {
    forall|k: int| on_diag(d, k) && k <= kmax ==> #[trigger] diag_ok(prev, cur, off, d, k, a, b)
}

/// No diagonal of round `d` up to `kmax` reached the end of both sides.
pub open spec fn none_done(cur: Seq<isize>, off: int, d: int, kmax: int, n: int, m: int) -> bool {
    forall|k: int| on_diag(d, k) && k <= kmax ==> !(#[trigger] vat(cur, off, k) >= n && vat(cur, off, k) - k >= m)
}

/// Round `d` changes only the diagonals it visits.
pub open spec fn keeps_other(prev: Seq<isize>, cur: Seq<isize>, off: int, d: int) -> bool {
    &&& cur.len() == prev.len()
    &&& forall|j: int| 0 <= j < cur.len() && !same_parity(j - off, d) ==> #[trigger] cur[j] == prev[j]
}

pub open spec fn zeros(size: int) -> Seq<isize> {
    Seq::new(size as nat, |i: int| 0isize)
}

/// The state the round with `d` edits starts from.
pub open spec fn prev_round(tr: Seq<Seq<isize>>, size: int, d: int) -> Seq<isize> {
    if d == 0 {
        zeros(size)
    } else {
        tr[d - 1]
    }
}

/// Round `d` visited every diagonal and none reached the end.
#[verifier::opaque]
pub open spec fn full_round(tr: Seq<Seq<isize>>, size: int, off: int, d: int, a: Seq<Seq<char>>, b: Seq<Seq<char>>) -> bool {
    &&& tr[d].len() == size
    &&& round_ok(prev_round(tr, size, d), tr[d], off, d, d, a, b)
    &&& none_done(tr[d], off, d, d, a.len() as int, b.len() as int)
    &&& keeps_other(prev_round(tr, size, d), tr[d], off, d)
}

/// Round `d` reached the end of both sides on diagonal `kf`, after the
/// diagonals below it did not.
#[verifier::opaque]
pub open spec fn last_round(tr: Seq<Seq<isize>>, size: int, off: int, d: int, kf: int, a: Seq<Seq<char>>, b: Seq<Seq<char>>) -> bool {
    &&& tr[d].len() == size
    &&& on_diag(d, kf)
    &&& round_ok(prev_round(tr, size, d), tr[d], off, d, kf, a, b)
    &&& none_done(tr[d], off, d, kf - 2, a.len() as int, b.len() as int)
    &&& keeps_other(prev_round(tr, size, d), tr[d], off, d)
    &&& vat(tr[d], off, kf) >= a.len()
    &&& vat(tr[d], off, kf) - kf >= b.len()
}

/// The recorded rounds of a finished search.
pub open spec fn search_ok(tr: Seq<Seq<isize>>, size: int, off: int, kf: int, a: Seq<Seq<char>>, b: Seq<Seq<char>>) -> bool {
    &&& off == a.len() + b.len()
    &&& off >= 1
    &&& size == 2 * off + 1
    &&& 1 <= tr.len() <= off + 1
    &&& forall|t: int| 0 <= t < tr.len() - 1 ==> #[trigger] full_round(tr, size, off, t, a, b)
    &&& last_round(tr, size, off, tr.len() - 1, kf, a, b)
}

/// On a finished round, the furthest point of every diagonal is at least
/// as far as any path with that many changes reaching the diagonal.
proof fn lemma_furthest(tr: Seq<Seq<isize>>, size: int, off: int, a: Seq<Seq<char>>, b: Seq<Seq<char>>, ms: Seq<Move>, r: int)
    requires
        off == a.len() + b.len(),
        off >= 1,
        size == 2 * off + 1,
        r <= tr.len(),
        forall|t: int| 0 <= t < r ==> #[trigger] full_round(tr, size, off, t, a, b),
        walk(ms, a, b) is Some,
        move_changes(ms) < r,
    ensures
        ({
            let p = walk(ms, a, b).unwrap();
            let c = move_changes(ms);
            on_diag(c, p.0 - p.1) && vat(tr[c], off, p.0 - p.1) >= p.0
        }),
    decreases ms.len(),
{
    lemma_walk_basic(ms, a, b);
    let p = walk(ms, a, b).unwrap();
    let c = move_changes(ms);
    let k = p.0 - p.1;
    assert(full_round(tr, size, off, c, a, b));
    reveal(full_round);
    assert(diag_ok(prev_round(tr, size, c), tr[c], off, c, k, a, b));
    if ms.len() > 0 {
        let pre = ms.drop_last();
        lemma_walk_basic(pre, a, b);
        lemma_furthest(tr, size, off, a, b, pre, r);
        let q = walk(pre, a, b).unwrap();
        match ms.last() {
            Move::Diag => {
                let e = vat(tr[c], off, k);
                if e < p.0 {
                    assert(e == q.0);
                    assert(snake_stops(a, b, k, e));
                }
            },
            Move::Right => {
                let prev = prev_round(tr, size, c);
                assert(c >= 1);
                assert(prev == tr[c - 1]);
                assert(vat(prev, off, k - 1) >= q.0);
            },
            Move::Down => {
                let prev = prev_round(tr, size, c);
                assert(c >= 1);
                assert(prev == tr[c - 1]);
                assert(vat(prev, off, k + 1) >= q.0);
            },
        }
    }
}

/// Every furthest point recorded is reached by a path with that round's
/// number of changes.
proof fn lemma_witness(tr: Seq<Seq<isize>>, size: int, off: int, a: Seq<Seq<char>>, b: Seq<Seq<char>>, t: int, k: int) -> (ms: Seq<Move>)
    requires
        off == a.len() + b.len(),
        off >= 1,
        size == 2 * off + 1,
        0 <= t < tr.len(),
        forall|u: int| 0 <= u < t ==> #[trigger] full_round(tr, size, off, u, a, b),
        on_diag(t, k),
        diag_ok(prev_round(tr, size, t), tr[t], off, t, k, a, b),
    ensures
        walk(ms, a, b) == Some((vat(tr[t], off, k), vat(tr[t], off, k) - k)),
        move_changes(ms) == t,
    decreases t,
{
    let prev = prev_round(tr, size, t);
    let s = start_x(prev, off, t, k);
    let e = vat(tr[t], off, k);
    let start: Seq<Move> = if t == 0 {
        assert(k == 0);
        assert(s == 0);
        Seq::empty()
    } else {
        assert(prev == tr[t - 1]);
        assert(full_round(tr, size, off, t - 1, a, b));
        reveal(full_round);
        if pick_up(prev, off, t, k) {
            assert(on_diag(t - 1, k + 1));
            assert(diag_ok(prev_round(tr, size, t - 1), tr[t - 1], off, t - 1, k + 1, a, b));
            let p = lemma_witness(tr, size, off, a, b, t - 1, k + 1);
            lemma_push_unfold(p, Move::Down);
            p.push(Move::Down)
        } else {
            assert(on_diag(t - 1, k - 1));
            assert(diag_ok(prev_round(tr, size, t - 1), tr[t - 1], off, t - 1, k - 1, a, b));
            let p = lemma_witness(tr, size, off, a, b, t - 1, k - 1);
            lemma_push_unfold(p, Move::Right);
            p.push(Move::Right)
        }
    };
    lemma_snake_walk(start, a, b, k, s, e)
}

/// The search stops exactly at the end of both sides.
proof fn lemma_stops_at_end(tr: Seq<Seq<isize>>, size: int, off: int, kf: int, a: Seq<Seq<char>>, b: Seq<Seq<char>>)
    requires
        search_ok(tr, size, off, kf, a, b),
    ensures
        kf == a.len() - b.len(),
        vat(tr[tr.len() - 1], off, kf) == a.len(),
{
    let d = tr.len() - 1;
    reveal(last_round);
    assert(diag_ok(prev_round(tr, size, d), tr[d], off, d, kf, a, b));
    let ms = lemma_witness(tr, size, off, a, b, d, kf);
    let x = vat(tr[d], off, kf);
    if x > a.len() || x - kf > b.len() {
        let c = lemma_clip(ms, a, b);
        lemma_furthest(tr, size, off, a, b, c, d);
        let cc = move_changes(c);
        let k = a.len() - b.len();
        assert(full_round(tr, size, off, cc, a, b));
        reveal(full_round);
        assert(!(vat(tr[cc], off, k) >= a.len() && vat(tr[cc], off, k) - k >= b.len()));
    }
}

/// No edit script has fewer changes than the round the search stopped at.
proof fn lemma_no_shorter(tr: Seq<Seq<isize>>, size: int, off: int, kf: int, a: Seq<Seq<char>>, b: Seq<Seq<char>>, o: Seq<Op>)
    requires
        search_ok(tr, size, off, kf, a, b),
        edit_script(o, a, b),
    ensures
        change_count(o) >= tr.len() - 1,
{
    let d = tr.len() - 1;
    lemma_script_walk(o, a, b, Seq::empty(), 0, 0);
    assert(Seq::<Move>::empty() + moves_of(o) =~= moves_of(o));
    lemma_moves_changes(o);
    lemma_walk_basic(moves_of(o), a, b);
    if change_count(o) < d {
        let c = change_count(o);
        let k = a.len() - b.len();
        lemma_furthest(tr, size, off, a, b, moves_of(o), d);
        assert(full_round(tr, size, off, c, a, b));
        reveal(full_round);
        assert(!(vat(tr[c], off, k) >= a.len() && vat(tr[c], off, k) - k >= b.len()));
    }
}


proof fn lemma_change_count_prepend(op: Op, s: Seq<Op>)
    ensures
        change_count(seq![op] + s) == change_count(s) + if is_change(op) { 1int } else { 0int },
{
    lemma_change_count_append(seq![op], s);
    assert(seq![op].drop_last() =~= Seq::<Op>::empty());
    assert(change_count(Seq::<Op>::empty()) == 0);
}

proof fn lemma_change_count_nonneg(s: Seq<Op>)
    ensures
        change_count(s) >= 0,
    decreases s.len(),
{
    if s.len() > 0 {
        lemma_change_count_nonneg(s.drop_last());
    }
}

/// Finished rounds stay finished when another round is recorded.
proof fn lemma_rounds_push(tr: Seq<Seq<isize>>, x: Seq<isize>, size: int, off: int, a: Seq<Seq<char>>, b: Seq<Seq<char>>, r: int)
    requires
        0 <= r <= tr.len(),
        forall|t: int| 0 <= t < r ==> #[trigger] full_round(tr, size, off, t, a, b),
    ensures
        forall|t: int| 0 <= t < r ==> #[trigger] full_round(tr.push(x), size, off, t, a, b),
{
    reveal(full_round);
    assert forall|t: int| 0 <= t < r implies #[trigger] full_round(tr.push(x), size, off, t, a, b) by {
        assert(full_round(tr, size, off, t, a, b));
        assert(tr.push(x)[t] == tr[t]);
        assert(prev_round(tr.push(x), size, t) == prev_round(tr, size, t));
    }
}

pub open spec fn views(tr: Seq<Vec<isize>>) -> Seq<Seq<isize>> {
    tr.map_values(|t: Vec<isize>| t@)
}

/// Myers' O(ND) diff: follows the furthest-reaching path on each diagonal
/// for growing edit counts, records every round, and backtracks from the
/// end of both sides to a shortest edit script.
#[verifier::spinoff_prover]
#[verifier::rlimit(60)]
pub(crate) fn myers_diff(a: &Vec<String>, b: &Vec<String>) -> (ops: Vec<Op>)
    requires
        a@.len() <= HARD_LINE_CEILING,
        b@.len() <= HARD_LINE_CEILING,
    ensures
        shortest_script(ops@, a.deep_view(), b.deep_view()),
        deletes_first(ops@),
{
    let ghost ga = a.deep_view();
    let ghost gb = b.deep_view();
    let n = a.len();
    let m = b.len();
    let max = n + m;
    if max == 0 {
        proof {
            assert forall|o: Seq<Op>| #[trigger] edit_script(o, ga, gb) implies change_count(Seq::<Op>::empty()) <= change_count(o) by {
                lemma_change_count_nonneg(o);
            }
        }
        return Vec::new();
    }
    let size = 2 * max + 1;
    let mut v: Vec<isize> = vec![0isize; size];
    let mut trace: Vec<Vec<isize>> = Vec::new();
    let offset: isize = max as isize;
    let ni: isize = n as isize;
    let mi: isize = m as isize;
    let mut d: isize = 0;
    let mut done = false;
    let ghost mut kf: int = 0;
    proof {
        assert(v@ =~= zeros(size as int));
        assert(views(trace@) =~= Seq::<Seq<isize>>::empty());
    }
    while d <= offset && !done
        invariant
            n == a@.len(),
            m == b@.len(),
            ga == a.deep_view(),
            gb == b.deep_view(),
            ga.len() == n,
            gb.len() == m,
            ni == n,
            mi == m,
            max == n + m,
            1 <= max <= 2 * HARD_LINE_CEILING,
            offset == max,
            size == 2 * max + 1,
            0 <= d <= max + 1,
            trace@.len() == d,
            v@.len() == size,
            forall|j: int| 0 <= j < size ==> 0 <= #[trigger] v@[j] <= n + d,
            !done && d >= 1 ==> forall|j: int|
                0 <= j < size && -(d - 1) <= j - offset <= d - 1 && same_parity(j - offset, d - 1)
                    ==> #[trigger] v@[j] - (j - offset) >= 0,
            forall|t: int| 0 <= t < trace@.len() ==> (#[trigger] trace@[t])@.len() == size,
            forall|t: int, j: int|
                0 <= t < trace@.len() && 0 <= j < size ==> 0 <= #[trigger] trace@[t]@[j] <= n + max + 1,
            forall|t: int| 0 <= t < (if done { d - 1 } else { d as int }) ==> #[trigger] full_round(views(trace@), size as int, offset as int, t, ga, gb),
            !done ==> v@ == prev_round(views(trace@), size as int, d as int),
            done ==> d >= 1 && last_round(views(trace@), size as int, offset as int, d - 1, kf, ga, gb),
        decreases max + 1 - d,
    {
        let ghost vs = v@;
        let ghost tr0 = views(trace@);
        let mut k: isize = -d;
        while k <= d && !done
            invariant
                n == a@.len(),
                m == b@.len(),
                ga == a.deep_view(),
                gb == b.deep_view(),
                ga.len() == n,
                gb.len() == m,
                ni == n,
                mi == m,
                max == n + m,
                1 <= max <= 2 * HARD_LINE_CEILING,
                offset == max,
                size == 2 * max + 1,
                0 <= d <= max,
                -d <= k <= d + 2,
                trace@.len() == (if done { d + 1 } else { d as int }),
                same_parity(k as int, d as int),
                v@.len() == size,
                vs.len() == size,
                tr0.len() == d,
                forall|t: int| 0 <= t < d ==> views(trace@)[t] == #[trigger] tr0[t],
                vs == prev_round(tr0, size as int, d as int),
                forall|t: int| 0 <= t < d ==> #[trigger] full_round(tr0, size as int, offset as int, t, ga, gb),
                forall|j: int| 0 <= j < size ==> 0 <= #[trigger] vs[j] <= n + d,
                forall|j: int| 0 <= j < size ==> 0 <= #[trigger] v@[j] <= n + d + 1,
                keeps_other(vs, v@, offset as int, d as int),
                d >= 1 ==> forall|j: int|
                    0 <= j < size && -(d - 1) <= j - offset <= d - 1 && same_parity(j - offset, d - 1)
                        ==> #[trigger] vs[j] - (j - offset) >= 0,
                !done ==> forall|j: int|
                    0 <= j < size && -d <= j - offset < k && same_parity(j - offset, d as int)
                        ==> #[trigger] v@[j] - (j - offset) >= 0,
                round_ok(vs, v@, offset as int, d as int, if done { k as int } else { k - 2 }, ga, gb),
                none_done(v@, offset as int, d as int, k - 2, n as int, m as int),
                done ==> trace@[d as int]@ == v@ && kf == k && on_diag(d as int, k as int)
                    && vat(v@, offset as int, k as int) >= n && vat(v@, offset as int, k as int) - k >= m,
                forall|t: int| 0 <= t < trace@.len() ==> (#[trigger] trace@[t])@.len() == size,
                forall|t: int, j: int|
                    0 <= t < trace@.len() && 0 <= j < size ==> 0 <= #[trigger] trace@[t]@[j] <= n + max
                        + 1,
            decreases d + 2 - k, (if done { 0int } else { 1int }),
        {
            let k_idx = (k + offset) as usize;
            proof {
                if k != -d {
                    assert(v@[(k - 1 + offset) as int] == vs[(k - 1 + offset) as int]);
                }
                if k == -d || k != d {
                    assert(v@[(k + 1 + offset) as int] == vs[(k + 1 + offset) as int]);
                }
            }
            let mut x: isize = if k == -d || (k != d && v[(k - 1 + offset) as usize] < v[(k + 1
                + offset) as usize]) {
                v[(k + 1 + offset) as usize]
            } else {
                v[(k - 1 + offset) as usize] + 1
            };
            let mut y: isize = x - k;
            let ghost x0 = x;
            proof {
                assert(x0 == start_x(vs, offset as int, d as int, k as int));
                if d >= 1 {
                    if x == vs[(k + 1 + offset) as int] && (k == -d || k != d) {
                        assert(same_parity(k + 1, d - 1));
                        assert(vs[(k + 1 + offset) as int] - (k + 1) >= 0);
                    } else {
                        assert(same_parity(k - 1, d - 1));
                        assert(vs[(k - 1 + offset) as int] - (k - 1) >= 0);
                    }
                }
            }
            while x < ni && y < mi && a[x as usize] == b[y as usize]
                invariant
                    n == a@.len(),
                    m == b@.len(),
                    ga == a.deep_view(),
                    gb == b.deep_view(),
                    ni == n,
                    mi == m,
                    0 <= x0 <= x,
                    x <= (if x0 > n { x0 as int } else { n as int }),
                    0 <= y,
                    y == x - k,
                    x0 <= n + d + 1,
                    snake_eq(ga, gb, k as int, x0 as int, x as int),
                decreases n - x,
            {
                proof {
                    assert(cell_eq(ga, gb, k as int, x as int));
                }
                x = x + 1;
                y = y + 1;
            }
            let ghost old_v = v@;
            v.set(k_idx, x);
            proof {
                assert(snake_stops(ga, gb, k as int, x as int));
                assert(vat(v@, offset as int, k as int) == x);
                assert(diag_ok(vs, v@, offset as int, d as int, k as int, ga, gb));
                assert forall|kk: int| on_diag(d as int, kk) && kk <= k implies #[trigger] diag_ok(vs, v@, offset as int, d as int, kk, ga, gb) by {
                    if kk < k {
                        assert(diag_ok(vs, old_v, offset as int, d as int, kk, ga, gb));
                        assert(v@[kk + offset] == old_v[kk + offset]);
                    }
                }
                assert forall|kk: int| on_diag(d as int, kk) && kk <= k - 2 implies !(#[trigger] vat(v@, offset as int, kk) >= n && vat(v@, offset as int, kk) - kk >= m) by {
                    assert(v@[kk + offset] == old_v[kk + offset]);
                    assert(!(vat(old_v, offset as int, kk) >= n && vat(old_v, offset as int, kk) - kk >= m));
                }
            }
            if x >= ni && y >= mi {
                let snap = v.clone();
                proof {
                    assert(snap@ =~= v@);
                    kf = k as int;
                }
                trace.push(snap);
                done = true;
            } else {
                k = k + 2;
            }
        }
        if !done {
            let snap = v.clone();
            proof {
                assert(snap@ =~= v@);
                assert(k == d + 2);
                assert(views(trace@) =~= tr0);
                lemma_rounds_push(tr0, v@, size as int, offset as int, ga, gb, d as int);
            }
            trace.push(snap);
            proof {
                assert(views(trace@) =~= tr0.push(v@));
                reveal(full_round);
                assert(prev_round(tr0.push(v@), size as int, d as int) == vs);
                assert(full_round(tr0.push(v@), size as int, offset as int, d as int, ga, gb));
            }
        } else {
            proof {
                assert(views(trace@) =~= tr0.push(v@));
                lemma_rounds_push(tr0, v@, size as int, offset as int, ga, gb, d as int);
                reveal(last_round);
                assert(prev_round(tr0.push(v@), size as int, d as int) == vs);
                assert(last_round(tr0.push(v@), size as int, offset as int, d as int, kf, ga, gb));
            }
        }
        d = d + 1;
    }
    let ghost tr = views(trace@);
    proof {
        if !done {
            let ms = lemma_rights_downs(ga, gb, n as int, m as int);
            lemma_furthest(tr, size as int, offset as int, ga, gb, ms, max + 1);
            assert(full_round(tr, size as int, offset as int, max as int, ga, gb));
            reveal(full_round);
            assert(!(vat(tr[max as int], offset as int, n - m) >= n && vat(tr[max as int], offset as int, n - m) - (n - m) >= m));
        }
        assert(search_ok(tr, size as int, offset as int, kf, ga, gb));
        lemma_stops_at_end(tr, size as int, offset as int, kf, ga, gb);
        reveal(last_round);
        assert(on_diag(tr.len() - 1, kf));
        assert(change_count(Seq::<Op>::empty()) == 0);
        assert(script_from(Seq::<Op>::empty(), ga, gb, n as int, m as int));
    }
    let mut rev: Vec<Op> = Vec::new();
    let ghost mut suffix: Seq<Op> = Seq::empty();
    let mut x: isize = ni;
    let mut y: isize = mi;
    let mut dd: usize = trace.len();
    while dd > 0
        invariant
            n == a@.len(),
            m == b@.len(),
            ni == n,
            mi == m,
            ga == a.deep_view(),
            gb == b.deep_view(),
            ga.len() == n,
            gb.len() == m,
            max == n + m,
            1 <= max <= 2 * HARD_LINE_CEILING,
            offset == max,
            size == 2 * max + 1,
            tr == views(trace@),
            search_ok(tr, size as int, offset as int, kf, ga, gb),
            kf == n - m,
            dd <= trace@.len(),
            forall|t: int, j: int|
                0 <= t < trace@.len() && 0 <= j < size ==> 0 <= #[trigger] trace@[t]@[j] <= n + max + 1,
            reversed_of(rev@, suffix),
            dd > 0 ==> {
                &&& 0 <= x <= n
                &&& 0 <= y <= m
                &&& on_diag(dd - 1, x - y)
                &&& vat(tr[dd - 1], offset as int, x - y) == x
                &&& (dd == trace@.len() ==> x - y == kf)
                &&& script_from(suffix, ga, gb, x as int, y as int)
                &&& change_count(suffix) == trace@.len() - dd
                &&& suffix.len() > 0 && suffix[0] is Delete ==> dd < trace@.len() && !pick_up(
                    tr[dd - 1],
                    offset as int,
                    dd as int,
                    x - y + 1,
                )
            },
            deletes_first(suffix),
            dd == 0 ==> script_from(suffix, ga, gb, 0, 0) && change_count(suffix) == trace@.len() - 1,
        decreases dd,
    {
        dd = dd - 1;
        let di: isize = dd as isize;
        let vt = &trace[dd];
        let k: isize = x - y;
        let ghost t = dd as int;
        let ghost prev = prev_round(tr, size as int, t);
        proof {
            if t < tr.len() - 1 {
                assert(full_round(tr, size as int, offset as int, t, ga, gb));
                reveal(full_round);
            } else {
                reveal(last_round);
            }
            assert(diag_ok(prev, tr[t], offset as int, t, k as int, ga, gb));
            assert(keeps_other(prev, tr[t], offset as int, t));
            assert(vt@ == tr[t]);
            if k != -di {
                assert(vt@[(k - 1 + offset) as int] == prev[(k - 1 + offset) as int]);
            }
            if k != di {
                assert(vt@[(k + 1 + offset) as int] == prev[(k + 1 + offset) as int]);
            }
        }
        let prev_k: isize = if k == -di || (k != di && vt[(k - 1 + offset) as usize] < vt[(k + 1 + offset)
            as usize]) {
            k + 1
        } else {
            k - 1
        };
        let prev_x: isize = vt[(prev_k + offset) as usize];
        let prev_y: isize = prev_x - prev_k;
        let ghost s = start_x(prev, offset as int, t, k as int);
        let ghost e = x as int;
        proof {
            assert(vt@[(prev_k + offset) as int] == prev[(prev_k + offset) as int]);
            if t == 0 {
                assert(prev_x == 0);
            } else {
                assert(on_diag(t - 1, prev_k as int));
                assert(full_round(tr, size as int, offset as int, t - 1, ga, gb));
                reveal(full_round);
                assert(diag_ok(prev_round(tr, size as int, t - 1), tr[t - 1], offset as int, t - 1, prev_k as int, ga, gb));
                let w = lemma_witness(tr, size as int, offset as int, ga, gb, t - 1, prev_k as int);
                lemma_walk_basic(w, ga, gb);
            }
        }
        while x > prev_x && y > prev_y
            invariant
                n == a@.len(),
                m == b@.len(),
                ga == a.deep_view(),
                gb == b.deep_view(),
                ga.len() == n,
                gb.len() == m,
                s <= x <= e,
                0 <= x <= n,
                y == x - k,
                y <= m,
                snake_eq(ga, gb, k as int, s, e),
                prev_k == k + 1 ==> s == prev_x && prev_y == s - k - 1,
                prev_k == k - 1 ==> s == prev_x + 1 && prev_y == s - k,
                prev_k == k + 1 || prev_k == k - 1,
                reversed_of(rev@, suffix),
                script_from(suffix, ga, gb, x as int, y as int),
                change_count(suffix) == trace@.len() - 1 - t,
                deletes_first(suffix),
                suffix.len() > 0 && suffix[0] is Delete ==> x == e && t + 1 < trace@.len() && !pick_up(
                    tr[t],
                    offset as int,
                    t + 1,
                    k + 1,
                ),
            decreases x,
        {
            proof {
                assert(cell_eq(ga, gb, k as int, x - 1));
            }
            let op = Op::Equal { a: (x - 1) as usize, b: (y - 1) as usize };
            let g = push_back_step(&mut rev, op, Ghost(suffix), Ghost(ga), Ghost(gb), Ghost(x as int), Ghost(y as int));
            proof {
                lemma_change_count_prepend(op, suffix);
                lemma_deletes_first_prepend(op, suffix);
                suffix = g@;
            }
            x = x - 1;
            y = y - 1;
        }
        if di > 0 {
            if x == prev_x {
                let op = Op::Insert { b: (y - 1) as usize };
                proof {
                    if suffix.len() > 0 && suffix[0] is Delete {
                        assert(prev_k == k + 1);
                        assert(pick_up(prev, offset as int, t, k as int));
                        assert(k != t);
                        assert(k <= t - 2);
                        assert(full_round(tr, size as int, offset as int, t, ga, gb));
                        reveal(full_round);
                        assert(on_diag(t, k + 2));
                        assert(diag_ok(prev, tr[t], offset as int, t, k + 2, ga, gb));
                        assert(vat(tr[t], offset as int, k + 2) >= vat(prev, offset as int, k + 1) + 1);
                        assert(vat(tr[t], offset as int, k as int) == e);
                        assert(pick_up(tr[t], offset as int, t + 1, k + 1));
                    }
                    lemma_deletes_first_prepend(op, suffix);
                }
                let g = push_back_step(&mut rev, op, Ghost(suffix), Ghost(ga), Ghost(gb), Ghost(x as int), Ghost(y as int));
                proof {
                    lemma_change_count_prepend(op, suffix);
                    suffix = g@;
                }
            } else {
                let op = Op::Delete { a: (x - 1) as usize };
                proof {
                    lemma_deletes_first_prepend(op, suffix);
                    assert(prev_k == k - 1);
                    assert(!pick_up(prev, offset as int, t, k as int));
                }
                let g = push_back_step(&mut rev, op, Ghost(suffix), Ghost(ga), Ghost(gb), Ghost(x as int), Ghost(y as int));
                proof {
                    lemma_change_count_prepend(op, suffix);
                    suffix = g@;
                }
            }
        }
        x = prev_x;
        y = prev_y;
    }
    proof {
        assert forall|o: Seq<Op>| #[trigger] edit_script(o, ga, gb) implies change_count(suffix) <= change_count(o) by {
            lemma_no_shorter(tr, size as int, offset as int, kf, ga, gb, o);
        }
    }
    unreverse(&rev, Ghost(suffix))
}

} // verus!
