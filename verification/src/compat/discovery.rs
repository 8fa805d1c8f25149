//! Fixture discovery for compat mode: the glob language used by
//! trybuild literals and the pure helpers around it.
use vstd::prelude::*;
use crate::sort::{stable_sort, stable_sorted, SortKey};
use crate::text::{
    chars_of, lemma_str_lt_asymmetric, lemma_str_lt_irreflexive, push_str, push_string, str_eq, str_less, str_lt,
    string_of_range,
};

verus! {

/// Position of the first `]` in `p` at or after `from`, if any.
pub open spec fn find_close(p: Seq<u8>, from: int) -> Option<int>
    decreases p.len() - from,
{
    if from < 0 || from >= p.len() {
        None
    } else if p[from] == 93u8 {
        Some(from)
    } else {
        find_close(p, from + 1)
    }
}

/// `b` occurs in `p[lo..hi]`.
pub open spec fn class_has(p: Seq<u8>, lo: int, hi: int, b: u8) -> bool {
    exists|k: int| lo <= k < hi && p[k] == b
}

/// Glob semantics of one path segment: does `p[i..]` match `n[j..]`?
/// `*` matches any run of bytes, `?` exactly one byte, `[abc]` one byte of
/// the listed set (no ranges, no escapes; an unclosed `[` never matches),
/// and every other byte matches itself.
pub open spec fn glob_match_from(p: Seq<u8>, i: int, n: Seq<u8>, j: int) -> bool
    decreases p.len() - i, n.len() - j,
{
    if i >= p.len() {
        j == n.len()
    } else if p[i] == 42u8 {
        glob_match_from(p, i + 1, n, j) || (0 <= j < n.len() && glob_match_from(p, i, n, j + 1))
    } else if j < 0 || j >= n.len() {
        false
    } else if p[i] == 63u8 {
        glob_match_from(p, i + 1, n, j + 1)
    } else if p[i] == 91u8 {
        match find_close(p, i + 1) {
            None => false,
            Some(c) => {
                proof {
                    lemma_find_close_bounds(p, i + 1);
                }
                class_has(p, i + 1, c, n[j]) && glob_match_from(p, c + 1, n, j + 1)
            },
        }
    } else {
        p[i] == n[j] && glob_match_from(p, i + 1, n, j + 1)
    }
}

/// Whole-segment glob match.
pub open spec fn glob_match(p: Seq<u8>, n: Seq<u8>) -> bool {
    glob_match_from(p, 0, n, 0)
}

/// Width of the single-byte-consuming pattern element at `a`
/// (a literal, `?`, or a closed class), or `None` for `*` and unclosed `[`.
pub open spec fn elem_width(p: Seq<u8>, a: int) -> Option<int> {
    if a < 0 || a >= p.len() || p[a] == 42u8 {
        None
    } else if p[a] == 91u8 {
        match find_close(p, a + 1) {
            None => None,
            Some(c) => Some(c + 1 - a),
        }
    } else {
        Some(1)
    }
}

/// `p[a..b]` is a run of `d` star-free pattern elements.
pub open spec fn star_free_run(p: Seq<u8>, a: int, b: int, d: int) -> bool
    decreases b - a,
{
    if a == b {
        d == 0
    } else if a > b {
        false
    } else {
        match elem_width(p, a) {
            None => false,
            Some(w) => w >= 1 && a + w <= b && star_free_run(p, a + w, b, d - 1),
        }
    }
}

pub proof fn lemma_find_close_bounds(p: Seq<u8>, from: int)
    ensures
        find_close(p, from) matches Some(c) ==> from <= c < p.len() && p[c] == 93u8,
    decreases p.len() - from,
{
    if 0 <= from < p.len() && p[from] != 93u8 {
        lemma_find_close_bounds(p, from + 1);
    }
}

proof fn lemma_match_past_end(p: Seq<u8>, i: int, n: Seq<u8>, j: int)
    requires
        j > n.len(),
    ensures
        !glob_match_from(p, i, n, j),
    decreases p.len() - i,
{
    if i < p.len() {
        if p[i] == 42u8 {
            lemma_match_past_end(p, i + 1, n, j);
        }
    }
}

/// At a `*`, a match from a later name position implies one from an earlier.
proof fn lemma_star_antitone(p: Seq<u8>, i: int, n: Seq<u8>, j: int, k: int)
    requires
        0 <= i < p.len(),
        p[i] == 42u8,
        0 <= j <= k,
        glob_match_from(p, i, n, k),
    ensures
        glob_match_from(p, i, n, j),
    decreases k - j,
{
    if j < k {
        if k > n.len() {
            lemma_match_past_end(p, i, n, k);
        }
        lemma_star_antitone(p, i, n, j + 1, k);
    }
}

/// A `*` at `i` matches from `j` iff the rest matches from some `k >= j`.
proof fn lemma_star_expand(p: Seq<u8>, i: int, n: Seq<u8>, j: int)
    requires
        0 <= i < p.len(),
        p[i] == 42u8,
        0 <= j <= n.len(),
    ensures
        glob_match_from(p, i, n, j) <==> exists|k: int|
            j <= k <= n.len() && #[trigger] glob_match_from(p, i + 1, n, k),
    decreases n.len() - j,
{
    if j < n.len() {
        lemma_star_expand(p, i, n, j + 1);
        if glob_match_from(p, i, n, j) && !glob_match_from(p, i + 1, n, j) {
            let k = choose|k: int| j + 1 <= k <= n.len() && #[trigger] glob_match_from(p, i + 1, n, k);
            assert(glob_match_from(p, i + 1, n, k));
        }
        if exists|k: int| j <= k <= n.len() && #[trigger] glob_match_from(p, i + 1, n, k) {
            let k = choose|k: int| j <= k <= n.len() && #[trigger] glob_match_from(p, i + 1, n, k);
            if k > j {
                assert(glob_match_from(p, i, n, j + 1));
            }
        }
    } else {
        if glob_match_from(p, i, n, j) {
            assert(glob_match_from(p, i + 1, n, j));
        }
    }
}

/// Walking a star-free run of `d` elements consumes exactly `d` name bytes.
proof fn lemma_run_shift(p: Seq<u8>, a: int, b: int, d: int, n: Seq<u8>, k: int)
    requires
        star_free_run(p, a, b, d),
        glob_match_from(p, a, n, k),
    ensures
        glob_match_from(p, b, n, k + d),
    decreases b - a,
{
    if a < b {
        let w = elem_width(p, a)->0;
        if p[a] == 91u8 {
            lemma_find_close_bounds(p, a + 1);
        }
        lemma_run_shift(p, a + w, b, d - 1, n, k + 1);
    }
}

/// A star-free run followed by an unusable `[` can never match.
proof fn lemma_run_dead_end(p: Seq<u8>, a: int, b: int, d: int, n: Seq<u8>, k: int)
    requires
        star_free_run(p, a, b, d),
        0 <= b < p.len(),
        p[b] == 91u8,
        find_close(p, b + 1) is None,
    ensures
        !glob_match_from(p, a, n, k),
{
    if glob_match_from(p, a, n, k) {
        lemma_run_shift(p, a, b, d, n, k);
    }
}

proof fn lemma_run_extend(p: Seq<u8>, a: int, b: int, d: int, w: int)
    requires
        star_free_run(p, a, b, d),
        elem_width(p, b) == Some(w),
        w >= 1,
    ensures
        star_free_run(p, a, b + w, d + 1),
    decreases b - a,
{
    if a < b {
        let w0 = elem_width(p, a)->0;
        lemma_run_extend(p, a + w0, b, d - 1, w);
    } else {
        assert(star_free_run(p, b + w, b + w, 0));
    }
}

/// Position of the `]` closing a class opened just before `from`.
fn find_class_close(p: &[u8], from: usize) -> (r: Option<usize>)
    requires
        from <= p@.len(),
    ensures
        r is Some <==> find_close(p@, from as int) is Some,
        r matches Some(c) ==> find_close(p@, from as int) == Some(c as int) && from <= c < p@.len(),
{
    let mut k = from;
    while k < p.len()
        invariant
            from <= k <= p@.len(),
            find_close(p@, from as int) == find_close(p@, k as int),
        decreases p@.len() - k,
    {
        if p[k] == 93u8 {
            proof { lemma_find_close_bounds(p@, k as int); }
            return Some(k);
        }
        k = k + 1;
    }
    None
}

fn class_contains(p: &[u8], lo: usize, hi: usize, b: u8) -> (r: bool)
    requires
        lo <= hi <= p@.len(),
    ensures
        r == class_has(p@, lo as int, hi as int, b),
{
    let mut k = lo;
    while k < hi
        invariant
            lo <= k <= hi <= p@.len(),
            forall|m: int| lo <= m < k ==> p@[m] != b,
        decreases hi - k,
    {
        if p[k] == b {
            return true;
        }
        k = k + 1;
    }
    false
}

spec fn rest_from(p: Seq<u8>, n: Seq<u8>, sp: int, sn: int) -> bool {
    exists|k: int| sn < k <= n.len() && #[trigger] glob_match_from(p, sp + 1, n, k)
}

proof fn lemma_rest_split(p: Seq<u8>, n: Seq<u8>, sp: int, sn: int)
    requires
        0 <= sn < n.len(),
    ensures
        rest_from(p, n, sp, sn) == (glob_match_from(p, sp + 1, n, sn + 1) || rest_from(
            p,
            n,
            sp,
            sn + 1,
        )),
{
    if rest_from(p, n, sp, sn) {
        let k = choose|k: int| sn < k <= n.len() && #[trigger] glob_match_from(p, sp + 1, n, k);
        if k > sn + 1 {
            assert(rest_from(p, n, sp, sn + 1));
        }
    }
    if glob_match_from(p, sp + 1, n, sn + 1) {
        assert(rest_from(p, n, sp, sn));
    }
    if rest_from(p, n, sp, sn + 1) {
        let k = choose|k: int| sn + 1 < k <= n.len() && #[trigger] glob_match_from(p, sp + 1, n, k);
        assert(rest_from(p, n, sp, sn));
    }
}

/// Matches one file-name segment against a one-segment glob pattern.
pub fn glob_segment_matches(pattern: &[u8], name: &[u8]) -> (r: bool)
    ensures
        r == glob_match(pattern@, name@),
{
    let p = pattern;
    let n = name;
    let ghost gp = p@;
    let ghost gn = n@;
    let mut pi: usize = 0;
    let mut ni: usize = 0;
    let mut has_star = false;
    let mut sp: usize = 0;
    let mut sn: usize = 0;
    while ni < n.len()
        invariant
            gp == p@,
            gn == n@,
            gp == pattern@,
            gn == name@,
            pi <= p@.len(),
            ni <= n@.len(),
            !has_star ==> (glob_match(gp, gn) == glob_match_from(gp, pi as int, gn, ni as int)),
            has_star ==> {
                &&& sp < pi
                &&& gp[sp as int] == 42u8
                &&& sn <= ni
                &&& star_free_run(gp, sp + 1, pi as int, ni - sn)
                &&& glob_match(gp, gn) == (glob_match_from(gp, pi as int, gn, ni as int)
                    || rest_from(gp, gn, sp as int, sn as int))
            },
        decreases
            (if has_star { n@.len() - sn } else { n@.len() + 1int }),
            (n@.len() - ni) + (p@.len() - pi),
    {
        let cur = ni;
        let at_star = pi < p.len() && p[pi] == 42u8;
        if at_star {
            proof {
                lemma_star_expand(gp, pi as int, gn, ni as int);
                if has_star {
                    assert forall|k: int|
                        sn < k <= gn.len() && #[trigger] glob_match_from(gp, sp + 1, gn, k)
                        implies glob_match_from(gp, pi as int, gn, ni as int) by {
                        lemma_run_shift(gp, sp + 1, pi as int, ni - sn, gn, k);
                        lemma_star_antitone(gp, pi as int, gn, ni as int, k + (ni - sn));
                    }
                }
                assert(glob_match_from(gp, pi as int, gn, ni as int) == (glob_match_from(
                    gp,
                    pi + 1,
                    gn,
                    ni as int,
                ) || rest_from(gp, gn, pi as int, ni as int))) by {
                    if glob_match_from(gp, pi as int, gn, ni as int) && !glob_match_from(gp, pi + 1, gn, ni as int) {
                        let k = choose|k: int| ni <= k <= gn.len() && #[trigger] glob_match_from(gp, pi + 1, gn, k);
                        assert(k != ni);
                    }
                }
            }
            has_star = true;
            sp = pi;
            sn = ni;
            pi = pi + 1;
        } else {
            let mut stepped = false;
            let mut dead = false;
            if pi < p.len() {
                let c = p[pi];
                if c == 63u8 {
                    proof {
                        if has_star {
                            lemma_run_extend(gp, sp + 1, pi as int, ni - sn, 1);
                        }
                    }
                    pi = pi + 1;
                    ni = ni + 1;
                    stepped = true;
                } else if c == 91u8 {
                    match find_class_close(p, pi + 1) {
                        None => {
                            assert(!glob_match_from(gp, pi as int, gn, ni as int));
                            dead = true;
                        },
                        Some(close) => {
                            if class_contains(p, pi + 1, close, n[ni]) {
                                proof {
                                    if has_star {
                                        lemma_run_extend(gp, sp + 1, pi as int, ni - sn, close + 1 - pi);
                                    }
                                }
                                pi = close + 1;
                                ni = ni + 1;
                                stepped = true;
                            } else {
                                assert(!glob_match_from(gp, pi as int, gn, ni as int));
                            }
                        },
                    }
                } else if c == n[ni] {
                    proof {
                        if has_star {
                            lemma_run_extend(gp, sp + 1, pi as int, ni - sn, 1);
                        }
                    }
                    pi = pi + 1;
                    ni = ni + 1;
                    stepped = true;
                } else {
                    assert(!glob_match_from(gp, pi as int, gn, ni as int));
                }
            } else {
                assert(!glob_match_from(gp, pi as int, gn, ni as int));
            }
            if dead {
                proof {
                    if has_star {
                        assert forall|k: int|
                            sn < k <= gn.len() implies !#[trigger] glob_match_from(gp, sp + 1, gn, k) by {
                            lemma_run_dead_end(gp, sp + 1, pi as int, ni - sn, gn, k);
                        }
                    }
                }
                return false;
            }
            if !stepped {
                if has_star {
                    proof {
                        lemma_rest_split(gp, gn, sp as int, sn as int);
                    }
                    pi = sp + 1;
                    ni = sn + 1;
                    sn = sn + 1;
                } else {
                    return false;
                }
            }
        }
    }
    proof {
        if has_star {
            assert forall|k: int| sn < k <= gn.len() implies !#[trigger] glob_match_from(
                gp,
                sp + 1,
                gn,
                k,
            ) by {
                if glob_match_from(gp, sp + 1, gn, k) {
                    lemma_run_shift(gp, sp + 1, pi as int, ni - sn, gn, k);
                    lemma_match_past_end(gp, pi as int, gn, k + (ni - sn));
                }
            }
        }
    }
    while pi < p.len() && p[pi] == 42u8
        invariant
            gp == p@,
            gn == n@,
            pi <= p@.len(),
            ni == n@.len(),
            glob_match(gp, gn) == glob_match_from(gp, pi as int, gn, ni as int),
        decreases p@.len() - pi,
    {
        pi = pi + 1;
    }
    pi == p.len()
}

} // verus!

verus! {

pub open spec fn is_glob_meta(c: char) -> bool {
    c == '*' || c == '?' || c == '['
}

/// True when `s` holds a glob metacharacter (`*`, `?` or `[`).
pub fn has_glob_chars(s: &str) -> (r: bool)
    ensures
        r == exists|i: int| 0 <= i < s@.len() && is_glob_meta(#[trigger] s@[i]),
{
    let cs = chars_of(s);
    let mut i: usize = 0;
    while i < cs.len()
        invariant
            cs@ == s@,
            i <= cs@.len(),
            forall|k: int| 0 <= k < i ==> !is_glob_meta(#[trigger] cs@[k]),
        decreases cs@.len() - i,
    {
        let c = cs[i];
        if c == '*' || c == '?' || c == '[' {
            assert(is_glob_meta(cs@[i as int]));
            return true;
        }
        i = i + 1;
    }
    false
}

} // verus!

verus! {

/// Which trybuild call recorded a fixture.
#[derive(Debug, Clone, Copy, PartialEq, Eq, Structural)]
pub enum FixtureKind {
    /// `.pass(..)`
    Pass,
    /// `.compile_fail(..)`
    CompileFail,
}

/// Where a trybuild call sits in the test sources.
#[derive(Debug, Clone, PartialEq, Eq)]
pub struct CallSite {
    pub file: String,
    pub line: usize,
    pub enclosing_test_fn: Option<String>,
}

/// One fixture a trybuild call names.
#[derive(Debug, Clone, PartialEq, Eq)]
pub struct DiscoveredFixture {
    pub fixture_path: String,
    pub relative_path: String,
    pub kind: FixtureKind,
    pub call_site: CallSite,
}

/// A call or construct discovery could not interpret.
#[derive(Debug, Clone, PartialEq, Eq)]
pub struct DiscoveryUnrecognized {
    pub file: String,
    pub line: usize,
    pub detail: String,
}

/// Everything discovery found.
#[derive(Debug, Clone)]
pub struct DiscoveryOutput {
    pub fixtures: Vec<DiscoveredFixture>,
    pub unrecognized: Vec<DiscoveryUnrecognized>,
}

impl SortKey for DiscoveredFixture {
    open spec fn sorts_after(&self, other: &Self) -> bool {
        str_lt(other.relative_path@, self.relative_path@)
    }

    fn after(&self, other: &Self) -> (r: bool) {
        str_less(other.relative_path.as_str(), self.relative_path.as_str())
    }

    proof fn lemma_asymmetric(a: &Self, b: &Self) {
        lemma_str_lt_asymmetric(b.relative_path@, a.relative_path@);
    }
}

/// Unrecognized records order by file, then line, then detail.
pub open spec fn unrecognized_lt(a: DiscoveryUnrecognized, b: DiscoveryUnrecognized) -> bool {
    ||| str_lt(a.file@, b.file@)
    ||| (a.file@ == b.file@ && a.line < b.line)
    ||| (a.file@ == b.file@ && a.line == b.line && str_lt(a.detail@, b.detail@))
}

impl SortKey for DiscoveryUnrecognized {
    open spec fn sorts_after(&self, other: &Self) -> bool {
        unrecognized_lt(*other, *self)
    }

    fn after(&self, other: &Self) -> (r: bool) {
        if str_less(other.file.as_str(), self.file.as_str()) {
            return true;
        }
        if !str_eq(other.file.as_str(), self.file.as_str()) {
            return false;
        }
        if other.line < self.line {
            return true;
        }
        if other.line != self.line {
            return false;
        }
        str_less(other.detail.as_str(), self.detail.as_str())
    }

    proof fn lemma_asymmetric(a: &Self, b: &Self) {
        lemma_str_lt_asymmetric(b.file@, a.file@);
        lemma_str_lt_asymmetric(b.detail@, a.detail@);
        lemma_str_lt_irreflexive(a.file@);
    }
}

/// Two records of the same fixture from the same call.
pub open spec fn same_record(a: DiscoveredFixture, b: DiscoveredFixture) -> bool {
    &&& a.relative_path@ == b.relative_path@
    &&& a.kind == b.kind
    &&& a.call_site.file@ == b.call_site.file@
    &&& a.call_site.line == b.call_site.line
    &&& opt_text(a.call_site.enclosing_test_fn) == opt_text(b.call_site.enclosing_test_fn)
}

pub open spec fn opt_text(o: Option<String>) -> Option<Seq<char>> {
    match o {
        Some(s) => Some(s@),
        None => None,
    }
}

/// `s` without each element that repeats the last one kept
/// (`Vec::dedup_by` with [`same_record`]).
pub open spec fn dedup_records(s: Seq<DiscoveredFixture>) -> Seq<DiscoveredFixture>
    decreases s.len(),
{
    if s.len() == 0 {
        s
    } else {
        let pre = dedup_records(s.drop_last());
        if pre.len() > 0 && same_record(pre.last(), s.last()) {
            pre
        } else {
            pre.push(s.last())
        }
    }
}

fn opt_eq(a: &Option<String>, b: &Option<String>) -> (r: bool)
    ensures
        r == (opt_text(*a) == opt_text(*b)),
{
    match a {
        None => b.is_none(),
        Some(x) => match b {
            None => false,
            Some(y) => str_eq(x.as_str(), y.as_str()),
        },
    }
}

fn same_record_exec(a: &DiscoveredFixture, b: &DiscoveredFixture) -> (r: bool)
    ensures
        r == same_record(*a, *b),
{
    str_eq(a.relative_path.as_str(), b.relative_path.as_str()) && a.kind == b.kind && str_eq(
        a.call_site.file.as_str(),
        b.call_site.file.as_str(),
    ) && a.call_site.line == b.call_site.line && opt_eq(
        &a.call_site.enclosing_test_fn,
        &b.call_site.enclosing_test_fn,
    )
}

/// Drops each record that repeats the last one kept.
pub fn dedup_fixtures(v: Vec<DiscoveredFixture>) -> (out: Vec<DiscoveredFixture>)
    ensures
        out@ == dedup_records(v@),
{
    let ghost v0 = v@;
    let n0 = v.len();
    let mut v = v;
    let mut out: Vec<DiscoveredFixture> = Vec::new();
    let mut k: usize = 0;
    while v.len() > 0
        invariant
            k <= v0.len(),
            v0.len() == k + v@.len(),
            v0.len() == n0,
            v@ == v0.subrange(k as int, v0.len() as int),
            out@ == dedup_records(v0.take(k as int)),
        decreases v@.len(),
    {
        let x = v.remove(0);
        let ghost pre = v0.take(k as int);
        assert(v0.take(k + 1).drop_last() =~= pre);
        assert(x == v0[k as int]);
        assert(v0.take(k + 1).last() == x);
        let n = out.len();
        if n > 0 && same_record_exec(&out[n - 1], &x) {
        } else {
            out.push(x);
        }
        assert(v@ =~= v0.subrange(k + 1, v0.len() as int));
        k = k + 1;
    }
    assert(v0.take(k as int) =~= v0);
    out
}

/// The finished discovery: fixtures in path order with repeated records
/// dropped, unrecognized records ordered by file, line and detail.
pub fn finish_discovery(fixtures: Vec<DiscoveredFixture>, unrecognized: Vec<DiscoveryUnrecognized>) -> (out:
    DiscoveryOutput)
    ensures
        out.fixtures@ == dedup_records(stable_sorted(fixtures@)),
        out.unrecognized@ == stable_sorted(unrecognized@),
{
    let sorted = stable_sort(fixtures);
    DiscoveryOutput { fixtures: dedup_fixtures(sorted), unrecognized: stable_sort(unrecognized) }
}

} // verus!

verus! {

/// The non-empty pieces of `s[start..]` between occurrences of `sep`
/// (leftmost first, not overlapping), reading on from `i`: `str::split`
/// followed by dropping empty pieces.
pub open spec fn pieces_from(s: Seq<char>, sep: Seq<char>, start: int, i: int) -> Seq<Seq<char>>
    decreases s.len() - i, 1int,
{
    if i < start || start < 0 || i >= s.len() {
        if 0 <= start <= s.len() && start < s.len() {
            seq![s.subrange(start, s.len() as int)]
        } else {
            Seq::empty()
        }
    } else if sep.len() > 0 && i + sep.len() <= s.len() && s.subrange(i, i + sep.len()) == sep {
        let rest = pieces_from(s, sep, i + sep.len(), i + sep.len());
        if i > start {
            seq![s.subrange(start, i)] + rest
        } else {
            rest
        }
    } else {
        pieces_from(s, sep, start, i + 1)
    }
}

/// The non-empty pieces of `s` between occurrences of `sep`.
pub open spec fn split_nonempty(s: Seq<char>, sep: Seq<char>) -> Seq<Seq<char>> {
    pieces_from(s, sep, 0, 0)
}

/// Splits `s` at each `sep` and keeps the non-empty pieces.
pub fn split_nonempty_pieces(s: &str, sep: &str) -> (out: Vec<String>)
    ensures
        out.deep_view() == split_nonempty(s@, sep@),
{
    let cs = chars_of(s);
    let sc = chars_of(sep);
    let n = cs.len();
    let mut out: Vec<String> = Vec::new();
    let mut start: usize = 0;
    let mut i: usize = 0;
    while i < n
        invariant
            cs@ == s@,
            sc@ == sep@,
            n == cs@.len(),
            start <= i <= n,
            out.deep_view() + pieces_from(cs@, sc@, start as int, i as int) == split_nonempty(s@, sep@),
        decreases n - i, 1int,
    {
        let ghost before = out.deep_view();
        if sc.len() > 0 && sc.len() <= n - i && crate::text::matches_at(&cs, i, &sc) {
            if i > start {
                let piece = string_of_range(&cs, start, i);
                out.push(piece);
                proof {
                    assert(out.deep_view() =~= before.push(cs@.subrange(start as int, i as int)));
                    let rest = pieces_from(cs@, sc@, i + sc@.len(), i + sc@.len());
                    assert(before + (seq![cs@.subrange(start as int, i as int)] + rest) =~= out.deep_view() + rest);
                }
            }
            i = i + sc.len();
            start = i;
        } else {
            i = i + 1;
        }
    }
    if start < n {
        let piece = string_of_range(&cs, start, n);
        let ghost before = out.deep_view();
        out.push(piece);
        proof {
            assert(out.deep_view() =~= before + seq![cs@.subrange(start as int, n as int)]);
        }
    } else {
        assert(out.deep_view() + Seq::<Seq<char>>::empty() =~= out.deep_view());
    }
    out
}

/// A path written as its segments joined by `::`, with a leading `::`
/// when the path has a leading colon pair.
pub open spec fn segments_text(leading_colon: bool, segs: Seq<Seq<char>>) -> Seq<char>
    decreases segs.len(),
{
    if segs.len() == 0 {
        if leading_colon { "::"@ } else { Seq::empty() }
    } else if segs.len() == 1 {
        segments_text(leading_colon, segs.drop_last()) + segs.last()
    } else {
        segments_text(leading_colon, segs.drop_last()) + "::"@ + segs.last()
    }
}

/// A path's segments joined by `::` (leading `::` kept).
pub fn path_segments_string(leading_colon: bool, segs: &Vec<String>) -> (s: String)
    ensures
        s@ == segments_text(leading_colon, segs.deep_view()),
{
    let mut s = String::new();
    if leading_colon {
        push_str(&mut s, "::");
    }
    let mut i: usize = 0;
    while i < segs.len()
        invariant
            i <= segs@.len(),
            s@ == segments_text(leading_colon, segs.deep_view().take(i as int)),
        decreases segs@.len() - i,
    {
        if i > 0 {
            push_str(&mut s, "::");
        }
        push_string(&mut s, &segs[i]);
        proof {
            let t = segs.deep_view().take(i + 1);
            assert(t.drop_last() =~= segs.deep_view().take(i as int));
            assert(t.last() == segs@[i as int]@);
        }
        i = i + 1;
    }
    assert(segs.deep_view().take(segs@.len() as int) =~= segs.deep_view());
    s
}

/// A path (no leading colon pair) whose segments are exactly `expected`.
pub fn path_matches_segments(leading_colon: bool, segs: &Vec<String>, expected: &Vec<String>) -> (r: bool)
    ensures
        r == (!leading_colon && segs.deep_view() == expected.deep_view()),
{
    if leading_colon || segs.len() != expected.len() {
        proof {
            if segs.len() != expected.len() {
                assert(segs.deep_view().len() != expected.deep_view().len());
            }
        }
        return false;
    }
    let mut i: usize = 0;
    while i < segs.len()
        invariant
            segs@.len() == expected@.len(),
            i <= segs@.len(),
            forall|k: int| 0 <= k < i ==> segs.deep_view()[k] == expected.deep_view()[k],
        decreases segs@.len() - i,
    {
        if !str_eq(segs[i].as_str(), expected[i].as_str()) {
            proof {
                assert(segs.deep_view()[i as int] != expected.deep_view()[i as int]);
            }
            return false;
        }
        i = i + 1;
    }
    assert(segs.deep_view() =~= expected.deep_view());
    true
}

/// An attribute path that marks a test: `test`, `::test`, `core::test`
/// or `::core::test`.
pub open spec fn is_test_path(text: Seq<char>) -> bool {
    text == "test"@ || text == "::test"@ || text == "core::test"@ || text == "::core::test"@
}

/// Is one of the attributes (given by their path texts) a test marker?
pub fn is_test_attribute(attr_paths: &Vec<String>) -> (r: bool)
    ensures
        r == exists|i: int| 0 <= i < attr_paths@.len() && is_test_path(#[trigger] attr_paths@[i]@),
{
    let mut i: usize = 0;
    while i < attr_paths.len()
        invariant
            i <= attr_paths@.len(),
            forall|k: int| 0 <= k < i ==> !is_test_path(#[trigger] attr_paths@[k]@),
        decreases attr_paths@.len() - i,
    {
        let p = attr_paths[i].as_str();
        if str_eq(p, "test") || str_eq(p, "::test") || str_eq(p, "core::test") || str_eq(p, "::core::test") {
            assert(is_test_path(attr_paths@[i as int]@));
            return true;
        }
        i = i + 1;
    }
    false
}

/// The fixture kind a trybuild method name records, if any.
pub fn terminal_kind(method: &str) -> (r: Option<FixtureKind>)
    ensures
        r == (if method@ == "pass"@ {
            Some(FixtureKind::Pass)
        } else if method@ == "compile_fail"@ {
            Some(FixtureKind::CompileFail)
        } else {
            None
        }),
{
    if str_eq(method, "pass") {
        Some(FixtureKind::Pass)
    } else if str_eq(method, "compile_fail") {
        Some(FixtureKind::CompileFail)
    } else {
        None
    }
}

/// The path segments of each custom trybuild alias, and of its `::new`
/// constructor.
pub fn alias_segments(custom_macros: &Vec<String>) -> (r: (Vec<Vec<String>>, Vec<Vec<String>>))
    ensures
        r.0@.len() == custom_macros@.len(),
        r.1@.len() == custom_macros@.len(),
        forall|i: int| 0 <= i < custom_macros@.len() ==> (#[trigger] r.0@[i]).deep_view() == split_nonempty(
            custom_macros@[i]@,
            "::"@,
        ),
        forall|i: int| 0 <= i < custom_macros@.len() ==> (#[trigger] r.1@[i]).deep_view() == split_nonempty(
            custom_macros@[i]@,
            "::"@,
        ).push("new"@),
{
    let mut plain: Vec<Vec<String>> = Vec::new();
    let mut with_new: Vec<Vec<String>> = Vec::new();
    let mut i: usize = 0;
    while i < custom_macros.len()
        invariant
            i <= custom_macros@.len(),
            plain@.len() == i,
            with_new@.len() == i,
            forall|k: int| 0 <= k < i ==> (#[trigger] plain@[k]).deep_view() == split_nonempty(
                custom_macros@[k]@,
                "::"@,
            ),
            forall|k: int| 0 <= k < i ==> (#[trigger] with_new@[k]).deep_view() == split_nonempty(
                custom_macros@[k]@,
                "::"@,
            ).push("new"@),
        decreases custom_macros@.len() - i,
    {
        let segs = split_nonempty_pieces(custom_macros[i].as_str(), "::");
        let mut extended = split_nonempty_pieces(custom_macros[i].as_str(), "::");
        let ghost e0 = extended.deep_view();
        extended.push("new".to_owned());
        assert(extended.deep_view() =~= e0.push("new"@));
        plain.push(segs);
        with_new.push(extended);
        i = i + 1;
    }
    (plain, with_new)
}

/// The constructor paths the custom aliases `custom` stand for: each
/// alias's segments, and those segments with `new` after them.
pub open spec fn alias_plain(custom: Seq<Seq<char>>) -> Seq<Seq<Seq<char>>> {
    Seq::new(custom.len(), |i: int| split_nonempty(custom[i], "::"@))
}

pub open spec fn alias_with_new(custom: Seq<Seq<char>>) -> Seq<Seq<Seq<char>>> {
    Seq::new(custom.len(), |i: int| split_nonempty(custom[i], "::"@).push("new"@))
}

/// The custom aliases' order does not matter and repeating one changes
/// nothing: two alias lists naming the same aliases recognize the same
/// constructor paths.
pub proof fn lemma_alias_order_irrelevant(
    a: Seq<Seq<char>>,
    b: Seq<Seq<char>>,
    leading_colon: bool,
    segs: Seq<Seq<char>>,
)
    requires
        forall|x: Seq<char>| a.contains(x) <==> b.contains(x),
    ensures
        constructor_path(leading_colon, segs, alias_plain(a), alias_with_new(a)) == constructor_path(
            leading_colon,
            segs,
            alias_plain(b),
            alias_with_new(b),
        ),
{
    if constructor_path(leading_colon, segs, alias_plain(a), alias_with_new(a)) && segs != seq![
        "trybuild"@,
        "TestCases"@,
        "new"@,
    ] {
        let i = choose|i: int|
            0 <= i < alias_plain(a).len() && i < alias_with_new(a).len() && (segs == #[trigger] alias_with_new(a)[i]
                || segs == alias_plain(a)[i]);
        assert(a.contains(a[i]));
        assert(b.contains(a[i]));
        let j = choose|j: int| 0 <= j < b.len() && b[j] == a[i];
        assert(alias_with_new(b)[j] == alias_with_new(a)[i]);
        assert(alias_plain(b)[j] == alias_plain(a)[i]);
    }
    if constructor_path(leading_colon, segs, alias_plain(b), alias_with_new(b)) && segs != seq![
        "trybuild"@,
        "TestCases"@,
        "new"@,
    ] {
        let j = choose|j: int|
            0 <= j < alias_plain(b).len() && j < alias_with_new(b).len() && (segs == #[trigger] alias_with_new(b)[j]
                || segs == alias_plain(b)[j]);
        assert(b.contains(b[j]));
        assert(a.contains(b[j]));
        let i = choose|i: int| 0 <= i < a.len() && a[i] == b[j];
        assert(alias_with_new(a)[i] == alias_with_new(b)[j]);
        assert(alias_plain(a)[i] == alias_plain(b)[j]);
    }
}

pub open spec fn zero_fixtures_text(literal: Seq<char>) -> Seq<char> {
    "literal `"@ + literal + "` resolved to zero fixture paths"@
}

pub fn zero_fixtures_message(literal: &str) -> (m: String)
    ensures
        m@ == zero_fixtures_text(literal@),
{
    let mut m = String::new();
    push_str(&mut m, "literal `");
    push_str(&mut m, literal);
    push_str(&mut m, "` resolved to zero fixture paths");
    m
}

pub open spec fn double_star_text(literal: Seq<char>) -> Seq<char> {
    "glob `"@ + literal + "` uses `**` which is not supported in v0.1"@
}

/// Refuses a literal that uses `**`.
pub fn check_no_double_star(literal: &str) -> (r: Result<(), String>)
    ensures
        r is Ok <==> !crate::text::has_infix(literal@, "**"@),
        r matches Err(m) ==> m@ == double_star_text(literal@),
{
    let cs = chars_of(literal);
    if crate::text::contains_str(&cs, "**") {
        let mut m = String::new();
        push_str(&mut m, "glob `");
        push_str(&mut m, literal);
        push_str(&mut m, "` uses `**` which is not supported in v0.1");
        Err(m)
    } else {
        Ok(())
    }
}

pub open spec fn non_literal_call_text(method: Seq<char>) -> Seq<char> {
    "non-literal or multi-argument call to ."@ + method + "() \u{2014} only `<TestCases>."@ + method
        + "(\"<path>\")` is recognized in v0.1"@
}

pub fn non_literal_call_message(method: &str) -> (m: String)
    ensures
        m@ == non_literal_call_text(method@),
{
    let mut m = String::new();
    push_str(&mut m, "non-literal or multi-argument call to .");
    push_str(&mut m, method);
    push_str(&mut m, "() \u{2014} only `<TestCases>.");
    push_str(&mut m, method);
    push_str(&mut m, "(\"<path>\")` is recognized in v0.1");
    m
}

pub open spec fn module_macro_text(path: Seq<char>) -> Seq<char> {
    "macro invocation `"@ + path
        + "!` at module level is not a recognized v0.1 trybuild shape (discovery operates on the source AST, not on post-expansion tokens)"@
}

pub fn module_macro_message(path: &str) -> (m: String)
    ensures
        m@ == module_macro_text(path@),
{
    let mut m = String::new();
    push_str(&mut m, "macro invocation `");
    push_str(&mut m, path);
    push_str(
        &mut m,
        "!` at module level is not a recognized v0.1 trybuild shape (discovery operates on the source AST, not on post-expansion tokens)",
    );
    m
}

pub open spec fn parse_failed_text(detail: Seq<char>) -> Seq<char> {
    "parse_failed: "@ + detail
}

pub fn parse_failed_message(detail: &str) -> (m: String)
    ensures
        m@ == parse_failed_text(detail@),
{
    let mut m = String::new();
    push_str(&mut m, "parse_failed: ");
    push_str(&mut m, detail);
    m
}

/// Does a call path name the `TestCases` constructor: `trybuild::TestCases::new`,
/// or one of the custom aliases, with or without its `::new`?
pub open spec fn constructor_path(
    leading_colon: bool,
    segs: Seq<Seq<char>>,
    plain: Seq<Seq<Seq<char>>>,
    with_new: Seq<Seq<Seq<char>>>,
) -> bool {
    !leading_colon && (segs == seq!["trybuild"@, "TestCases"@, "new"@] || exists|i: int|
        0 <= i < plain.len() && i < with_new.len() && (segs == #[trigger] with_new[i] || segs == plain[i]))
}

pub open spec fn nested_view(v: Seq<Vec<String>>) -> Seq<Seq<Seq<char>>> {
    Seq::new(v.len(), |i: int| v[i].deep_view())
}

pub fn is_testcases_constructor_path(
    leading_colon: bool,
    segs: &Vec<String>,
    plain: &Vec<Vec<String>>,
    with_new: &Vec<Vec<String>>,
) -> (r: bool)
    ensures
        r == constructor_path(leading_colon, segs.deep_view(), nested_view(plain@), nested_view(with_new@)),
{
    let mut std_path: Vec<String> = Vec::new();
    std_path.push("trybuild".to_owned());
    std_path.push("TestCases".to_owned());
    std_path.push("new".to_owned());
    assert(std_path.deep_view() =~= seq!["trybuild"@, "TestCases"@, "new"@]);
    if path_matches_segments(leading_colon, segs, &std_path) {
        return true;
    }
    if leading_colon {
        return false;
    }
    let mut i: usize = 0;
    while i < plain.len() && i < with_new.len()
        invariant
            !leading_colon,
            i <= plain@.len(),
            segs.deep_view() != seq!["trybuild"@, "TestCases"@, "new"@],
            forall|k: int|
                0 <= k < i && k < with_new@.len() ==> segs.deep_view() != (#[trigger] with_new@[k]).deep_view()
                    && segs.deep_view() != plain@[k].deep_view(),
        decreases plain@.len() - i,
    {
        let a = path_matches_segments(false, segs, &with_new[i]);
        let b = path_matches_segments(false, segs, &plain[i]);
        if a || b {
            proof {
                let wv = nested_view(with_new@);
                let pv = nested_view(plain@);
                assert(wv[i as int] == with_new@[i as int].deep_view());
                assert(pv[i as int] == plain@[i as int].deep_view());
                assert(segs.deep_view() == wv[i as int] || segs.deep_view() == pv[i as int]);
                assert(0 <= i < pv.len() && i < wv.len());
            }
            return true;
        }
        i = i + 1;
    }
    proof {
        assert forall|k: int|
            0 <= k < plain@.len() && k < with_new@.len() implies !(segs.deep_view() == #[trigger] nested_view(
                with_new@,
            )[k] || segs.deep_view() == nested_view(plain@)[k]) by {
            assert(nested_view(with_new@)[k] == with_new@[k].deep_view());
            assert(nested_view(plain@)[k] == plain@[k].deep_view());
        }
        assert(!constructor_path(leading_colon, segs.deep_view(), nested_view(plain@), nested_view(with_new@)));
    }
    false
}

} // verus!

verus! {

#[verifier::external_type_specification]
#[verifier::external_body]
pub struct ExSynFile(syn::File);

/// What `syn::parse_file` reports for a source text it refuses: the line
/// where the error's span starts and the error's message; nothing when
/// the text parses.
pub uninterp spec fn rust_parse_error(text: Seq<char>) -> Option<(nat, Seq<char>)>;

/// `syn::parse_file`: the syntax tree of a Rust source file, or the line
/// of the error's span start with the error's message.
#[verifier::external_body]
pub fn parse_test_source(source: &str) -> (r: Result<syn::File, (usize, String)>)
    ensures
        match rust_parse_error(source@) {
            None => r is Ok,
            Some((line, message)) => r matches Err((l, m)) && l == line && m@ == message,
        },
{
    match syn::parse_file(source) {
        Ok(f) => Ok(f),
        Err(e) => Err((e.span().start().line, e.to_string())),
    }
}

/// The entry recorded for a test file that does not parse: at the error's
/// line, or line 1 when the error has none.
pub open spec fn parse_failure_spec(file: Seq<char>, line: nat, message: Seq<char>) -> (Seq<char>, nat, Seq<char>) {
    (file, if line >= 1 { line } else { 1 }, parse_failed_text(message))
}

/// The entry for a test file that does not parse (see [`parse_failure_spec`]).
pub fn parse_failure_entry(file: &str, line: usize, msg: &str) -> (u: DiscoveryUnrecognized)
    ensures
        (u.file@, u.line as nat, u.detail@) == parse_failure_spec(file@, line as nat, msg@),
{
    DiscoveryUnrecognized {
        file: file.to_owned(),
        line: if line >= 1 { line } else { 1 },
        detail: parse_failed_message(msg),
    }
}

/// Parses the source of test file `file`: its syntax tree, or the entry
/// that records why it could not be read.
pub fn read_test_source(file: &str, source: &str) -> (r: Result<syn::File, DiscoveryUnrecognized>)
    ensures
        match rust_parse_error(source@) {
            None => r is Ok,
            Some((line, message)) => r matches Err(u) && (u.file@, u.line as nat, u.detail@) == parse_failure_spec(
                file@,
                line,
                message,
            ),
        },
{
    match parse_test_source(source) {
        Ok(f) => Ok(f),
        Err((line, message)) => Err(parse_failure_entry(file, line, message.as_str())),
    }
}

} // verus!
