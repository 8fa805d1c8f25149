//! Bookkeeping for the files compat mode generates: what was tracked, how
//! each path is classified, and the once-only cleanup hand-off. Running
//! `git` and removing files is the caller's part.
use vstd::prelude::*;
use crate::error::Error;
use crate::paths::{comps_view, path_comps, path_components, Comp, PathComp};
use crate::sort::SortKey;
use crate::text::{lemma_str_lt_asymmetric, push_decimal, push_str, push_string, str_less, str_lt};
use crate::util::{join_path, join_spec};

verus! {

/// How a generated path ended up.
#[derive(Debug, Clone, Copy, PartialEq, Eq, Structural)]
pub enum GeneratedPathClass {
    /// Tracked by git: left in place.
    Committed,
    /// Under the crate's `target/` or ignored by git: left in place.
    Ignored,
    /// Neither: removed.
    Cleaned,
    /// Would have been removed, but the run asked to keep output.
    Kept,
}

/// One generated path and its class.
#[derive(Debug, Clone)]
pub struct GeneratedPath {
    pub path: String,
    pub class: GeneratedPathClass,
}

/// A tracked path (made absolute) and the crate root it belongs to.
#[derive(Debug, Clone)]
pub struct PendingPath {
    pub path: String,
    pub target_root: String,
}

/// Records generated paths and hands them out for cleanup exactly once.
#[derive(Debug)]
pub struct CleanupGuard {
    pending: Vec<PendingPath>,
    keep_output: bool,
    cleaned: bool,
}

pub open spec fn pending_view(v: Seq<PendingPath>) -> Seq<(Seq<char>, Seq<char>)> {
    Seq::new(v.len(), |i: int| (v[i].path@, v[i].target_root@))
}

impl CleanupGuard {
    pub closed spec fn pending_paths(&self) -> Seq<(Seq<char>, Seq<char>)> {
        pending_view(self.pending@)
    }

    pub closed spec fn keeps_output(&self) -> bool {
        self.keep_output
    }

    pub closed spec fn has_run(&self) -> bool {
        self.cleaned
    }

    /// A guard with nothing tracked yet.
    pub fn new(keep_output: bool) -> (g: Self)
        ensures
            g.pending_paths() == Seq::<(Seq<char>, Seq<char>)>::empty(),
            g.keeps_output() == keep_output,
            !g.has_run(),
    {
        let g = CleanupGuard { pending: Vec::new(), keep_output, cleaned: false };
        proof {
            assert(pending_view(g.pending@) =~= Seq::<(Seq<char>, Seq<char>)>::empty());
        }
        g
    }

    /// Records `path`, resolved against `target_root` when relative.
    pub fn track(&mut self, path: &str, target_root: &str)
        ensures
            final(self).pending_paths() == old(self).pending_paths().push((join_spec(target_root@, path@), target_root@)),
            final(self).keeps_output() == old(self).keeps_output(),
            final(self).has_run() == old(self).has_run(),
    {
        let absolute = join_path(target_root, path);
        let entry = PendingPath { path: absolute, target_root: target_root.to_owned() };
        let ghost ge = entry;
        let ghost before = self.pending@;
        self.pending.push(entry);
        proof {
            assert(self.pending@ == before.push(ge));
            assert(pending_view(self.pending@) =~= pending_view(before).push((ge.path@, ge.target_root@)));
        }
    }

    /// The tracked paths, on the first call only; later calls get none.
    pub fn run_cleanup_once(&mut self) -> (out: Vec<PendingPath>)
        ensures
            old(self).has_run() ==> out@.len() == 0,
            !old(self).has_run() ==> pending_view(out@) == old(self).pending_paths(),
            final(self).has_run(),
            final(self).pending_paths().len() == 0,
            final(self).keeps_output() == old(self).keeps_output(),
    {
        if self.cleaned {
            let mut empty: Vec<PendingPath> = Vec::new();
            std::mem::swap(&mut empty, &mut self.pending);
            return Vec::new();
        }
        self.cleaned = true;
        let mut out: Vec<PendingPath> = Vec::new();
        std::mem::swap(&mut out, &mut self.pending);
        proof {
            assert(pending_view(self.pending@) =~= Seq::<(Seq<char>, Seq<char>)>::empty());
        }
        out
    }

    /// Ends tracking and hands out every tracked path for cleanup.
    pub fn finalize(self) -> (out: Vec<PendingPath>)
        ensures
            !self.has_run() ==> pending_view(out@) == self.pending_paths(),
            self.has_run() ==> out@.len() == 0,
    {
        let mut g = self;
        g.run_cleanup_once()
    }

    /// Whether cleaned paths are kept instead of removed.
    pub fn keep_output(&self) -> (r: bool)
        ensures
            r == self.keeps_output(),
    {
        self.keep_output
    }
}

/// `pre`'s components are a prefix of `path`'s.
pub open spec fn comps_prefix(pre: Seq<PathComp>, path: Seq<PathComp>) -> bool {
    pre.len() <= path.len() && path.subrange(0, pre.len() as int) == pre
}

fn comp_same(a: &Comp, b: &Comp) -> (r: bool)
    ensures
        r == (a@ == b@),
{
    match a {
        Comp::Root => match b {
            Comp::Root => true,
            _ => false,
        },
        Comp::Parent => match b {
            Comp::Parent => true,
            _ => false,
        },
        Comp::Normal(x) => match b {
            Comp::Normal(y) => {
                let e = crate::text::str_eq(x.as_str(), y.as_str());
                proof {
                    if !e {
                        assert(a@ != b@);
                    }
                }
                e
            },
            _ => false,
        },
    }
}

/// `path` lies under `<target_root>/target` (component-wise).
pub fn is_under_cargo_target(target_root: &str, path: &str) -> (r: bool)
    ensures
        r == comps_prefix(path_comps(join_spec(target_root@, "target"@)), path_comps(path@)),
{
    let target_dir = join_path(target_root, "target");
    let tc = path_components(target_dir.as_str());
    let pc = path_components(path);
    let ghost tv = comps_view(tc@);
    let ghost pv = comps_view(pc@);
    if tc.len() > pc.len() {
        return false;
    }
    let mut i: usize = 0;
    while i < tc.len()
        invariant
            tv == comps_view(tc@),
            pv == comps_view(pc@),
            tv == path_comps(join_spec(target_root@, "target"@)),
            pv == path_comps(path@),
            tc@.len() <= pc@.len(),
            i <= tc@.len(),
            forall|k: int| 0 <= k < i ==> pv[k] == tv[k],
        decreases tc@.len() - i,
    {
        if !comp_same(&pc[i], &tc[i]) {
            proof {
                assert(pv.subrange(0, tv.len() as int)[i as int] != tv[i as int]);
                assert(pv.subrange(0, tv.len() as int) != tv);
            }
            return false;
        }
        i = i + 1;
    }
    proof {
        assert(pv.subrange(0, tv.len() as int) =~= tv);
    }
    true
}

/// Class of a path from where it lies and what git reports: under
/// `target/` it is ignored; else tracked means committed, git-ignored
/// means ignored, and anything else is cleaned.
pub open spec fn class_spec(under_target: bool, git_tracked: bool, git_ignored: bool) -> GeneratedPathClass {
    if under_target {
        GeneratedPathClass::Ignored
    } else if git_tracked {
        GeneratedPathClass::Committed
    } else if git_ignored {
        GeneratedPathClass::Ignored
    } else {
        GeneratedPathClass::Cleaned
    }
}

/// Classifies `entry` given git's answers for it (asked only when the
/// path is not under `target/`), then keeps a cleaned path if asked to.
pub fn classify_entry(entry: &PendingPath, keep_output: bool, git_tracked: bool, git_ignored: bool) -> (c: GeneratedPathClass)
    ensures
        ({
            let base = class_spec(
                comps_prefix(path_comps(join_spec(entry.target_root@, "target"@)), path_comps(entry.path@)),
                git_tracked,
                git_ignored,
            );
            c == if base == GeneratedPathClass::Cleaned && keep_output {
                GeneratedPathClass::Kept
            } else {
                base
            }
        }),
{
    let under = is_under_cargo_target(entry.target_root.as_str(), entry.path.as_str());
    let class = if under {
        GeneratedPathClass::Ignored
    } else if git_tracked {
        GeneratedPathClass::Committed
    } else if git_ignored {
        GeneratedPathClass::Ignored
    } else {
        GeneratedPathClass::Cleaned
    };
    match class {
        GeneratedPathClass::Cleaned => if keep_output {
            GeneratedPathClass::Kept
        } else {
            GeneratedPathClass::Cleaned
        },
        other => other,
    }
}

/// The class a tracked path ends with, given git's answers for it.
pub open spec fn final_class(entry: PendingPath, keep_output: bool, git_tracked: bool, git_ignored: bool) -> GeneratedPathClass {
    let base = class_spec(
        comps_prefix(path_comps(join_spec(entry.target_root@, "target"@)), path_comps(entry.path@)),
        git_tracked,
        git_ignored,
    );
    if base == GeneratedPathClass::Cleaned && keep_output {
        GeneratedPathClass::Kept
    } else {
        base
    }
}

/// Classifies every recorded path, in order, given git's answers for each
/// (`in_git[i]`, `ignored[i]` for `pending[i]`). When output is kept no
/// path is to be cleaned; otherwise none is merely kept.
pub fn classify_pending(pending: &Vec<PendingPath>, keep_output: bool, in_git: &Vec<bool>, ignored: &Vec<bool>) -> (out: Vec<GeneratedPath>)
    requires
        in_git@.len() == pending@.len(),
        ignored@.len() == pending@.len(),
    ensures
        out@.len() == pending@.len(),
        forall|i: int| 0 <= i < out@.len() ==> (#[trigger] out@[i]).path@ == pending@[i].path@
            && out@[i].class == final_class(pending@[i], keep_output, in_git@[i], ignored@[i]),
        keep_output ==> forall|i: int| 0 <= i < out@.len() ==> (#[trigger] out@[i]).class != GeneratedPathClass::Cleaned,
        !keep_output ==> forall|i: int| 0 <= i < out@.len() ==> (#[trigger] out@[i]).class != GeneratedPathClass::Kept,
{
    let mut out: Vec<GeneratedPath> = Vec::new();
    let mut i: usize = 0;
    while i < pending.len()
        invariant
            i <= pending@.len(),
            in_git@.len() == pending@.len(),
            ignored@.len() == pending@.len(),
            out@.len() == i,
            forall|k: int| 0 <= k < i ==> (#[trigger] out@[k]).path@ == pending@[k].path@
                && out@[k].class == final_class(pending@[k], keep_output, in_git@[k], ignored@[k]),
        decreases pending@.len() - i,
    {
        let class = classify_entry(&pending[i], keep_output, in_git[i], ignored[i]);
        out.push(GeneratedPath { path: pending[i].path.clone(), class });
        i = i + 1;
    }
    out
}

pub const CLEANUP_ALSO_FAILED: &'static str = " other compat-generated path(s) also failed to remove: ";

/// Joins paths with `, `.
pub open spec fn comma_list(ps: Seq<Seq<char>>) -> Seq<char>
    decreases ps.len(),
{
    if ps.len() == 0 {
        Seq::empty()
    } else if ps.len() == 1 {
        ps[0]
    } else {
        comma_list(ps.drop_last()) + ", "@ + ps.last()
    }
}

fn comma_join(ps: &Vec<String>) -> (s: String)
    ensures
        s@ == comma_list(ps.deep_view()),
{
    let mut s = String::new();
    let mut i: usize = 0;
    while i < ps.len()
        invariant
            i <= ps@.len(),
            s@ == comma_list(ps.deep_view().take(i as int)),
        decreases ps@.len() - i,
    {
        if i > 0 {
            push_str(&mut s, ", ");
        }
        push_string(&mut s, &ps[i]);
        proof {
            let t = ps.deep_view().take(i + 1);
            assert(t.drop_last() =~= ps.deep_view().take(i as int));
            assert(s@ =~= comma_list(t));
        }
        i = i + 1;
    }
    proof {
        assert(ps.deep_view().take(i as int) =~= ps.deep_view());
    }
    s
}

/// `e` is the first removal error with the other failed paths folded in:
/// unchanged when there are none or when it is not an I/O error;
/// otherwise its context notes how many other paths failed and which.
pub open spec fn is_aggregate(e: Error, first_error: Error, additional: Seq<Seq<char>>) -> bool {
    &&& additional.len() == 0 ==> e == first_error
    &&& additional.len() > 0 ==> match first_error {
        Error::Io { context, path, message } => e matches Error::Io { context: c2, path: p2, message: m2 }
            && p2 == path && m2 == message && c2@ == context@ + " (and "@ + crate::text::decimal(
            additional.len() as nat,
        ) + CLEANUP_ALSO_FAILED@ + comma_list(additional) + ")"@,
        other => e == other,
    }
}

/// Folds the removal failures into one error: the first error, and for an
/// I/O error a context naming how many other paths failed and which.
pub fn aggregate_cleanup_error(first_error: Error, additional: Vec<String>) -> (e: Error)
    ensures
        is_aggregate(e, first_error, additional.deep_view()),
{
    if additional.len() == 0 {
        return first_error;
    }
    match first_error {
        Error::Io { context, path, message } => {
            let mut c = context;
            push_str(&mut c, " (and ");
            push_decimal(&mut c, additional.len());
            push_str(&mut c, CLEANUP_ALSO_FAILED);
            let list = comma_join(&additional);
            push_string(&mut c, &list);
            push_str(&mut c, ")");
            Error::Io { context: c, path, message }
        },
        other => other,
    }
}

/// Lexicographic order of component lists (root before parent before
/// names; names by code point), the order `Path` comparison gives.
pub open spec fn comp_rank(c: PathComp) -> int {
    match c {
        PathComp::Root => 0,
        PathComp::Parent => 1,
        PathComp::Normal(_) => 2,
    }
}

pub open spec fn comp_lt(a: PathComp, b: PathComp) -> bool {
    if comp_rank(a) != comp_rank(b) {
        comp_rank(a) < comp_rank(b)
    } else {
        match (a, b) {
            (PathComp::Normal(x), PathComp::Normal(y)) => str_lt(x, y),
            _ => false,
        }
    }
}

pub open spec fn comps_lt(a: Seq<PathComp>, b: Seq<PathComp>) -> bool
    decreases a.len(),
{
    if a.len() == 0 {
        b.len() > 0
    } else if b.len() == 0 {
        false
    } else if a[0] != b[0] {
        comp_lt(a[0], b[0])
    } else {
        comps_lt(a.drop_first(), b.drop_first())
    }
}

pub proof fn lemma_comps_lt_asymmetric(a: Seq<PathComp>, b: Seq<PathComp>)
    ensures
        comps_lt(a, b) ==> !comps_lt(b, a),
    decreases a.len(),
{
    if a.len() > 0 && b.len() > 0 {
        if a[0] == b[0] {
            lemma_comps_lt_asymmetric(a.drop_first(), b.drop_first());
        } else {
            match (a[0], b[0]) {
                (PathComp::Normal(x), PathComp::Normal(y)) => lemma_str_lt_asymmetric(x, y),
                _ => {},
            }
        }
    }
}

fn comp_less(a: &Comp, b: &Comp) -> (r: bool)
    ensures
        r == comp_lt(a@, b@),
{
    match a {
        Comp::Root => match b {
            Comp::Root => false,
            _ => true,
        },
        Comp::Parent => match b {
            Comp::Root => false,
            Comp::Parent => false,
            _ => true,
        },
        Comp::Normal(x) => match b {
            Comp::Normal(y) => str_less(x.as_str(), y.as_str()),
            _ => false,
        },
    }
}

/// `a` orders before `b` as paths.
pub fn path_less(a: &str, b: &str) -> (r: bool)
    ensures
        r == comps_lt(path_comps(a@), path_comps(b@)),
{
    let x = path_components(a);
    let y = path_components(b);
    let ghost xv = comps_view(x@);
    let ghost yv = comps_view(y@);
    let mut i: usize = 0;
    proof {
        assert(xv.skip(0) =~= xv);
        assert(yv.skip(0) =~= yv);
    }
    while i < x.len() && i < y.len()
        invariant
            xv == comps_view(x@),
            yv == comps_view(y@),
            xv == path_comps(a@),
            yv == path_comps(b@),
            i <= x@.len(),
            i <= y@.len(),
            comps_lt(xv, yv) == comps_lt(xv.skip(i as int), yv.skip(i as int)),
        decreases x@.len() - i,
    {
        if !comp_same(&x[i], &y[i]) {
            proof {
                assert(xv.skip(i as int)[0] == xv[i as int]);
                assert(yv.skip(i as int)[0] == yv[i as int]);
            }
            return comp_less(&x[i], &y[i]);
        }
        proof {
            assert(xv.skip(i as int).drop_first() =~= xv.skip(i + 1));
            assert(yv.skip(i as int).drop_first() =~= yv.skip(i + 1));
        }
        i = i + 1;
    }
    proof {
        if i == x@.len() {
            assert(xv.skip(i as int).len() == 0);
        } else {
            assert(yv.skip(i as int).len() == 0);
        }
    }
    i == x.len() && i < y.len()
}

impl SortKey for GeneratedPath {
    open spec fn sorts_after(&self, other: &Self) -> bool {
        comps_lt(path_comps(other.path@), path_comps(self.path@))
    }

    fn after(&self, other: &Self) -> (r: bool) {
        path_less(other.path.as_str(), self.path.as_str())
    }

    proof fn lemma_asymmetric(a: &Self, b: &Self) {
        lemma_comps_lt_asymmetric(path_comps(b.path@), path_comps(a.path@));
    }
}

} // verus!

verus! {

proof fn lemma_first_failure_at(rs: Seq<(GeneratedPath, Option<Error>)>, i: int)
    requires
        0 <= i < rs.len(),
    ensures
        rs[i].1 is Some ==> first_failure(rs, i) == Some(i),
        rs[i].1 is None ==> first_failure(rs, i) == first_failure(rs, i + 1),
{
}

/// Index of the first entry whose removal failed, from `i` on.
pub open spec fn first_failure(results: Seq<(GeneratedPath, Option<Error>)>, i: int) -> Option<int>
    decreases results.len() - i,
{
    if i < 0 || i >= results.len() {
        None
    } else if results[i].1 is Some {
        Some(i)
    } else {
        first_failure(results, i + 1)
    }
}

/// The paths of the entries in `results[lo..hi]` whose removal failed,
/// in order.
pub open spec fn failed_paths(results: Seq<(GeneratedPath, Option<Error>)>, lo: int, hi: int) -> Seq<Seq<char>>
    decreases hi - lo,
{
    if hi <= lo {
        Seq::empty()
    } else if results[hi - 1].1 is Some {
        failed_paths(results, lo, hi - 1).push(results[hi - 1].0.path@)
    } else {
        failed_paths(results, lo, hi - 1)
    }
}

/// Ends a cleanup pass: each classified path with the error its removal
/// met, if any. Any failure gives the first error, with the paths of the
/// later failures folded in (see [`is_aggregate`]); otherwise the paths,
/// sorted by path.
pub fn finish_cleanup(results: Vec<(GeneratedPath, Option<Error>)>) -> (r: Result<Vec<GeneratedPath>, Error>)
    ensures
        match first_failure(results@, 0) {
            None => r matches Ok(v) && v@ == crate::sort::stable_sorted(Seq::new(results@.len(), |i: int| results@[i].0))
                && crate::sort::is_sorted(v@) && v@.to_multiset() == Seq::new(results@.len(), |i: int| results@[i].0).to_multiset(),
            Some(f) => r matches Err(e) && is_aggregate(
                e,
                results@[f].1->Some_0,
                failed_paths(results@, f + 1, results@.len() as int),
            ),
        },
{
    let ghost rs = results@;
    let mut classified: Vec<GeneratedPath> = Vec::new();
    let mut first_error: Option<Error> = None;
    let mut additional: Vec<String> = Vec::new();
    for item in it: results
        invariant
            it.seq() == rs,
            classified@ == Seq::new(it.index() as nat, |k: int| rs[k].0),
            first_error is None ==> first_failure(rs, 0) == first_failure(rs, it.index() as int),
            first_error is Some ==> (first_failure(rs, 0) matches Some(f) && f < it.index()
                && first_error == rs[f].1 && additional.deep_view() == failed_paths(rs, f + 1, it.index() as int)),
            first_error is None ==> additional@.len() == 0,
    {
        let ghost idx = it.index() as int;
        let (entry, err) = item;
        proof {
            lemma_first_failure_at(rs, idx);
        }
        match err {
            Some(e) => {
                if first_error.is_none() {
                    first_error = Some(e);
                    proof {
                        assert(failed_paths(rs, idx + 1, idx + 1) =~= Seq::<Seq<char>>::empty());
                        assert(additional.deep_view() =~= Seq::<Seq<char>>::empty());
                    }
                } else {
                    let p = entry.path.clone();
                    additional.push(p);
                    proof {
                        assert(additional.deep_view() =~= failed_paths(rs, first_failure(rs, 0)->0 + 1, idx + 1));
                    }
                }
            },
            None => {},
        }
        classified.push(entry);
        proof {
            assert(classified@ =~= Seq::new((it.index() + 1) as nat, |k: int| rs[k].0));
        }
    }
    proof {
        crate::sort::lemma_stable_sorted_is_sorted(classified@);
        crate::sort::lemma_stable_sorted_elements(classified@);
    }
    match first_error {
        Some(err) => Err(aggregate_cleanup_error(err, additional)),
        None => Ok(crate::sort::stable_sort(classified)),
    }
}

} // verus!
