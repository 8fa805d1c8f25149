//! Lexical path handling on `/`-separated strings: components, joining
//! and `..`-folding, with no filesystem access.
use vstd::prelude::*;
use crate::text::chars_of;

verus! {

/// One path component (`.` components and empty segments are dropped).
pub enum PathComp {
    Root,
    Parent,
    Normal(Seq<char>),
}

/// A path component held at run time.
#[derive(Debug, Clone)]
pub enum Comp {
    Root,
    Parent,
    Normal(String),
}

impl View for Comp {
    type V = PathComp;

    open spec fn view(&self) -> PathComp {
        match self {
            Comp::Root => PathComp::Root,
            Comp::Parent => PathComp::Parent,
            Comp::Normal(s) => PathComp::Normal(s@),
        }
    }
}

pub open spec fn comps_view(v: Seq<Comp>) -> Seq<PathComp> {
    Seq::new(v.len(), |i: int| v[i]@)
}

/// Adds the finished segment `seg` to `out`.
pub open spec fn flush_segment(out: Seq<PathComp>, seg: Seq<char>) -> Seq<PathComp> {
    if seg.len() == 0 || seg == seq!['.'] {
        out
    } else if seg == seq!['.', '.'] {
        out.push(PathComp::Parent)
    } else {
        out.push(PathComp::Normal(seg))
    }
}

/// Components found, and the segment in progress, after reading `s[..i]`.
pub open spec fn comp_scan(s: Seq<char>, i: int) -> (Seq<PathComp>, Seq<char>)
    decreases i,
{
    if i <= 0 {
        (if s.len() > 0 && s[0] == '/' { seq![PathComp::Root] } else { Seq::empty() }, Seq::empty())
    } else {
        let prev = comp_scan(s, i - 1);
        if s[i - 1] == '/' {
            (flush_segment(prev.0, prev.1), Seq::empty())
        } else {
            (prev.0, prev.1.push(s[i - 1]))
        }
    }
}

/// The components of a path: a leading root, then each non-empty segment
/// other than `.`, with `..` as a parent step.
pub open spec fn path_comps(s: Seq<char>) -> Seq<PathComp> {
    let r = comp_scan(s, s.len() as int);
    flush_segment(r.0, r.1)
}

/// Components after folding `..` into the preceding component, as
/// `PathBuf::pop` does (a root or an empty path cannot be popped).
pub open spec fn normalize_scan(cs: Seq<PathComp>, i: int) -> Seq<PathComp>
    decreases i,
{
    if i <= 0 {
        Seq::empty()
    } else {
        let out = normalize_scan(cs, i - 1);
        match cs[i - 1] {
            PathComp::Parent => if out.len() > 0 && out != seq![PathComp::Root] {
                out.drop_last()
            } else {
                out.push(PathComp::Parent)
            },
            c => out.push(c),
        }
    }
}

pub open spec fn normalize_comps(cs: Seq<PathComp>) -> Seq<PathComp> {
    normalize_scan(cs, cs.len() as int)
}

/// Components of the directory holding `manifest` (empty for `.`).
pub open spec fn manifest_root(manifest: Seq<char>) -> Seq<PathComp> {
    let mc = path_comps(manifest);
    if mc.len() > 0 && mc.last() != PathComp::Root {
        mc.drop_last()
    } else {
        Seq::empty()
    }
}

/// Lexical key of `dir` resolved against `root`.
pub open spec fn dir_key(root: Seq<PathComp>, dir: Seq<char>) -> Seq<PathComp> {
    if dir.len() > 0 && dir[0] == '/' {
        normalize_comps(path_comps(dir))
    } else {
        normalize_comps(root + path_comps(dir))
    }
}

fn flush_exec(out: &mut Vec<Comp>, seg: &Vec<char>)
    ensures
        comps_view(final(out)@) == flush_segment(comps_view(old(out)@), seg@),
{
    let ghost before = out@;
    if seg.len() == 0 || (seg.len() == 1 && seg[0] == '.') {
        proof {
            if seg@.len() == 1 {
                assert(seg@ =~= seq!['.']);
            }
        }
        return;
    }
    if seg.len() == 2 && seg[0] == '.' && seg[1] == '.' {
        proof {
            assert(seg@ =~= seq!['.', '.']);
        }
        out.push(Comp::Parent);
        proof {
            assert(comps_view(out@) =~= comps_view(before).push(PathComp::Parent));
        }
        return;
    }
    proof {
        assert(seg@ != seq!['.']);
        assert(seg@ != seq!['.', '.']);
    }
    let mut text = String::new();
    let mut i: usize = 0;
    while i < seg.len()
        invariant
            i <= seg@.len(),
            text@ == seg@.subrange(0, i as int),
        decreases seg@.len() - i,
    {
        crate::text::push_char(&mut text, seg[i]);
        i = i + 1;
        proof {
            assert(text@ =~= seg@.subrange(0, i as int));
        }
    }
    proof {
        assert(text@ =~= seg@);
    }
    out.push(Comp::Normal(text));
    proof {
        assert(comps_view(out@) =~= comps_view(before).push(PathComp::Normal(seg@)));
    }
}

/// The components of `s` (see [`path_comps`]).
pub fn path_components(s: &str) -> (out: Vec<Comp>)
    ensures
        comps_view(out@) == path_comps(s@),
{
    let cs = chars_of(s);
    let mut out: Vec<Comp> = Vec::new();
    if cs.len() > 0 && cs[0] == '/' {
        out.push(Comp::Root);
    }
    proof {
        assert(comps_view(out@) =~= comp_scan(s@, 0).0);
    }
    let mut seg: Vec<char> = Vec::new();
    let mut i: usize = 0;
    while i < cs.len()
        invariant
            cs@ == s@,
            i <= cs@.len(),
            comps_view(out@) == comp_scan(s@, i as int).0,
            seg@ == comp_scan(s@, i as int).1,
        decreases cs@.len() - i,
    {
        let c = cs[i];
        if c == '/' {
            flush_exec(&mut out, &seg);
            seg = Vec::new();
        } else {
            seg.push(c);
        }
        i = i + 1;
        proof {
            assert(seg@ =~= comp_scan(s@, i as int).1);
        }
    }
    flush_exec(&mut out, &seg);
    out
}

fn comp_clone(c: &Comp) -> (r: Comp)
    ensures
        r@ == c@,
{
    match c {
        Comp::Root => Comp::Root,
        Comp::Parent => Comp::Parent,
        Comp::Normal(s) => Comp::Normal(s.clone()),
    }
}

/// Folds `..` components lexically (see [`normalize_comps`]).
pub fn lexical_normalize(cs: &Vec<Comp>) -> (out: Vec<Comp>)
    ensures
        comps_view(out@) == normalize_comps(comps_view(cs@)),
{
    let ghost cv = comps_view(cs@);
    let mut out: Vec<Comp> = Vec::new();
    let mut i: usize = 0;
    while i < cs.len()
        invariant
            cv == comps_view(cs@),
            i <= cs@.len(),
            comps_view(out@) == normalize_scan(cv, i as int),
        decreases cs@.len() - i,
    {
        let ghost before = out@;
        assert(cv[i as int] == cs@[i as int]@);
        match &cs[i] {
            Comp::Parent => {
                let len = out.len();
                let is_root_only = len == 1 && match &out[0] {
                    Comp::Root => true,
                    _ => false,
                };
                proof {
                    if len == 1 {
                        assert(comps_view(out@) == seq![comps_view(out@)[0]]);
                    }
                    if is_root_only {
                        assert(comps_view(out@) =~= seq![PathComp::Root]);
                    } else if len > 0 {
                        let r1 = seq![PathComp::Root];
                        assert(r1.len() == 1 && r1[0] == PathComp::Root);
                        if len == 1 {
                            assert(comps_view(out@)[0] != r1[0]);
                        } else {
                            assert(comps_view(out@).len() != r1.len());
                        }
                        assert(comps_view(out@) != r1);
                    }
                }
                if len > 0 && !is_root_only {
                    out.pop();
                    proof {
                        assert(comps_view(out@) =~= comps_view(before).drop_last());
                    }
                } else {
                    out.push(Comp::Parent);
                    proof {
                        assert(comps_view(out@) =~= comps_view(before).push(PathComp::Parent));
                    }
                }
            },
            c => {
                let d = comp_clone(c);
                out.push(d);
                proof {
                    assert(comps_view(out@) =~= comps_view(before).push(cv[i as int]));
                }
            },
        }
        i = i + 1;
    }
    out
}

fn comp_eq(a: &Comp, b: &Comp) -> (r: bool)
    ensures
        r == (a@ == b@),
{
    match a {
        Comp::Root => match b {
            Comp::Root => true,
            _ => false,
        },
        Comp::Parent => match b {
            Comp::Parent => true,
            _ => false,
        },
        Comp::Normal(x) => match b {
            Comp::Normal(y) => {
                let e = crate::text::str_eq(x.as_str(), y.as_str());
                proof {
                    if !e {
                        assert(a@ != b@);
                    }
                }
                e
            },
            _ => false,
        },
    }
}

/// Component-wise equality.
pub fn comps_eq(a: &Vec<Comp>, b: &Vec<Comp>) -> (r: bool)
    ensures
        r == (comps_view(a@) == comps_view(b@)),
{
    if a.len() != b.len() {
        proof {
            assert(comps_view(a@).len() != comps_view(b@).len());
        }
        return false;
    }
    let mut i: usize = 0;
    while i < a.len()
        invariant
            a@.len() == b@.len(),
            i <= a@.len(),
            forall|k: int| 0 <= k < i ==> a@[k]@ == b@[k]@,
        decreases a@.len() - i,
    {
        if !comp_eq(&a[i], &b[i]) {
            proof {
                assert(comps_view(a@)[i as int] != comps_view(b@)[i as int]);
            }
            return false;
        }
        i = i + 1;
    }
    proof {
        assert(comps_view(a@) =~= comps_view(b@));
    }
    true
}

/// Components of the directory holding `manifest_path`.
pub fn derive_manifest_root(manifest_path: &str) -> (r: Vec<Comp>)
    ensures
        comps_view(r@) == manifest_root(manifest_path@),
{
    let mut mc = path_components(manifest_path);
    let len = mc.len();
    if len > 0 {
        let last_is_root = match &mc[len - 1] {
            Comp::Root => true,
            _ => false,
        };
        if !last_is_root {
            let ghost before = mc@;
            mc.pop();
            proof {
                assert(comps_view(mc@) =~= comps_view(before).drop_last());
            }
            return mc;
        }
    }
    Vec::new()
}

/// Lexical key of `dir` resolved against `root` (see [`dir_key`]).
pub fn fixture_dir_key(root: &Vec<Comp>, dir: &str) -> (r: Vec<Comp>)
    ensures
        comps_view(r@) == dir_key(comps_view(root@), dir@),
{
    let dc = path_components(dir);
    let cs = chars_of(dir);
    if cs.len() > 0 && cs[0] == '/' {
        return lexical_normalize(&dc);
    }
    let mut joined: Vec<Comp> = Vec::new();
    let mut i: usize = 0;
    while i < root.len()
        invariant
            i <= root@.len(),
            joined@.len() == i,
            comps_view(joined@) == comps_view(root@).subrange(0, i as int),
        decreases root@.len() - i,
    {
        let ghost before = joined@;
        let ghost old_v = comps_view(joined@);
        let c = comp_clone(&root[i]);
        let ghost gc = c;
        joined.push(c);
        proof {
            assert(joined@ == before.push(gc));
            assert forall|k: int| 0 <= k < i implies #[trigger] comps_view(joined@)[k] == old_v[k] by {
                assert(joined@[k] == before[k]);
            }
            assert(comps_view(joined@) =~= comps_view(root@).subrange(0, i + 1));
        }
        i = i + 1;
    }
    let mut j: usize = 0;
    while j < dc.len()
        invariant
            i == root@.len(),
            j <= dc@.len(),
            joined@.len() == root@.len() + j,
            comps_view(joined@) == comps_view(root@) + comps_view(dc@).subrange(0, j as int),
        decreases dc@.len() - j,
    {
        let ghost before = joined@;
        let ghost old_v = comps_view(joined@);
        let c = comp_clone(&dc[j]);
        let ghost gc = c;
        joined.push(c);
        proof {
            assert(joined@ == before.push(gc));
            assert forall|k: int| 0 <= k < before.len() implies #[trigger] comps_view(joined@)[k] == old_v[k] by {
                assert(joined@[k] == before[k]);
            }
            assert(comps_view(joined@) =~= comps_view(root@) + comps_view(dc@).subrange(0, j + 1));
        }
        j = j + 1;
    }
    proof {
        assert(comps_view(dc@).subrange(0, j as int) =~= comps_view(dc@));
    }
    lexical_normalize(&joined)
}

} // verus!
