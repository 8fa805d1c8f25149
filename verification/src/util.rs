//! Path strings: joining and making relative.
use vstd::prelude::*;
use crate::paths::{comps_view, path_comps, path_components, Comp, PathComp};
use crate::text::{chars_of, push_char, push_str, string_of_range};

verus! {

/// `p` resolved against `base` as `Path::join` does: an absolute `p`
/// replaces `base`, otherwise a `/` separates them when needed.
pub open spec fn join_spec(base: Seq<char>, p: Seq<char>) -> Seq<char> {
    if p.len() > 0 && p[0] == '/' {
        p
    } else if base.len() == 0 {
        p
    } else if base.last() == '/' {
        base + p
    } else {
        base + seq!['/'] + p
    }
}

pub fn join_path(base: &str, p: &str) -> (r: String)
    ensures
        r@ == join_spec(base@, p@),
{
    let pc = chars_of(p);
    let bc = chars_of(base);
    let mut r = String::new();
    if pc.len() > 0 && pc[0] == '/' {
        push_str(&mut r, p);
        return r;
    }
    if bc.len() == 0 {
        push_str(&mut r, p);
        return r;
    }
    push_str(&mut r, base);
    if bc[bc.len() - 1] != '/' {
        push_char(&mut r, '/');
    }
    push_str(&mut r, p);
    r
}

/// Text of a component after the shared prefix.
pub open spec fn comp_text(c: PathComp) -> Seq<char> {
    match c {
        PathComp::Root => seq!['/'],
        PathComp::Parent => seq!['.', '.'],
        PathComp::Normal(s) => s,
    }
}

/// Components joined with `/`.
pub open spec fn join_comps(cs: Seq<PathComp>) -> Seq<char>
    decreases cs.len(),
{
    if cs.len() == 0 {
        Seq::empty()
    } else if cs.len() == 1 {
        comp_text(cs[0])
    } else {
        join_comps(cs.drop_last()) + seq!['/'] + comp_text(cs.last())
    }
}

/// `\` replaced with `/`.
pub open spec fn forward_slashes(s: Seq<char>) -> Seq<char> {
    Seq::new(s.len(), |i: int| if s[i] == '\\' { '/' } else { s[i] })
}

/// `path` relative to `base` when `base`'s components are a prefix of
/// `path`'s (the rest joined with `/`), else `path` with forward slashes.
pub open spec fn relative_spec(path: Seq<char>, base: Seq<char>) -> Seq<char> {
    let pc = path_comps(path);
    let bc = path_comps(base);
    if bc.len() <= pc.len() && pc.subrange(0, bc.len() as int) == bc {
        join_comps(pc.subrange(bc.len() as int, pc.len() as int))
    } else {
        forward_slashes(path)
    }
}

fn comp_is(a: &Comp, b: &Comp) -> (r: bool)
    ensures
        r == (a@ == b@),
{
    match a {
        Comp::Root => match b {
            Comp::Root => true,
            _ => false,
        },
        Comp::Parent => match b {
            Comp::Parent => true,
            _ => false,
        },
        Comp::Normal(x) => match b {
            Comp::Normal(y) => {
                let e = crate::text::str_eq(x.as_str(), y.as_str());
                proof {
                    if !e {
                        assert(a@ != b@);
                    }
                }
                e
            },
            _ => false,
        },
    }
}

pub fn to_forward_slash(s: &str) -> (r: String)
    ensures
        r@ == forward_slashes(s@),
{
    let cs = chars_of(s);
    let mut r = String::new();
    let mut i: usize = 0;
    while i < cs.len()
        invariant
            cs@ == s@,
            i <= cs@.len(),
            r@ == forward_slashes(s@).subrange(0, i as int),
        decreases cs@.len() - i,
    {
        let c = cs[i];
        push_char(&mut r, if c == '\\' { '/' } else { c });
        i = i + 1;
        proof {
            assert(r@ =~= forward_slashes(s@).subrange(0, i as int));
        }
    }
    proof {
        assert(r@ =~= forward_slashes(s@));
    }
    r
}

/// `path` relative to `base` (see [`relative_spec`]).
pub fn relative_to(path: &str, base: &str) -> (r: String)
    ensures
        r@ == relative_spec(path@, base@),
{
    let pc = path_components(path);
    let bc = path_components(base);
    let ghost pv = comps_view(pc@);
    let ghost bv = comps_view(bc@);
    if bc.len() > pc.len() {
        proof {
            assert(bv.len() > pv.len());
        }
        return to_forward_slash(path);
    }
    let mut i: usize = 0;
    while i < bc.len()
        invariant
            pv == comps_view(pc@),
            bv == comps_view(bc@),
            pv == path_comps(path@),
            bv == path_comps(base@),
            bc@.len() <= pc@.len(),
            i <= bc@.len(),
            forall|k: int| 0 <= k < i ==> pv[k] == bv[k],
        decreases bc@.len() - i,
    {
        if !comp_is(&pc[i], &bc[i]) {
            proof {
                assert(pv.subrange(0, bv.len() as int)[i as int] != bv[i as int]);
                assert(pv.subrange(0, bv.len() as int) != bv);
                assert(!(bv.len() <= pv.len() && pv.subrange(0, bv.len() as int) == bv));
            }
            return to_forward_slash(path);
        }
        i = i + 1;
    }
    proof {
        assert(pv.subrange(0, bv.len() as int) =~= bv);
    }
    let ghost rest = pv.subrange(bv.len() as int, pv.len() as int);
    let mut r = String::new();
    let mut j = bc.len();
    while j < pc.len()
        invariant
            pv == comps_view(pc@),
            bc@.len() <= j <= pc@.len(),
            rest == pv.subrange(bc@.len() as int, pv.len() as int),
            r@ == join_comps(rest.subrange(0, j - bc@.len())),
        decreases pc@.len() - j,
    {
        if j > bc.len() {
            push_char(&mut r, '/');
        }
        match &pc[j] {
            Comp::Root => push_char(&mut r, '/'),
            Comp::Parent => {
                push_char(&mut r, '.');
                push_char(&mut r, '.');
            },
            Comp::Normal(s) => push_str(&mut r, s.as_str()),
        }
        proof {
            let sub = rest.subrange(0, j + 1 - bc@.len());
            assert(sub.drop_last() =~= rest.subrange(0, j - bc@.len()));
            assert(sub.last() == pc@[j as int]@);
            assert(r@ =~= join_comps(sub));
        }
        j = j + 1;
    }
    proof {
        assert(rest.subrange(0, j - bc@.len()) =~= rest);
        assert(r@ == join_comps(pv.subrange(bv.len() as int, pv.len() as int)));
    }
    r
}

/// Length of the part of a path that comes before its pieces: a leading
/// `/`, or a leading `.` piece of a relative path.
pub open spec fn body_start(p: Seq<char>) -> int {
    if p.len() > 0 && p[0] == '/' {
        1
    } else if p.len() > 0 && p[0] == '.' && (p.len() == 1 || p[1] == '/') {
        1
    } else {
        0
    }
}

/// Where the last piece of `q` starts, no earlier than `base`.
pub open spec fn last_comp_start(q: Seq<char>, base: int) -> int
    decreases q.len(),
{
    if q.len() == 0 || q.len() <= base {
        q.len() as int
    } else if q.last() == '/' {
        q.len() as int
    } else {
        last_comp_start(q.drop_last(), base)
    }
}

/// A piece that names nothing: empty (a repeated or trailing `/`) or `.`.
pub open spec fn is_skip_piece(c: Seq<char>) -> bool {
    c.len() == 0 || (c.len() == 1 && c[0] == '.')
}

/// `q` cut before its last piece and the `/` in front of it.
pub open spec fn cut_last(q: Seq<char>, base: int) -> Seq<char> {
    let st = last_comp_start(q, base);
    q.subrange(0, if st > base { st - 1 } else { base })
}

/// `q` without its trailing pieces that name nothing.
pub open spec fn trim_back(q: Seq<char>, base: int) -> Seq<char>
    decreases q.len(),
{
    if q.len() <= base || base < 0 {
        q
    } else if is_skip_piece(q.subrange(last_comp_start(q, base), q.len() as int)) {
        proof {
            lemma_last_comp_start_bound(q, base);
        }
        trim_back(cut_last(q, base), base)
    } else {
        q
    }
}

/// The directory part of a `/`-separated path, as `Path::parent` gives
/// it: what comes before the last piece, with empty and `.` pieces at the
/// end left out; the empty path for a lone `.` or a single piece; nothing
/// for the empty path or the root alone.
pub open spec fn parent_spec(s: Seq<char>) -> Option<Seq<char>> {
    let base = body_start(s);
    let q = trim_back(s, base);
    if q.len() > base {
        Some(trim_back(cut_last(q, base), base))
    } else if base == 1 && s[0] == '.' {
        Some(Seq::empty())
    } else {
        None
    }
}

pub proof fn lemma_last_comp_start_bound(q: Seq<char>, base: int)
    requires
        0 <= base <= q.len(),
    ensures
        base <= last_comp_start(q, base) <= q.len(),
        last_comp_start(q, base) > base ==> q[last_comp_start(q, base) - 1] == '/',
        q.len() > base ==> cut_last(q, base).len() < q.len(),
    decreases q.len(),
{
    if q.len() > base && q.last() != '/' {
        lemma_last_comp_start_bound(q.drop_last(), base);
        let st = last_comp_start(q.drop_last(), base);
        if st > base {
            assert(q.drop_last()[st - 1] == q[st - 1]);
        }
    }
}

proof fn lemma_trim_back_len(q: Seq<char>, base: int)
    requires
        0 <= base,
    ensures
        trim_back(q, base).len() <= q.len(),
        q.len() >= base ==> trim_back(q, base).len() >= base,
    decreases q.len(),
{
    if q.len() > base && is_skip_piece(q.subrange(last_comp_start(q, base), q.len() as int)) {
        lemma_last_comp_start_bound(q, base);
        lemma_trim_back_len(cut_last(q, base), base);
    }
}

/// `last_comp_start(cs[..q], base)`.
fn comp_start(cs: &Vec<char>, q: usize, base: usize) -> (st: usize)
    requires
        base <= q <= cs@.len(),
    ensures
        st == last_comp_start(cs@.subrange(0, q as int), base as int),
        base <= st <= q,
{
    let mut j = q;
    while j > base && cs[j - 1] != '/'
        invariant
            base <= j <= q <= cs@.len(),
            last_comp_start(cs@.subrange(0, q as int), base as int) == last_comp_start(cs@.subrange(0, j as int), base as int),
        decreases j,
    {
        assert(cs@.subrange(0, j as int).drop_last() =~= cs@.subrange(0, j - 1));
        j = j - 1;
    }
    j
}

/// Length of `trim_back(cs[..q], base)`.
fn trim_back_len(cs: &Vec<char>, q: usize, base: usize) -> (r: usize)
    requires
        base <= q <= cs@.len(),
    ensures
        base <= r <= q,
        cs@.subrange(0, r as int) == trim_back(cs@.subrange(0, q as int), base as int),
{
    let mut r = q;
    let mut stop = false;
    while r > base && !stop
        invariant
            base <= r <= q <= cs@.len(),
            trim_back(cs@.subrange(0, r as int), base as int) == trim_back(cs@.subrange(0, q as int), base as int),
            stop ==> trim_back(cs@.subrange(0, r as int), base as int) == cs@.subrange(0, r as int),
        decreases r, (if stop { 0int } else { 1int }),
    {
        let st = comp_start(cs, r, base);
        let ghost qq = cs@.subrange(0, r as int);
        proof {
            assert(qq.subrange(st as int, r as int) =~= cs@.subrange(st as int, r as int));
        }
        let skip = st == r || (st + 1 == r && cs[st] == '.');
        proof {
            if st + 1 == r {
                assert(qq.subrange(st as int, r as int)[0] == cs@[st as int]);
            }
            assert(skip == is_skip_piece(qq.subrange(st as int, r as int)));
        }
        if !skip {
            stop = true;
        } else {
            let cut = if st > base { st - 1 } else { base };
            proof {
                assert(qq.subrange(0, cut as int) =~= cs@.subrange(0, cut as int));
                assert(cut_last(qq, base as int) == cs@.subrange(0, cut as int));
            }
            r = cut;
        }
    }
    r
}

/// The directory part of `path` (see [`parent_spec`]).
pub fn parent_dir(path: &str) -> (r: Option<String>)
    ensures
        match parent_spec(path@) {
            None => r is None,
            Some(p) => r matches Some(s) && s@ == p,
        },
{
    let cs = chars_of(path);
    let n = cs.len();
    proof {
        assert(cs@.subrange(0, n as int) =~= cs@);
    }
    let base: usize = if n > 0 && cs[0] == '/' {
        1
    } else if n > 0 && cs[0] == '.' && (n == 1 || cs[1] == '/') {
        1
    } else {
        0
    };
    let q = trim_back_len(&cs, n, base);
    if q > base {
        let st = comp_start(&cs, q, base);
        let cut = if st > base { st - 1 } else { base };
        proof {
            let qq = cs@.subrange(0, q as int);
            assert(qq.subrange(0, cut as int) =~= cs@.subrange(0, cut as int));
        }
        let r = trim_back_len(&cs, cut, base);
        Some(string_of_range(&cs, 0, r))
    } else if base == 1 && cs[0] == '.' {
        Some(String::new())
    } else {
        None
    }
}

/// The last component of a `/`-separated path, as `Path::file_name`
/// gives it: the last piece once trailing `/`s and `.` pieces are left
/// out, unless that piece is `..`; nothing for the empty path, the root
/// alone or a lone `.`.
pub open spec fn file_name_of(s: Seq<char>) -> Option<Seq<char>> {
    let base = body_start(s);
    let q = trim_back(s, base);
    if q.len() > base {
        let c = q.subrange(last_comp_start(q, base), q.len() as int);
        if c == ".."@ {
            None
        } else {
            Some(c)
        }
    } else {
        None
    }
}

/// The last component of `path` (see [`file_name_of`]).
pub fn path_file_name(path: &str) -> (r: Option<String>)
    ensures
        match file_name_of(path@) {
            None => r is None,
            Some(n) => r matches Some(x) && x@ == n,
        },
{
    let cs = chars_of(path);
    let n = cs.len();
    proof {
        assert(cs@.subrange(0, n as int) =~= cs@);
    }
    let base: usize = if n > 0 && cs[0] == '/' {
        1
    } else if n > 0 && cs[0] == '.' && (n == 1 || cs[1] == '/') {
        1
    } else {
        0
    };
    let q = trim_back_len(&cs, n, base);
    if q > base {
        let st = comp_start(&cs, q, base);
        let name = string_of_range(&cs, st, q);
        proof {
            assert(cs@.subrange(0, q as int).subrange(st as int, q as int) =~= cs@.subrange(st as int, q as int));
        }
        if crate::text::str_eq(name.as_str(), "..") {
            None
        } else {
            Some(name)
        }
    } else {
        None
    }
}

/// A path's directory part is shorter than the path.
pub proof fn lemma_parent_shorter(s: Seq<char>)
    ensures
        parent_spec(s) matches Some(p) ==> p.len() < s.len(),
{
    let base = body_start(s);
    lemma_trim_back_len(s, base);
    let q = trim_back(s, base);
    if q.len() > base {
        lemma_last_comp_start_bound(q, base);
        lemma_trim_back_len(cut_last(q, base), base);
    }
}

/// The directories above `d`, nearest first: its parent, that one's
/// parent, and so on up to a path with no parent.
pub open spec fn ancestor_dirs(d: Seq<char>) -> Seq<Seq<char>>
    decreases d.len(),
{
    match parent_spec(d) {
        None => Seq::empty(),
        Some(p) => {
            proof {
                lemma_parent_shorter(d);
            }
            seq![p] + ancestor_dirs(p)
        },
    }
}

} // verus!
