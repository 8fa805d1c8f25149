//! Fixture discovery for a suite: which directories count, how each
//! fixture is classified, and the order and filtering of the list. Reading
//! directories is the caller's part.
use vstd::prelude::*;
use crate::compat::fixture_convert::{file_name, file_name_text, last_dot};
use crate::config::Suite;
use crate::error::{Error, Outcome};
use crate::sort::{stable_sort, stable_sorted, SortKey};
use crate::text::{
    chars_of, contains_str, has_infix, lemma_str_lt_asymmetric, push_char, push_str, push_string, str_less, str_lt,
    string_of_range,
};
use crate::util::{
    body_start, cut_last, file_name_of, is_skip_piece, join_path, join_spec, last_comp_start, path_file_name, relative_spec,
    relative_to, trim_back,
};

verus! {

/// How a fixture is expected to build.
#[derive(Debug, Clone, Copy, PartialEq, Eq, Structural)]
pub enum FixtureKind {
    CompilePass,
    CompileFail,
}

/// One fixture of a suite.
#[derive(Debug, Clone)]
pub struct Fixture {
    pub path: String,
    pub relative_path: String,
    pub stem: String,
    pub kind: FixtureKind,
}

impl SortKey for Fixture {
    open spec fn sorts_after(&self, other: &Self) -> bool {
        str_lt(other.relative_path@, self.relative_path@)
    }

    fn after(&self, other: &Self) -> (r: bool) {
        str_less(other.relative_path.as_str(), self.relative_path.as_str())
    }

    proof fn lemma_asymmetric(a: &Self, b: &Self) {
        lemma_str_lt_asymmetric(b.relative_path@, a.relative_path@);
    }
}

impl crate::compat::discovery::FixtureKind {
    /// The compat kind of a suite fixture kind.
    pub fn from_kind(k: FixtureKind) -> (r: crate::compat::discovery::FixtureKind)
        ensures
            r == (match k {
                FixtureKind::CompilePass => crate::compat::discovery::FixtureKind::Pass,
                FixtureKind::CompileFail => crate::compat::discovery::FixtureKind::CompileFail,
            }),
    {
        match k {
            FixtureKind::CompilePass => crate::compat::discovery::FixtureKind::Pass,
            FixtureKind::CompileFail => crate::compat::discovery::FixtureKind::CompileFail,
        }
    }
}

/// A configured fixture directory resolved against the crate root.
pub open spec fn resolve_dir_spec(crate_root: Seq<char>, dir: Seq<char>) -> Seq<char> {
    if dir.len() > 0 && dir[0] == '/' {
        dir
    } else {
        join_spec(crate_root, dir)
    }
}

pub fn resolve_fixture_dir(crate_root: &str, dir: &str) -> (r: String)
    ensures
        r@ == resolve_dir_spec(crate_root@, dir@),
{
    let cs = chars_of(dir);
    if cs.len() > 0 && cs[0] == '/' {
        dir.to_owned()
    } else {
        join_path(crate_root, dir)
    }
}

/// A directory whose name holds the marker holds compile-fail fixtures.
pub open spec fn classify_spec(dir: Seq<char>, marker: Seq<char>) -> FixtureKind {
    let leaf = match file_name_of(dir) {
        Some(n) => n,
        None => Seq::empty(),
    };
    if has_infix(leaf, marker) {
        FixtureKind::CompileFail
    } else {
        FixtureKind::CompilePass
    }
}

pub fn classify_dir(dir: &str, marker: &str) -> (k: FixtureKind)
    ensures
        k == classify_spec(dir@, marker@),
{
    let leaf = match path_file_name(dir) {
        Some(n) => n,
        None => String::new(),
    };
    let lc = chars_of(leaf.as_str());
    if contains_str(&lc, marker) {
        FixtureKind::CompileFail
    } else {
        FixtureKind::CompilePass
    }
}

/// `Path::file_stem` of a file name: the name up to its last `.`, unless
/// that `.` leads the name.
pub open spec fn stem_spec(name: Seq<char>) -> Seq<char> {
    match last_dot(name) {
        Some(d) => if d > 0 {
            name.subrange(0, d)
        } else {
            name
        },
        None => name,
    }
}

/// The record of the fixture file at `path`.
pub fn fixture_record(path: String, crate_root: &str, kind: FixtureKind) -> (f: Fixture)
    ensures
        f.path == path,
        f.relative_path@ == relative_spec(path@, crate_root@),
        f.stem@ == (match file_name_text(path@) {
            Some(n) => stem_spec(n),
            None => Seq::empty(),
        }),
        f.kind == kind,
{
    let stem = match file_name(path.as_str()) {
        None => String::new(),
        Some(n) => stem_of(&n),
    };
    let relative_path = relative_to(path.as_str(), crate_root);
    Fixture { path, relative_path, stem, kind }
}

fn stem_of(name: &String) -> (r: String)
    ensures
        r@ == stem_spec(name@),
{
    let cs = chars_of(name.as_str());
    assert(cs@.subrange(0, cs@.len() as int) =~= cs@);
    let mut d = cs.len();
    while d > 0 && cs[d - 1] != '.'
        invariant
            d <= cs@.len(),
            last_dot(cs@) == last_dot(cs@.subrange(0, d as int)),
        decreases d,
    {
        assert(cs@.subrange(0, d as int).drop_last() =~= cs@.subrange(0, d - 1));
        d = d - 1;
    }
    proof {
        if d > 0 {
            assert(cs@.subrange(0, d as int).last() == '.');
        }
    }
    if d > 1 {
        string_of_range(&cs, 0, d - 1)
    } else {
        name.clone()
    }
}

/// Does the relative path contain one of the filters (none given keeps
/// every fixture)?
pub open spec fn passes_filters(rel: Seq<char>, filters: Seq<Seq<char>>) -> bool {
    filters.len() == 0 || exists|i: int| 0 <= i < filters.len() && has_infix(rel, #[trigger] filters[i])
}

/// `s` keeping the fixtures that pass the filters, in order.
pub open spec fn keep_filtered(s: Seq<Fixture>, filters: Seq<Seq<char>>) -> Seq<Fixture>
    decreases s.len(),
{
    if s.len() == 0 {
        s
    } else if passes_filters(s.last().relative_path@, filters) {
        keep_filtered(s.drop_last(), filters).push(s.last())
    } else {
        keep_filtered(s.drop_last(), filters)
    }
}

fn passes(rel: &str, filters: &Vec<String>) -> (r: bool)
    ensures
        r == passes_filters(rel@, filters.deep_view()),
{
    if filters.len() == 0 {
        return true;
    }
    let rc = chars_of(rel);
    let mut i: usize = 0;
    while i < filters.len()
        invariant
            rc@ == rel@,
            i <= filters@.len(),
            filters@.len() > 0,
            forall|k: int| 0 <= k < i ==> !has_infix(rel@, #[trigger] filters.deep_view()[k]),
        decreases filters@.len() - i,
    {
        if contains_str(&rc, filters[i].as_str()) {
            assert(has_infix(rel@, filters.deep_view()[i as int]));
            return true;
        }
        i = i + 1;
    }
    false
}

/// The fixture list of a suite: sorted by relative path, then narrowed to
/// the fixtures whose relative path contains one of the filters.
pub fn finish_collect(fixtures: Vec<Fixture>, filters: &Vec<String>) -> (r: Vec<Fixture>)
    ensures
        r@ == keep_filtered(stable_sorted(fixtures@), filters.deep_view()),
{
    let sorted = stable_sort(fixtures);
    let ghost s0 = sorted@;
    let n0 = sorted.len();
    let mut rest = sorted;
    let mut out: Vec<Fixture> = Vec::new();
    let mut k: usize = 0;
    while rest.len() > 0
        invariant
            k <= s0.len(),
            s0.len() == n0,
            s0.len() == k + rest@.len(),
            rest@ == s0.subrange(k as int, s0.len() as int),
            out@ == keep_filtered(s0.take(k as int), filters.deep_view()),
        decreases rest@.len(),
    {
        let f = rest.remove(0);
        assert(s0.take(k + 1).drop_last() =~= s0.take(k as int));
        assert(f == s0[k as int]);
        if passes(f.relative_path.as_str(), filters) {
            out.push(f);
        }
        assert(rest@ =~= s0.subrange(k + 1, s0.len() as int));
        k = k + 1;
    }
    assert(s0.take(k as int) =~= s0);
    out
}

/// `Debug` text of a string: quoted, with `"` and `\\` escaped.
pub open spec fn debug_quoted(s: Seq<char>) -> Seq<char>
    decreases s.len(),
{
    if s.len() == 0 {
        seq!['"', '"']
    } else {
        let pre = debug_quoted(s.drop_last());
        let c = s.last();
        pre.drop_last() + (if c == '"' || c == '\\' { seq!['\\', c] } else { seq![c] }) + seq!['"']
    }
}

/// `Debug` text of a list of strings.
pub open spec fn debug_list(v: Seq<Seq<char>>) -> Seq<char>
    decreases v.len(),
{
    if v.len() == 0 {
        seq!['[', ']']
    } else if v.len() == 1 {
        seq!['['] + debug_quoted(v[0]) + seq![']']
    } else {
        debug_list(v.drop_last()).drop_last() + seq![',', ' '] + debug_quoted(v.last()) + seq![']']
    }
}

fn push_debug_quoted(out: &mut String, s: &str)
    ensures
        final(out)@ == old(out)@ + debug_quoted(s@),
{
    let cs = chars_of(s);
    let ghost o = old(out)@;
    push_char(out, '"');
    let mut i: usize = 0;
    while i < cs.len()
        invariant
            cs@ == s@,
            i <= cs@.len(),
            out@ + seq!['"'] == o + debug_quoted(cs@.take(i as int)),
        decreases cs@.len() - i,
    {
        let c = cs[i];
        let ghost before = out@;
        if c == '"' || c == '\\' {
            push_char(out, '\\');
        }
        push_char(out, c);
        proof {
            let t = cs@.take(i + 1);
            assert(t.drop_last() =~= cs@.take(i as int));
            assert(t.last() == c);
            let dq = debug_quoted(cs@.take(i as int));
            assert(before + seq!['"'] == o + dq);
            assert(dq.len() >= 1);
            assert((before + seq!['"']).drop_last() =~= before);
            assert((o + dq).drop_last() =~= o + dq.drop_last());
            assert(o + dq.drop_last() == before);
            assert(out@ + seq!['"'] =~= o + debug_quoted(t));
        }
        i = i + 1;
    }
    push_char(out, '"');
    assert(cs@.take(cs@.len() as int) =~= cs@);
}

pub open spec fn no_dirs_text(name: Seq<char>, crate_root: Seq<char>, dirs: Seq<Seq<char>>) -> Seq<char> {
    "suite \""@ + name + "\".fixture_dirs resolves to zero existing directories under "@ + crate_root
        + ".\nWhy this matters: nothing to test.\n  Configured: "@ + debug_list(dirs)
}

/// The session outcome for a suite none of whose fixture directories
/// exists.
pub fn no_fixture_dirs_error(suite: &Suite, crate_root: &str) -> (e: Error)
    ensures
        e matches Error::Session(Outcome::ConfigInvalid { message }) && message@ == no_dirs_text(
            suite.name@,
            crate_root@,
            suite.fixture_dirs.deep_view(),
        ),
{
    let mut m = String::new();
    push_str(&mut m, "suite \"");
    push_string(&mut m, &suite.name);
    push_str(&mut m, "\".fixture_dirs resolves to zero existing directories under ");
    push_str(&mut m, crate_root);
    push_str(&mut m, ".\nWhy this matters: nothing to test.\n  Configured: ");
    let ghost pre = m@;
    let dirs = &suite.fixture_dirs;
    push_char(&mut m, '[');
    let mut i: usize = 0;
    while i < dirs.len()
        invariant
            i <= dirs@.len(),
            m@ + seq![']'] == pre + debug_list(dirs.deep_view().take(i as int)),
        decreases dirs@.len() - i,
    {
        let ghost before = m@;
        if i > 0 {
            push_char(&mut m, ',');
            push_char(&mut m, ' ');
        }
        push_debug_quoted(&mut m, dirs[i].as_str());
        proof {
            let t = dirs.deep_view().take(i + 1);
            assert(t.drop_last() =~= dirs.deep_view().take(i as int));
            assert(t.last() == dirs@[i as int]@);
            let dl = debug_list(dirs.deep_view().take(i as int));
            assert(before + seq![']'] == pre + dl);
            assert(dl.len() >= 1);
            assert((before + seq![']']).drop_last() =~= before);
            assert((pre + dl).drop_last() =~= pre + dl.drop_last());
            assert(pre + dl.drop_last() == before);
            if i == 0 {
                assert(m@ + seq![']'] =~= pre + debug_list(t));
            } else {
                assert(m@ + seq![']'] =~= pre + debug_list(t));
            }
        }
        i = i + 1;
    }
    push_char(&mut m, ']');
    assert(dirs.deep_view().take(dirs@.len() as int) =~= dirs.deep_view());
    Error::Session(Outcome::ConfigInvalid { message: m })
}

/// A single path component: not empty, no `/`, and neither `.` nor `..`.
pub open spec fn is_piece_name(n: Seq<char>) -> bool {
    &&& n.len() > 0
    &&& forall|i: int| 0 <= i < n.len() ==> n[i] != '/'
    &&& n != "."@
    &&& n != ".."@
}

proof fn lemma_comp_start_after(q: Seq<char>, n: Seq<char>, base: int)
    requires
        0 <= base <= q.len(),
        q.len() == base || q.last() == '/',
        forall|i: int| 0 <= i < n.len() ==> n[i] != '/',
    ensures
        last_comp_start(q + n, base) == q.len(),
    decreases n.len(),
{
    if n.len() == 0 {
        assert(q + n =~= q);
    } else {
        assert((q + n).drop_last() =~= q + n.drop_last());
        assert((q + n).last() == n.last());
        lemma_comp_start_after(q, n.drop_last(), base);
    }
}

/// The kind `n` gives when it is the last piece of `q + n`.
proof fn lemma_leaf_of(q: Seq<char>, n: Seq<char>)
    requires
        is_piece_name(n),
        body_start(q + n) <= q.len(),
        q.len() == body_start(q + n) || q.last() == '/',
    ensures
        file_name_of(q + n) == Some(n),
{
    let s = q + n;
    let base = body_start(s);
    lemma_comp_start_after(q, n, base);
    assert(s.subrange(q.len() as int, s.len() as int) =~= n);
    assert(!is_skip_piece(n)) by {
        if n.len() == 1 && n[0] == '.' {
            assert(n =~= "."@) by {
                reveal_strlit(".");
            }
        }
    }
    assert(trim_back(s, base) == s);
}

/// The kind of a fixture directory is decided by its last component
/// alone: a directory named `n`, under any parent `p` or standing alone,
/// and with or without a trailing `/`, is compile-fail exactly when `n`
/// contains the marker, whatever its parents are called.
pub proof fn lemma_kind_by_leaf(p: Seq<char>, n: Seq<char>, marker: Seq<char>)
    requires
        is_piece_name(n),
    ensures
        classify_spec(p + seq!['/'] + n, marker) == (if has_infix(n, marker) {
            FixtureKind::CompileFail
        } else {
            FixtureKind::CompilePass
        }),
        classify_spec(n, marker) == classify_spec(p + seq!['/'] + n, marker),
        classify_spec(p + seq!['/'] + n + seq!['/'], marker) == classify_spec(p + seq!['/'] + n, marker),
{
    let q = p + seq!['/'];
    let s = q + n;
    assert(p + seq!['/'] + n == s);
    assert(s[0] == q[0]);
    if q.len() > 1 {
        assert(s[1] == q[1]);
    } else {
        assert(s[1] == n[0]);
    }
    lemma_leaf_of(q, n);
    // standing alone
    assert(Seq::<char>::empty() + n =~= n);
    if n.len() > 1 {
        assert(n[0] == '.' ==> n[1] != '/');
    } else if n[0] == '.' {
        assert(n =~= "."@) by {
            reveal_strlit(".");
        }
    }
    assert(body_start(n) == 0);
    lemma_leaf_of(Seq::empty(), n);
    // with a trailing `/`
    let t = s + seq!['/'];
    let base = body_start(t);
    assert(t[0] == s[0]);
    if s.len() > 1 {
        assert(t[1] == s[1]);
    }
    assert(base == body_start(s));
    assert(t.len() > base);
    assert(last_comp_start(t, base) == t.len());
    assert(t.subrange(t.len() as int, t.len() as int).len() == 0);
    assert(is_skip_piece(t.subrange(last_comp_start(t, base), t.len() as int)));
    assert(last_comp_start(t, base) > base);
    assert(cut_last(t, base) =~= s);
    assert(trim_back(t, base) == trim_back(s, base));
    assert(file_name_of(t) == file_name_of(s));
}

} // verus!
