//! Where each discovered fixture is copied for the inner lihaaf session.
//! The copying itself is the caller's part.
use vstd::prelude::*;
use crate::compat::cleanup::{comps_lt, path_less};
use crate::compat::discovery::{DiscoveredFixture, FixtureKind};
use crate::error::Error;
use crate::paths::path_comps;
use crate::sort::{stable_sort, stable_sorted, SortKey};
use crate::text::{chars_of, push_str, string_of_range};
use crate::util::{join_path, join_spec};

verus! {

/// A fixture copied into the converted tree.
#[derive(Debug, Clone)]
pub struct ConvertedFixture {
    pub src_path: String,
    pub dest_path: String,
    pub dest_stderr: Option<String>,
    pub kind: FixtureKind,
}

impl SortKey for ConvertedFixture {
    open spec fn sorts_after(&self, other: &Self) -> bool {
        comps_lt(path_comps(other.dest_path@), path_comps(self.dest_path@))
    }

    fn after(&self, other: &Self) -> (r: bool) {
        path_less(other.dest_path.as_str(), self.dest_path.as_str())
    }

    proof fn lemma_asymmetric(a: &Self, b: &Self) {
        crate::compat::cleanup::lemma_comps_lt_asymmetric(path_comps(b.dest_path@), path_comps(a.dest_path@));
    }
}

/// `<compat_root>/target/lihaaf-compat-converted`.
pub open spec fn converted_root_spec(compat_root: Seq<char>) -> Seq<char> {
    join_spec(join_spec(compat_root, "target"@), "lihaaf-compat-converted"@)
}

/// The directory a fixture of `kind` is copied to.
pub open spec fn kind_dir_spec(compat_root: Seq<char>, kind: FixtureKind) -> Seq<char> {
    join_spec(
        converted_root_spec(compat_root),
        match kind {
            FixtureKind::Pass => "compile_pass"@,
            FixtureKind::CompileFail => "compile_fail"@,
        },
    )
}

/// The converted tree: its root and the two kind directories.
pub fn converted_dirs(compat_root: &str) -> (r: (String, String, String))
    ensures
        r.0@ == converted_root_spec(compat_root@),
        r.1@ == kind_dir_spec(compat_root@, FixtureKind::Pass),
        r.2@ == kind_dir_spec(compat_root@, FixtureKind::CompileFail),
{
    let target = join_path(compat_root, "target");
    let root = join_path(target.as_str(), "lihaaf-compat-converted");
    let pass = join_path(root.as_str(), "compile_pass");
    let fail = join_path(root.as_str(), "compile_fail");
    (root, pass, fail)
}

/// Start of the last `/`-separated piece of `s`.
pub open spec fn last_piece_start(s: Seq<char>) -> int
    decreases s.len(),
{
    if s.len() == 0 {
        0
    } else if s.last() == '/' {
        s.len() as int
    } else {
        last_piece_start(s.drop_last())
    }
}

/// The file name of a path written without a trailing `/`: its last
/// piece, unless that is empty, `.` or `..`.
pub open spec fn file_name_text(s: Seq<char>) -> Option<Seq<char>> {
    let name = s.subrange(last_piece_start(s), s.len() as int);
    if name.len() == 0 || name == "."@ || name == ".."@ {
        None
    } else {
        Some(name)
    }
}

/// Position of the last `.` in `s`, if any.
pub open spec fn last_dot(s: Seq<char>) -> Option<int>
    decreases s.len(),
{
    if s.len() == 0 {
        None
    } else if s.last() == '.' {
        Some(s.len() - 1)
    } else {
        last_dot(s.drop_last())
    }
}

/// `Path::with_extension` for a path whose file name is `name` at the
/// end: the part after the last `.` of the name (not a leading one) is
/// replaced by `ext`, or `.ext` is added.
pub open spec fn with_extension_spec(s: Seq<char>, ext: Seq<char>) -> Seq<char> {
    let start = last_piece_start(s);
    let name = s.subrange(start, s.len() as int);
    match last_dot(name) {
        Some(d) => if d > 0 {
            s.subrange(0, start + d + 1) + ext
        } else {
            s + seq!['.'] + ext
        },
        None => s + seq!['.'] + ext,
    }
}

proof fn lemma_last_piece_start_bound(s: Seq<char>)
    ensures
        0 <= last_piece_start(s) <= s.len(),
    decreases s.len(),
{
    if s.len() > 0 && s.last() != '/' {
        lemma_last_piece_start_bound(s.drop_last());
    }
}

fn piece_start(cs: &Vec<char>) -> (r: usize)
    ensures
        r == last_piece_start(cs@),
        r <= cs@.len(),
{
    proof {
        lemma_last_piece_start_bound(cs@);
        assert(cs@.subrange(0, cs@.len() as int) =~= cs@);
    }
    let mut j = cs.len();
    while j > 0 && cs[j - 1] != '/'
        invariant
            j <= cs@.len(),
            last_piece_start(cs@) == last_piece_start(cs@.subrange(0, j as int)),
        decreases j,
    {
        assert(cs@.subrange(0, j as int).drop_last() =~= cs@.subrange(0, j - 1));
        j = j - 1;
    }
    proof {
        assert(cs@.subrange(0, cs@.len() as int) =~= cs@);
        if j > 0 {
            assert(cs@.subrange(0, j as int).last() == '/');
        }
    }
    j
}

/// `Path::with_extension(ext)` on a path written without a trailing `/`.
pub fn with_extension(path: &str, ext: &str) -> (r: String)
    ensures
        r@ == with_extension_spec(path@, ext@),
{
    let cs = chars_of(path);
    let start = piece_start(&cs);
    let mut d = cs.len();
    let mut found = false;
    while d > start && !found
        invariant
            start <= d <= cs@.len(),
            start == last_piece_start(cs@),
            found ==> d > start && cs@[d - 1] == '.' && last_dot(cs@.subrange(start as int, cs@.len() as int))
                == Some((d - 1 - start) as int),
            !found ==> last_dot(cs@.subrange(start as int, cs@.len() as int)) == last_dot(
                cs@.subrange(start as int, d as int),
            ),
        decreases d - start, if found { 0int } else { 1int },
    {
        let ghost sub = cs@.subrange(start as int, d as int);
        assert(sub.drop_last() =~= cs@.subrange(start as int, d - 1));
        if cs[d - 1] == '.' {
            found = true;
        } else {
            d = d - 1;
        }
    }
    proof {
        if !found {
            assert(cs@.subrange(start as int, d as int).len() == 0);
        }
    }
    let mut r;
    if found && d - 1 > start {
        r = string_of_range(&cs, 0, d);
        push_str(&mut r, ext);
    } else {
        r = String::new();
        push_str(&mut r, path);
        crate::text::push_char(&mut r, '.');
        push_str(&mut r, ext);
    }
    r
}

/// The file name of `path` (see [`file_name_text`]).
pub fn file_name(path: &str) -> (r: Option<String>)
    ensures
        match file_name_text(path@) {
            None => r is None,
            Some(n) => r matches Some(s) && s@ == n,
        },
{
    let cs = chars_of(path);
    let start = piece_start(&cs);
    let n = cs.len();
    if start == n {
        return None;
    }
    let name = string_of_range(&cs, start, n);
    if crate::text::str_eq(name.as_str(), ".") || crate::text::str_eq(name.as_str(), "..") {
        return None;
    }
    Some(name)
}

/// Where a fixture is copied: the kind directory joined with the
/// fixture's file name; and the `.stderr` snapshot beside the source and
/// beside the copy. A fixture path without a file name is refused.
pub fn conversion_target(compat_root: &str, fixture: &DiscoveredFixture) -> (r: Result<
    (String, String, String),
    Error,
>)
    ensures
        match file_name_text(fixture.fixture_path@) {
            None => r matches Err(Error::Io { context, path: Some(p), message }) && context@
                == "deriving fixture basename for compat conversion"@ && p@ == fixture.fixture_path@ && message@
                == "fixture path has no file name"@,
            Some(name) => r matches Ok(t) && t.0@ == join_spec(kind_dir_spec(compat_root@, fixture.kind), name)
                && t.1@ == with_extension_spec(fixture.fixture_path@, "stderr"@) && t.2@ == with_extension_spec(
                t.0@,
                "stderr"@,
            ),
        },
{
    let (_root, pass_dir, fail_dir) = converted_dirs(compat_root);
    let subdir = match fixture.kind {
        FixtureKind::Pass => pass_dir,
        FixtureKind::CompileFail => fail_dir,
    };
    let name = match file_name(fixture.fixture_path.as_str()) {
        Some(n) => n,
        None => {
            return Err(
                Error::Io {
                    context: "deriving fixture basename for compat conversion".to_owned(),
                    path: Some(fixture.fixture_path.clone()),
                    message: "fixture path has no file name".to_owned(),
                },
            );
        },
    };
    let dest = join_path(subdir.as_str(), name.as_str());
    let src_stderr = with_extension(fixture.fixture_path.as_str(), "stderr");
    let dest_stderr = with_extension(dest.as_str(), "stderr");
    Ok((dest, src_stderr, dest_stderr))
}

/// The converted fixtures in destination-path order.
pub fn sort_converted(out: Vec<ConvertedFixture>) -> (r: Vec<ConvertedFixture>)
    ensures
        r@ == stable_sorted(out@),
{
    stable_sort(out)
}

} // verus!
