//! Making the overlay's path-bearing keys absolute: the overlay manifest
//! lives two directories below the upstream one, so every relative path
//! is resolved against the upstream crate directory.
use vstd::prelude::*;
use crate::text::{chars_of, str_eq};
use crate::toml_doc::{
    has_table, lemma_array_view, lemma_table_round_trip, lemma_table_view, lemma_tindex, lemma_tview_restore,
    put_table_back, sub_table, take_table, tbl_index, tbl_put, tbl_restore, tbl_take, tget, tindex, tput, tview,
    Toml, TomlV,
};
use crate::util::{forward_slashes, join_path, join_spec, to_forward_slash};

verus! {

/// A path that starts at the root.
pub open spec fn is_abs(s: Seq<char>) -> bool {
    s.len() > 0 && s[0] == '/'
}

/// `s` resolved against `dir`, with forward slashes.
pub open spec fn abs_text(dir: Seq<char>, s: Seq<char>) -> Seq<char> {
    forward_slashes(join_spec(dir, s))
}

pub fn abs_text_exec(dir: &str, s: &str) -> (r: String)
    ensures
        r@ == abs_text(dir@, s@),
{
    let j = join_path(dir, s);
    to_forward_slash(j.as_str())
}

fn is_abs_exec(s: &str) -> (r: bool)
    ensures
        r == is_abs(s@),
{
    let cs = chars_of(s);
    cs.len() > 0 && cs[0] == '/'
}

/// `t` with the string under `key` made absolute when it is relative.
pub open spec fn abs_at(t: Seq<(Seq<char>, TomlV)>, key: Seq<char>, dir: Seq<char>) -> Seq<(Seq<char>, TomlV)> {
    match tget(t, key) {
        Some(TomlV::Str(s)) => if !is_abs(s) {
            tput(t, key, TomlV::Str(abs_text(dir, s)))
        } else {
            t
        },
        _ => t,
    }
}

/// A table value with its `key` string made absolute; other values as they are.
pub open spec fn abs_in(v: TomlV, key: Seq<char>, dir: Seq<char>) -> TomlV {
    match v {
        TomlV::Table(t) => TomlV::Table(abs_at(t, key, dir)),
        _ => v,
    }
}

/// Each entry's value through [`abs_in`].
pub open spec fn abs_values(es: Seq<(Seq<char>, TomlV)>, key: Seq<char>, dir: Seq<char>) -> Seq<(Seq<char>, TomlV)> {
    Seq::new(es.len(), |i: int| (es[i].0, abs_in(es[i].1, key, dir)))
}

/// The string elements of an array made absolute when relative.
pub open spec fn abs_strs(items: Seq<TomlV>, dir: Seq<char>) -> Seq<TomlV> {
    Seq::new(
        items.len(),
        |i: int|
            match items[i] {
                TomlV::Str(s) => if !is_abs(s) {
                    TomlV::Str(abs_text(dir, s))
                } else {
                    items[i]
                },
                _ => items[i],
            },
    )
}

/// The table under `section` with each of its values through [`abs_in`]
/// for `key`.
pub open spec fn abs_section(t: Seq<(Seq<char>, TomlV)>, section: Seq<char>, key: Seq<char>, dir: Seq<char>) -> Seq<
    (Seq<char>, TomlV),
> {
    if has_table(t, section) {
        tput(t, section, TomlV::Table(abs_values(sub_table(t, section), key, dir)))
    } else {
        t
    }
}

/// The array under `section`: each table element through [`abs_in`] for `path`.
pub open spec fn abs_array_tables(t: Seq<(Seq<char>, TomlV)>, section: Seq<char>, dir: Seq<char>) -> Seq<
    (Seq<char>, TomlV),
> {
    match tget(t, section) {
        Some(TomlV::Array(items)) => tput(
            t,
            section,
            TomlV::Array(Seq::new(items.len(), |i: int| abs_in(items[i], "path"@, dir))),
        ),
        _ => t,
    }
}

/// The array of strings under `key`, each made absolute when relative.
pub open spec fn abs_str_array(t: Seq<(Seq<char>, TomlV)>, key: Seq<char>, dir: Seq<char>) -> Seq<(Seq<char>, TomlV)> {
    match tget(t, key) {
        Some(TomlV::Array(items)) => tput(t, key, TomlV::Array(abs_strs(items, dir))),
        _ => t,
    }
}

/// The three dependency tables of `t`, each dependency's `path` absolute.
pub open spec fn abs_all_deps(t: Seq<(Seq<char>, TomlV)>, dir: Seq<char>) -> Seq<(Seq<char>, TomlV)> {
    abs_section(
        abs_section(abs_section(t, "dependencies"@, "path"@, dir), "dev-dependencies"@, "path"@, dir),
        "build-dependencies"@,
        "path"@,
        dir,
    )
}

fn abs_at_exec(t: &mut Vec<(String, Toml)>, key: &str, dir: &str)
    ensures
        tview(final(t)@) == abs_at(tview(old(t)@), key@, dir@),
{
    match tbl_index(t, key) {
        None => {},
        Some(i) => {
            let rewritten = match &t[i].1 {
                Toml::Str(s) => {
                    if !is_abs_exec(s.as_str()) {
                        Some(abs_text_exec(dir, s.as_str()))
                    } else {
                        None
                    }
                },
                _ => None,
            };
            match rewritten {
                Some(a) => {
                    tbl_put(t, key.to_owned(), Toml::Str(a));
                },
                None => {},
            }
        },
    }
}

fn abs_in_exec(v: Toml, key: &str, dir: &str) -> (r: Toml)
    ensures
        r.view_toml() == abs_in(v.view_toml(), key@, dir@),
{
    match v {
        Toml::Table(t) => {
            let mut t = t;
            let ghost t0 = t;
            proof {
                lemma_table_view(t0);
            }
            abs_at_exec(&mut t, key, dir);
            proof {
                lemma_table_view(t);
            }
            Toml::Table(t)
        },
        other => other,
    }
}

/// Each value of a table through [`abs_in`].
fn abs_values_exec(es: &mut Vec<(String, Toml)>, key: &str, dir: &str)
    ensures
        tview(final(es)@) == abs_values(tview(old(es)@), key@, dir@),
{
    let ghost t0 = tview(es@);
    let ghost target = abs_values(t0, key@, dir@);
    let n = es.len();
    let mut i: usize = 0;
    while i < n
        invariant
            n == es@.len(),
            t0.len() == n,
            target == abs_values(t0, key@, dir@),
            i <= n,
            tview(es@) == Seq::new(n as nat, |j: int| if j < i { target[j] } else { t0[j] }),
        decreases n - i,
    {
        let ghost before = es@;
        let (k, v) = tbl_take(es, i);
        let nv = abs_in_exec(v, key, dir);
        let ghost kk = k;
        let ghost nvv = nv;
        tbl_restore(es, i, (k, nv));
        proof {
            lemma_tview_restore(before, i as int, kk, nvv);
            assert(tview(before)[i as int] == t0[i as int]);
            assert(target[i as int] == (kk@, nvv.view_toml()));
            assert(tview(es@) =~= Seq::new(n as nat, |j: int| if j < i + 1 { target[j] } else { t0[j] }));
        }
        i = i + 1;
    }
    assert(tview(es@) =~= target);
}

/// [`abs_section`].
pub fn abs_section_exec(t: &mut Vec<(String, Toml)>, section: &str, key: &str, dir: &str)
    ensures
        tview(final(t)@) == abs_section(tview(old(t)@), section@, key@, dir@),
{
    let ghost t0 = t@;
    match take_table(t, section) {
        None => {},
        Some((i, k, mut sub)) => {
            abs_values_exec(&mut sub, key, dir);
            proof {
                lemma_table_round_trip(t0, section@, i as int, k, sub);
            }
            put_table_back(t, i, k, sub);
        },
    }
}

fn abs_all_deps_exec(t: &mut Vec<(String, Toml)>, dir: &str)
    ensures
        tview(final(t)@) == abs_all_deps(tview(old(t)@), dir@),
{
    abs_section_exec(t, "dependencies", "path", dir);
    abs_section_exec(t, "dev-dependencies", "path", dir);
    abs_section_exec(t, "build-dependencies", "path", dir);
}

/// Takes the array under `key` out, when there is one.
fn take_array(es: &mut Vec<(String, Toml)>, key: &str) -> (r: Option<(usize, String, Vec<Toml>)>)
    ensures
        match r {
            None => final(es)@ == old(es)@ && !(tget(tview(old(es)@), key@) matches Some(TomlV::Array(_))),
            Some((i, k, items)) => {
                &&& tindex(tview(old(es)@), key@, 0) == Some(i as int)
                &&& tget(tview(old(es)@), key@) == Some(TomlV::Array(Seq::new(items@.len(), |j: int| items@[j].view_toml())))
                &&& k@ == key@
                &&& i < old(es)@.len()
                &&& old(es)@[i as int].0 == k
                &&& final(es)@ == old(es)@.remove(i as int)
            },
        },
{
    match tbl_index(es, key) {
        None => None,
        Some(i) => {
            proof {
                lemma_tindex(tview(es@), key@, 0);
            }
            let is_arr = match &es[i].1 {
                Toml::Array(_) => true,
                _ => false,
            };
            if !is_arr {
                return None;
            }
            let (k, v) = tbl_take(es, i);
            match v {
                Toml::Array(items) => {
                    proof {
                        lemma_array_view(items);
                    }
                    Some((i, k, items))
                },
                _ => None,
            }
        },
    }
}

fn put_array_back(es: &mut Vec<(String, Toml)>, i: usize, k: String, items: Vec<Toml>)
    requires
        i <= old(es)@.len(),
    ensures
        final(es)@ == old(es)@.insert(i as int, (k, Toml::Array(items))),
{
    tbl_restore(es, i, (k, Toml::Array(items)));
}

proof fn lemma_array_round_trip(es: Seq<(String, Toml)>, key: Seq<char>, i: int, k: String, items: Vec<Toml>)
    requires
        0 <= i < es.len(),
        tindex(tview(es), key, 0) == Some(i),
        k@ == key,
        es[i].0 == k,
    ensures
        tview(es.remove(i).insert(i, (k, Toml::Array(items)))) == tput(
            tview(es),
            key,
            TomlV::Array(Seq::new(items@.len(), |j: int| items@[j].view_toml())),
        ),
{
    lemma_tview_restore(es, i, k, Toml::Array(items));
    lemma_array_view(items);
}

/// [`abs_array_tables`].
fn abs_array_tables_exec(t: &mut Vec<(String, Toml)>, section: &str, dir: &str)
    ensures
        tview(final(t)@) == abs_array_tables(tview(old(t)@), section@, dir@),
{
    let ghost t0 = t@;
    match take_array(t, section) {
        None => {},
        Some((i, k, mut items)) => {
            let ghost v0 = Seq::new(items@.len(), |j: int| items@[j].view_toml());
            let ghost target = Seq::new(v0.len(), |j: int| abs_in(v0[j], "path"@, dir@));
            let n = items.len();
            let mut j: usize = 0;
            while j < n
                invariant
                    n == items@.len(),
                    v0.len() == n,
                    target == Seq::new(v0.len(), |j: int| abs_in(v0[j], "path"@, dir@)),
                    j <= n,
                    forall|m: int|
                        0 <= m < n ==> (#[trigger] items@[m]).view_toml() == (if m < j {
                            target[m]
                        } else {
                            v0[m]
                        }),
                decreases n - j,
            {
                let ghost before = items@;
                assert(items@[j as int].view_toml() == v0[j as int]);
                let v = items.remove(j);
                let nv = abs_in_exec(v, "path", dir);
                let ghost nvv = nv;
                items.insert(j, nv);
                assert(items@ == before.remove(j as int).insert(j as int, nvv));
                assert(nvv.view_toml() == target[j as int]);
                assert forall|m: int| 0 <= m < n implies (#[trigger] items@[m]).view_toml() == (if m < j + 1 {
                    target[m]
                } else {
                    v0[m]
                }) by {
                    if m != j {
                        assert(items@[m] == before[m]);
                    }
                }
                j = j + 1;
            }
            assert(Seq::new(items@.len(), |m: int| items@[m].view_toml()) =~= target);
            proof {
                lemma_array_round_trip(t0, section@, i as int, k, items);
            }
            put_array_back(t, i, k, items);
        },
    }
}

/// [`abs_str_array`].
fn abs_str_array_exec(t: &mut Vec<(String, Toml)>, key: &str, dir: &str)
    ensures
        tview(final(t)@) == abs_str_array(tview(old(t)@), key@, dir@),
{
    let ghost t0 = t@;
    match take_array(t, key) {
        None => {},
        Some((i, k, mut items)) => {
            let ghost v0 = Seq::new(items@.len(), |j: int| items@[j].view_toml());
            let ghost target = abs_strs(v0, dir@);
            let n = items.len();
            let mut j: usize = 0;
            while j < n
                invariant
                    n == items@.len(),
                    v0.len() == n,
                    target == abs_strs(v0, dir@),
                    j <= n,
                    forall|m: int|
                        0 <= m < n ==> (#[trigger] items@[m]).view_toml() == (if m < j {
                            target[m]
                        } else {
                            v0[m]
                        }),
                decreases n - j,
            {
                let ghost before = items@;
                assert(items@[j as int].view_toml() == v0[j as int]);
                let v = items.remove(j);
                let nv = match v {
                    Toml::Str(s) => {
                        if !is_abs_exec(s.as_str()) {
                            Toml::Str(abs_text_exec(dir, s.as_str()))
                        } else {
                            Toml::Str(s)
                        }
                    },
                    other => other,
                };
                let ghost nvv = nv;
                items.insert(j, nv);
                assert(items@ == before.remove(j as int).insert(j as int, nvv));
                assert(nvv.view_toml() == target[j as int]);
                assert forall|m: int| 0 <= m < n implies (#[trigger] items@[m]).view_toml() == (if m < j + 1 {
                    target[m]
                } else {
                    v0[m]
                }) by {
                    if m != j {
                        assert(items@[m] == before[m]);
                    }
                }
                j = j + 1;
            }
            assert(Seq::new(items@.len(), |m: int| items@[m].view_toml()) =~= target);
            proof {
                lemma_array_round_trip(t0, key@, i as int, k, items);
            }
            put_array_back(t, i, k, items);
        },
    }
}

} // verus!

verus! {

/// `[lib]`: a missing `path` becomes the absolute `src/lib.rs`; a
/// relative one is made absolute.
pub open spec fn abs_lib(top: Seq<(Seq<char>, TomlV)>, dir: Seq<char>) -> Seq<(Seq<char>, TomlV)> {
    if has_table(top, "lib"@) {
        let lib = sub_table(top, "lib"@);
        tput(
            top,
            "lib"@,
            TomlV::Table(
                if tindex(lib, "path"@, 0) is None {
                    tput(lib, "path"@, TomlV::Str(abs_text(dir, "src/lib.rs"@)))
                } else {
                    abs_at(lib, "path"@, dir)
                },
            ),
        )
    } else {
        top
    }
}

/// `[package] build`: a relative one is made absolute; a missing one
/// becomes the absolute `build.rs` when the upstream crate has that file.
pub open spec fn abs_build(top: Seq<(Seq<char>, TomlV)>, dir: Seq<char>, has_build_rs: bool) -> Seq<
    (Seq<char>, TomlV),
> {
    if has_table(top, "package"@) {
        let p = sub_table(top, "package"@);
        tput(
            top,
            "package"@,
            TomlV::Table(
                if tindex(p, "build"@, 0) is Some {
                    abs_at(p, "build"@, dir)
                } else if has_build_rs {
                    tput(p, "build"@, TomlV::Str(abs_text(dir, "build.rs"@)))
                } else {
                    p
                },
            ),
        )
    } else {
        top
    }
}

/// `[package]` with target auto-discovery switched off.
pub open spec fn no_autodiscovery(top: Seq<(Seq<char>, TomlV)>) -> Seq<(Seq<char>, TomlV)> {
    if has_table(top, "package"@) {
        let p = sub_table(top, "package"@);
        tput(
            top,
            "package"@,
            TomlV::Table(
                tput(
                    tput(
                        tput(tput(p, "autobins"@, TomlV::Bool(false)), "autoexamples"@, TomlV::Bool(false)),
                        "autotests"@,
                        TomlV::Bool(false),
                    ),
                    "autobenches"@,
                    TomlV::Bool(false),
                ),
            ),
        )
    } else {
        top
    }
}

/// Each `[target.<cfg>]` table with its dependency paths made absolute.
pub open spec fn abs_targets(top: Seq<(Seq<char>, TomlV)>, dir: Seq<char>) -> Seq<(Seq<char>, TomlV)> {
    if has_table(top, "target"@) {
        let ts = sub_table(top, "target"@);
        tput(
            top,
            "target"@,
            TomlV::Table(
                Seq::new(
                    ts.len(),
                    |i: int|
                        (
                            ts[i].0,
                            match ts[i].1 {
                                TomlV::Table(c) => TomlV::Table(abs_all_deps(c, dir)),
                                v => v,
                            },
                        ),
                ),
            ),
        )
    } else {
        top
    }
}

/// `[workspace]`: member, exclude and default-member paths and the
/// workspace dependencies' paths made absolute.
pub open spec fn abs_workspace(top: Seq<(Seq<char>, TomlV)>, dir: Seq<char>) -> Seq<(Seq<char>, TomlV)> {
    if has_table(top, "workspace"@) {
        let ws = sub_table(top, "workspace"@);
        tput(
            top,
            "workspace"@,
            TomlV::Table(
                abs_section(
                    abs_str_array(abs_str_array(abs_str_array(ws, "members"@, dir), "exclude"@, dir), "default-members"@, dir),
                    "dependencies"@,
                    "path"@,
                    dir,
                ),
            ),
        )
    } else {
        top
    }
}

/// `[package] workspace` made absolute.
pub open spec fn abs_package_workspace(top: Seq<(Seq<char>, TomlV)>, dir: Seq<char>) -> Seq<(Seq<char>, TomlV)> {
    if has_table(top, "package"@) {
        tput(top, "package"@, TomlV::Table(abs_at(sub_table(top, "package"@), "workspace"@, dir)))
    } else {
        top
    }
}

/// Each `[patch.<registry>.<crate>] path` made absolute.
pub open spec fn abs_patch(top: Seq<(Seq<char>, TomlV)>, dir: Seq<char>) -> Seq<(Seq<char>, TomlV)> {
    if has_table(top, "patch"@) {
        let p = sub_table(top, "patch"@);
        tput(
            top,
            "patch"@,
            TomlV::Table(
                Seq::new(
                    p.len(),
                    |i: int|
                        (
                            p[i].0,
                            match p[i].1 {
                                TomlV::Table(rt) => TomlV::Table(abs_values(rt, "path"@, dir)),
                                v => v,
                            },
                        ),
                ),
            ),
        )
    } else {
        top
    }
}

/// Every path-bearing key of the manifest made absolute against the
/// upstream crate directory, in the order the rewrite applies them.
pub open spec fn absolutize_spec(top: Seq<(Seq<char>, TomlV)>, dir: Seq<char>, has_build_rs: bool) -> Seq<
    (Seq<char>, TomlV),
> {
    let t1 = abs_build(abs_lib(top, dir), dir, has_build_rs);
    let t2 = abs_array_tables(
        abs_array_tables(abs_array_tables(abs_array_tables(t1, "bin"@, dir), "example"@, dir), "test"@, dir),
        "bench"@,
        dir,
    );
    let t3 = abs_targets(abs_all_deps(no_autodiscovery(t2), dir), dir);
    let t4 = abs_patch(abs_package_workspace(abs_workspace(t3, dir), dir), dir);
    abs_section(t4, "replace"@, "path"@, dir)
}

fn abs_lib_exec(top: &mut Vec<(String, Toml)>, dir: &str)
    ensures
        tview(final(top)@) == abs_lib(tview(old(top)@), dir@),
{
    let ghost t0 = top@;
    match take_table(top, "lib") {
        None => {},
        Some((i, k, mut lib)) => {
            if tbl_index(&lib, "path").is_none() {
                let a = abs_text_exec(dir, "src/lib.rs");
                tbl_put(&mut lib, "path".to_owned(), Toml::Str(a));
            } else {
                abs_at_exec(&mut lib, "path", dir);
            }
            proof {
                lemma_table_round_trip(t0, "lib"@, i as int, k, lib);
            }
            put_table_back(top, i, k, lib);
        },
    }
}

fn abs_build_exec(top: &mut Vec<(String, Toml)>, dir: &str, has_build_rs: bool)
    ensures
        tview(final(top)@) == abs_build(tview(old(top)@), dir@, has_build_rs),
{
    let ghost t0 = top@;
    match take_table(top, "package") {
        None => {},
        Some((i, k, mut p)) => {
            if tbl_index(&p, "build").is_some() {
                abs_at_exec(&mut p, "build", dir);
            } else if has_build_rs {
                let a = abs_text_exec(dir, "build.rs");
                tbl_put(&mut p, "build".to_owned(), Toml::Str(a));
            }
            proof {
                lemma_table_round_trip(t0, "package"@, i as int, k, p);
            }
            put_table_back(top, i, k, p);
        },
    }
}

fn no_autodiscovery_exec(top: &mut Vec<(String, Toml)>)
    ensures
        tview(final(top)@) == no_autodiscovery(tview(old(top)@)),
{
    let ghost t0 = top@;
    match take_table(top, "package") {
        None => {},
        Some((i, k, mut p)) => {
            tbl_put(&mut p, "autobins".to_owned(), Toml::Bool(false));
            tbl_put(&mut p, "autoexamples".to_owned(), Toml::Bool(false));
            tbl_put(&mut p, "autotests".to_owned(), Toml::Bool(false));
            tbl_put(&mut p, "autobenches".to_owned(), Toml::Bool(false));
            proof {
                lemma_table_round_trip(t0, "package"@, i as int, k, p);
            }
            put_table_back(top, i, k, p);
        },
    }
}

fn abs_target_value(v: Toml, dir: &str) -> (r: Toml)
    ensures
        r.view_toml() == (match v.view_toml() {
            TomlV::Table(c) => TomlV::Table(abs_all_deps(c, dir@)),
            w => w,
        }),
{
    match v {
        Toml::Table(t) => {
            let mut t = t;
            proof {
                lemma_table_view(t);
            }
            abs_all_deps_exec(&mut t, dir);
            proof {
                lemma_table_view(t);
            }
            Toml::Table(t)
        },
        other => other,
    }
}

fn abs_patch_value(v: Toml, dir: &str) -> (r: Toml)
    ensures
        r.view_toml() == (match v.view_toml() {
            TomlV::Table(rt) => TomlV::Table(abs_values(rt, "path"@, dir@)),
            w => w,
        }),
{
    match v {
        Toml::Table(t) => {
            let mut t = t;
            proof {
                lemma_table_view(t);
            }
            abs_values_exec(&mut t, "path", dir);
            proof {
                lemma_table_view(t);
            }
            Toml::Table(t)
        },
        other => other,
    }
}

fn abs_targets_exec(top: &mut Vec<(String, Toml)>, dir: &str)
    ensures
        tview(final(top)@) == abs_targets(tview(old(top)@), dir@),
{
    let ghost t0 = top@;
    match take_table(top, "target") {
        None => {},
        Some((i, k, mut ts)) => {
            let ghost v0 = tview(ts@);
            let ghost target = Seq::new(
                v0.len(),
                |m: int|
                    (
                        v0[m].0,
                        match v0[m].1 {
                            TomlV::Table(c) => TomlV::Table(abs_all_deps(c, dir@)),
                            v => v,
                        },
                    ),
            );
            let n = ts.len();
            let mut j: usize = 0;
            while j < n
                invariant
                    n == ts@.len(),
                    v0.len() == n,
                    target == Seq::new(
                        v0.len(),
                        |m: int|
                            (
                                v0[m].0,
                                match v0[m].1 {
                                    TomlV::Table(c) => TomlV::Table(abs_all_deps(c, dir@)),
                                    v => v,
                                },
                            ),
                    ),
                    j <= n,
                    forall|m: int| 0 <= m < n ==> (#[trigger] tview(ts@)[m]) == (if m < j { target[m] } else { v0[m] }),
                decreases n - j,
            {
                let ghost before = ts@;
                assert(tview(ts@)[j as int] == v0[j as int]);
                let (kk, v) = tbl_take(&mut ts, j);
                let nv = abs_target_value(v, dir);
                let ghost kg = kk;
                let ghost nvv = nv;
                tbl_restore(&mut ts, j, (kk, nv));
                proof {
                    lemma_tview_restore(before, j as int, kg, nvv);
                    assert forall|m: int| 0 <= m < n implies (#[trigger] tview(ts@)[m]) == (if m < j + 1 {
                        target[m]
                    } else {
                        v0[m]
                    }) by {
                        if m != j {
                            assert(tview(before)[m] == tview(ts@)[m]);
                        }
                    }
                }
                j = j + 1;
            }
            assert(tview(ts@) =~= target);
            proof {
                lemma_table_round_trip(t0, "target"@, i as int, k, ts);
            }
            put_table_back(top, i, k, ts);
        },
    }
}

fn abs_patch_exec(top: &mut Vec<(String, Toml)>, dir: &str)
    ensures
        tview(final(top)@) == abs_patch(tview(old(top)@), dir@),
{
    let ghost t0 = top@;
    match take_table(top, "patch") {
        None => {},
        Some((i, k, mut ps)) => {
            let ghost v0 = tview(ps@);
            let ghost target = Seq::new(
                v0.len(),
                |m: int|
                    (
                        v0[m].0,
                        match v0[m].1 {
                            TomlV::Table(rt) => TomlV::Table(abs_values(rt, "path"@, dir@)),
                            v => v,
                        },
                    ),
            );
            let n = ps.len();
            let mut j: usize = 0;
            while j < n
                invariant
                    n == ps@.len(),
                    v0.len() == n,
                    target == Seq::new(
                        v0.len(),
                        |m: int|
                            (
                                v0[m].0,
                                match v0[m].1 {
                                    TomlV::Table(rt) => TomlV::Table(abs_values(rt, "path"@, dir@)),
                                    v => v,
                                },
                            ),
                    ),
                    j <= n,
                    forall|m: int| 0 <= m < n ==> (#[trigger] tview(ps@)[m]) == (if m < j { target[m] } else { v0[m] }),
                decreases n - j,
            {
                let ghost before = ps@;
                assert(tview(ps@)[j as int] == v0[j as int]);
                let (kk, v) = tbl_take(&mut ps, j);
                let nv = abs_patch_value(v, dir);
                let ghost kg = kk;
                let ghost nvv = nv;
                tbl_restore(&mut ps, j, (kk, nv));
                proof {
                    lemma_tview_restore(before, j as int, kg, nvv);
                    assert forall|m: int| 0 <= m < n implies (#[trigger] tview(ps@)[m]) == (if m < j + 1 {
                        target[m]
                    } else {
                        v0[m]
                    }) by {
                        if m != j {
                            assert(tview(before)[m] == tview(ps@)[m]);
                        }
                    }
                }
                j = j + 1;
            }
            assert(tview(ps@) =~= target);
            proof {
                lemma_table_round_trip(t0, "patch"@, i as int, k, ps);
            }
            put_table_back(top, i, k, ps);
        },
    }
}

fn abs_workspace_exec(top: &mut Vec<(String, Toml)>, dir: &str)
    ensures
        tview(final(top)@) == abs_workspace(tview(old(top)@), dir@),
{
    let ghost t0 = top@;
    match take_table(top, "workspace") {
        None => {},
        Some((i, k, mut ws)) => {
            abs_str_array_exec(&mut ws, "members", dir);
            abs_str_array_exec(&mut ws, "exclude", dir);
            abs_str_array_exec(&mut ws, "default-members", dir);
            abs_section_exec(&mut ws, "dependencies", "path", dir);
            proof {
                lemma_table_round_trip(t0, "workspace"@, i as int, k, ws);
            }
            put_table_back(top, i, k, ws);
        },
    }
}

fn abs_package_workspace_exec(top: &mut Vec<(String, Toml)>, dir: &str)
    ensures
        tview(final(top)@) == abs_package_workspace(tview(old(top)@), dir@),
{
    let ghost t0 = top@;
    match take_table(top, "package") {
        None => {},
        Some((i, k, mut p)) => {
            abs_at_exec(&mut p, "workspace", dir);
            proof {
                lemma_table_round_trip(t0, "package"@, i as int, k, p);
            }
            put_table_back(top, i, k, p);
        },
    }
}

/// Makes every path-bearing key of the manifest absolute against the
/// upstream crate directory `upstream_dir` (see [`absolutize_spec`]);
/// `has_build_rs` says whether that directory holds a `build.rs` file.
pub fn absolutize_path_bearing_keys(top: &mut Vec<(String, Toml)>, upstream_dir: &str, has_build_rs: bool)
    ensures
        tview(final(top)@) == absolutize_spec(tview(old(top)@), upstream_dir@, has_build_rs),
{
    abs_lib_exec(top, upstream_dir);
    abs_build_exec(top, upstream_dir, has_build_rs);
    abs_array_tables_exec(top, "bin", upstream_dir);
    abs_array_tables_exec(top, "example", upstream_dir);
    abs_array_tables_exec(top, "test", upstream_dir);
    abs_array_tables_exec(top, "bench", upstream_dir);
    no_autodiscovery_exec(top);
    abs_all_deps_exec(top, upstream_dir);
    abs_targets_exec(top, upstream_dir);
    abs_workspace_exec(top, upstream_dir);
    abs_package_workspace_exec(top, upstream_dir);
    abs_patch_exec(top, upstream_dir);
    abs_section_exec(top, "replace", "path", upstream_dir);
}

} // verus!
