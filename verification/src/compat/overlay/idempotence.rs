//! Absolutizing the overlay's paths against an absolute directory is
//! idempotent: a second pass over its own output changes nothing.
use vstd::prelude::*;
use crate::compat::overlay::paths::{
    abs_all_deps, abs_array_tables, abs_at, abs_build, abs_in, abs_lib, abs_package_workspace, abs_patch,
    abs_section, abs_str_array, abs_strs, abs_targets, abs_text, abs_values, abs_workspace, absolutize_spec, is_abs,
    no_autodiscovery,
};
use crate::toml_doc::{has_table, lemma_tget_tput, lemma_tput_frame, lemma_tput_same, sub_table, tget, tindex, tput, TomlV};
use crate::util::{forward_slashes, join_spec};

verus! {

/// A path made absolute against an absolute directory is absolute.
pub proof fn lemma_abs_text_abs(dir: Seq<char>, s: Seq<char>)
    requires
        is_abs(dir),
    ensures
        is_abs(abs_text(dir, s)),
{
    let j = join_spec(dir, s);
    assert(j.len() > 0 && j[0] == '/');
    assert(forward_slashes(j)[0] == '/');
}

/// `abs_at` leaves its own output as it is.
proof fn lemma_abs_at_fixed(t: Seq<(Seq<char>, TomlV)>, key: Seq<char>, dir: Seq<char>)
    requires
        is_abs(dir),
    ensures
        abs_at(abs_at(t, key, dir), key, dir) == abs_at(t, key, dir),
{
    if let Some(TomlV::Str(s)) = tget(t, key) {
        if !is_abs(s) {
            lemma_abs_text_abs(dir, s);
            lemma_tget_tput(t, key, TomlV::Str(abs_text(dir, s)));
        }
    }
}

proof fn lemma_abs_in_fixed(v: TomlV, key: Seq<char>, dir: Seq<char>)
    requires
        is_abs(dir),
    ensures
        abs_in(abs_in(v, key, dir), key, dir) == abs_in(v, key, dir),
{
    if let TomlV::Table(t) = v {
        lemma_abs_at_fixed(t, key, dir);
    }
}

proof fn lemma_abs_values_fixed(es: Seq<(Seq<char>, TomlV)>, key: Seq<char>, dir: Seq<char>)
    requires
        is_abs(dir),
    ensures
        abs_values(abs_values(es, key, dir), key, dir) == abs_values(es, key, dir),
{
    let a = abs_values(es, key, dir);
    assert forall|i: int| 0 <= i < a.len() implies #[trigger] abs_values(a, key, dir)[i] == a[i] by {
        lemma_abs_in_fixed(es[i].1, key, dir);
    }
    assert(abs_values(a, key, dir) =~= a);
}

proof fn lemma_abs_strs_fixed(items: Seq<TomlV>, dir: Seq<char>)
    requires
        is_abs(dir),
    ensures
        abs_strs(abs_strs(items, dir), dir) == abs_strs(items, dir),
{
    let a = abs_strs(items, dir);
    assert forall|i: int| 0 <= i < a.len() implies #[trigger] abs_strs(a, dir)[i] == a[i] by {
        if let TomlV::Str(s) = items[i] {
            if !is_abs(s) {
                lemma_abs_text_abs(dir, s);
            }
        }
    }
    assert(abs_strs(a, dir) =~= a);
}

/// `abs_section` changes only `section`, and leaves its own output as it is.
proof fn lemma_abs_section(t: Seq<(Seq<char>, TomlV)>, section: Seq<char>, key: Seq<char>, dir: Seq<char>)
    requires
        is_abs(dir),
    ensures
        forall|k: Seq<char>| k != section ==> #[trigger] tget(abs_section(t, section, key, dir), k) == tget(t, k),
        abs_section(abs_section(t, section, key, dir), section, key, dir) == abs_section(t, section, key, dir),
{
    if has_table(t, section) {
        let v = TomlV::Table(abs_values(sub_table(t, section), key, dir));
        lemma_tput_frame(t, section, v);
        lemma_tget_tput(t, section, v);
        lemma_abs_values_fixed(sub_table(t, section), key, dir);
        lemma_tput_same(tput(t, section, v), section, v);
    }
}

proof fn lemma_abs_array_tables(t: Seq<(Seq<char>, TomlV)>, section: Seq<char>, dir: Seq<char>)
    requires
        is_abs(dir),
    ensures
        forall|k: Seq<char>| k != section ==> #[trigger] tget(abs_array_tables(t, section, dir), k) == tget(t, k),
        abs_array_tables(abs_array_tables(t, section, dir), section, dir) == abs_array_tables(t, section, dir),
{
    if let Some(TomlV::Array(items)) = tget(t, section) {
        let a = Seq::new(items.len(), |i: int| abs_in(items[i], "path"@, dir));
        let v = TomlV::Array(a);
        lemma_tput_frame(t, section, v);
        lemma_tget_tput(t, section, v);
        let b = Seq::new(a.len(), |i: int| abs_in(a[i], "path"@, dir));
        assert forall|i: int| 0 <= i < a.len() implies #[trigger] b[i] == a[i] by {
            lemma_abs_in_fixed(items[i], "path"@, dir);
        }
        assert(b =~= a);
        lemma_tput_same(tput(t, section, v), section, v);
    }
}

proof fn lemma_abs_str_array(t: Seq<(Seq<char>, TomlV)>, key: Seq<char>, dir: Seq<char>)
    requires
        is_abs(dir),
    ensures
        forall|k: Seq<char>| k != key ==> #[trigger] tget(abs_str_array(t, key, dir), k) == tget(t, k),
        abs_str_array(abs_str_array(t, key, dir), key, dir) == abs_str_array(t, key, dir),
{
    if let Some(TomlV::Array(items)) = tget(t, key) {
        let v = TomlV::Array(abs_strs(items, dir));
        lemma_tput_frame(t, key, v);
        lemma_tget_tput(t, key, v);
        lemma_abs_strs_fixed(items, dir);
        lemma_tput_same(tput(t, key, v), key, v);
    }
}

/// The string under `key` needs no rewrite.
pub open spec fn at_ok(t: Seq<(Seq<char>, TomlV)>, key: Seq<char>) -> bool {
    !(tget(t, key) matches Some(TomlV::Str(s)) && !is_abs(s))
}

pub open spec fn section_ok(t: Seq<(Seq<char>, TomlV)>, section: Seq<char>, key: Seq<char>, dir: Seq<char>) -> bool {
    has_table(t, section) ==> abs_values(sub_table(t, section), key, dir) == sub_table(t, section)
}

pub open spec fn array_tables_ok(t: Seq<(Seq<char>, TomlV)>, section: Seq<char>, dir: Seq<char>) -> bool {
    tget(t, section) matches Some(TomlV::Array(items)) ==> forall|i: int|
        0 <= i < items.len() ==> abs_in(#[trigger] items[i], "path"@, dir) == items[i]
}

pub open spec fn str_array_ok(t: Seq<(Seq<char>, TomlV)>, key: Seq<char>, dir: Seq<char>) -> bool {
    tget(t, key) matches Some(TomlV::Array(items)) ==> abs_strs(items, dir) == items
}

proof fn lemma_at_ok(t: Seq<(Seq<char>, TomlV)>, key: Seq<char>, dir: Seq<char>)
    requires
        is_abs(dir),
    ensures
        at_ok(abs_at(t, key, dir), key),
        at_ok(t, key) ==> abs_at(t, key, dir) == t,
        forall|k: Seq<char>| k != key ==> #[trigger] tget(abs_at(t, key, dir), k) == tget(t, k),
{
    if let Some(TomlV::Str(s)) = tget(t, key) {
        if !is_abs(s) {
            lemma_abs_text_abs(dir, s);
            lemma_tget_tput(t, key, TomlV::Str(abs_text(dir, s)));
            lemma_tput_frame(t, key, TomlV::Str(abs_text(dir, s)));
        }
    }
}

proof fn lemma_section_ok(t: Seq<(Seq<char>, TomlV)>, section: Seq<char>, key: Seq<char>, dir: Seq<char>)
    requires
        is_abs(dir),
    ensures
        section_ok(abs_section(t, section, key, dir), section, key, dir),
        section_ok(t, section, key, dir) ==> abs_section(t, section, key, dir) == t,
        forall|k: Seq<char>| k != section ==> #[trigger] tget(abs_section(t, section, key, dir), k) == tget(t, k),
{
    lemma_abs_section(t, section, key, dir);
    if has_table(t, section) {
        let v = TomlV::Table(abs_values(sub_table(t, section), key, dir));
        lemma_tget_tput(t, section, v);
        lemma_abs_values_fixed(sub_table(t, section), key, dir);
        if section_ok(t, section, key, dir) {
            lemma_tput_same(t, section, v);
        }
    }
}

proof fn lemma_array_tables_ok(t: Seq<(Seq<char>, TomlV)>, section: Seq<char>, dir: Seq<char>)
    requires
        is_abs(dir),
    ensures
        array_tables_ok(abs_array_tables(t, section, dir), section, dir),
        array_tables_ok(t, section, dir) ==> abs_array_tables(t, section, dir) == t,
        forall|k: Seq<char>| k != section ==> #[trigger] tget(abs_array_tables(t, section, dir), k) == tget(t, k),
{
    lemma_abs_array_tables(t, section, dir);
    if let Some(TomlV::Array(items)) = tget(t, section) {
        let a = Seq::new(items.len(), |i: int| abs_in(items[i], "path"@, dir));
        lemma_tget_tput(t, section, TomlV::Array(a));
        assert forall|i: int| 0 <= i < a.len() implies abs_in(#[trigger] a[i], "path"@, dir) == a[i] by {
            lemma_abs_in_fixed(items[i], "path"@, dir);
        }
        if array_tables_ok(t, section, dir) {
            assert(a =~= items);
            lemma_tput_same(t, section, TomlV::Array(a));
        }
    }
}

proof fn lemma_str_array_ok(t: Seq<(Seq<char>, TomlV)>, key: Seq<char>, dir: Seq<char>)
    requires
        is_abs(dir),
    ensures
        str_array_ok(abs_str_array(t, key, dir), key, dir),
        str_array_ok(t, key, dir) ==> abs_str_array(t, key, dir) == t,
        forall|k: Seq<char>| k != key ==> #[trigger] tget(abs_str_array(t, key, dir), k) == tget(t, k),
{
    lemma_abs_str_array(t, key, dir);
    if let Some(TomlV::Array(items)) = tget(t, key) {
        lemma_tget_tput(t, key, TomlV::Array(abs_strs(items, dir)));
        lemma_abs_strs_fixed(items, dir);
        if str_array_ok(t, key, dir) {
            lemma_tput_same(t, key, TomlV::Array(abs_strs(items, dir)));
        }
    }
}

} // verus!

verus! {

pub open spec fn deps_ok(t: Seq<(Seq<char>, TomlV)>, dir: Seq<char>) -> bool {
    &&& section_ok(t, "dependencies"@, "path"@, dir)
    &&& section_ok(t, "dev-dependencies"@, "path"@, dir)
    &&& section_ok(t, "build-dependencies"@, "path"@, dir)
}

proof fn lemma_deps_ok(t: Seq<(Seq<char>, TomlV)>, dir: Seq<char>)
    requires
        is_abs(dir),
    ensures
        deps_ok(abs_all_deps(t, dir), dir),
        deps_ok(t, dir) ==> abs_all_deps(t, dir) == t,
        forall|k: Seq<char>|
            k != "dependencies"@ && k != "dev-dependencies"@ && k != "build-dependencies"@ ==> #[trigger] tget(
                abs_all_deps(t, dir),
                k,
            ) == tget(t, k),
{
    reveal_strlit("dependencies");
    reveal_strlit("dev-dependencies");
    reveal_strlit("build-dependencies");
    let t1 = abs_section(t, "dependencies"@, "path"@, dir);
    let t2 = abs_section(t1, "dev-dependencies"@, "path"@, dir);
    lemma_section_ok(t, "dependencies"@, "path"@, dir);
    lemma_section_ok(t1, "dev-dependencies"@, "path"@, dir);
    lemma_section_ok(t2, "build-dependencies"@, "path"@, dir);
    assert("dependencies"@ != "dev-dependencies"@ && "dependencies"@ != "build-dependencies"@
        && "dev-dependencies"@ != "build-dependencies"@) by {
        assert("dependencies"@.len() == 12 && "dev-dependencies"@.len() == 16 && "build-dependencies"@.len() == 18);
    }
    assert(tget(abs_all_deps(t, dir), "dependencies"@) == tget(t1, "dependencies"@));
    assert(tget(abs_all_deps(t, dir), "dev-dependencies"@) == tget(t2, "dev-dependencies"@));
}

} // verus!

verus! {

pub open spec fn lib_ok(t: Seq<(Seq<char>, TomlV)>) -> bool {
    has_table(t, "lib"@) ==> tget(sub_table(t, "lib"@), "path"@) is Some && at_ok(sub_table(t, "lib"@), "path"@)
}

proof fn lemma_lib(t: Seq<(Seq<char>, TomlV)>, dir: Seq<char>)
    requires
        is_abs(dir),
    ensures
        lib_ok(abs_lib(t, dir)),
        lib_ok(t) ==> abs_lib(t, dir) == t,
        forall|k: Seq<char>| k != "lib"@ ==> #[trigger] tget(abs_lib(t, dir), k) == tget(t, k),
{
    if has_table(t, "lib"@) {
        let l = sub_table(t, "lib"@);
        let l2 = if tindex(l, "path"@, 0) is None {
            tput(l, "path"@, TomlV::Str(abs_text(dir, "src/lib.rs"@)))
        } else {
            abs_at(l, "path"@, dir)
        };
        lemma_tput_frame(t, "lib"@, TomlV::Table(l2));
        lemma_tget_tput(t, "lib"@, TomlV::Table(l2));
        if tindex(l, "path"@, 0) is None {
            lemma_tget_tput(l, "path"@, TomlV::Str(abs_text(dir, "src/lib.rs"@)));
            lemma_abs_text_abs(dir, "src/lib.rs"@);
        } else {
            lemma_at_ok(l, "path"@, dir);
            crate::toml_doc::lemma_tindex(abs_at(l, "path"@, dir), "path"@, 0);
            assert(tget(l2, "path"@) is Some) by {
                if let Some(TomlV::Str(s)) = tget(l, "path"@) {
                    if !is_abs(s) {
                        lemma_tget_tput(l, "path"@, TomlV::Str(abs_text(dir, s)));
                    }
                }
            }
        }
        if lib_ok(t) {
            lemma_at_ok(l, "path"@, dir);
            lemma_tput_same(t, "lib"@, TomlV::Table(l));
        }
    }
}

pub open spec fn build_ok(p: Seq<(Seq<char>, TomlV)>, has_build_rs: bool) -> bool {
    &&& tget(p, "build"@) is Some ==> at_ok(p, "build"@)
    &&& tget(p, "build"@) is None ==> !has_build_rs
}

pub open spec fn auto_ok(p: Seq<(Seq<char>, TomlV)>) -> bool {
    &&& tget(p, "autobins"@) == Some(TomlV::Bool(false))
    &&& tget(p, "autoexamples"@) == Some(TomlV::Bool(false))
    &&& tget(p, "autotests"@) == Some(TomlV::Bool(false))
    &&& tget(p, "autobenches"@) == Some(TomlV::Bool(false))
}

pub open spec fn package_ok(t: Seq<(Seq<char>, TomlV)>, has_build_rs: bool) -> bool {
    has_table(t, "package"@) ==> {
        let p = sub_table(t, "package"@);
        build_ok(p, has_build_rs) && auto_ok(p) && at_ok(p, "workspace"@)
    }
}

proof fn lemma_build(t: Seq<(Seq<char>, TomlV)>, dir: Seq<char>, has_build_rs: bool)
    requires
        is_abs(dir),
    ensures
        has_table(abs_build(t, dir, has_build_rs), "package"@) == has_table(t, "package"@),
        has_table(t, "package"@) ==> build_ok(sub_table(abs_build(t, dir, has_build_rs), "package"@), has_build_rs),
        has_table(t, "package"@) ==> forall|k: Seq<char>|
            k != "build"@ ==> #[trigger] tget(sub_table(abs_build(t, dir, has_build_rs), "package"@), k) == tget(
                sub_table(t, "package"@),
                k,
            ),
        has_table(t, "package"@) && build_ok(sub_table(t, "package"@), has_build_rs) ==> abs_build(
            t,
            dir,
            has_build_rs,
        ) == t,
        forall|k: Seq<char>| k != "package"@ ==> #[trigger] tget(abs_build(t, dir, has_build_rs), k) == tget(t, k),
{
    if has_table(t, "package"@) {
        let p = sub_table(t, "package"@);
        let p2 = if tindex(p, "build"@, 0) is Some {
            abs_at(p, "build"@, dir)
        } else if has_build_rs {
            tput(p, "build"@, TomlV::Str(abs_text(dir, "build.rs"@)))
        } else {
            p
        };
        lemma_tput_frame(t, "package"@, TomlV::Table(p2));
        lemma_tget_tput(t, "package"@, TomlV::Table(p2));
        if tindex(p, "build"@, 0) is Some {
            lemma_at_ok(p, "build"@, dir);
            assert(tget(p2, "build"@) is Some) by {
                if let Some(TomlV::Str(s)) = tget(p, "build"@) {
                    if !is_abs(s) {
                        lemma_tget_tput(p, "build"@, TomlV::Str(abs_text(dir, s)));
                    }
                }
            }
            if build_ok(p, has_build_rs) {
                lemma_tput_same(t, "package"@, TomlV::Table(p));
            }
        } else if has_build_rs {
            lemma_tget_tput(p, "build"@, TomlV::Str(abs_text(dir, "build.rs"@)));
            lemma_tput_frame(p, "build"@, TomlV::Str(abs_text(dir, "build.rs"@)));
            lemma_abs_text_abs(dir, "build.rs"@);
        } else {
            lemma_tput_same(t, "package"@, TomlV::Table(p));
        }
    }
}

} // verus!

verus! {

proof fn lemma_auto(t: Seq<(Seq<char>, TomlV)>)
    ensures
        has_table(no_autodiscovery(t), "package"@) == has_table(t, "package"@),
        has_table(t, "package"@) ==> auto_ok(sub_table(no_autodiscovery(t), "package"@)),
        has_table(t, "package"@) ==> forall|k: Seq<char>|
            k != "autobins"@ && k != "autoexamples"@ && k != "autotests"@ && k != "autobenches"@
                ==> #[trigger] tget(sub_table(no_autodiscovery(t), "package"@), k) == tget(sub_table(t, "package"@), k),
        has_table(t, "package"@) && auto_ok(sub_table(t, "package"@)) ==> no_autodiscovery(t) == t,
        forall|k: Seq<char>| k != "package"@ ==> #[trigger] tget(no_autodiscovery(t), k) == tget(t, k),
{
    reveal_strlit("autobins");
    reveal_strlit("autoexamples");
    reveal_strlit("autotests");
    reveal_strlit("autobenches");
    if has_table(t, "package"@) {
        let f = TomlV::Bool(false);
        let p = sub_table(t, "package"@);
        let p1 = tput(p, "autobins"@, f);
        let p2 = tput(p1, "autoexamples"@, f);
        let p3 = tput(p2, "autotests"@, f);
        let p4 = tput(p3, "autobenches"@, f);
        lemma_tput_frame(t, "package"@, TomlV::Table(p4));
        lemma_tget_tput(t, "package"@, TomlV::Table(p4));
        lemma_tput_frame(p, "autobins"@, f);
        lemma_tput_frame(p1, "autoexamples"@, f);
        lemma_tput_frame(p2, "autotests"@, f);
        lemma_tput_frame(p3, "autobenches"@, f);
        lemma_tget_tput(p, "autobins"@, f);
        lemma_tget_tput(p1, "autoexamples"@, f);
        lemma_tget_tput(p2, "autotests"@, f);
        lemma_tget_tput(p3, "autobenches"@, f);
        assert("autobins"@.len() == 8 && "autoexamples"@.len() == 12 && "autotests"@.len() == 9
            && "autobenches"@.len() == 11);
        if auto_ok(p) {
            lemma_tput_same(p, "autobins"@, f);
            lemma_tput_same(p1, "autoexamples"@, f);
            lemma_tput_same(p2, "autotests"@, f);
            lemma_tput_same(p3, "autobenches"@, f);
            lemma_tput_same(t, "package"@, TomlV::Table(p));
        }
    }
}

proof fn lemma_pkgws(t: Seq<(Seq<char>, TomlV)>, dir: Seq<char>)
    requires
        is_abs(dir),
    ensures
        has_table(abs_package_workspace(t, dir), "package"@) == has_table(t, "package"@),
        has_table(t, "package"@) ==> at_ok(sub_table(abs_package_workspace(t, dir), "package"@), "workspace"@),
        has_table(t, "package"@) ==> forall|k: Seq<char>|
            k != "workspace"@ ==> #[trigger] tget(sub_table(abs_package_workspace(t, dir), "package"@), k) == tget(
                sub_table(t, "package"@),
                k,
            ),
        has_table(t, "package"@) && at_ok(sub_table(t, "package"@), "workspace"@) ==> abs_package_workspace(t, dir)
            == t,
        forall|k: Seq<char>| k != "package"@ ==> #[trigger] tget(abs_package_workspace(t, dir), k) == tget(t, k),
{
    if has_table(t, "package"@) {
        let p = sub_table(t, "package"@);
        let p2 = abs_at(p, "workspace"@, dir);
        lemma_tput_frame(t, "package"@, TomlV::Table(p2));
        lemma_tget_tput(t, "package"@, TomlV::Table(p2));
        lemma_at_ok(p, "workspace"@, dir);
        if at_ok(p, "workspace"@) {
            lemma_tput_same(t, "package"@, TomlV::Table(p));
        }
    }
}

pub open spec fn targets_ok(t: Seq<(Seq<char>, TomlV)>, dir: Seq<char>) -> bool {
    has_table(t, "target"@) ==> forall|i: int|
        0 <= i < sub_table(t, "target"@).len() ==> ((#[trigger] sub_table(t, "target"@)[i]).1 matches TomlV::Table(
            c,
        ) ==> deps_ok(c, dir))
}

proof fn lemma_targets(t: Seq<(Seq<char>, TomlV)>, dir: Seq<char>)
    requires
        is_abs(dir),
    ensures
        targets_ok(abs_targets(t, dir), dir),
        targets_ok(t, dir) ==> abs_targets(t, dir) == t,
        forall|k: Seq<char>| k != "target"@ ==> #[trigger] tget(abs_targets(t, dir), k) == tget(t, k),
{
    if has_table(t, "target"@) {
        let ts = sub_table(t, "target"@);
        let ts2 = Seq::new(
            ts.len(),
            |i: int|
                (
                    ts[i].0,
                    match ts[i].1 {
                        TomlV::Table(c) => TomlV::Table(abs_all_deps(c, dir)),
                        v => v,
                    },
                ),
        );
        lemma_tput_frame(t, "target"@, TomlV::Table(ts2));
        lemma_tget_tput(t, "target"@, TomlV::Table(ts2));
        assert forall|i: int| 0 <= i < ts2.len() implies ((#[trigger] ts2[i]).1 matches TomlV::Table(c) ==> deps_ok(
            c,
            dir,
        )) by {
            if let TomlV::Table(c) = ts[i].1 {
                lemma_deps_ok(c, dir);
            }
        }
        if targets_ok(t, dir) {
            assert forall|i: int| 0 <= i < ts.len() implies #[trigger] ts2[i] == ts[i] by {
                if let TomlV::Table(c) = ts[i].1 {
                    lemma_deps_ok(c, dir);
                }
            }
            assert(ts2 =~= ts);
            lemma_tput_same(t, "target"@, TomlV::Table(ts));
        }
    }
}

pub open spec fn patch_ok(t: Seq<(Seq<char>, TomlV)>, dir: Seq<char>) -> bool {
    has_table(t, "patch"@) ==> forall|i: int|
        0 <= i < sub_table(t, "patch"@).len() ==> ((#[trigger] sub_table(t, "patch"@)[i]).1 matches TomlV::Table(rt)
            ==> abs_values(rt, "path"@, dir) == rt)
}

proof fn lemma_patch(t: Seq<(Seq<char>, TomlV)>, dir: Seq<char>)
    requires
        is_abs(dir),
    ensures
        patch_ok(abs_patch(t, dir), dir),
        patch_ok(t, dir) ==> abs_patch(t, dir) == t,
        forall|k: Seq<char>| k != "patch"@ ==> #[trigger] tget(abs_patch(t, dir), k) == tget(t, k),
{
    if has_table(t, "patch"@) {
        let p = sub_table(t, "patch"@);
        let p2 = Seq::new(
            p.len(),
            |i: int|
                (
                    p[i].0,
                    match p[i].1 {
                        TomlV::Table(rt) => TomlV::Table(abs_values(rt, "path"@, dir)),
                        v => v,
                    },
                ),
        );
        lemma_tput_frame(t, "patch"@, TomlV::Table(p2));
        lemma_tget_tput(t, "patch"@, TomlV::Table(p2));
        assert forall|i: int| 0 <= i < p2.len() implies ((#[trigger] p2[i]).1 matches TomlV::Table(rt) ==> abs_values(
            rt,
            "path"@,
            dir,
        ) == rt) by {
            if let TomlV::Table(rt) = p[i].1 {
                lemma_abs_values_fixed(rt, "path"@, dir);
            }
        }
        if patch_ok(t, dir) {
            assert forall|i: int| 0 <= i < p.len() implies #[trigger] p2[i] == p[i] by {}
            assert(p2 =~= p);
            lemma_tput_same(t, "patch"@, TomlV::Table(p));
        }
    }
}

pub open spec fn ws_inner_ok(w: Seq<(Seq<char>, TomlV)>, dir: Seq<char>) -> bool {
    &&& str_array_ok(w, "members"@, dir)
    &&& str_array_ok(w, "exclude"@, dir)
    &&& str_array_ok(w, "default-members"@, dir)
    &&& section_ok(w, "dependencies"@, "path"@, dir)
}

pub open spec fn workspace_ok(t: Seq<(Seq<char>, TomlV)>, dir: Seq<char>) -> bool {
    has_table(t, "workspace"@) ==> ws_inner_ok(sub_table(t, "workspace"@), dir)
}

proof fn lemma_workspace(t: Seq<(Seq<char>, TomlV)>, dir: Seq<char>)
    requires
        is_abs(dir),
    ensures
        workspace_ok(abs_workspace(t, dir), dir),
        workspace_ok(t, dir) ==> abs_workspace(t, dir) == t,
        forall|k: Seq<char>| k != "workspace"@ ==> #[trigger] tget(abs_workspace(t, dir), k) == tget(t, k),
{
    reveal_strlit("members");
    reveal_strlit("exclude");
    reveal_strlit("default-members");
    reveal_strlit("dependencies");
    if has_table(t, "workspace"@) {
        let w = sub_table(t, "workspace"@);
        let w1 = abs_str_array(w, "members"@, dir);
        let w2 = abs_str_array(w1, "exclude"@, dir);
        let w3 = abs_str_array(w2, "default-members"@, dir);
        let w4 = abs_section(w3, "dependencies"@, "path"@, dir);
        lemma_str_array_ok(w, "members"@, dir);
        lemma_str_array_ok(w1, "exclude"@, dir);
        lemma_str_array_ok(w2, "default-members"@, dir);
        lemma_section_ok(w3, "dependencies"@, "path"@, dir);
        assert("members"@.len() == 7 && "exclude"@.len() == 7 && "default-members"@.len() == 15
            && "dependencies"@.len() == 12);
        assert("members"@[0] != "exclude"@[0]);
        lemma_tput_frame(t, "workspace"@, TomlV::Table(w4));
        lemma_tget_tput(t, "workspace"@, TomlV::Table(w4));
        assert(tget(w4, "members"@) == tget(w1, "members"@));
        assert(tget(w4, "exclude"@) == tget(w2, "exclude"@));
        assert(tget(w4, "default-members"@) == tget(w3, "default-members"@));
        if workspace_ok(t, dir) {
            lemma_tput_same(t, "workspace"@, TomlV::Table(w));
        }
    }
}

} // verus!

verus! {

/// Absolutizing is idempotent: against an absolute upstream directory, a
/// second pass over the rewritten manifest leaves it as it is (absolute
/// paths are kept, and the injected keys are already there).
pub proof fn lemma_absolutize_idempotent(top: Seq<(Seq<char>, TomlV)>, dir: Seq<char>, has_build_rs: bool)
    requires
        is_abs(dir),
    ensures
        absolutize_spec(absolutize_spec(top, dir, has_build_rs), dir, has_build_rs) == absolutize_spec(
            top,
            dir,
            has_build_rs,
        ),
{
    reveal_strlit("lib");
    reveal_strlit("package");
    reveal_strlit("bin");
    reveal_strlit("example");
    reveal_strlit("test");
    reveal_strlit("bench");
    reveal_strlit("dependencies");
    reveal_strlit("dev-dependencies");
    reveal_strlit("build-dependencies");
    reveal_strlit("target");
    reveal_strlit("workspace");
    reveal_strlit("patch");
    reveal_strlit("replace");
    reveal_strlit("build");
    reveal_strlit("autobins");
    reveal_strlit("autoexamples");
    reveal_strlit("autotests");
    reveal_strlit("autobenches");
    let hb = has_build_rs;
    let a = abs_lib(top, dir);
    let b = abs_build(a, dir, hb);
    let c = abs_array_tables(b, "bin"@, dir);
    let d = abs_array_tables(c, "example"@, dir);
    let e = abs_array_tables(d, "test"@, dir);
    let f = abs_array_tables(e, "bench"@, dir);
    let g = no_autodiscovery(f);
    let h = abs_all_deps(g, dir);
    let i = abs_targets(h, dir);
    let j = abs_workspace(i, dir);
    let k = abs_package_workspace(j, dir);
    let l = abs_patch(k, dir);
    let x = abs_section(l, "replace"@, "path"@, dir);
    assert(x == absolutize_spec(top, dir, hb));
    lemma_lib(top, dir);
    lemma_build(a, dir, hb);
    lemma_array_tables_ok(b, "bin"@, dir);
    lemma_array_tables_ok(c, "example"@, dir);
    lemma_array_tables_ok(d, "test"@, dir);
    lemma_array_tables_ok(e, "bench"@, dir);
    lemma_auto(f);
    lemma_deps_ok(g, dir);
    lemma_targets(h, dir);
    lemma_workspace(i, dir);
    lemma_pkgws(j, dir);
    lemma_patch(k, dir);
    lemma_section_ok(l, "replace"@, "path"@, dir);
    assert("lib"@.len() == 3 && "package"@.len() == 7 && "bin"@.len() == 3 && "example"@.len() == 7
        && "test"@.len() == 4 && "bench"@.len() == 5 && "dependencies"@.len() == 12
        && "dev-dependencies"@.len() == 16 && "build-dependencies"@.len() == 18 && "target"@.len() == 6
        && "workspace"@.len() == 9 && "patch"@.len() == 5 && "replace"@.len() == 7);
    assert("lib"@[0] != "bin"@[0] && "package"@[0] != "example"@[0] && "package"@[0] != "replace"@[0]
        && "example"@[0] != "replace"@[0] && "bench"@[0] != "patch"@[0]);
    assert("build"@.len() == 5 && "autobins"@.len() == 8 && "autoexamples"@.len() == 12
        && "autotests"@.len() == 9 && "autobenches"@.len() == 11 && "workspace"@.len() == 9);
    // Each stage's part of the result is settled where the stage runs and
    // kept by every later one.
    assert(tget(x, "lib"@) == tget(a, "lib"@));
    assert(lib_ok(x));
    assert(tget(x, "bin"@) == tget(c, "bin"@));
    assert(tget(x, "example"@) == tget(d, "example"@));
    assert(tget(x, "test"@) == tget(e, "test"@));
    assert(tget(x, "bench"@) == tget(f, "bench"@));
    assert(tget(x, "dependencies"@) == tget(h, "dependencies"@));
    assert(tget(x, "dev-dependencies"@) == tget(h, "dev-dependencies"@));
    assert(tget(x, "build-dependencies"@) == tget(h, "build-dependencies"@));
    assert(tget(x, "target"@) == tget(i, "target"@));
    assert(tget(x, "workspace"@) == tget(j, "workspace"@));
    assert(tget(x, "patch"@) == tget(l, "patch"@));
    assert(tget(x, "package"@) == tget(k, "package"@));
    if has_table(a, "package"@) {
        let pb = sub_table(b, "package"@);
        let pg = sub_table(g, "package"@);
        let pk = sub_table(k, "package"@);
        assert(tget(f, "package"@) == tget(b, "package"@));
        assert(tget(j, "package"@) == tget(g, "package"@));
        assert(tget(pg, "build"@) == tget(pb, "build"@));
        assert(build_ok(pg, hb));
        assert(tget(pk, "build"@) == tget(pg, "build"@));
        assert(build_ok(pk, hb));
        assert(tget(pk, "autobins"@) == tget(pg, "autobins"@));
        assert(tget(pk, "autoexamples"@) == tget(pg, "autoexamples"@));
        assert(tget(pk, "autotests"@) == tget(pg, "autotests"@));
        assert(tget(pk, "autobenches"@) == tget(pg, "autobenches"@));
        assert(auto_ok(pk));
        assert(package_ok(x, hb));
    } else {
        assert(!has_table(x, "package"@));
    }
    // The second pass: every stage leaves `x` as it is.
    assert(abs_lib(x, dir) == x) by {
        lemma_lib(x, dir);
    }
    assert(abs_build(x, dir, hb) == x) by {
        lemma_build(x, dir, hb);
    }
    lemma_array_tables_ok(x, "bin"@, dir);
    lemma_array_tables_ok(x, "example"@, dir);
    lemma_array_tables_ok(x, "test"@, dir);
    lemma_array_tables_ok(x, "bench"@, dir);
    assert(no_autodiscovery(x) == x) by {
        lemma_auto(x);
    }
    lemma_deps_ok(x, dir);
    lemma_targets(x, dir);
    lemma_workspace(x, dir);
    assert(abs_package_workspace(x, dir) == x) by {
        lemma_pkgws(x, dir);
    }
    lemma_patch(x, dir);
    lemma_section_ok(x, "replace"@, "path"@, dir);
}

} // verus!
