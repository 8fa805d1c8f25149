//! The rewrites that turn the upstream manifest into the overlay
//! manifest, on the library's TOML tree.
use vstd::prelude::*;
use crate::error::Error;
use crate::paths::{comps_eq, path_comps, path_components};
use crate::text::{chars_of, decimal, push_decimal, push_str, push_string, str_eq};
use crate::toml_model::{toml_tree, TomlNode, TomlSeg};
use crate::util::{forward_slashes, join_path, join_spec, to_forward_slash};
use crate::toml_doc::{
    has_table, kind_text, lemma_array_view, lemma_empty_table, lemma_put_at, lemma_table_round_trip, lemma_table_unchanged,
    lemma_table_view, lemma_tget_tput, lemma_tput_tput, lemma_tget_tput_other, lemma_tdel_unique, unique_keys,
    lemma_tindex, lemma_tview_restore, put_table_back, str_array, string_array, sub_table, take_table, tbl_del, tbl_index, tbl_put,
    tbl_restore, tbl_take, tdel, tget, tindex, toml_debug, toml_debug_text, tput, tview, value_kind_name, value_of_doc,
    matches_tree, Toml, TomlV,
};

verus! {

/// The `[package.metadata.lihaaf]` table the compat driver writes into
/// the overlay.
#[derive(Debug, Clone)]
pub struct SyntheticMetadata {
    pub dylib_crate: String,
    pub extern_crates: Vec<String>,
    pub fixture_dirs: Vec<String>,
    pub allow_lints: Vec<String>,
}

/// The metadata the compat driver uses for crate `name`: the crate is its
/// own only extern crate, and `unexpected_cfgs` is allowed.
pub fn compat_default_synthetic_metadata(name: &str, fixture_dirs: Vec<String>) -> (m: SyntheticMetadata)
    ensures
        m.dylib_crate@ == name@,
        m.extern_crates.deep_view() == seq![name@],
        m.fixture_dirs@ == fixture_dirs@,
        m.allow_lints.deep_view() == seq!["unexpected_cfgs"@],
{
    let mut extern_crates: Vec<String> = Vec::new();
    extern_crates.push(name.to_owned());
    let mut allow_lints: Vec<String> = Vec::new();
    allow_lints.push("unexpected_cfgs".to_owned());
    let m = SyntheticMetadata { dylib_crate: name.to_owned(), extern_crates, fixture_dirs, allow_lints };
    assert(m.extern_crates.deep_view() =~= seq![name@]);
    assert(m.allow_lints.deep_view() =~= seq!["unexpected_cfgs"@]);
    m
}

/// The crate types of the overlay: `dylib`, `rlib`, then the other
/// upstream entries in their first-seen order, each once.
pub open spec fn canonical_crate_types(existing: Seq<Seq<char>>) -> Seq<Seq<char>>
    decreases existing.len(),
{
    if existing.len() == 0 {
        seq!["dylib"@, "rlib"@]
    } else {
        let pre = canonical_crate_types(existing.drop_last());
        let e = existing.last();
        if e == "dylib"@ || e == "rlib"@ || pre.contains(e) {
            pre
        } else {
            pre.push(e)
        }
    }
}

/// Position of the first element that is not a string.
pub open spec fn first_non_str(items: Seq<TomlV>) -> Option<int>
    decreases items.len(),
{
    if items.len() == 0 {
        None
    } else if first_non_str(items.drop_last()) is Some {
        first_non_str(items.drop_last())
    } else if !(items.last() is Str) {
        Some(items.len() - 1)
    } else {
        None
    }
}

/// The texts of an array of strings.
pub open spec fn str_texts(items: Seq<TomlV>) -> Seq<Seq<char>> {
    Seq::new(items.len(), |i: int| items[i]->Str_0)
}

pub open spec fn non_string_crate_type_text(idx: nat) -> Seq<char> {
    "`[lib] crate-type` element at index "@ + decimal(idx)
        + " is not a string; the overlay accepts only string crate-type entries"@
}

pub open spec fn crate_type_shape_text(kind: Seq<char>) -> Seq<char> {
    "`[lib] crate-type` must be an array of strings, got `"@ + kind + "`"@
}

/// An overlay-shape error.
pub open spec fn is_overlay_error(r: Result<(), Error>, m: Seq<char>) -> bool {
    r matches Err(Error::TomlParse { path, message }) && path@ == "<overlay>"@ && message@ == m
}

/// What `canonicalize_crate_type` does to `[lib]`: either the message of
/// the refusal, or the table with its `crate-type` made canonical.
pub open spec fn crate_type_result(lib: Seq<(Seq<char>, TomlV)>) -> Result<Seq<(Seq<char>, TomlV)>, Seq<char>> {
    match tget(lib, "crate-type"@) {
        None => Ok(tput(lib, "crate-type"@, str_array(canonical_crate_types(Seq::empty())))),
        Some(TomlV::Array(items)) => match first_non_str(items) {
            Some(i) => Err(non_string_crate_type_text(i as nat)),
            None => Ok(tput(lib, "crate-type"@, str_array(canonical_crate_types(str_texts(items))))),
        },
        Some(other) => Err(crate_type_shape_text(kind_text(other))),
    }
}

fn vec_contains(v: &Vec<String>, s: &String) -> (r: bool)
    ensures
        r == v.deep_view().contains(s@),
{
    let mut i: usize = 0;
    while i < v.len()
        invariant
            i <= v@.len(),
            forall|k: int| 0 <= k < i ==> v.deep_view()[k] != s@,
        decreases v@.len() - i,
    {
        if str_eq(v[i].as_str(), s.as_str()) {
            assert(v.deep_view()[i as int] == s@);
            return true;
        }
        i = i + 1;
    }
    false
}

/// `y` is a canonical crate-type list: `dylib`, `rlib`, then distinct
/// other entries.
pub open spec fn canonical_form(y: Seq<Seq<char>>) -> bool {
    &&& y.len() >= 2
    &&& y[0] == "dylib"@
    &&& y[1] == "rlib"@
    &&& forall|i: int| 2 <= i < y.len() ==> y[i] != "dylib"@ && y[i] != "rlib"@
    &&& forall|i: int, j: int| 0 <= i < j < y.len() ==> y[i] != y[j]
}

proof fn lemma_canonical_form(x: Seq<Seq<char>>)
    ensures
        canonical_form(canonical_crate_types(x)),
    decreases x.len(),
{
    reveal_strlit("dylib");
    reveal_strlit("rlib");
    if x.len() > 0 {
        lemma_canonical_form(x.drop_last());
        let pre = canonical_crate_types(x.drop_last());
        let e = x.last();
        if !(e == "dylib"@ || e == "rlib"@ || pre.contains(e)) {
            let c = pre.push(e);
            assert forall|i: int, j: int| 0 <= i < j < c.len() implies c[i] != c[j] by {
                if j == c.len() - 1 {
                    assert(pre[i] == c[i]);
                }
            }
        }
    } else {
        assert("dylib"@.len() == 5 && "rlib"@.len() == 4);
        assert(seq!["dylib"@, "rlib"@][0] != seq!["dylib"@, "rlib"@][1]);
    }
}

proof fn lemma_canonical_prefix_fixed(y: Seq<Seq<char>>, k: int)
    requires
        canonical_form(y),
        1 <= k <= y.len(),
    ensures
        k >= 2 ==> canonical_crate_types(y.take(k)) == y.take(k),
        k == 1 ==> canonical_crate_types(y.take(k)) == y.take(2),
    decreases k,
{
    reveal_strlit("dylib");
    reveal_strlit("rlib");
    assert(y.take(k).drop_last() =~= y.take(k - 1));
    if k == 1 {
        assert(y.take(1).drop_last() =~= Seq::<Seq<char>>::empty());
        assert(canonical_crate_types(y.take(1).drop_last()) == seq!["dylib"@, "rlib"@]);
        assert(y.take(1).last() == "dylib"@);
        assert(seq!["dylib"@, "rlib"@] =~= y.take(2));
    } else {
        lemma_canonical_prefix_fixed(y, k - 1);
        if k > 2 {
            let e = y[k - 1];
            assert(!y.take(k - 1).contains(e)) by {
                let t = y.take(k - 1);
                if t.contains(e) {
                    let m = choose|m: int| 0 <= m < t.len() && #[trigger] t[m] == e;
                    assert(y[m] == y[k - 1]);
                }
            }
            assert(y.take(k - 1).push(e) =~= y.take(k));
        }
    }
}

/// The crate-type list of the overlay is its own canonical form:
/// canonicalizing it again changes nothing.
pub proof fn lemma_canonical_crate_types_idempotent(x: Seq<Seq<char>>)
    ensures
        canonical_crate_types(canonical_crate_types(x)) == canonical_crate_types(x),
{
    let y = canonical_crate_types(x);
    lemma_canonical_form(x);
    lemma_canonical_prefix_fixed(y, y.len() as int);
    assert(y.take(y.len() as int) =~= y);
}

/// Canonicalizing `[lib] crate-type` is idempotent: a second run on the
/// output is a no-op.
pub proof fn lemma_crate_type_result_idempotent(lib: Seq<(Seq<char>, TomlV)>)
    ensures
        crate_type_result(lib) matches Ok(l2) ==> crate_type_result(l2) == Ok::<Seq<(Seq<char>, TomlV)>, Seq<char>>(l2),
{
    if let Ok(l2) = crate_type_result(lib) {
        let c = match tget(lib, "crate-type"@) {
            None => canonical_crate_types(Seq::empty()),
            Some(TomlV::Array(items)) => canonical_crate_types(str_texts(items)),
            Some(_) => Seq::empty(),
        };
        assert(l2 == tput(lib, "crate-type"@, str_array(c)));
        lemma_tget_tput(lib, "crate-type"@, str_array(c));
        let items = str_array(c)->Array_0;
        lemma_first_non_str_all_strings(items);
        assert(str_texts(items) =~= c);
        lemma_canonical_crate_types_idempotent(
            match tget(lib, "crate-type"@) {
                None => Seq::empty(),
                Some(TomlV::Array(it)) => str_texts(it),
                Some(_) => Seq::empty(),
            },
        );
        lemma_tput_tput(lib, "crate-type"@, str_array(c));
    }
}

proof fn lemma_first_non_str_all_strings(items: Seq<TomlV>)
    requires
        forall|i: int| 0 <= i < items.len() ==> items[i] is Str,
    ensures
        first_non_str(items) is None,
    decreases items.len(),
{
    if items.len() > 0 {
        lemma_first_non_str_all_strings(items.drop_last());
    }
}

/// Makes `[lib] crate-type` start with `dylib`, `rlib` and keep the other
/// upstream entries once each, in order; refuses a crate-type that is not
/// an array of strings (leaving the table as it was).
pub fn canonicalize_crate_type(table: &mut Vec<(String, Toml)>) -> (r: Result<(), Error>)
    ensures
        match crate_type_result(tview(old(table)@)) {
            Ok(t) => r is Ok && tview(final(table)@) == t,
            Err(m) => is_overlay_error(r, m) && final(table)@ == old(table)@,
        },
{
    let ghost t0 = tview(table@);
    let mut existing: Vec<String> = Vec::new();
    let ghost mut items_v: Seq<TomlV> = Seq::empty();
    match tbl_index(table, "crate-type") {
        None => {},
        Some(i) => {
            match &table[i].1 {
                Toml::Array(arr) => {
                    proof {
                        lemma_array_view(*arr);
                        items_v = Seq::new(arr@.len(), |k: int| arr@[k].view_toml());
                    }
                    proof {
                        lemma_table_view(*table);
                        lemma_tindex(t0, "crate-type"@, 0);
                        assert(t0[i as int].1 == TomlV::Array(items_v));
                        assert(items_v.take(0) =~= Seq::<TomlV>::empty());
                        assert(str_texts(items_v.take(0)) =~= Seq::<Seq<char>>::empty());
                    }
                    let mut idx: usize = 0;
                    while idx < arr.len()
                        invariant
                            table@ == old(table)@,
                            t0 == tview(old(table)@),
                            tget(t0, "crate-type"@) == Some(TomlV::Array(items_v)),
                            idx <= arr@.len(),
                            items_v == Seq::new(arr@.len(), |k: int| arr@[k].view_toml()),
                            first_non_str(items_v.take(idx as int)) is None,
                            existing.deep_view() == str_texts(items_v.take(idx as int)),
                        decreases arr@.len() - idx,
                    {
                        let ghost pre = items_v.take(idx as int);
                        assert(items_v.take(idx + 1).drop_last() =~= pre);
                        match &arr[idx] {
                            Toml::Str(s) => {
                                let ghost e0 = existing.deep_view();
                                assert(items_v[idx as int] == TomlV::Str(s@));
                                existing.push(s.clone());
                                assert(items_v.take(idx + 1).last() == TomlV::Str(s@));
                                assert(existing.deep_view() =~= e0.push(s@));
                                assert(str_texts(items_v.take(idx + 1)) =~= str_texts(pre).push(s@));
                            },
                            _ => {
                                proof {
                                    assert(!(items_v[idx as int] is Str));
                                    lemma_first_non_str_prefix(items_v, idx as int);
                                }
                                let mut m = String::new();
                                push_str(&mut m, "`[lib] crate-type` element at index ");
                                push_decimal(&mut m, idx);
                                push_str(
                                    &mut m,
                                    " is not a string; the overlay accepts only string crate-type entries",
                                );
                                return Err(Error::TomlParse { path: "<overlay>".to_owned(), message: m });
                            },
                        }
                        idx = idx + 1;
                    }
                    assert(items_v.take(arr@.len() as int) =~= items_v);
                },
                other => {
                    let mut m = String::new();
                    push_str(&mut m, "`[lib] crate-type` must be an array of strings, got `");
                    push_str(&mut m, value_kind_name(other));
                    push_str(&mut m, "`");
                    return Err(Error::TomlParse { path: "<overlay>".to_owned(), message: m });
                },
            }
        },
    }
    let mut out: Vec<String> = Vec::new();
    out.push("dylib".to_owned());
    out.push("rlib".to_owned());
    assert(out.deep_view() =~= canonical_crate_types(existing.deep_view().take(0)));
    let mut j: usize = 0;
    while j < existing.len()
        invariant
            j <= existing@.len(),
            out.deep_view() == canonical_crate_types(existing.deep_view().take(j as int)),
        decreases existing@.len() - j,
    {
        let e = &existing[j];
        let ghost ev = existing.deep_view();
        assert(ev.take(j + 1).drop_last() =~= ev.take(j as int));
        assert(ev.take(j + 1).last() == e@);
        if str_eq(e.as_str(), "dylib") || str_eq(e.as_str(), "rlib") {
        } else if !vec_contains(&out, e) {
            let ghost before = out.deep_view();
            out.push(e.clone());
            assert(out.deep_view() =~= before.push(e@));
        }
        j = j + 1;
    }
    assert(existing.deep_view().take(existing@.len() as int) =~= existing.deep_view());
    let arr = string_array(&out);
    tbl_put(table, "crate-type".to_owned(), arr);
    Ok(())
}

proof fn lemma_first_non_str_prefix(items: Seq<TomlV>, i: int)
    requires
        0 <= i < items.len(),
        first_non_str(items.take(i)) is None,
        !(items[i] is Str),
    ensures
        first_non_str(items) == Some(i),
    decreases items.len(),
{
    if items.len() == i + 1 {
        assert(items.drop_last() =~= items.take(i));
    } else {
        assert(items.drop_last().take(i) =~= items.take(i));
        lemma_first_non_str_prefix(items.drop_last(), i);
    }
}

} // verus!

verus! {

/// `[lib] crate-type` of the document already lists `dylib`.
pub open spec fn declares_dylib(d: TomlV) -> bool {
    &&& d matches TomlV::Table(top)
    &&& tget(top, "lib"@) matches Some(TomlV::Table(lib))
    &&& tget(lib, "crate-type"@) matches Some(TomlV::Array(items))
    &&& exists|i: int| 0 <= i < items.len() && items[i] == TomlV::Str("dylib"@)
}

fn table_entry<'a>(es: &'a Vec<(String, Toml)>, key: &str) -> (r: Option<&'a Toml>)
    ensures
        match tget(tview(es@), key@) {
            None => r is None,
            Some(v) => r matches Some(x) && x.view_toml() == v,
        },
{
    match tbl_index(es, key) {
        None => None,
        Some(i) => Some(&es[i].1),
    }
}

/// Does the upstream manifest already declare a `dylib` crate type?
pub fn inspect_existing_crate_type(value: &Toml) -> (r: bool)
    ensures
        r == declares_dylib(value.view_toml()),
{
    let top = match value {
        Toml::Table(t) => t,
        _ => {
            return false;
        },
    };
    proof {
        lemma_table_view(*top);
    }
    let lib = match table_entry(top, "lib") {
        Some(Toml::Table(l)) => l,
        _ => {
            return false;
        },
    };
    proof {
        lemma_table_view(*lib);
    }
    let arr = match table_entry(lib, "crate-type") {
        Some(Toml::Array(a)) => a,
        _ => {
            return false;
        },
    };
    proof {
        lemma_array_view(*arr);
    }
    let ghost items = Seq::new(arr@.len(), |k: int| arr@[k].view_toml());
    let ghost tt = tview(top@);
    let ghost lt = tview(lib@);
    assert(value.view_toml() == TomlV::Table(tt));
    assert(tget(tt, "lib"@) == Some(TomlV::Table(lt)));
    assert(tget(lt, "crate-type"@) == Some(TomlV::Array(items)));
    let mut i: usize = 0;
    while i < arr.len()
        invariant
            value.view_toml() == TomlV::Table(tt),
            tget(tt, "lib"@) == Some(TomlV::Table(lt)),
            tget(lt, "crate-type"@) == Some(TomlV::Array(items)),
            i <= arr@.len(),
            items == Seq::new(arr@.len(), |k: int| arr@[k].view_toml()),
            forall|k: int| 0 <= k < i ==> items[k] != TomlV::Str("dylib"@),
        decreases arr@.len() - i,
    {
        match &arr[i] {
            Toml::Str(s) => {
                if str_eq(s.as_str(), "dylib") {
                    assert(items[i as int] == TomlV::Str("dylib"@));
                    return true;
                }
            },
            _ => {},
        }
        i = i + 1;
    }
    false
}

/// A workspace root: a `[workspace]` table and no `[package]` table.
pub open spec fn is_workspace_root(d: TomlV) -> bool {
    d matches TomlV::Table(top) && (tget(top, "workspace"@) matches Some(TomlV::Table(_))) && !(tget(
        top,
        "package"@,
    ) matches Some(TomlV::Table(_)))
}

fn is_table(v: Option<&Toml>) -> (r: bool)
    ensures
        r == (v matches Some(x) && x.view_toml() is Table),
{
    match v {
        Some(Toml::Table(_)) => true,
        _ => false,
    }
}

pub fn is_workspace_root_manifest(value: &Toml) -> (r: bool)
    ensures
        r == is_workspace_root(value.view_toml()),
{
    match value {
        Toml::Table(top) => {
            proof {
                lemma_table_view(*top);
            }
            let ws = is_table(table_entry(top, "workspace"));
            let pkg = is_table(table_entry(top, "package"));
            ws && !pkg
        },
        _ => false,
    }
}

/// The upstream `[package].name` when it is a non-empty string.
pub open spec fn upstream_name(d: TomlV) -> Option<Seq<char>> {
    match d {
        TomlV::Table(top) => match tget(top, "package"@) {
            Some(TomlV::Table(p)) => match tget(p, "name"@) {
                Some(TomlV::Str(s)) => if s.len() > 0 {
                    Some(s)
                } else {
                    None
                },
                _ => None,
            },
            _ => None,
        },
        _ => None,
    }
}

pub fn read_upstream_crate_name(value: &Toml) -> (r: Option<String>)
    ensures
        match upstream_name(value.view_toml()) {
            None => r is None,
            Some(n) => r matches Some(s) && s@ == n,
        },
{
    let top = match value {
        Toml::Table(t) => t,
        _ => {
            return None;
        },
    };
    proof {
        lemma_table_view(*top);
    }
    let pkg = match table_entry(top, "package") {
        Some(Toml::Table(p)) => p,
        _ => {
            return None;
        },
    };
    proof {
        lemma_table_view(*pkg);
    }
    match table_entry(pkg, "name") {
        Some(Toml::Str(s)) => {
            let cs = crate::text::chars_of(s.as_str());
            if cs.len() > 0 {
                Some(s.clone())
            } else {
                None
            }
        },
        _ => None,
    }
}

} // verus!

verus! {

/// The `[package.metadata.lihaaf]` table for `m`.
pub open spec fn lihaaf_table_view(m: SyntheticMetadata) -> TomlV {
    TomlV::Table(
        seq![
            ("dylib_crate"@, TomlV::Str(m.dylib_crate@)),
            ("extern_crates"@, str_array(m.extern_crates.deep_view())),
            ("fixture_dirs"@, str_array(m.fixture_dirs.deep_view())),
            ("allow_lints"@, str_array(m.allow_lints.deep_view())),
        ],
    )
}

/// `top` with `[package.metadata.lihaaf]` replaced by the table for `m`,
/// creating `[package]` and `[package.metadata]` when absent; a
/// `package` or `metadata` entry that is not a table leaves `top` as it
/// was.
pub open spec fn inject_spec(top: Seq<(Seq<char>, TomlV)>, m: SyntheticMetadata) -> Seq<(Seq<char>, TomlV)> {
    if tget(top, "package"@) is Some && !has_table(top, "package"@) {
        top
    } else {
        let p = sub_table(top, "package"@);
        if tget(p, "metadata"@) is Some && !has_table(p, "metadata"@) {
            top
        } else {
            let md = sub_table(p, "metadata"@);
            tput(top, "package"@, TomlV::Table(tput(p, "metadata"@, TomlV::Table(tput(md, "lihaaf"@, lihaaf_table_view(m))))))
        }
    }
}

fn lihaaf_table(m: &SyntheticMetadata) -> (t: Toml)
    ensures
        t.view_toml() == lihaaf_table_view(*m),
{
    let mut es: Vec<(String, Toml)> = Vec::new();
    es.push(("dylib_crate".to_owned(), Toml::Str(m.dylib_crate.clone())));
    es.push(("extern_crates".to_owned(), string_array(&m.extern_crates)));
    es.push(("fixture_dirs".to_owned(), string_array(&m.fixture_dirs)));
    es.push(("allow_lints".to_owned(), string_array(&m.allow_lints)));
    proof {
        lemma_table_view(es);
        assert(tview(es@) =~= lihaaf_table_view(*m)->Table_0);
    }
    Toml::Table(es)
}

/// Puts `m` at `metadata.lihaaf` inside the package table `p`; false (and
/// `p` unchanged) when `metadata` is there but not a table.
fn inject_into_package(p: &mut Vec<(String, Toml)>, m: &SyntheticMetadata) -> (ok: bool)
    ensures
        ok == !(tget(tview(old(p)@), "metadata"@) is Some && !has_table(tview(old(p)@), "metadata"@)),
        ok ==> tview(final(p)@) == tput(
            tview(old(p)@),
            "metadata"@,
            TomlV::Table(tput(sub_table(tview(old(p)@), "metadata"@), "lihaaf"@, lihaaf_table_view(*m))),
        ),
        !ok ==> final(p)@ == old(p)@,
{
    let ghost p0 = p@;
    match take_table(p, "metadata") {
        Some((j, k, mut md)) => {
            let lt = lihaaf_table(m);
            tbl_put(&mut md, "lihaaf".to_owned(), lt);
            proof {
                lemma_table_round_trip(p0, "metadata"@, j as int, k, md);
            }
            put_table_back(p, j, k, md);
            true
        },
        None => {
            if tbl_index(p, "metadata").is_some() {
                return false;
            }
            let mut md: Vec<(String, Toml)> = Vec::new();
            proof {
                lemma_empty_table();
            }
            let lt = lihaaf_table(m);
            tbl_put(&mut md, "lihaaf".to_owned(), lt);
            proof {
                lemma_table_view(md);
            }
            tbl_put(p, "metadata".to_owned(), Toml::Table(md));
            true
        },
    }
}

/// Writes the synthetic `[package.metadata.lihaaf]` table into the
/// manifest, replacing any upstream one (see [`inject_spec`]).
pub fn inject_synthetic_metadata(top: &mut Vec<(String, Toml)>, meta: &SyntheticMetadata)
    ensures
        tview(final(top)@) == inject_spec(tview(old(top)@), *meta),
{
    let ghost t0 = top@;
    match take_table(top, "package") {
        Some((i, k, mut p)) => {
            let ghost p_orig = p;
            let ok = inject_into_package(&mut p, meta);
            if ok {
                proof {
                    lemma_table_round_trip(t0, "package"@, i as int, k, p);
                }
                put_table_back(top, i, k, p);
            } else {
                proof {
                    lemma_table_unchanged(t0, i as int, k, p_orig, p);
                }
                put_table_back(top, i, k, p);
            }
        },
        None => {
            if tbl_index(top, "package").is_some() {
                return;
            }
            let mut p: Vec<(String, Toml)> = Vec::new();
            proof {
                lemma_empty_table();
            }
            let ok = inject_into_package(&mut p, meta);
            proof {
                lemma_table_view(p);
            }
            tbl_put(top, "package".to_owned(), Toml::Table(p));
        },
    }
}

} // verus!

verus! {

/// `{ workspace = true }`: a table whose `workspace` is `true`.
pub open spec fn is_inherited(v: TomlV) -> bool {
    v matches TomlV::Table(t) && tget(t, "workspace"@) == Some(TomlV::Bool(true))
}

/// Some entry's value is inherited.
pub open spec fn any_inherited(es: Seq<(Seq<char>, TomlV)>) -> bool {
    exists|i: int| 0 <= i < es.len() && is_inherited(#[trigger] es[i].1)
}

/// The dependency table under `key` inherits an entry.
pub open spec fn deps_inherit(t: Seq<(Seq<char>, TomlV)>, key: Seq<char>) -> bool {
    tget(t, key) matches Some(TomlV::Table(d)) && any_inherited(d)
}

/// One of the three dependency tables of `t` inherits an entry.
pub open spec fn any_deps_inherit(t: Seq<(Seq<char>, TomlV)>) -> bool {
    deps_inherit(t, "dependencies"@) || deps_inherit(t, "dev-dependencies"@) || deps_inherit(
        t,
        "build-dependencies"@,
    )
}

/// The manifest uses workspace inheritance: in a `[package]` field other
/// than `workspace`, in a dependency table (also under `[target.<cfg>]`),
/// or in `[lints]` (`workspace = true` or an inherited lint table).
pub open spec fn has_inheritance(top: Seq<(Seq<char>, TomlV)>) -> bool {
    package_inherits(top) || any_deps_inherit(top) || target_inherits(top) || lints_inherit(top)
}

fn inherited(v: &Toml) -> (r: bool)
    ensures
        r == is_inherited(v.view_toml()),
{
    match v {
        Toml::Table(t) => {
            proof {
                lemma_table_view(*t);
            }
            match table_entry(t, "workspace") {
                Some(Toml::Bool(b)) => *b,
                _ => false,
            }
        },
        _ => false,
    }
}

fn any_inherited_exec(es: &Vec<(String, Toml)>) -> (r: bool)
    ensures
        r == any_inherited(tview(es@)),
{
    let ghost tv = tview(es@);
    let mut i: usize = 0;
    while i < es.len()
        invariant
            tv == tview(es@),
            i <= es@.len(),
            forall|k: int| 0 <= k < i ==> !is_inherited(#[trigger] tv[k].1),
        decreases es@.len() - i,
    {
        if inherited(&es[i].1) {
            assert(is_inherited(tv[i as int].1));
            return true;
        }
        i = i + 1;
    }
    false
}

fn deps_inherit_exec(t: &Vec<(String, Toml)>, key: &str) -> (r: bool)
    ensures
        r == deps_inherit(tview(t@), key@),
{
    match table_entry(t, key) {
        Some(Toml::Table(d)) => {
            proof {
                lemma_table_view(*d);
            }
            any_inherited_exec(d)
        },
        _ => false,
    }
}

fn any_deps_inherit_exec(t: &Vec<(String, Toml)>) -> (r: bool)
    ensures
        r == any_deps_inherit(tview(t@)),
{
    deps_inherit_exec(t, "dependencies") || deps_inherit_exec(t, "dev-dependencies") || deps_inherit_exec(
        t,
        "build-dependencies",
    )
}

pub open spec fn package_inherits(top: Seq<(Seq<char>, TomlV)>) -> bool {
    has_table(top, "package"@) && exists|i: int|
        0 <= i < sub_table(top, "package"@).len() && (#[trigger] sub_table(top, "package"@)[i]).0 != "workspace"@
            && is_inherited(sub_table(top, "package"@)[i].1)
}

pub open spec fn target_inherits(top: Seq<(Seq<char>, TomlV)>) -> bool {
    has_table(top, "target"@) && exists|i: int|
        0 <= i < sub_table(top, "target"@).len() && ((#[trigger] sub_table(top, "target"@)[i]).1 matches TomlV::Table(
            c,
        ) && any_deps_inherit(c))
}

pub open spec fn lints_inherit(top: Seq<(Seq<char>, TomlV)>) -> bool {
    tget(top, "lints"@) matches Some(TomlV::Table(l)) && (tget(l, "workspace"@) == Some(TomlV::Bool(true))
        || any_inherited(l))
}

fn package_inherits_exec(top: &Vec<(String, Toml)>) -> (r: bool)
    ensures
        r == package_inherits(tview(top@)),
{
    match table_entry(top, "package") {
        Some(Toml::Table(p)) => {
            proof {
                lemma_table_view(*p);
            }
            let ghost pv = tview(p@);
            let ghost tt = tview(top@);
            assert(tget(tt, "package"@) == Some(TomlV::Table(pv)));
            let mut i: usize = 0;
            while i < p.len()
                invariant
                    pv == tview(p@),
                    tget(tt, "package"@) == Some(TomlV::Table(pv)),
                    tt == tview(top@),
                    i <= p@.len(),
                    forall|k: int| 0 <= k < i ==> !((#[trigger] pv[k]).0 != "workspace"@ && is_inherited(pv[k].1)),
                decreases p@.len() - i,
            {
                if !str_eq(p[i].0.as_str(), "workspace") && inherited(&p[i].1) {
                    assert(sub_table(tt, "package"@) == pv);
                    assert(sub_table(tt, "package"@)[i as int].0 != "workspace"@ && is_inherited(
                        sub_table(tt, "package"@)[i as int].1,
                    ));
                    return true;
                }
                i = i + 1;
            }
            false
        },
        _ => false,
    }
}

fn target_inherits_exec(top: &Vec<(String, Toml)>) -> (r: bool)
    ensures
        r == target_inherits(tview(top@)),
{
    match table_entry(top, "target") {
        Some(Toml::Table(ts)) => {
            proof {
                lemma_table_view(*ts);
            }
            let ghost tsv = tview(ts@);
            let ghost tt = tview(top@);
            assert(tget(tt, "target"@) == Some(TomlV::Table(tsv)));
            let mut i: usize = 0;
            while i < ts.len()
                invariant
                    tsv == tview(ts@),
                    tget(tt, "target"@) == Some(TomlV::Table(tsv)),
                    tt == tview(top@),
                    i <= ts@.len(),
                    forall|k: int|
                        0 <= k < i ==> !((#[trigger] tsv[k]).1 matches TomlV::Table(c) && any_deps_inherit(c)),
                decreases ts@.len() - i,
            {
                match &ts[i].1 {
                    Toml::Table(c) => {
                        proof {
                            lemma_table_view(*c);
                        }
                        if any_deps_inherit_exec(c) {
                            assert(sub_table(tt, "target"@) == tsv);
                            assert(sub_table(tt, "target"@)[i as int].1 matches TomlV::Table(c2) && any_deps_inherit(
                                c2,
                            ));
                            return true;
                        }
                    },
                    _ => {},
                }
                i = i + 1;
            }
            false
        },
        _ => false,
    }
}

fn lints_inherit_exec(top: &Vec<(String, Toml)>) -> (r: bool)
    ensures
        r == lints_inherit(tview(top@)),
{
    match table_entry(top, "lints") {
        Some(Toml::Table(l)) => {
            proof {
                lemma_table_view(*l);
            }
            let ws_true = match table_entry(l, "workspace") {
                Some(Toml::Bool(b)) => *b,
                _ => false,
            };
            ws_true || any_inherited_exec(l)
        },
        _ => false,
    }
}

/// Does the manifest use workspace inheritance (see [`has_inheritance`])?
pub fn manifest_has_inheritance_reference(top: &Vec<(String, Toml)>) -> (r: bool)
    ensures
        r == has_inheritance(tview(top@)),
{
    package_inherits_exec(top) || any_deps_inherit_exec(top) || target_inherits_exec(top) || lints_inherit_exec(top)
}

pub const EXPLICIT_MEMBER_HEAD: &'static str = "error: `--compat-root` `";

pub const EXPLICIT_MEMBER_TAIL: &'static str = "` is a workspace member: `[package].workspace = \"...\"` declares membership in an ancestor workspace, which compat mode cannot reach. Compat mode currently supports only single-crate manifests and workspace-root manifests (where `[workspace]` lives in the same Cargo.toml). Pass the workspace-ROOT Cargo.toml as `--compat-root` instead; it will still resolve `{ workspace = true }` references in its own manifest because `[workspace.dependencies]` / `[workspace.package]` / `[workspace.lints]` are preserved in the staged overlay.";

pub const ANCESTOR_MEMBER_MID: &'static str = "` is an implicit workspace member: it has no local `[workspace]` table but an ancestor manifest at `";

pub const ANCESTOR_MEMBER_ROOT: &'static str = "` carries `[workspace]`. Cargo's baseline build walks up the filesystem and would apply the ancestor's `[patch]` / `[replace]` / `[profile]` / `resolver` / `[workspace.dependencies]` tables during dependency resolution, but the lihaaf overlay declares its own `[workspace]` and terminates cargo's walk-up at the staged manifest — producing a divergent dependency graph and false compat verdicts. Compat mode currently cannot copy the ancestor workspace state down into the overlay. Either invoke `cargo lihaaf --compat` from the workspace ROOT (`";

pub const ANCESTOR_MEMBER_TAIL: &'static str = "` or its containing directory), or restructure the fork so the crate-under-test has no ancestor workspace.";

pub const INHERITING_MEMBER_TAIL: &'static str = "` is an implicit workspace member: it has no local `[workspace]` table but uses workspace inheritance (one or more `{ workspace = true }` references in `[package]` / `[dependencies]` / `[dev-dependencies]` / `[build-dependencies]` / `[target.<cfg>.<deps>]` / `[lints]`). Cargo discovers the ancestor workspace by walking up the filesystem, but compat mode cannot reach into that ancestor to copy down the `[workspace.dependencies]` / `[workspace.package]` / `[workspace.lints]` tables the inheritance references resolve against. Pass the workspace-ROOT Cargo.toml as `--compat-root` instead; the staged overlay preserves its `[workspace.*]` inheritance tables verbatim.";

pub open spec fn explicit_member_text(path: Seq<char>) -> Seq<char> {
    EXPLICIT_MEMBER_HEAD@ + path + EXPLICIT_MEMBER_TAIL@
}

pub open spec fn ancestor_member_text(path: Seq<char>, ancestor: Seq<char>) -> Seq<char> {
    EXPLICIT_MEMBER_HEAD@ + path + ANCESTOR_MEMBER_MID@ + ancestor + ANCESTOR_MEMBER_ROOT@ + ancestor + ANCESTOR_MEMBER_TAIL@
}

pub open spec fn inheriting_member_text(path: Seq<char>) -> Seq<char> {
    EXPLICIT_MEMBER_HEAD@ + path + INHERITING_MEMBER_TAIL@
}

/// The membership keys the overlay drops from `[workspace]`.
pub open spec fn without_membership(ws: Seq<(Seq<char>, TomlV)>) -> Seq<(Seq<char>, TomlV)> {
    tdel(tdel(tdel(ws, "members"@), "exclude"@), "default-members"@)
}

/// What `override_workspace_inheritance` does: the message of the refusal
/// for a workspace member, or the manifest as its own workspace root
/// (upstream `[workspace]` kept without its membership keys, or an empty
/// one). `ancestor` is the nearest ancestor manifest with a `[workspace]`,
/// consulted only for a manifest without a local one.
pub open spec fn override_spec(
    top: Seq<(Seq<char>, TomlV)>,
    path: Seq<char>,
    ancestor: Option<Seq<char>>,
) -> Result<Seq<(Seq<char>, TomlV)>, Seq<char>> {
    if tget(top, "package"@) matches Some(TomlV::Table(p)) && tindex(p, "workspace"@, 0) is Some {
        Err(explicit_member_text(path))
    } else if !has_table(top, "workspace"@) && ancestor is Some {
        Err(ancestor_member_text(path, ancestor->0))
    } else if !has_table(top, "workspace"@) && has_inheritance(top) {
        Err(inheriting_member_text(path))
    } else {
        Ok(tput(top, "workspace"@, TomlV::Table(without_membership(sub_table(top, "workspace"@)))))
    }
}

/// Overriding the workspace is idempotent: a second call on
/// already-overridden output changes nothing, whatever the ancestor
/// search answers, for a `[workspace]` table that holds each key once
/// (as every parsed TOML table does).
pub proof fn lemma_override_idempotent(
    top: Seq<(Seq<char>, TomlV)>,
    path: Seq<char>,
    ancestor: Option<Seq<char>>,
    ancestor_again: Option<Seq<char>>,
)
    requires
        unique_keys(sub_table(top, "workspace"@)),
    ensures
        override_spec(top, path, ancestor) matches Ok(t2) ==> override_spec(t2, path, ancestor_again) == Ok::<
            Seq<(Seq<char>, TomlV)>,
            Seq<char>,
        >(t2),
{
    reveal_strlit("package");
    reveal_strlit("workspace");
    if let Ok(t2) = override_spec(top, path, ancestor) {
        let w = sub_table(top, "workspace"@);
        let w1 = tdel(w, "members"@);
        let w2 = tdel(w1, "exclude"@);
        let w3 = tdel(w2, "default-members"@);
        lemma_tdel_unique(w, "members"@);
        lemma_tdel_unique(w1, "exclude"@);
        lemma_tdel_unique(w2, "default-members"@);
        assert(tindex(w3, "members"@, 0) is None);
        assert(tindex(w3, "exclude"@, 0) is None);
        assert(without_membership(w3) == w3);
        assert("package"@.len() == 7 && "workspace"@.len() == 9);
        lemma_tget_tput_other(top, "workspace"@, TomlV::Table(w3), "package"@);
        lemma_tget_tput(top, "workspace"@, TomlV::Table(w3));
        lemma_tput_tput(top, "workspace"@, TomlV::Table(w3));
    }
}

/// Tables with the same keys in the same places find a key at the same place.
pub proof fn lemma_tindex_same_keys(a: Seq<(Seq<char>, TomlV)>, b: Seq<(Seq<char>, TomlV)>, k: Seq<char>, i: int)
    requires
        a.len() == b.len(),
        forall|j: int| 0 <= j < a.len() ==> a[j].0 == b[j].0,
    ensures
        tindex(a, k, i) == tindex(b, k, i),
    decreases a.len() - i,
{
    if 0 <= i < a.len() && a[i].0 != k {
        lemma_tindex_same_keys(a, b, k, i + 1);
    }
}

/// Declares the overlay its own workspace root, keeping the upstream
/// `[workspace]` inheritance tables; refuses a workspace member. The
/// nearest ancestor workspace manifest (`ancestor`, or the error met
/// looking for it) matters only when the manifest has no `[workspace]`.
pub fn override_workspace_inheritance(
    top: &mut Vec<(String, Toml)>,
    upstream_manifest_path: &str,
    ancestor: Result<Option<String>, Error>,
) -> (r: Result<(), Error>)
    ensures
        ({
            let t0 = tview(old(top)@);
            let explicit = tget(t0, "package"@) matches Some(TomlV::Table(p)) && tindex(p, "workspace"@, 0) is Some;
            if !explicit && !has_table(t0, "workspace"@) && ancestor is Err {
                r == Err::<(), Error>(ancestor->Err_0) && final(top)@ == old(top)@
            } else {
                let anc = match ancestor {
                    Ok(a) => match a {
                        Some(s) => Some(s@),
                        None => None,
                    },
                    Err(_) => None,
                };
                match override_spec(t0, upstream_manifest_path@, anc) {
                    Ok(t) => r is Ok && tview(final(top)@) == t,
                    Err(m) => r matches Err(e) && crate::cli::is_cli_error(e, m) && final(top)@ == old(top)@,
                }
            }
        }),
{
    let explicit = match table_entry(top, "package") {
        Some(Toml::Table(p)) => {
            proof {
                lemma_table_view(*p);
            }
            tbl_index(p, "workspace").is_some()
        },
        _ => false,
    };
    if explicit {
        let mut m = String::new();
        push_str(&mut m, EXPLICIT_MEMBER_HEAD);
        push_str(&mut m, upstream_manifest_path);
        push_str(&mut m, EXPLICIT_MEMBER_TAIL);
        return Err(Error::Cli { clap_exit_code: 2, message: m });
    }
    let has_local = is_table(table_entry(top, "workspace"));
    if !has_local {
        match ancestor {
            Err(e) => {
                return Err(e);
            },
            Ok(Some(a)) => {
                let mut m = String::new();
                push_str(&mut m, EXPLICIT_MEMBER_HEAD);
                push_str(&mut m, upstream_manifest_path);
                push_str(&mut m, ANCESTOR_MEMBER_MID);
                push_string(&mut m, &a);
                push_str(&mut m, ANCESTOR_MEMBER_ROOT);
                push_string(&mut m, &a);
                push_str(&mut m, ANCESTOR_MEMBER_TAIL);
                return Err(Error::Cli { clap_exit_code: 2, message: m });
            },
            Ok(None) => {},
        }
        if manifest_has_inheritance_reference(top) {
            let mut m = String::new();
            push_str(&mut m, EXPLICIT_MEMBER_HEAD);
            push_str(&mut m, upstream_manifest_path);
            push_str(&mut m, INHERITING_MEMBER_TAIL);
            return Err(Error::Cli { clap_exit_code: 2, message: m });
        }
    }
    let ghost t0 = tview(top@);
    let ghost orig = top@;
    let mut ws: Vec<(String, Toml)> = match take_table(top, "workspace") {
        Some((i, k, t)) => {
            let placeholder = Toml::Table(Vec::new());
            let ghost ph = placeholder;
            tbl_restore(top, i, (k, placeholder));
            proof {
                lemma_tview_restore(orig, i as int, k, ph);
                lemma_tindex_same_keys(t0, tview(top@), "workspace"@, 0);
            }
            t
        },
        None => Vec::new(),
    };
    proof {
        lemma_empty_table();
    }
    tbl_del(&mut ws, "members");
    tbl_del(&mut ws, "exclude");
    tbl_del(&mut ws, "default-members");
    proof {
        lemma_table_view(ws);
    }
    tbl_put(top, "workspace".to_owned(), Toml::Table(ws));
    Ok(())
}

} // verus!

verus! {

pub const INJECT_HEAD: &'static str = "lihaaf would inject [patch.crates-io.";

pub const INJECT_PATH: &'static str = "] = { path = \"";

pub const REMAP_REFUSED_TAIL: &'static str = "\" } (Rule 1 INJECT) or remap an upstream self-patch to that path (Rule 2 REMAP), but the upstream's existing entry declares an external target (vendored fork, git source, or non-root path). To opt into overwriting, use --compat-allow-patch-override (deferred to v0.2 / v1.1; see issues #40 + #47 for tracking).";

pub const NOT_TABLE_TAIL: &'static str = "\" } (Rule 1 INJECT), but the upstream's existing entry is not a table — cargo requires `[patch.crates-io.<X>] = { ... }`.";

/// Why an upstream self-patch to an external target is kept out, with
/// what lihaaf would have written.
pub open spec fn resolution_text(name: Seq<char>, staged: Seq<char>, tail: Seq<char>) -> Seq<char> {
    INJECT_HEAD@ + name + INJECT_PATH@ + staged + tail
}

/// The entry lihaaf writes: `{ path = "<staged overlay dir>" }`.
pub open spec fn staged_entry(staged: Seq<char>) -> TomlV {
    TomlV::Table(seq![("path"@, TomlV::Str(staged))])
}

/// The entry names a git source.
pub open spec fn has_git_keys(e: Seq<(Seq<char>, TomlV)>) -> bool {
    tindex(e, "git"@, 0) is Some || tindex(e, "branch"@, 0) is Some || tindex(e, "tag"@, 0) is Some || tindex(
        e,
        "rev"@,
        0,
    ) is Some
}

/// An upstream self-patch to the crate's own root: a `path` (no git keys)
/// that names the upstream directory once `.` components are dropped.
pub open spec fn patches_to_root(e: Seq<(Seq<char>, TomlV)>, dir: Seq<char>) -> bool {
    &&& tget(e, "path"@) matches Some(TomlV::Str(p))
    &&& !has_git_keys(e)
    &&& path_comps(join_spec(dir, tget(e, "path"@)->Some_0->Str_0)) == path_comps(dir)
}

/// `r` is the conflict error for crate `name` whose upstream entry is `v`.
pub open spec fn is_conflict(r: Result<(), Error>, name: Seq<char>, v: TomlV, resolution: Seq<char>) -> bool {
    &&& r is Err
    &&& r->Err_0 is CompatPatchOverrideConflict
    &&& r->Err_0->CompatPatchOverrideConflict_crate_name@ == name
    &&& r->Err_0->CompatPatchOverrideConflict_expected_resolution@ == resolution
    &&& exists|t: Map<Seq<TomlSeg>, TomlNode>|
        matches_tree(v, t) && r->Err_0->CompatPatchOverrideConflict_upstream_entry@ == #[trigger] toml_debug(t)
}

/// `top` with `[patch.crates-io.<name>]` set to `v`, creating the two
/// tables when absent.
pub open spec fn put_patch(top: Seq<(Seq<char>, TomlV)>, name: Seq<char>, v: TomlV) -> Seq<(Seq<char>, TomlV)> {
    let p = sub_table(top, "patch"@);
    let c = sub_table(p, "crates-io"@);
    tput(top, "patch"@, TomlV::Table(tput(p, "crates-io"@, TomlV::Table(tput(c, name, v)))))
}

fn put_in_table_at(es: &mut Vec<(String, Toml)>, key: &str, name: String, v: Toml)
    requires
        !(tget(tview(old(es)@), key@) is Some && !has_table(tview(old(es)@), key@)),
    ensures
        tview(final(es)@) == tput(
            tview(old(es)@),
            key@,
            TomlV::Table(tput(sub_table(tview(old(es)@), key@), name@, v.view_toml())),
        ),
{
    let ghost e0 = es@;
    match take_table(es, key) {
        Some((i, k, mut t)) => {
            tbl_put(&mut t, name, v);
            proof {
                lemma_table_round_trip(e0, key@, i as int, k, t);
            }
            put_table_back(es, i, k, t);
        },
        None => {
            let mut t: Vec<(String, Toml)> = Vec::new();
            proof {
                lemma_empty_table();
            }
            tbl_put(&mut t, name, v);
            proof {
                lemma_table_view(t);
            }
            tbl_put(es, key.to_owned(), Toml::Table(t));
        },
    }
}

/// Why the self-patch policy refuses a manifest.
pub enum PatchRefusal {
    /// `[patch]` or `[patch.crates-io]` is not a table (the message).
    NotTable(Seq<char>),
    /// The crate's own entry names another target: the crate, the
    /// upstream entry, and the resolution lihaaf would have written.
    Conflict(Seq<char>, TomlV, Seq<char>),
}

/// What the self-patch policy makes of manifest `t0` for crate `name`
/// (see [`apply_self_patch_policy`]).
pub open spec fn self_patch_spec(
    t0: Seq<(Seq<char>, TomlV)>,
    name: Option<Seq<char>>,
    upstream_dir: Seq<char>,
    staged_overlay_dir: Seq<char>,
) -> Result<Seq<(Seq<char>, TomlV)>, PatchRefusal> {
    match name {
        None => Ok(t0),
        Some(n) => if n.len() == 0 {
            Ok(t0)
        } else {
            let staged = forward_slashes(staged_overlay_dir);
            let p = sub_table(t0, "patch"@);
            let c = sub_table(p, "crates-io"@);
            if tget(t0, "patch"@) is Some && !has_table(t0, "patch"@) {
                Err(PatchRefusal::NotTable("`[patch]` must be a table"@))
            } else if tget(p, "crates-io"@) is Some && !has_table(p, "crates-io"@) {
                Err(PatchRefusal::NotTable("`[patch.crates-io]` must be a table"@))
            } else {
                match tget(c, n) {
                    None => Ok(put_patch(t0, n, staged_entry(staged))),
                    Some(TomlV::Table(e)) => if patches_to_root(e, upstream_dir) {
                        Ok(put_patch(t0, n, staged_entry(staged)))
                    } else {
                        Err(
                            PatchRefusal::Conflict(
                                n,
                                TomlV::Table(e),
                                resolution_text(n, staged, REMAP_REFUSED_TAIL@),
                            ),
                        )
                    },
                    Some(v) => Err(PatchRefusal::Conflict(n, v, resolution_text(n, staged, NOT_TABLE_TAIL@))),
                }
            }
        },
    }
}

/// `r` is the error the self-patch policy gives for refusal `f`.
pub open spec fn patch_refused(r: Result<(), Error>, f: PatchRefusal) -> bool {
    match f {
        PatchRefusal::NotTable(m) => is_overlay_error(r, m),
        PatchRefusal::Conflict(n, v, res) => is_conflict(r, n, v, res),
    }
}

/// The crate name as text.
pub open spec fn name_view(name: Option<&str>) -> Option<Seq<char>> {
    match name {
        Some(n) => Some(n@),
        None => None,
    }
}

/// The self-patch policy for `[patch.crates-io.<crate>]`: with no entry
/// for the crate, one pointing at the staged overlay is added; an entry
/// that patches to the upstream root is pointed there instead; any other
/// entry is refused. A `[patch]` or `[patch.crates-io]` that is not a
/// table is refused. Nothing happens without a (non-empty) crate name.
/// Refusals leave the manifest as it was.
pub fn apply_self_patch_policy(
    top: &mut Vec<(String, Toml)>,
    upstream_crate_name: Option<&str>,
    upstream_dir: &str,
    staged_overlay_dir: &str,
) -> (r: Result<(), Error>)
    ensures
        match self_patch_spec(tview(old(top)@), name_view(upstream_crate_name), upstream_dir@, staged_overlay_dir@) {
            Ok(t) => r is Ok && tview(final(top)@) == t,
            Err(f) => patch_refused(r, f) && final(top)@ == old(top)@,
        },
{
    let self_name = match upstream_crate_name {
        None => {
            return Ok(());
        },
        Some(n) => n,
    };
    let nc = chars_of(self_name);
    if nc.len() == 0 {
        return Ok(());
    }
    let staged = to_forward_slash(staged_overlay_dir);
    let ghost t0 = tview(top@);
    let patch = table_entry(top, "patch");
    let mut conflict: Option<(bool, String)> = None;
    match patch {
        Some(Toml::Table(p)) => {
            proof {
                lemma_table_view(*p);
            }
            match table_entry(p, "crates-io") {
                Some(Toml::Table(c)) => {
                    proof {
                        lemma_table_view(*c);
                    }
                    match table_entry(c, self_name) {
                        None => {},
                        Some(entry) => {
                            let value = value_of_doc(entry);
                            let dbg = toml_debug_text(&value);
                            match entry {
                                Toml::Table(e) => {
                                    proof {
                                        lemma_table_view(*e);
                                    }
                                    if !remaps_to_root(e, upstream_dir) {
                                        conflict = Some((true, dbg));
                                    }
                                },
                                _ => {
                                    conflict = Some((false, dbg));
                                },
                            }
                        },
                    }
                },
                Some(_) => {
                    let mut m = String::new();
                    push_str(&mut m, "`[patch.crates-io]` must be a table");
                    return Err(Error::TomlParse { path: "<overlay>".to_owned(), message: m });
                },
                None => {},
            }
        },
        Some(_) => {
            let mut m = String::new();
            push_str(&mut m, "`[patch]` must be a table");
            return Err(Error::TomlParse { path: "<overlay>".to_owned(), message: m });
        },
        None => {},
    }
    match conflict {
        Some((is_tbl, upstream_entry)) => {
            let mut res = String::new();
            push_str(&mut res, INJECT_HEAD);
            push_str(&mut res, self_name);
            push_str(&mut res, INJECT_PATH);
            push_string(&mut res, &staged);
            if is_tbl {
                push_str(&mut res, REMAP_REFUSED_TAIL);
            } else {
                push_str(&mut res, NOT_TABLE_TAIL);
            }
            return Err(
                Error::CompatPatchOverrideConflict {
                    crate_name: self_name.to_owned(),
                    upstream_entry,
                    expected_resolution: res,
                },
            );
        },
        None => {},
    }
    let mut entry: Vec<(String, Toml)> = Vec::new();
    proof {
        lemma_empty_table();
    }
    tbl_put(&mut entry, "path".to_owned(), Toml::Str(staged));
    proof {
        lemma_table_view(entry);
        assert(tview(entry@) =~= seq![("path"@, TomlV::Str(forward_slashes(staged_overlay_dir@)))]);
    }
    let entry_value = Toml::Table(entry);
    let ghost ev = entry_value.view_toml();
    let ghost p0 = sub_table(t0, "patch"@);
    match take_table(top, "patch") {
        Some((i, k, mut p)) => {
            let ghost orig = top@;
            put_in_table_at(&mut p, "crates-io", self_name.to_owned(), entry_value);
            proof {
                lemma_table_round_trip(old(top)@, "patch"@, i as int, k, p);
            }
            put_table_back(top, i, k, p);
        },
        None => {
            let mut p: Vec<(String, Toml)> = Vec::new();
            proof {
                lemma_empty_table();
            }
            put_in_table_at(&mut p, "crates-io", self_name.to_owned(), entry_value);
            proof {
                lemma_table_view(p);
            }
            tbl_put(top, "patch".to_owned(), Toml::Table(p));
        },
    }
    Ok(())
}

fn remaps_to_root(e: &Vec<(String, Toml)>, upstream_dir: &str) -> (r: bool)
    ensures
        r == patches_to_root(tview(e@), upstream_dir@),
{
    let git = tbl_index(e, "git").is_some() || tbl_index(e, "branch").is_some() || tbl_index(e, "tag").is_some()
        || tbl_index(e, "rev").is_some();
    match table_entry(e, "path") {
        Some(Toml::Str(p)) => {
            if git {
                return false;
            }
            let joined = join_path(upstream_dir, p.as_str());
            let a = path_components(joined.as_str());
            let b = path_components(upstream_dir);
            comps_eq(&a, &b)
        },
        _ => false,
    }
}

} // verus!
