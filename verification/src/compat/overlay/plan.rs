//! The stages between the upstream `Cargo.toml` text and the staged
//! overlay manifest: reading, the `[lib]` rewrite, path absolutization,
//! the self-patch policy, the synthetic metadata, the workspace override
//! and serialization. Reading and writing files is the caller's part.
use vstd::prelude::*;
use crate::cli::is_cli_error;
use crate::compat::overlay::manifest::{
    crate_type_result, declares_dylib, inject_spec, inject_synthetic_metadata, inspect_existing_crate_type,
    is_overlay_error, is_workspace_root, is_workspace_root_manifest, name_view, override_spec,
    override_workspace_inheritance, patch_refused, read_upstream_crate_name, self_patch_spec, upstream_name,
    apply_self_patch_policy, canonicalize_crate_type, PatchRefusal, SyntheticMetadata,
};
use crate::compat::overlay::paths::{absolutize_path_bearing_keys, absolutize_spec};
use crate::compat::overlay::serialize::{serialize_canonical, serialized};
use crate::compat::overlay::text::{scan_comments, scan_dropped_comments, ScanMode};
use crate::error::Error;
use crate::text::{push_str, push_string};
use crate::toml_doc::{
    doc_of_value, has_table, lemma_empty_table, lemma_table_round_trip, lemma_table_view, matches_tree, tget,
    tindex, tput, tview, wf, take_table, put_table_back, tbl_index, tbl_put, Toml, TomlV,
};
use crate::toml_model::{has_key, parse_toml_document, subtree, toml_document, toml_get, toml_is_table, toml_tree, tree_root, TomlNode, TomlSeg};
use crate::util::{ancestor_dirs, join_path, join_spec, lemma_parent_shorter, parent_dir, parent_spec};

verus! {

/// One materialized overlay: where it came from, where it was staged,
/// whether upstream already built a dylib, the comments the rewrite
/// dropped and the upstream crate name.
#[derive(Debug)]
pub struct OverlayPlan {
    pub upstream_manifest: String,
    pub sibling_manifest: String,
    pub upstream_already_has_dylib: bool,
    pub dropped_comments: Vec<String>,
    pub upstream_crate_name: Option<String>,
}

/// What the overlay takes from the upstream manifest before rewriting it.
#[derive(Debug)]
pub struct UpstreamManifest {
    pub doc: Toml,
    pub dropped_comments: Vec<String>,
    pub upstream_already_has_dylib: bool,
    pub upstream_crate_name: Option<String>,
}

/// The upstream crate directory: the manifest's parent, or `.`.
pub open spec fn upstream_dir_spec(manifest: Seq<char>) -> Seq<char> {
    match parent_spec(manifest) {
        Some(p) => p,
        None => "."@,
    }
}

/// `<upstream_dir>/target/lihaaf-overlay`.
pub open spec fn staged_dir_spec(upstream_dir: Seq<char>) -> Seq<char> {
    join_spec(join_spec(upstream_dir, "target"@), "lihaaf-overlay"@)
}

pub fn upstream_dir_of(manifest_path: &str) -> (r: String)
    ensures
        r@ == upstream_dir_spec(manifest_path@),
{
    match parent_dir(manifest_path) {
        Some(p) => p,
        None => ".".to_owned(),
    }
}

pub fn staged_overlay_dir(upstream_dir: &str) -> (r: String)
    ensures
        r@ == staged_dir_spec(upstream_dir@),
{
    let t = join_path(upstream_dir, "target");
    join_path(t.as_str(), "lihaaf-overlay")
}

/// The staged manifest: `<staged overlay dir>/Cargo.toml`, the only file
/// name `cargo rustc --manifest-path` accepts.
pub fn sibling_manifest_path(staged_overlay_dir: &str) -> (r: String)
    ensures
        r@ == join_spec(staged_overlay_dir@, "Cargo.toml"@),
{
    join_path(staged_overlay_dir, "Cargo.toml")
}

pub const WORKSPACE_ROOT_HEAD: &'static str = "error: `--compat-root` must point to a single-crate Cargo.toml; `";

pub const WORKSPACE_ROOT_TAIL: &'static str = "` is a workspace root (declares `[workspace]` without `[package]`). Pass a member crate's Cargo.toml as `--compat-root` instead.";

pub const LIB_NOT_TABLE: &'static str = "`[lib]` must be a table, not an inline value";

pub open spec fn workspace_root_text(path: Seq<char>) -> Seq<char> {
    WORKSPACE_ROOT_HEAD@ + path + WORKSPACE_ROOT_TAIL@
}

/// Reads the upstream manifest text: its comments, its parsed document,
/// whether it already builds a dylib, and its crate name. Text that is
/// not TOML is refused with the parser's message, and so is a workspace
/// root, which has no crate to build.
pub fn read_upstream_manifest(raw_text: &str, manifest_path: &str) -> (r: Result<UpstreamManifest, Error>)
    ensures
        match toml_document(raw_text@) {
            Err(m) => r matches Err(Error::TomlParse { path, message }) && path@ == manifest_path@ && message@ == m,
            Ok(t) => match r {
                Ok(u) => {
                    &&& matches_tree(u.doc.view_toml(), t)
                    &&& wf(u.doc.view_toml())
                    &&& !is_workspace_root(u.doc.view_toml())
                    &&& u.dropped_comments.deep_view() == scan_comments(raw_text@, 0, ScanMode::Out)
                    &&& u.upstream_already_has_dylib == declares_dylib(u.doc.view_toml())
                    &&& match upstream_name(u.doc.view_toml()) {
                        None => u.upstream_crate_name is None,
                        Some(n) => u.upstream_crate_name matches Some(s) && s@ == n,
                    }
                },
                Err(e) => {
                    &&& is_cli_error(e, workspace_root_text(manifest_path@))
                    &&& exists|d: TomlV| #[trigger] matches_tree(d, t) && wf(d) && is_workspace_root(d)
                },
            },
        },
{
    let dropped_comments = scan_dropped_comments(raw_text);
    let value = match parse_toml_document(raw_text) {
        Ok(v) => v,
        Err(m) => {
            return Err(Error::TomlParse { path: manifest_path.to_owned(), message: m });
        },
    };
    let doc = doc_of_value(&value);
    if is_workspace_root_manifest(&doc) {
        let mut m = String::new();
        push_str(&mut m, WORKSPACE_ROOT_HEAD);
        push_str(&mut m, manifest_path);
        push_str(&mut m, WORKSPACE_ROOT_TAIL);
        assert(matches_tree(doc.view_toml(), crate::toml_model::toml_tree(value)));
        return Err(Error::Cli { clap_exit_code: 2, message: m });
    }
    let upstream_already_has_dylib = inspect_existing_crate_type(&doc);
    let upstream_crate_name = read_upstream_crate_name(&doc);
    Ok(UpstreamManifest { doc, dropped_comments, upstream_already_has_dylib, upstream_crate_name })
}

/// Why the overlay stages refuse a manifest.
pub enum StageRefusal {
    /// `[lib]` is there but is not a table.
    LibNotTable,
    /// `[lib] crate-type` is refused (the message).
    CrateType(Seq<char>),
    /// The self-patch policy refuses.
    Patch(PatchRefusal),
    /// Looking for an ancestor workspace failed with this error.
    Ancestor(Error),
    /// The manifest is a workspace member (the message).
    Workspace(Seq<char>),
}

/// `[lib]` with its `crate-type` made canonical; an absent `[lib]` is
/// created empty first.
pub open spec fn lib_stage(t0: Seq<(Seq<char>, TomlV)>) -> Result<Seq<(Seq<char>, TomlV)>, StageRefusal> {
    let lib = match tget(t0, "lib"@) {
        None => Some(Seq::<(Seq<char>, TomlV)>::empty()),
        Some(TomlV::Table(l)) => Some(l),
        Some(_) => None,
    };
    match lib {
        None => Err(StageRefusal::LibNotTable),
        Some(l) => match crate_type_result(l) {
            Ok(l2) => Ok(tput(t0, "lib"@, TomlV::Table(l2))),
            Err(m) => Err(StageRefusal::CrateType(m)),
        },
    }
}

/// The workspace override, with the ancestor search's own failure
/// reported where the override needs its answer.
pub open spec fn workspace_stage(
    t: Seq<(Seq<char>, TomlV)>,
    manifest: Seq<char>,
    ancestor: Result<Option<String>, Error>,
) -> Result<Seq<(Seq<char>, TomlV)>, StageRefusal> {
    let explicit = tget(t, "package"@) matches Some(TomlV::Table(p)) && tindex(p, "workspace"@, 0) is Some;
    if !explicit && !has_table(t, "workspace"@) && ancestor is Err {
        Err(StageRefusal::Ancestor(ancestor->Err_0))
    } else {
        let anc = match ancestor {
            Ok(Some(a)) => Some(a@),
            _ => None,
        };
        match override_spec(t, manifest, anc) {
            Ok(t2) => Ok(t2),
            Err(m) => Err(StageRefusal::Workspace(m)),
        }
    }
}

/// The synthetic metadata, when there is one.
pub open spec fn meta_view(m: Option<&SyntheticMetadata>) -> Option<SyntheticMetadata> {
    match m {
        Some(x) => Some(*x),
        None => None,
    }
}

/// The manifest table after every overlay stage, in order: the `[lib]`
/// rewrite, path absolutization against the upstream directory, the
/// self-patch policy, the synthetic metadata, the workspace override.
pub open spec fn overlay_stages(
    t0: Seq<(Seq<char>, TomlV)>,
    manifest: Seq<char>,
    has_build_rs: bool,
    name: Option<Seq<char>>,
    meta: Option<SyntheticMetadata>,
    ancestor: Result<Option<String>, Error>,
) -> Result<Seq<(Seq<char>, TomlV)>, StageRefusal> {
    let dir = upstream_dir_spec(manifest);
    match lib_stage(t0) {
        Err(f) => Err(f),
        Ok(t1) => {
            let t2 = absolutize_spec(t1, dir, has_build_rs);
            match self_patch_spec(t2, name, dir, staged_dir_spec(dir)) {
                Err(f) => Err(StageRefusal::Patch(f)),
                Ok(t3) => {
                    let t4 = match meta {
                        Some(m) => inject_spec(t3, m),
                        None => t3,
                    };
                    workspace_stage(t4, manifest, ancestor)
                },
            }
        },
    }
}

/// `r` is the error the overlay stages give for refusal `f`.
pub open spec fn stage_refused(r: Result<(), Error>, manifest: Seq<char>, f: StageRefusal) -> bool {
    match f {
        StageRefusal::LibNotTable => r matches Err(Error::TomlParse { path, message }) && path@ == manifest
            && message@ == LIB_NOT_TABLE@,
        StageRefusal::CrateType(m) => is_overlay_error(r, m),
        StageRefusal::Patch(p) => patch_refused(r, p),
        StageRefusal::Ancestor(e) => r == Err::<(), Error>(e),
        StageRefusal::Workspace(m) => r matches Err(e) && is_cli_error(e, m),
    }
}

fn lib_step(top: &mut Vec<(String, Toml)>, manifest_path: &str) -> (r: Result<(), Error>)
    ensures
        match lib_stage(tview(old(top)@)) {
            Ok(t) => r is Ok && tview(final(top)@) == t,
            Err(f) => stage_refused(r, manifest_path@, f),
        },
{
    let ghost t0 = tview(top@);
    let ghost orig = top@;
    match take_table(top, "lib") {
        Some((i, k, mut lib)) => {
            let c = canonicalize_crate_type(&mut lib);
            proof {
                lemma_table_round_trip(orig, "lib"@, i as int, k, lib);
            }
            put_table_back(top, i, k, lib);
            c
        },
        None => {
            if tbl_index(top, "lib").is_some() {
                let mut m = String::new();
                push_str(&mut m, LIB_NOT_TABLE);
                return Err(Error::TomlParse { path: manifest_path.to_owned(), message: m });
            }
            let mut lib: Vec<(String, Toml)> = Vec::new();
            proof {
                lemma_empty_table();
            }
            let c = canonicalize_crate_type(&mut lib);
            proof {
                lemma_table_view(lib);
            }
            tbl_put(top, "lib".to_owned(), Toml::Table(lib));
            c
        },
    }
}

/// Runs the overlay stages on the manifest table (see [`overlay_stages`]).
/// `ancestor` is the nearest ancestor manifest with a `[workspace]`, or the
/// error met looking for it; it matters only for a manifest without its
/// own `[workspace]`.
pub fn prepare_overlay_table(
    top: &mut Vec<(String, Toml)>,
    manifest_path: &str,
    has_build_rs: bool,
    upstream_crate_name: Option<&str>,
    synthetic: Option<&SyntheticMetadata>,
    ancestor: Result<Option<String>, Error>,
) -> (r: Result<(), Error>)
    ensures
        match overlay_stages(
            tview(old(top)@),
            manifest_path@,
            has_build_rs,
            name_view(upstream_crate_name),
            meta_view(synthetic),
            ancestor,
        ) {
            Ok(t) => r is Ok && tview(final(top)@) == t,
            Err(f) => stage_refused(r, manifest_path@, f),
        },
{
    let upstream_dir = upstream_dir_of(manifest_path);
    let staged = staged_overlay_dir(upstream_dir.as_str());
    match lib_step(top, manifest_path) {
        Ok(()) => {},
        Err(e) => {
            return Err(e);
        },
    }
    absolutize_path_bearing_keys(top, upstream_dir.as_str(), has_build_rs);
    match apply_self_patch_policy(top, upstream_crate_name, upstream_dir.as_str(), staged.as_str()) {
        Ok(()) => {},
        Err(e) => {
            return Err(e);
        },
    }
    match synthetic {
        Some(m) => inject_synthetic_metadata(top, m),
        None => {},
    }
    override_workspace_inheritance(top, manifest_path, ancestor)
}

/// The staged overlay manifest for the upstream document `doc`: the
/// overlay stages on its table, then [`serialize_canonical`]. The crate
/// name the self-patch policy uses is the document's own.
pub fn assemble_overlay(
    doc: Toml,
    manifest_path: &str,
    has_build_rs: bool,
    synthetic: Option<&SyntheticMetadata>,
    ancestor: Result<Option<String>, Error>,
) -> (r: Result<String, Error>)
    ensures
        match doc.view_toml() {
            TomlV::Table(t0) => match overlay_stages(
                t0,
                manifest_path@,
                has_build_rs,
                upstream_name(doc.view_toml()),
                meta_view(synthetic),
                ancestor,
            ) {
                Ok(t) => exists|d: Toml| #[trigger] d.view_toml() == TomlV::Table(t) && serialized(d, r),
                Err(f) => r is Err && stage_refused(Err(r->Err_0), manifest_path@, f),
            },
            _ => serialized(doc, r),
        },
{
    let name = read_upstream_crate_name(&doc);
    let ghost dv = doc.view_toml();
    match doc {
        Toml::Table(mut top) => {
            proof {
                lemma_table_view(top);
            }
            let ghost nv = upstream_name(dv);
            let nm: Option<&str> = match &name {
                Some(n) => Some(n.as_str()),
                None => None,
            };
            assert(name_view(nm) == nv);
            match prepare_overlay_table(&mut top, manifest_path, has_build_rs, nm, synthetic, ancestor) {
                Ok(()) => {},
                Err(e) => {
                    return Err(e);
                },
            }
            let d = Toml::Table(top);
            proof {
                lemma_table_view(top);
            }
            serialize_canonical(&d)
        },
        other => serialize_canonical(&other),
    }
}

/// The manifests the search for an enclosing workspace looks at, nearest
/// first: `Cargo.toml` in each directory above the manifest's own.
pub open spec fn ancestor_candidates_spec(manifest: Seq<char>) -> Seq<Seq<char>> {
    match parent_spec(manifest) {
        None => Seq::empty(),
        Some(dir) => ancestor_dirs(dir).map_values(|d: Seq<char>| join_spec(d, "Cargo.toml"@)),
    }
}

/// The candidate ancestor manifests for `manifest_path` (see
/// [`ancestor_candidates_spec`]).
pub fn ancestor_manifest_candidates(manifest_path: &str) -> (r: Vec<String>)
    ensures
        r.deep_view() == ancestor_candidates_spec(manifest_path@),
{
    let mut r: Vec<String> = Vec::new();
    let dir = match parent_dir(manifest_path) {
        None => {
            return r;
        },
        Some(d) => d,
    };
    let ghost all = ancestor_dirs(dir@).map_values(|d: Seq<char>| join_spec(d, "Cargo.toml"@));
    let mut current = parent_dir(dir.as_str());
    let ghost mut cur_dir = dir@;
    while current.is_some()
        invariant
            all == ancestor_dirs(dir@).map_values(|d: Seq<char>| join_spec(d, "Cargo.toml"@)),
            match current {
                None => parent_spec(cur_dir) is None,
                Some(c) => parent_spec(cur_dir) == Some(c@),
            },
            r.deep_view() + ancestor_dirs(cur_dir).map_values(|d: Seq<char>| join_spec(d, "Cargo.toml"@)) == all,
        decreases cur_dir.len(),
    {
        let c = current.unwrap();
        proof {
            lemma_parent_shorter(cur_dir);
        }
        let ghost before = r.deep_view();
        let ghost rest = ancestor_dirs(c@).map_values(|d: Seq<char>| join_spec(d, "Cargo.toml"@));
        r.push(join_path(c.as_str(), "Cargo.toml"));
        proof {
            assert(ancestor_dirs(cur_dir) == seq![c@] + ancestor_dirs(c@));
            assert(ancestor_dirs(cur_dir).map_values(|d: Seq<char>| join_spec(d, "Cargo.toml"@)) =~= seq![
                join_spec(c@, "Cargo.toml"@),
            ] + rest);
            assert(r.deep_view() =~= before.push(join_spec(c@, "Cargo.toml"@)));
            assert(before + (seq![join_spec(c@, "Cargo.toml"@)] + rest) =~= r.deep_view() + rest);
        }
        current = parent_dir(c.as_str());
        proof {
            cur_dir = c@;
        }
    }
    proof {
        assert(ancestor_dirs(cur_dir) =~= Seq::<Seq<char>>::empty());
        assert(r.deep_view() + Seq::<Seq<char>>::empty() =~= r.deep_view());
    }
    r
}

/// What an ancestor manifest's text says: whether it declares a
/// `[workspace]` table, or the parser's message when it is not TOML.
pub open spec fn declares_workspace_spec(text: Seq<char>) -> Result<bool, Seq<char>> {
    match toml_document(text) {
        Err(m) => Err(m),
        Ok(t) => Ok(has_key(t, "workspace"@) && tree_root(subtree(t, TomlSeg::Key("workspace"@))) == Some(TomlNode::Table)),
    }
}

/// Reads an ancestor manifest for the workspace search (see
/// [`declares_workspace_spec`]).
pub fn ancestor_declares_workspace(text: &str) -> (r: Result<bool, String>)
    ensures
        match declares_workspace_spec(text@) {
            Ok(b) => r == Ok::<bool, String>(b),
            Err(m) => r matches Err(e) && e@ == m,
        },
{
    match parse_toml_document(text) {
        Err(m) => Err(m),
        Ok(v) => match toml_get(&v, "workspace") {
            None => Ok(false),
            Some(w) => Ok(toml_is_table(&w)),
        },
    }
}

} // verus!
