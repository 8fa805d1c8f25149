use lihaaf::compat::overlay::manifest::{apply_self_patch_policy, SyntheticMetadata};
use lihaaf::compat::overlay::plan::{
    assemble_overlay, read_upstream_manifest, sibling_manifest_path, staged_overlay_dir, upstream_dir_of,
};
use lihaaf::compat::overlay::serialize::serialize_canonical;
use lihaaf::error::Error;
use lihaaf::toml_doc::{doc_of_value, Toml};
use lihaaf::util::parent_dir;

fn doc(text: &str) -> Toml {
    let v: toml::Value = toml::from_str(text).unwrap();
    doc_of_value(&v)
}

fn top_of(text: &str) -> Vec<(String, Toml)> {
    match doc(text) {
        Toml::Table(t) => t,
        other => panic!("expected a table, got {other:?}"),
    }
}

fn reparse(out: &str) -> toml::Value {
    toml::from_str(out).unwrap_or_else(|e| panic!("overlay output must parse: {e}\n{out}"))
}

#[test]
fn serialize_canonical_emits_package_first() {
    let input = r#"
[features]
default = []

[dependencies]
serde = "1"

[package]
name = "demo"
version = "0.1.0"
"#;
    let out = serialize_canonical(&doc(input)).unwrap();
    let first_header = out.lines().find(|l| l.starts_with('[')).unwrap();
    assert_eq!(first_header, "[package]", "got:\n{out}");
}

#[test]
fn serialize_canonical_orders_canonical_keys_then_sorted_rest() {
    let input = r#"
zeta = 1
[features]
default = []
[dependencies]
serde = "1"
[alpha]
x = 1
[package]
name = "demo"
"#;
    let out = serialize_canonical(&doc(input)).unwrap();
    let heads: Vec<&str> = out.lines().filter(|l| l.starts_with('[') || l.starts_with("zeta")).collect();
    assert_eq!(heads, vec!["[package]", "[dependencies]", "[features]", "[alpha]", "zeta = 1"], "got:\n{out}");
}

#[test]
fn serialize_canonical_exact_bytes() {
    let input = "[dependencies]\nserde = \"1\"\n\n[package]\nname = \"demo\"\n";
    let out = serialize_canonical(&doc(input)).unwrap();
    assert_eq!(out, "[package]\nname = \"demo\"\n\n[dependencies]\nserde = \"1\"\n");
}

#[test]
fn serialize_canonical_refuses_a_non_table() {
    match serialize_canonical(&Toml::Int(3)).unwrap_err() {
        Error::TomlParse { path, message } => {
            assert_eq!(path, "<overlay>");
            assert_eq!(
                message,
                "overlay serializer expected a TOML document (table) at the top level, got `integer`"
            );
        }
        other => panic!("unexpected error {other:?}"),
    }
}

#[test]
fn parent_dir_follows_path_parent() {
    assert_eq!(parent_dir("/work/demo/Cargo.toml").as_deref(), Some("/work/demo"));
    assert_eq!(parent_dir("Cargo.toml").as_deref(), Some(""));
    assert_eq!(parent_dir("/Cargo.toml").as_deref(), Some("/"));
    assert_eq!(parent_dir("/work/demo/").as_deref(), Some("/work"));
    assert_eq!(parent_dir("/"), None);
    assert_eq!(parent_dir(""), None);
}

#[test]
fn parent_dir_skips_dot_and_empty_pieces() {
    assert_eq!(parent_dir("a/./b").as_deref(), Some("a"));
    assert_eq!(parent_dir("a/b/.").as_deref(), Some("a"));
    assert_eq!(parent_dir("a/.").as_deref(), Some(""));
    assert_eq!(parent_dir("a//b").as_deref(), Some("a"));
    assert_eq!(parent_dir("./Cargo.toml").as_deref(), Some("."));
    assert_eq!(parent_dir("./").as_deref(), Some(""));
    assert_eq!(parent_dir(".").as_deref(), Some(""));
    assert_eq!(parent_dir("..").as_deref(), Some(""));
    assert_eq!(parent_dir("/."), None);
    assert_eq!(parent_dir("//work").as_deref(), Some("/"));
}

#[test]
fn staged_paths_live_under_target() {
    let dir = upstream_dir_of("/work/demo/Cargo.toml");
    assert_eq!(dir, "/work/demo");
    let staged = staged_overlay_dir(&dir);
    assert_eq!(staged, "/work/demo/target/lihaaf-overlay");
    assert_eq!(sibling_manifest_path(&staged), "/work/demo/target/lihaaf-overlay/Cargo.toml");
    assert_eq!(upstream_dir_of("/"), ".");
}

#[test]
fn read_upstream_manifest_collects_facts() {
    let text = "# top comment\n[package]\nname = \"demo\" # trailing\n\n[lib]\ncrate-type = [\"dylib\"]\n";
    let u = read_upstream_manifest(text, "/work/demo/Cargo.toml").unwrap();
    assert_eq!(u.dropped_comments, vec!["top comment".to_string(), "trailing".to_string()]);
    assert!(u.upstream_already_has_dylib);
    assert_eq!(u.upstream_crate_name.as_deref(), Some("demo"));
}

#[test]
fn read_upstream_manifest_rejects_workspace_root() {
    let err = read_upstream_manifest("[workspace]\nmembers = [\"a\"]\n", "/work/root/Cargo.toml").unwrap_err();
    match err {
        Error::Cli { clap_exit_code, message } => {
            assert_eq!(clap_exit_code, 2);
            assert_eq!(
                message,
                "error: `--compat-root` must point to a single-crate Cargo.toml; `/work/root/Cargo.toml` is a \
                 workspace root (declares `[workspace]` without `[package]`). Pass a member crate's Cargo.toml \
                 as `--compat-root` instead."
            );
        }
        other => panic!("unexpected error {other:?}"),
    }
}

#[test]
fn read_upstream_manifest_reports_parse_errors_with_the_path() {
    match read_upstream_manifest("[package\n", "/work/demo/Cargo.toml").unwrap_err() {
        Error::TomlParse { path, message } => {
            assert_eq!(path, "/work/demo/Cargo.toml");
            assert!(!message.is_empty());
        }
        other => panic!("unexpected error {other:?}"),
    }
}

fn meta() -> SyntheticMetadata {
    SyntheticMetadata {
        dylib_crate: "demo".into(),
        extern_crates: vec!["demo".into()],
        fixture_dirs: vec!["/abs/pass".into(), "/abs/fail".into()],
        allow_lints: vec!["unexpected_cfgs".into()],
    }
}

#[test]
fn assemble_overlay_builds_the_staged_manifest() {
    let input = "[package]\nname = \"demo\"\nversion = \"0.1.0\"\n\n[dependencies]\ninner = { path = \"inner\" }\n";
    let out = assemble_overlay(doc(input), "/work/demo/Cargo.toml", false, Some(&meta()), Ok(None)).unwrap();
    let v = reparse(&out);
    let ct: Vec<&str> = v["lib"]["crate-type"].as_array().unwrap().iter().map(|x| x.as_str().unwrap()).collect();
    assert_eq!(ct, vec!["dylib", "rlib"]);
    assert_eq!(v["lib"]["path"].as_str(), Some("/work/demo/src/lib.rs"));
    assert_eq!(v["dependencies"]["inner"]["path"].as_str(), Some("/work/demo/inner"));
    assert_eq!(v["patch"]["crates-io"]["demo"]["path"].as_str(), Some("/work/demo/target/lihaaf-overlay"));
    assert_eq!(v["package"]["metadata"]["lihaaf"]["dylib_crate"].as_str(), Some("demo"));
    assert!(v["workspace"].as_table().unwrap().is_empty());
    assert!(out.starts_with("[package]"), "got:\n{out}");
    assert!(!out.contains('\r'));
    assert!(out.ends_with('\n') && !out.ends_with("\n\n"));
}

#[test]
fn assemble_overlay_is_stable_on_its_own_output_table() {
    let input = "[package]\nname = \"demo\"\n";
    let first = assemble_overlay(doc(input), "/work/demo/Cargo.toml", false, None, Ok(None)).unwrap();
    let second = assemble_overlay(doc(input), "/work/demo/Cargo.toml", false, None, Ok(None)).unwrap();
    assert_eq!(first, second);
}

#[test]
fn assemble_overlay_rejects_inline_lib() {
    let input = "lib = 3\n[package]\nname = \"demo\"\n";
    match assemble_overlay(doc(input), "/work/demo/Cargo.toml", false, None, Ok(None)).unwrap_err() {
        Error::TomlParse { path, message } => {
            assert_eq!(path, "/work/demo/Cargo.toml");
            assert_eq!(message, "`[lib]` must be a table, not an inline value");
        }
        other => panic!("unexpected error {other:?}"),
    }
}

#[test]
fn assemble_overlay_reports_the_ancestor_workspace() {
    let input = "[package]\nname = \"sub\"\n";
    let err = assemble_overlay(
        doc(input),
        "/repo/sub/Cargo.toml",
        false,
        None,
        Ok(Some("/repo/Cargo.toml".to_string())),
    )
    .unwrap_err();
    match err {
        Error::Cli { clap_exit_code, message } => {
            assert_eq!(clap_exit_code, 2);
            assert!(message.contains("/repo/Cargo.toml"), "got: {message}");
        }
        other => panic!("unexpected error {other:?}"),
    }
}

#[test]
fn self_patch_injects_when_absent() {
    let mut top = top_of("[package]\nname = \"anyhow\"\n");
    apply_self_patch_policy(&mut top, Some("anyhow"), "/work/anyhow", "/work/anyhow/target/lihaaf-overlay").unwrap();
    let v: toml::Value = lihaaf::toml_doc::value_of_doc(&Toml::Table(top));
    assert_eq!(v["patch"]["crates-io"]["anyhow"]["path"].as_str(), Some("/work/anyhow/target/lihaaf-overlay"));
}

#[test]
fn self_patch_remaps_root_patch() {
    let mut top = top_of("[package]\nname = \"cxx\"\n[patch.crates-io]\ncxx = { path = \".\" }\nother = { path = \"x\" }\n");
    apply_self_patch_policy(&mut top, Some("cxx"), "/work/cxx", "/work/cxx/target/lihaaf-overlay").unwrap();
    let v: toml::Value = lihaaf::toml_doc::value_of_doc(&Toml::Table(top));
    assert_eq!(v["patch"]["crates-io"]["cxx"]["path"].as_str(), Some("/work/cxx/target/lihaaf-overlay"));
    assert_eq!(v["patch"]["crates-io"]["cxx"].as_table().unwrap().len(), 1);
    assert_eq!(v["patch"]["crates-io"]["other"]["path"].as_str(), Some("x"));
}

#[test]
fn self_patch_rejects_vendored_fork() {
    let mut top = top_of("[package]\nname = \"foo\"\n[patch.crates-io]\nfoo = { path = \"../my-foo-fork\" }\n");
    let err = apply_self_patch_policy(&mut top, Some("foo"), "/work/foo", "/work/foo/target/lihaaf-overlay")
        .unwrap_err();
    match err {
        Error::CompatPatchOverrideConflict { crate_name, upstream_entry, expected_resolution } => {
            assert_eq!(crate_name, "foo");
            assert!(upstream_entry.contains("my-foo-fork"), "got: {upstream_entry}");
            assert!(
                expected_resolution
                    .starts_with("lihaaf would inject [patch.crates-io.foo] = { path = \"/work/foo/target/lihaaf-overlay\" }"),
                "got: {expected_resolution}"
            );
        }
        other => panic!("unexpected error {other:?}"),
    }
}

#[test]
fn self_patch_rejects_git_source() {
    let mut top =
        top_of("[package]\nname = \"foo\"\n[patch.crates-io]\nfoo = { git = \"https://example.com/foo\" }\n");
    let err = apply_self_patch_policy(&mut top, Some("foo"), "/work/foo", "/work/foo/target/lihaaf-overlay")
        .unwrap_err();
    assert!(matches!(err, Error::CompatPatchOverrideConflict { .. }), "got {err:?}");
}

#[test]
fn self_patch_does_nothing_without_a_name() {
    let mut top = top_of("[package]\nversion = \"1\"\n");
    apply_self_patch_policy(&mut top, None, "/work/x", "/work/x/target/lihaaf-overlay").unwrap();
    let v: toml::Value = lihaaf::toml_doc::value_of_doc(&Toml::Table(top));
    assert!(v.get("patch").is_none());
}

#[test]
fn parent_dir_agrees_with_std_path_parent() {
    let cases = [
        "", "/", "//", ".", "..", "./", "./.", "/.", "/..", "a", "a/", "a//", "a/.", "a/./", "a/./b", "a/b/.",
        "./a", "./a/", "../a", "a/..", "/a", "//a", "/a/b/", "/a/./b/./", "x/y/z/Cargo.toml", "./x/./Cargo.toml",
        "/work/demo/Cargo.toml", "a/.b", "a/b.", "...", "./..", "/./a",
    ];
    for c in cases {
        let expected = std::path::Path::new(c).parent().map(|p| p.to_str().unwrap().to_string());
        assert_eq!(parent_dir(c), expected, "parent of {c:?}");
    }
}
