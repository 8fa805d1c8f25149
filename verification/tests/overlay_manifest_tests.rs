use lihaaf::compat::overlay::manifest::{
    canonicalize_crate_type, compat_default_synthetic_metadata, inject_synthetic_metadata,
    manifest_has_inheritance_reference, override_workspace_inheritance, SyntheticMetadata,
};
use lihaaf::compat::overlay::paths::absolutize_path_bearing_keys;
use lihaaf::error::Error;
use lihaaf::toml_doc::{value_of_doc, Toml};

fn s(x: &str) -> Toml {
    Toml::Str(x.to_string())
}

fn b(x: bool) -> Toml {
    Toml::Bool(x)
}

fn arr(items: Vec<Toml>) -> Toml {
    Toml::Array(items)
}

fn tbl(entries: Vec<(&str, Toml)>) -> Toml {
    Toml::Table(entries.into_iter().map(|(k, v)| (k.to_string(), v)).collect())
}

fn entries(entries: Vec<(&str, Toml)>) -> Vec<(String, Toml)> {
    entries.into_iter().map(|(k, v)| (k.to_string(), v)).collect()
}

fn get<'a>(t: &'a [(String, Toml)], key: &str) -> Option<&'a Toml> {
    t.iter().rev().find(|(k, _)| k == key).map(|(_, v)| v)
}

fn table<'a>(v: &'a Toml) -> &'a Vec<(String, Toml)> {
    match v {
        Toml::Table(t) => t,
        other => panic!("expected a table, got {other:?}"),
    }
}

fn text(v: &Toml) -> &str {
    match v {
        Toml::Str(x) => x.as_str(),
        other => panic!("expected a string, got {other:?}"),
    }
}

fn strs(v: &Toml) -> Vec<&str> {
    match v {
        Toml::Array(items) => items
            .iter()
            .filter_map(|i| match i {
                Toml::Str(x) => Some(x.as_str()),
                _ => None,
            })
            .collect(),
        other => panic!("expected an array, got {other:?}"),
    }
}

fn lookup<'a>(top: &'a [(String, Toml)], keys: &[&str]) -> Option<&'a Toml> {
    let mut cur = get(top, keys[0])?;
    for k in &keys[1..] {
        match cur {
            Toml::Table(t) => cur = get(t, k)?,
            _ => return None,
        }
    }
    Some(cur)
}

fn crate_types(t: &[(String, Toml)]) -> Vec<&str> {
    strs(get(t, "crate-type").unwrap())
}

#[test]
fn canonicalize_inserts_dylib_rlib_when_absent() {
    let mut t: Vec<(String, Toml)> = Vec::new();
    canonicalize_crate_type(&mut t).unwrap();
    assert_eq!(crate_types(&t), vec!["dylib", "rlib"]);
}

#[test]
fn canonicalize_prepends_dylib_to_rlib_only() {
    let mut t = entries(vec![("crate-type", arr(vec![s("rlib")]))]);
    canonicalize_crate_type(&mut t).unwrap();
    assert_eq!(crate_types(&t), vec!["dylib", "rlib"]);
}

#[test]
fn canonicalize_appends_rlib_when_only_dylib() {
    let mut t = entries(vec![("crate-type", arr(vec![s("dylib")]))]);
    canonicalize_crate_type(&mut t).unwrap();
    assert_eq!(crate_types(&t), vec!["dylib", "rlib"]);
}

#[test]
fn canonicalize_preserves_cdylib_after_pair() {
    let mut t = entries(vec![("crate-type", arr(vec![s("cdylib")]))]);
    canonicalize_crate_type(&mut t).unwrap();
    assert_eq!(crate_types(&t), vec!["dylib", "rlib", "cdylib"]);
}

#[test]
fn canonicalize_dedups_duplicates() {
    let mut t = entries(vec![("crate-type", arr(vec![s("rlib"), s("dylib"), s("rlib"), s("cdylib")]))]);
    canonicalize_crate_type(&mut t).unwrap();
    assert_eq!(crate_types(&t), vec!["dylib", "rlib", "cdylib"]);
}

#[test]
fn canonicalize_rejects_non_string_element() {
    let mut t = entries(vec![("crate-type", arr(vec![Toml::Int(1)]))]);
    let err = canonicalize_crate_type(&mut t).unwrap_err();
    let s = format!("{err:?}");
    assert!(s.contains("not a string"), "diagnostic must name the failure: {s}");
}

#[test]
fn canonicalize_is_idempotent_on_its_output() {
    let mut t = entries(vec![("crate-type", arr(vec![s("cdylib"), s("rlib"), s("staticlib"), s("cdylib")]))]);
    canonicalize_crate_type(&mut t).unwrap();
    let first: Vec<String> = crate_types(&t).into_iter().map(String::from).collect();
    canonicalize_crate_type(&mut t).unwrap();
    assert_eq!(crate_types(&t), first);
    assert_eq!(first, vec!["dylib", "rlib", "cdylib", "staticlib"]);
}

#[test]
fn canonicalize_rejects_non_array_crate_type() {
    let mut t = entries(vec![("crate-type", s("dylib"))]);
    match canonicalize_crate_type(&mut t).unwrap_err() {
        Error::TomlParse { path, message } => {
            assert_eq!(path, "<overlay>");
            assert_eq!(message, "`[lib] crate-type` must be an array of strings, got `string`");
        }
        other => panic!("unexpected error {other:?}"),
    }
    assert_eq!(text(get(&t, "crate-type").unwrap()), "dylib");
}

fn lib_only(crate_type: &str) -> Vec<(String, Toml)> {
    entries(vec![("lib", tbl(vec![("crate-type", arr(vec![s(crate_type)]))]))])
}

#[test]
fn absolutize_injects_lib_path_when_absent() {
    let mut top = lib_only("dylib");
    top.push(("package".to_string(), tbl(vec![("name", s("demo"))])));
    absolutize_path_bearing_keys(&mut top, "/work/demo", false);
    let path = text(lookup(&top, &["lib", "path"]).unwrap());
    assert_eq!(path, "/work/demo/src/lib.rs", "[lib] path must be the absolute upstream src/lib.rs; got `{path}`");
}

#[test]
fn absolutize_leaves_absolute_lib_path_unchanged() {
    let mut top = entries(vec![(
        "lib",
        tbl(vec![("crate-type", arr(vec![s("dylib")])), ("path", s("/elsewhere/src/lib.rs"))]),
    )]);
    absolutize_path_bearing_keys(&mut top, "/work/demo", false);
    let path = text(lookup(&top, &["lib", "path"]).unwrap());
    assert_eq!(path, "/elsewhere/src/lib.rs", "an absolute [lib] path must be preserved; got `{path}`");
}

#[test]
fn absolutize_rewrites_relative_lib_path() {
    let mut top =
        entries(vec![("lib", tbl(vec![("crate-type", arr(vec![s("dylib")])), ("path", s("custom/lib.rs"))]))]);
    absolutize_path_bearing_keys(&mut top, "/work/demo", false);
    let path = text(lookup(&top, &["lib", "path"]).unwrap());
    assert_eq!(path, "/work/demo/custom/lib.rs");
}

#[test]
fn absolutize_rewrites_dependencies_path() {
    let mut top = lib_only("dylib");
    top.push(("dependencies".to_string(), tbl(vec![("inner-impl", tbl(vec![("path", s("impl"))]))])));
    absolutize_path_bearing_keys(&mut top, "/work/demo", false);
    assert_eq!(text(lookup(&top, &["dependencies", "inner-impl", "path"]).unwrap()), "/work/demo/impl");
}

#[test]
fn absolutize_rewrites_target_conditional_dependencies_path() {
    let mut top = lib_only("dylib");
    top.push((
        "target".to_string(),
        tbl(vec![(
            r#"cfg(target_os = "linux")"#,
            tbl(vec![("dependencies", tbl(vec![("platform-bits", tbl(vec![("path", s("linux-impl"))]))]))]),
        )]),
    ));
    absolutize_path_bearing_keys(&mut top, "/work/demo", false);
    let path = text(
        lookup(&top, &["target", r#"cfg(target_os = "linux")"#, "dependencies", "platform-bits", "path"]).unwrap(),
    );
    assert_eq!(path, "/work/demo/linux-impl");
}

#[test]
fn absolutize_rewrites_workspace_members_and_exclude() {
    let mut top = lib_only("dylib");
    top.push(("package".to_string(), tbl(vec![("name", s("demo"))])));
    top.push((
        "workspace".to_string(),
        tbl(vec![
            ("members", arr(vec![s("crate-a"), s("crate-b"), s("/elsewhere/crate-c")])),
            ("exclude", arr(vec![s("scratch")])),
        ]),
    ));
    absolutize_path_bearing_keys(&mut top, "/work/demo", false);
    assert_eq!(
        strs(lookup(&top, &["workspace", "members"]).unwrap()),
        vec!["/work/demo/crate-a", "/work/demo/crate-b", "/elsewhere/crate-c"]
    );
    assert_eq!(strs(lookup(&top, &["workspace", "exclude"]).unwrap()), vec!["/work/demo/scratch"]);
}

#[test]
fn absolutize_does_not_inject_build_when_upstream_has_no_build_rs() {
    let mut top = lib_only("dylib");
    top.push(("package".to_string(), tbl(vec![("name", s("demo"))])));
    absolutize_path_bearing_keys(&mut top, "/work/demo-no-build-rs", false);
    let pkg = table(get(&top, "package").unwrap());
    assert!(get(pkg, "build").is_none(), "build key must not be injected when no upstream build.rs exists");
}

#[test]
fn absolutize_injects_build_when_upstream_has_build_rs() {
    let mut top = lib_only("dylib");
    top.push(("package".to_string(), tbl(vec![("name", s("demo"))])));
    absolutize_path_bearing_keys(&mut top, "/work/demo", true);
    assert_eq!(text(lookup(&top, &["package", "build"]).unwrap()), "/work/demo/build.rs");
}

#[test]
fn absolutize_disables_non_lib_auto_discovery() {
    let mut top = lib_only("dylib");
    top.push(("package".to_string(), tbl(vec![("name", s("demo"))])));
    absolutize_path_bearing_keys(&mut top, "/work/demo", false);
    let pkg = table(get(&top, "package").unwrap());
    for key in ["autobins", "autoexamples", "autotests", "autobenches"] {
        match get(pkg, key) {
            Some(Toml::Bool(false)) => {}
            other => panic!("[package] {key} must be `false`; got {other:?}"),
        }
    }
}

#[test]
fn absolutize_rewrites_array_table_paths() {
    let mut top = lib_only("dylib");
    let cases = [
        ("bin", "src/bin/foo.rs"),
        ("example", "examples/eg.rs"),
        ("test", "tests/it.rs"),
        ("bench", "benches/bench.rs"),
    ];
    for (section, value) in cases {
        top.push((section.to_string(), arr(vec![tbl(vec![("name", s("target")), ("path", s(value))])])));
    }
    absolutize_path_bearing_keys(&mut top, "/work/demo", false);
    for (section, original) in cases {
        let entry = match get(&top, section).unwrap() {
            Toml::Array(items) => table(&items[0]),
            other => panic!("expected an array, got {other:?}"),
        };
        let expected = format!("/work/demo/{original}");
        assert_eq!(text(get(entry, "path").unwrap()), expected);
    }
}

#[test]
fn absolutizes_package_workspace_pointer() {
    let mut top = lib_only("rlib");
    top.push(("package".to_string(), tbl(vec![("name", s("cxx")), ("workspace", s("../"))])));
    absolutize_path_bearing_keys(&mut top, "/work/cxx", false);
    assert_eq!(text(lookup(&top, &["package", "workspace"]).unwrap()), "/work/cxx/../");
}

#[test]
fn absolutizes_workspace_default_members() {
    let mut top = lib_only("rlib");
    top.push(("package".to_string(), tbl(vec![("name", s("repo"))])));
    top.push(("workspace".to_string(), tbl(vec![("default-members", arr(vec![s("crate-a"), s("crate-b")]))])));
    absolutize_path_bearing_keys(&mut top, "/work/repo", false);
    assert_eq!(
        strs(lookup(&top, &["workspace", "default-members"]).unwrap()),
        vec!["/work/repo/crate-a", "/work/repo/crate-b"]
    );
}

#[test]
fn absolutizes_workspace_dependencies_path() {
    let mut top = lib_only("rlib");
    top.push(("package".to_string(), tbl(vec![("name", s("monorepo"))])));
    top.push((
        "workspace".to_string(),
        tbl(vec![(
            "dependencies",
            tbl(vec![
                ("my-impl", tbl(vec![("path", s("impl"))])),
                ("my-proc-macro", tbl(vec![("path", s("proc-macro"))])),
            ]),
        )]),
    ));
    absolutize_path_bearing_keys(&mut top, "/work/monorepo", false);
    assert_eq!(
        text(lookup(&top, &["workspace", "dependencies", "my-impl", "path"]).unwrap()),
        "/work/monorepo/impl"
    );
    assert_eq!(
        text(lookup(&top, &["workspace", "dependencies", "my-proc-macro", "path"]).unwrap()),
        "/work/monorepo/proc-macro"
    );
}

#[test]
fn absolutizes_patch_registry_path() {
    let mut top = lib_only("rlib");
    top.push(("package".to_string(), tbl(vec![("name", s("cxx"))])));
    top.push((
        "patch".to_string(),
        tbl(vec![(
            "crates-io",
            tbl(vec![
                ("cxx", tbl(vec![("path", s("."))])),
                ("cxx-build", tbl(vec![("path", s("gen/build"))])),
                (
                    "serde",
                    tbl(vec![("git", s("https://github.com/serde-rs/serde")), ("branch", s("master"))]),
                ),
            ]),
        )]),
    ));
    absolutize_path_bearing_keys(&mut top, "/work/cxx", false);
    assert_eq!(text(lookup(&top, &["patch", "crates-io", "cxx", "path"]).unwrap()), "/work/cxx/.");
    assert_eq!(
        text(lookup(&top, &["patch", "crates-io", "cxx-build", "path"]).unwrap()),
        "/work/cxx/gen/build"
    );
    let serde = table(lookup(&top, &["patch", "crates-io", "serde"]).unwrap());
    assert!(get(serde, "path").is_none(), "git-form patch entry must not gain a path key");
    assert_eq!(text(get(serde, "git").unwrap()), "https://github.com/serde-rs/serde");
    assert_eq!(text(get(serde, "branch").unwrap()), "master");
}

#[test]
fn absolutize_leaves_absolute_patch_path_unchanged() {
    let mut top = lib_only("rlib");
    top.push(("package".to_string(), tbl(vec![("name", s("cxx"))])));
    top.push((
        "patch".to_string(),
        tbl(vec![("crates-io", tbl(vec![("cxx", tbl(vec![("path", s("/absolute/path/to/cxx"))]))]))]),
    ));
    absolutize_path_bearing_keys(&mut top, "/work/cxx", false);
    assert_eq!(text(lookup(&top, &["patch", "crates-io", "cxx", "path"]).unwrap()), "/absolute/path/to/cxx");
}

#[test]
fn absolutizes_replace_path() {
    let mut top = lib_only("rlib");
    top.push(("package".to_string(), tbl(vec![("name", s("project"))])));
    top.push((
        "replace".to_string(),
        tbl(vec![
            ("cxx:0.3.0", tbl(vec![("path", s("vendor/cxx"))])),
            ("serde:1.0.0", tbl(vec![("git", s("https://github.com/serde-rs/serde")), ("rev", s("abc123"))])),
            ("abs-dep:0.1.0", tbl(vec![("path", s("/pre-existing/absolute/path"))])),
        ]),
    ));
    absolutize_path_bearing_keys(&mut top, "/work/project", false);
    assert_eq!(text(lookup(&top, &["replace", "cxx:0.3.0", "path"]).unwrap()), "/work/project/vendor/cxx");
    let serde = table(lookup(&top, &["replace", "serde:1.0.0"]).unwrap());
    assert!(get(serde, "path").is_none(), "git-form [replace] entry must not gain a `path` key");
    assert_eq!(text(get(serde, "git").unwrap()), "https://github.com/serde-rs/serde");
    assert_eq!(text(lookup(&top, &["replace", "abs-dep:0.1.0", "path"]).unwrap()), "/pre-existing/absolute/path");
}

const DUMMY_MANIFEST: &str = "/tmp/lihaaf-test-upstream/Cargo.toml";

fn full_workspace() -> Toml {
    tbl(vec![
        ("members", arr(vec![s("crate-a")])),
        ("exclude", arr(vec![s("scratch")])),
        ("default-members", arr(vec![s("crate-a")])),
        ("resolver", s("2")),
        ("dependencies", tbl(vec![("shared-utils", tbl(vec![("path", s("/abs/utils"))]))])),
        ("package", tbl(vec![("edition", s("2021")), ("version", s("0.1.0"))])),
        ("lints", tbl(vec![("rust", tbl(vec![("unsafe_code", s("forbid"))]))])),
        ("metadata", tbl(vec![("my-tool", tbl(vec![("key", s("value"))]))])),
        ("future-cargo-feature", tbl(vec![("key", s("future-value"))])),
    ])
}

#[test]
fn override_workspace_preserves_inheritance_tables() {
    let mut top = entries(vec![("workspace", full_workspace()), ("package", tbl(vec![("name", s("test"))]))]);
    override_workspace_inheritance(&mut top, DUMMY_MANIFEST, Ok(None)).expect("workspace-root case must succeed");
    let ws = table(get(&top, "workspace").unwrap());
    for stripped in ["members", "exclude", "default-members"] {
        assert!(get(ws, stripped).is_none(), "membership key `{stripped}` MUST be stripped");
    }
    for kept in ["dependencies", "package", "lints", "metadata", "resolver", "future-cargo-feature"] {
        assert!(get(ws, kept).is_some(), "workspace.{kept} must survive");
    }
    assert_eq!(text(lookup(ws, &["dependencies", "shared-utils", "path"]).unwrap()), "/abs/utils");
    assert_eq!(text(lookup(ws, &["package", "edition"]).unwrap()), "2021");
}

#[test]
fn override_workspace_injects_empty_when_absent() {
    let mut top = entries(vec![("package", tbl(vec![("name", s("test"))]))]);
    assert!(get(&top, "workspace").is_none());
    override_workspace_inheritance(&mut top, DUMMY_MANIFEST, Ok(None))
        .expect("missing `[workspace]` must inject an empty one");
    assert!(table(get(&top, "workspace").unwrap()).is_empty());
}

#[test]
fn override_workspace_rejects_workspace_member_manifest() {
    let mut top = entries(vec![("package", tbl(vec![("name", s("member")), ("workspace", s("../"))]))]);
    let err = override_workspace_inheritance(&mut top, DUMMY_MANIFEST, Ok(None))
        .expect_err("workspace-member manifest must be rejected");
    match err {
        Error::Cli { clap_exit_code, message } => {
            assert_eq!(clap_exit_code, 2, "exit code must be the clap usage code (2)");
            assert!(message.contains("workspace member"), "got: {message}");
            assert!(message.contains("[package].workspace"), "got: {message}");
            assert!(message.contains("/tmp/lihaaf-test-upstream/Cargo.toml"), "got: {message}");
            assert!(!message.contains("implicit"), "got: {message}");
        }
        other => panic!("expected Error::Cli for workspace-member rejection, got {other:?}"),
    }
}

#[test]
fn override_workspace_rejects_implicit_workspace_member_manifest() {
    let mut top = entries(vec![
        ("package", tbl(vec![("name", s("member"))])),
        ("dependencies", tbl(vec![("foo", tbl(vec![("workspace", b(true))]))])),
    ]);
    let err = override_workspace_inheritance(&mut top, DUMMY_MANIFEST, Ok(None))
        .expect_err("implicit workspace-member manifest must be rejected");
    match err {
        Error::Cli { clap_exit_code, message } => {
            assert_eq!(clap_exit_code, 2);
            assert!(message.contains("implicit workspace member"), "got: {message}");
            assert!(message.contains("no local `[workspace]`"), "got: {message}");
            assert!(message.contains("workspace = true"), "got: {message}");
            assert!(message.contains("/tmp/lihaaf-test-upstream/Cargo.toml"), "got: {message}");
            assert!(get(&top, "workspace").is_none(), "rejection must not leave a half-mutated `[workspace]`");
        }
        other => panic!("expected Error::Cli for implicit workspace-member rejection, got {other:?}"),
    }
}

#[test]
fn override_workspace_rejects_manifest_with_ancestor_workspace() {
    let parent_manifest = "/tmp/lihaaf-ancestor/Cargo.toml";
    let sub_manifest = "/tmp/lihaaf-ancestor/sub/Cargo.toml";
    let mut top = entries(vec![("package", tbl(vec![("name", s("sub"))]))]);
    let err = override_workspace_inheritance(&mut top, sub_manifest, Ok(Some(parent_manifest.to_string())))
        .expect_err("manifest with ancestor workspace must be rejected");
    match err {
        Error::Cli { clap_exit_code, message } => {
            assert_eq!(clap_exit_code, 2);
            assert!(message.contains("implicit workspace member"), "got: {message}");
            assert!(message.contains("ancestor manifest"), "got: {message}");
            assert!(message.contains(parent_manifest), "got: {message}");
            assert!(!message.contains("workspace = true"), "got: {message}");
            assert!(get(&top, "workspace").is_none());
        }
        other => panic!("expected Error::Cli for ancestor-workspace rejection, got {other:?}"),
    }
}

#[test]
fn override_workspace_allows_standalone_with_no_ancestor_workspace() {
    let mut top = entries(vec![("package", tbl(vec![("name", s("standalone"))]))]);
    override_workspace_inheritance(&mut top, "/tmp/lihaaf-standalone/Cargo.toml", Ok(None))
        .unwrap_or_else(|err| panic!("standalone manifest must NOT be rejected; got: {err:?}"));
    assert!(table(get(&top, "workspace").unwrap()).is_empty());
}

#[test]
fn override_workspace_reports_ancestor_search_failure() {
    let mut top = entries(vec![("package", tbl(vec![("name", s("standalone"))]))]);
    let failure = Error::Io {
        context: "reading ancestor Cargo.toml during workspace detection".to_string(),
        path: Some("/tmp/Cargo.toml".to_string()),
        message: "permission denied".to_string(),
    };
    match override_workspace_inheritance(&mut top, DUMMY_MANIFEST, Err(failure)).unwrap_err() {
        Error::Io { context, .. } => {
            assert_eq!(context, "reading ancestor Cargo.toml during workspace detection")
        }
        other => panic!("expected the ancestor search error, got {other:?}"),
    }
}

#[test]
fn manifest_has_inheritance_reference_returns_false_for_non_inheriting_shapes() {
    let top: Vec<(String, Toml)> = Vec::new();
    assert!(!manifest_has_inheritance_reference(&top), "empty manifest has no inheritance references");
    let mut top = entries(vec![("package", tbl(vec![("name", s("demo"))]))]);
    assert!(!manifest_has_inheritance_reference(&top));
    top.push(("dependencies".to_string(), tbl(vec![("foo", tbl(vec![("version", s("1.0"))]))])));
    assert!(!manifest_has_inheritance_reference(&top));
    let top2 = entries(vec![("package", tbl(vec![("name", s("member")), ("workspace", s("../"))]))]);
    assert!(!manifest_has_inheritance_reference(&top2));
}

fn ws_true() -> Toml {
    tbl(vec![("workspace", b(true))])
}

#[test]
fn manifest_has_inheritance_reference_detects_every_family() {
    let top = entries(vec![("package", tbl(vec![("version", ws_true())]))]);
    assert!(manifest_has_inheritance_reference(&top), "`[package].version` must be detected");
    for family in ["dependencies", "dev-dependencies", "build-dependencies"] {
        let top = entries(vec![(family, tbl(vec![("foo", ws_true())]))]);
        assert!(manifest_has_inheritance_reference(&top), "`[{family}]` must be detected");
    }
    for (cfg, family) in [
        ("cfg(unix)", "dependencies"),
        ("cfg(windows)", "dev-dependencies"),
        ("cfg(target_arch = \"wasm32\")", "build-dependencies"),
    ] {
        let top = entries(vec![("target", tbl(vec![(cfg, tbl(vec![(family, tbl(vec![("foo", ws_true())]))]))]))]);
        assert!(manifest_has_inheritance_reference(&top), "`[target.{cfg}.{family}]` must be detected");
    }
    let top = entries(vec![("lints", tbl(vec![("workspace", b(true))]))]);
    assert!(manifest_has_inheritance_reference(&top), "`[lints] workspace = true` must be detected");
    let top = entries(vec![("lints", tbl(vec![("rust", ws_true())]))]);
    assert!(manifest_has_inheritance_reference(&top), "`[lints.rust] workspace = true` must be detected");
    let top = entries(vec![("package", tbl(vec![("future-inheritable-key", ws_true())]))]);
    assert!(manifest_has_inheritance_reference(&top), "unknown `[package].<future-key>` must be detected");
}

#[test]
fn override_workspace_allows_root_with_local_workspace_and_inheritance_refs() {
    let mut top = entries(vec![
        ("package", tbl(vec![("name", s("root")), ("version", ws_true())])),
        ("workspace", tbl(vec![("package", tbl(vec![("version", s("0.1.0"))]))])),
    ]);
    override_workspace_inheritance(&mut top, DUMMY_MANIFEST, Ok(None))
        .expect("root with local [workspace] + inheritance refs must succeed");
    match lookup(&top, &["package", "version", "workspace"]) {
        Some(Toml::Bool(true)) => {}
        other => panic!("inheritance reference must pass through verbatim; got {other:?}"),
    }
    assert!(lookup(&top, &["workspace", "package"]).is_some());
}

fn idempotence_input() -> Vec<(String, Toml)> {
    entries(vec![
        (
            "workspace",
            tbl(vec![
                ("members", arr(vec![s("crate-a")])),
                ("dependencies", tbl(vec![("shared", tbl(vec![("path", s("/abs/utils"))]))])),
            ]),
        ),
        ("package", tbl(vec![("name", s("test"))])),
    ])
}

#[test]
fn override_workspace_is_idempotent() {
    let mut once = idempotence_input();
    override_workspace_inheritance(&mut once, DUMMY_MANIFEST, Ok(None)).unwrap();
    let mut twice = idempotence_input();
    override_workspace_inheritance(&mut twice, DUMMY_MANIFEST, Ok(None)).unwrap();
    override_workspace_inheritance(&mut twice, DUMMY_MANIFEST, Ok(None)).unwrap();
    assert_eq!(
        value_of_doc(&Toml::Table(twice)),
        value_of_doc(&Toml::Table(once)),
        "second call must be a no-op on already-overridden output"
    );
}

fn lihaaf_table(top: &[(String, Toml)]) -> &Vec<(String, Toml)> {
    table(lookup(top, &["package", "metadata", "lihaaf"]).unwrap())
}

#[test]
fn synthetic_metadata_injects_allow_lints() {
    let mut top: Vec<(String, Toml)> = Vec::new();
    let meta = SyntheticMetadata {
        dylib_crate: "demo".into(),
        extern_crates: vec!["demo".into()],
        fixture_dirs: vec!["/abs/pass".into(), "/abs/fail".into()],
        allow_lints: vec!["unexpected_cfgs".to_string()],
    };
    inject_synthetic_metadata(&mut top, &meta);
    let lihaaf = lihaaf_table(&top);
    assert_eq!(strs(get(lihaaf, "allow_lints").unwrap()), vec!["unexpected_cfgs"]);
    assert_eq!(text(get(lihaaf, "dylib_crate").unwrap()), "demo");
    assert_eq!(strs(get(lihaaf, "extern_crates").unwrap()), vec!["demo"]);
    assert_eq!(strs(get(lihaaf, "fixture_dirs").unwrap()), vec!["/abs/pass", "/abs/fail"]);
}

#[test]
fn synthetic_metadata_default_in_compat_driver() {
    let meta = compat_default_synthetic_metadata("demo", vec![]);
    assert_eq!(
        meta.allow_lints,
        vec!["unexpected_cfgs".to_string()],
        "compat-driver default allow_lints must be [\"unexpected_cfgs\"]",
    );
}

#[test]
fn synthetic_metadata_replaces_upstream_allow_lints() {
    let mut top = entries(vec![(
        "package",
        tbl(vec![("metadata", tbl(vec![("lihaaf", tbl(vec![("allow_lints", arr(vec![s("some_other_lint")]))]))]))]),
    )]);
    let meta = SyntheticMetadata {
        dylib_crate: "demo".into(),
        extern_crates: vec!["demo".into()],
        fixture_dirs: vec!["/abs/pass".into()],
        allow_lints: vec!["unexpected_cfgs".to_string()],
    };
    inject_synthetic_metadata(&mut top, &meta);
    assert_eq!(strs(get(lihaaf_table(&top), "allow_lints").unwrap()), vec!["unexpected_cfgs"]);
}
