use lihaaf::config::{
    is_banner_shape, is_complete_placeholder_token, is_path_like, parse, validate_allow_lints,
    validate_dylib_crate, validate_extra_substitutions, validate_features, validate_strip_patterns,
    Config, DEFAULT_SUITE_NAME,
};
use lihaaf::error::{Error, Outcome};

fn parse_str(toml_text: &str) -> Result<Config, Error> {
    parse(toml_text, "Cargo.toml")
}

fn unwrap_invalid(err: Error) -> String {
    match err {
        Error::Session(Outcome::ConfigInvalid { message }) => message,
        other => panic!("expected ConfigInvalid, got {other:?}"),
    }
}

fn assert_parse_rejects_with(toml: &str, expected_substrings: &[&str]) {
    let err = parse_str(toml).unwrap_err();
    let msg = unwrap_invalid(err);
    for expected in expected_substrings {
        assert!(
            msg.contains(expected),
            "error message `{msg}` did not contain expected substring `{expected}`",
        );
    }
}

#[test]
fn missing_table_is_session_outcome_with_exact_message() {
    assert_parse_rejects_with(
        r#"
        [package]
        name = "x"
        version = "0.1.0"
    "#,
        &["`[package.metadata.lihaaf]`", "minimum required keys"],
    );
}

#[test]
fn missing_dylib_crate_is_invalid() {
    assert_parse_rejects_with(
        r#"
        [package.metadata.lihaaf]
        extern_crates = ["foo"]
    "#,
        &["dylib_crate"],
    );
}

#[test]
fn extern_crates_first_must_equal_dylib() {
    assert_parse_rejects_with(
        r#"
        [package.metadata.lihaaf]
        dylib_crate = "consumer"
        extern_crates = ["other"]
    "#,
        &["extern_crates[0]"],
    );
}

#[test]
fn defaults_apply_to_optional_keys_and_yield_one_default_suite() {
    let cfg = parse_str(
        r#"
        [package.metadata.lihaaf]
        dylib_crate = "consumer"
        extern_crates = ["consumer"]
    "#,
    )
    .unwrap();
    assert_eq!(cfg.dylib_crate, "consumer");
    assert_eq!(cfg.suites.len(), 1);
    let s = &cfg.suites[0];
    assert!(s.is_default());
    assert_eq!(s.name, DEFAULT_SUITE_NAME);
    assert_eq!(s.edition, "2021");
    assert_eq!(s.compile_fail_marker, "compile_fail");
    assert_eq!(s.fixture_timeout_secs, 90);
    assert_eq!(s.per_fixture_memory_mb, 1024);
    assert_eq!(s.fixture_dirs.len(), 2);
    assert!(s.features.is_empty());
    assert!(s.dev_deps.is_empty());
}

#[test]
fn edition_must_be_in_allowed_set() {
    assert_parse_rejects_with(
        r#"
        [package.metadata.lihaaf]
        dylib_crate = "consumer"
        extern_crates = ["consumer"]
        edition = "2026"
    "#,
        &["edition", "2024"],
    );
}

#[test]
fn zero_timeout_is_invalid() {
    assert_parse_rejects_with(
        r#"
        [package.metadata.lihaaf]
        dylib_crate = "consumer"
        extern_crates = ["consumer"]
        fixture_timeout_secs = 0
    "#,
        &["fixture_timeout_secs"],
    );
}

#[test]
fn zero_memory_ceiling_is_invalid() {
    assert_parse_rejects_with(
        r#"
        [package.metadata.lihaaf]
        dylib_crate = "consumer"
        extern_crates = ["consumer"]
        per_fixture_memory_mb = 0
    "#,
        &["per_fixture_memory_mb"],
    );
}

#[test]
fn raw_metadata_is_preserved_verbatim() {
    let cfg = parse_str(
        r#"
        [package.metadata.lihaaf]
        dylib_crate = "consumer"
        extern_crates = ["consumer", "consumer-macros"]
        features = ["testing"]
        dev_deps = ["serde", "serde_json"]
    "#,
    )
    .unwrap();
    let table = cfg.raw_metadata.as_table().unwrap();
    assert!(table.contains_key("dylib_crate"));
    assert!(table.contains_key("extern_crates"));
    assert!(table.contains_key("features"));
    assert!(table.contains_key("dev_deps"));
}

#[test]
fn named_suite_inherits_unspecified_keys_from_default() {
    let cfg = parse_str(
        r#"
        [package.metadata.lihaaf]
        dylib_crate = "consumer"
        extern_crates = ["consumer", "consumer-macros"]
        edition = "2024"
        dev_deps = ["serde"]
        compile_fail_marker = "compile_fail"
        fixture_timeout_secs = 120
        per_fixture_memory_mb = 2048
        allow_lints = ["dead_code"]

        [[package.metadata.lihaaf.suite]]
        name = "spatial"
        features = ["spatial"]
        fixture_dirs = ["tests/lihaaf/compile_pass_spatial"]
    "#,
    )
    .unwrap();
    assert_eq!(cfg.suites.len(), 2);
    let spatial = &cfg.suites[1];
    assert_eq!(spatial.name, "spatial");
    assert_eq!(spatial.features, vec!["spatial".to_string()]);
    assert_eq!(spatial.edition, "2024");
    assert_eq!(spatial.dev_deps, vec!["serde".to_string()]);
    assert_eq!(spatial.compile_fail_marker, "compile_fail");
    assert_eq!(spatial.fixture_timeout_secs, 120);
    assert_eq!(spatial.per_fixture_memory_mb, 2048);
    assert_eq!(
        spatial.extern_crates,
        vec!["consumer".to_string(), "consumer-macros".to_string()]
    );
    assert_eq!(spatial.allow_lints, vec!["dead_code".to_string()]);
}

#[test]
fn named_suite_features_do_not_inherit_from_default() {
    let cfg = parse_str(
        r#"
        [package.metadata.lihaaf]
        dylib_crate = "consumer"
        extern_crates = ["consumer"]
        features = ["testing"]

        [[package.metadata.lihaaf.suite]]
        name = "isolated"
        fixture_dirs = ["tests/lihaaf/iso"]
    "#,
    )
    .unwrap();
    assert_eq!(cfg.suites[0].features, vec!["testing".to_string()]);
    assert!(cfg.suites[1].features.is_empty());
}

#[test]
fn named_suite_can_override_features() {
    let cfg = parse_str(
        r#"
        [package.metadata.lihaaf]
        dylib_crate = "consumer"
        extern_crates = ["consumer"]
        features = ["testing"]

        [[package.metadata.lihaaf.suite]]
        name = "spatial"
        features = ["spatial"]
        fixture_dirs = ["tests/lihaaf/compile_pass_spatial"]
    "#,
    )
    .unwrap();
    assert_eq!(cfg.suites[1].features, vec!["spatial".to_string()]);
}

#[test]
fn named_suite_dylib_crate_is_rejected() {
    assert_parse_rejects_with(
        r#"
        [package.metadata.lihaaf]
        dylib_crate = "consumer"
        extern_crates = ["consumer"]

        [[package.metadata.lihaaf.suite]]
        name = "spatial"
        dylib_crate = "other"
        fixture_dirs = ["tests/lihaaf/spatial"]
    "#,
        &["dylib_crate", "not a per-suite key"],
    );
}

#[test]
fn named_suite_default_is_reserved() {
    assert_parse_rejects_with(
        r#"
        [package.metadata.lihaaf]
        dylib_crate = "consumer"
        extern_crates = ["consumer"]

        [[package.metadata.lihaaf.suite]]
        name = "default"
        fixture_dirs = ["tests/lihaaf/default_extra"]
    "#,
        &["\"default\"", "reserved"],
    );
}

#[test]
fn named_suite_missing_name_is_rejected() {
    assert_parse_rejects_with(
        r#"
        [package.metadata.lihaaf]
        dylib_crate = "consumer"
        extern_crates = ["consumer"]

        [[package.metadata.lihaaf.suite]]
        fixture_dirs = ["tests/lihaaf/x"]
    "#,
        &["entry #0", "name"],
    );
}

#[test]
fn named_suite_invalid_chars_in_name_rejected() {
    assert_parse_rejects_with(
        r#"
        [package.metadata.lihaaf]
        dylib_crate = "consumer"
        extern_crates = ["consumer"]

        [[package.metadata.lihaaf.suite]]
        name = "with space"
        fixture_dirs = ["tests/lihaaf/space"]
    "#,
        &["ASCII alphanumeric"],
    );
}

#[test]
fn named_suite_missing_fixture_dirs_is_rejected() {
    assert_parse_rejects_with(
        r#"
        [package.metadata.lihaaf]
        dylib_crate = "consumer"
        extern_crates = ["consumer"]

        [[package.metadata.lihaaf.suite]]
        name = "spatial"
        features = ["spatial"]
    "#,
        &["fixture_dirs", "required"],
    );
}

#[test]
fn named_suite_empty_fixture_dirs_is_rejected() {
    assert_parse_rejects_with(
        r#"
        [package.metadata.lihaaf]
        dylib_crate = "consumer"
        extern_crates = ["consumer"]

        [[package.metadata.lihaaf.suite]]
        name = "spatial"
        fixture_dirs = []
    "#,
        &["empty array"],
    );
}

#[test]
fn duplicate_suite_names_rejected() {
    assert_parse_rejects_with(
        r#"
        [package.metadata.lihaaf]
        dylib_crate = "consumer"
        extern_crates = ["consumer"]

        [[package.metadata.lihaaf.suite]]
        name = "spatial"
        fixture_dirs = ["tests/lihaaf/a"]

        [[package.metadata.lihaaf.suite]]
        name = "spatial"
        fixture_dirs = ["tests/lihaaf/b"]
    "#,
        &["duplicate suite name", "\"spatial\""],
    );
}

#[test]
fn fixture_dirs_must_be_disjoint_across_suites() {
    assert_parse_rejects_with(
        r#"
        [package.metadata.lihaaf]
        dylib_crate = "consumer"
        extern_crates = ["consumer"]
        fixture_dirs = ["tests/lihaaf/shared"]

        [[package.metadata.lihaaf.suite]]
        name = "spatial"
        fixture_dirs = ["tests/lihaaf/shared"]
    "#,
        &["shared", "default", "spatial"],
    );
}

#[test]
fn fixture_dirs_must_be_disjoint_after_dot_normalization() {
    assert_parse_rejects_with(
        r#"
        [package.metadata.lihaaf]
        dylib_crate = "consumer"
        extern_crates = ["consumer"]
        fixture_dirs = ["tests/lihaaf/shared"]

        [[package.metadata.lihaaf.suite]]
        name = "spatial"
        fixture_dirs = ["./tests/lihaaf/shared"]
    "#,
        &["resolves to the same directory", "default", "spatial"],
    );
}

#[test]
fn fixture_dirs_must_be_disjoint_after_absolute_resolution() {
    let root = "/work/consumer";
    let abs = format!("{root}/tests/lihaaf/shared");
    let toml = format!(
        r#"
        [package.metadata.lihaaf]
        dylib_crate = "consumer"
        extern_crates = ["consumer"]
        fixture_dirs = ["tests/lihaaf/shared"]

        [[package.metadata.lihaaf.suite]]
        name = "spatial"
        fixture_dirs = ['{}']
    "#,
        abs
    );
    let err = parse(&toml, &format!("{root}/Cargo.toml")).unwrap_err();
    let msg = unwrap_invalid(err);
    assert!(msg.contains("resolves to the same directory"));
    assert!(msg.contains("default"));
    assert!(msg.contains("spatial"));
}

#[test]
fn fixture_dirs_must_be_disjoint_between_two_named_suites() {
    assert_parse_rejects_with(
        r#"
        [package.metadata.lihaaf]
        dylib_crate = "consumer"
        extern_crates = ["consumer"]

        [[package.metadata.lihaaf.suite]]
        name = "alpha"
        fixture_dirs = ["tests/lihaaf/x"]

        [[package.metadata.lihaaf.suite]]
        name = "beta"
        fixture_dirs = ["tests/lihaaf/x"]
    "#,
        &["alpha", "beta"],
    );
}

#[test]
fn declared_suite_order_is_preserved() {
    let cfg = parse_str(
        r#"
        [package.metadata.lihaaf]
        dylib_crate = "consumer"
        extern_crates = ["consumer"]

        [[package.metadata.lihaaf.suite]]
        name = "second"
        fixture_dirs = ["tests/lihaaf/b"]

        [[package.metadata.lihaaf.suite]]
        name = "first"
        fixture_dirs = ["tests/lihaaf/a"]
    "#,
    )
    .unwrap();
    assert_eq!(cfg.suites[0].name, DEFAULT_SUITE_NAME);
    assert_eq!(cfg.suites[1].name, "second");
    assert_eq!(cfg.suites[2].name, "first");
}

#[test]
fn allow_lints_default_is_empty() {
    let cfg = parse_str(
        r#"
        [package.metadata.lihaaf]
        dylib_crate = "consumer"
        extern_crates = ["consumer"]
    "#,
    )
    .unwrap();
    assert!(
        cfg.suites[0].allow_lints.is_empty(),
        "allow_lints must default to an empty vec when the key is absent"
    );
}

#[test]
fn allow_lints_accepts_simple_lint_names() {
    let cfg = parse_str(
        r#"
        [package.metadata.lihaaf]
        dylib_crate = "consumer"
        extern_crates = ["consumer"]
        allow_lints = ["unexpected_cfgs", "dead_code"]
    "#,
    )
    .unwrap();
    assert_eq!(
        cfg.suites[0].allow_lints,
        vec!["unexpected_cfgs".to_string(), "dead_code".to_string()]
    );
}

#[test]
fn allow_lints_accepts_clippy_namespaced_lints() {
    let cfg = parse_str(
        r#"
        [package.metadata.lihaaf]
        dylib_crate = "consumer"
        extern_crates = ["consumer"]
        allow_lints = ["clippy::needless_collect"]
    "#,
    )
    .unwrap();
    assert_eq!(
        cfg.suites[0].allow_lints,
        vec!["clippy::needless_collect".to_string()]
    );
}

#[test]
fn allow_lints_rejects_empty_string() {
    assert_parse_rejects_with(
        r#"
        [package.metadata.lihaaf]
        dylib_crate = "consumer"
        extern_crates = ["consumer"]
        allow_lints = [""]
    "#,
        &["allow_lints", "empty string"],
    );
}

#[test]
fn allow_lints_rejects_leading_dash() {
    assert_parse_rejects_with(
        r#"
        [package.metadata.lihaaf]
        dylib_crate = "consumer"
        extern_crates = ["consumer"]
        allow_lints = ["-A unexpected_cfgs"]
    "#,
        &["allow_lints", "starts with `-`"],
    );
}

#[test]
fn allow_lints_rejects_whitespace() {
    assert_parse_rejects_with(
        r#"
        [package.metadata.lihaaf]
        dylib_crate = "consumer"
        extern_crates = ["consumer"]
        allow_lints = ["dead code"]
    "#,
        &["allow_lints", "whitespace"],
    );
}

#[test]
fn allow_lints_rejects_quote_and_backslash() {
    for (toml_value, bad_label) in &[
        (r#"'a"b'"#, r#"a"b"#), // double-quote via TOML raw string
        (r#""a'b""#, "a'b"),    // single-quote via TOML basic string
        (r#"'a\b'"#, r"a\b"),   // backslash via TOML raw string
    ] {
        let toml = format!(
            r#"
            [package.metadata.lihaaf]
            dylib_crate = "consumer"
            extern_crates = ["consumer"]
            allow_lints = [{toml_value}]
            "#,
        );
        let err = parse_str(&toml).unwrap_err();
        let msg = unwrap_invalid(err);
        assert!(
            msg.contains("allow_lints"),
            "error for entry `{bad_label}` did not mention `allow_lints`: {msg}"
        );
        assert!(
            msg.contains("whitespace"),
            "error for entry `{bad_label}` did not mention `whitespace`: {msg}"
        );
    }
}

#[test]
fn allow_lints_rejects_nul_byte() {
    let lints = vec![format!("bad{}lint", '\u{0}')];
    let err = validate_allow_lints("default", &lints).unwrap_err();
    let msg = unwrap_invalid(err);
    assert!(
        msg.contains("allow_lints"),
        "error did not mention `allow_lints`: {msg}"
    );
    assert!(msg.contains("NUL"), "error did not mention `NUL`: {msg}");
}

#[test]
fn features_rejects_nul_byte() {
    let features = vec![format!("bad{}feat", '\u{0}')];
    let err = validate_features("default", &features).unwrap_err();
    let msg = unwrap_invalid(err);
    assert!(
        msg.contains("features"),
        "error did not mention `features`: {msg}"
    );
    assert!(msg.contains("NUL"), "error did not mention `NUL`: {msg}");
}

#[test]
fn features_rejects_empty_string() {
    assert_parse_rejects_with(
        r#"
        [package.metadata.lihaaf]
        dylib_crate = "consumer"
        extern_crates = ["consumer"]
        features = [""]
    "#,
        &["features", "empty string"],
    );
}

#[test]
fn dylib_crate_rejects_nul_byte() {
    let name = format!("con{}sumer", '\u{0}');
    let err = validate_dylib_crate(&name).unwrap_err();
    let msg = unwrap_invalid(err);
    assert!(
        msg.contains("dylib_crate"),
        "error did not mention `dylib_crate`: {msg}"
    );
    assert!(msg.contains("NUL"), "error did not mention `NUL`: {msg}");
}

#[test]
fn allow_lints_named_suite_overrides_default() {
    let cfg = parse_str(
        r#"
        [package.metadata.lihaaf]
        dylib_crate = "consumer"
        extern_crates = ["consumer"]
        allow_lints = ["dead_code"]

        [[package.metadata.lihaaf.suite]]
        name = "extra"
        fixture_dirs = ["tests/lihaaf/extra"]
        allow_lints = ["unused"]
    "#,
    )
    .unwrap();
    assert_eq!(
        cfg.suites[1].allow_lints,
        vec!["unused".to_string()],
        "named suite allow_lints must replace the default, not merge"
    );
    assert_eq!(cfg.suites[0].allow_lints, vec!["dead_code".to_string()]);
}

#[test]
fn allow_lints_named_suite_empty_array_overrides_to_empty() {
    let cfg = parse_str(
        r#"
        [package.metadata.lihaaf]
        dylib_crate = "consumer"
        extern_crates = ["consumer"]
        allow_lints = ["dead_code"]

        [[package.metadata.lihaaf.suite]]
        name = "strict"
        fixture_dirs = ["tests/lihaaf/strict"]
        allow_lints = []
    "#,
    )
    .unwrap();
    assert!(
        cfg.suites[1].allow_lints.is_empty(),
        "explicit empty allow_lints on named suite must override to empty"
    );
}

#[test]
fn raw_metadata_preserves_allow_lints() {
    let cfg = parse_str(
        r#"
        [package.metadata.lihaaf]
        dylib_crate = "consumer"
        extern_crates = ["consumer"]
        allow_lints = ["unused_imports", "dead_code"]
    "#,
    )
    .unwrap();
    let table = cfg.raw_metadata.as_table().unwrap();
    assert!(
        table.contains_key("allow_lints"),
        "raw_metadata must preserve the allow_lints key verbatim for the manifest snapshot"
    );
    let lints = table["allow_lints"].as_array().unwrap();
    let lint_strs: Vec<&str> = lints.iter().filter_map(|v| v.as_str()).collect();
    assert_eq!(lint_strs, vec!["unused_imports", "dead_code"]);
}

#[test]
fn extra_substitutions_per_suite_replace_not_merge() {
    let cfg = parse_str(
        r#"
        [package.metadata.lihaaf]
        dylib_crate = "consumer"
        extern_crates = ["consumer"]
        extra_substitutions = [
            { from = "/default/path", to = "$WORKSPACE/d" },
        ]

        [[package.metadata.lihaaf.suite]]
        name = "extra"
        fixture_dirs = ["tests/lihaaf/extra"]
        extra_substitutions = [
            { from = "/named/path", to = "$WORKSPACE/n" },
        ]
    "#,
    )
    .unwrap();
    assert_eq!(cfg.suites[0].extra_substitutions.len(), 1);
    assert_eq!(cfg.suites[0].extra_substitutions[0].from, "/default/path");
    assert_eq!(cfg.suites[1].extra_substitutions.len(), 1);
    assert_eq!(cfg.suites[1].extra_substitutions[0].from, "/named/path");
}

#[test]
fn extra_substitutions_omitted_on_named_suite_is_empty() {
    let cfg = parse_str(
        r#"
        [package.metadata.lihaaf]
        dylib_crate = "consumer"
        extern_crates = ["consumer"]
        extra_substitutions = [
            { from = "/default/path", to = "$WORKSPACE/d" },
        ]

        [[package.metadata.lihaaf.suite]]
        name = "isolated"
        fixture_dirs = ["tests/lihaaf/iso"]
    "#,
    )
    .unwrap();
    assert_eq!(cfg.suites[0].extra_substitutions.len(), 1);
    assert!(
        cfg.suites[1].extra_substitutions.is_empty(),
        "named suite that omits extra_substitutions must get [], not inherit",
    );
}

#[test]
fn extra_substitutions_manifest_snapshot_round_trips() {
    let cfg = parse_str(
        r#"
        [package.metadata.lihaaf]
        dylib_crate = "consumer"
        extern_crates = ["consumer"]
        extra_substitutions = [
            { from = "/nix/store/abc", to = "$RUST/lib" },
        ]
        strip_lines = ["error: aborting due to 1 previous error"]
        strip_line_prefixes = ["For more information about this error"]
    "#,
    )
    .unwrap();
    let table = cfg.raw_metadata.as_table().unwrap();
    assert!(
        table.contains_key("extra_substitutions"),
        "raw_metadata must preserve extra_substitutions verbatim",
    );
    assert!(table.contains_key("strip_lines"));
    assert!(table.contains_key("strip_line_prefixes"));
}

#[test]
fn strip_patterns_per_suite_replace_not_merge() {
    let cfg = parse_str(
        r#"
        [package.metadata.lihaaf]
        dylib_crate = "consumer"
        extern_crates = ["consumer"]
        strip_lines = ["/default/strip"]
        strip_line_prefixes = ["/default/prefix/"]

        [[package.metadata.lihaaf.suite]]
        name = "extra"
        fixture_dirs = ["tests/lihaaf/extra"]
        strip_lines = ["/named/strip"]
        strip_line_prefixes = ["/named/prefix/"]
    "#,
    )
    .unwrap();
    assert_eq!(
        cfg.suites[0].strip_lines,
        vec!["/default/strip".to_string()]
    );
    assert_eq!(
        cfg.suites[0].strip_line_prefixes,
        vec!["/default/prefix/".to_string()]
    );
    assert_eq!(cfg.suites[1].strip_lines, vec!["/named/strip".to_string()]);
    assert_eq!(
        cfg.suites[1].strip_line_prefixes,
        vec!["/named/prefix/".to_string()]
    );
}

#[test]
fn strip_patterns_omitted_on_named_suite_is_empty() {
    let cfg = parse_str(
        r#"
        [package.metadata.lihaaf]
        dylib_crate = "consumer"
        extern_crates = ["consumer"]
        strip_lines = ["/default/strip"]
        strip_line_prefixes = ["/default/prefix/"]

        [[package.metadata.lihaaf.suite]]
        name = "isolated"
        fixture_dirs = ["tests/lihaaf/iso"]
    "#,
    )
    .unwrap();
    assert!(cfg.suites[1].strip_lines.is_empty());
    assert!(cfg.suites[1].strip_line_prefixes.is_empty());
}

#[test]
fn is_path_like_accepts_absolute_unix_path() {
    assert!(is_path_like("/nix/store/abc123"));
    assert!(is_path_like("/build/sandbox"));
}

#[test]
fn is_path_like_accepts_absolute_windows_path() {
    assert!(is_path_like(r"C:\Users\runner\.cargo"));
    assert!(is_path_like(r"D:\build\target"));
}

#[test]
fn is_path_like_accepts_relative_path_with_separator() {
    assert!(is_path_like("target/release"));
    assert!(is_path_like(r"src\compat"));
}

#[test]
fn is_path_like_accepts_path_segment() {
    assert!(is_path_like("nix/store"));
    assert!(is_path_like("vendor/cargo-cache"));
}

#[test]
fn is_path_like_accepts_builtin_placeholder_bare() {
    for placeholder in &[
        "$DIR",
        "$WORKSPACE",
        "$RUST",
        "$CARGO",
        "$TYPEID",
        "$LONGTYPE_FILE",
    ] {
        assert!(
            is_path_like(placeholder),
            "expected built-in placeholder {placeholder} to pass is_path_like",
        );
    }
}

#[test]
fn is_path_like_accepts_builtin_placeholder_with_suffix() {
    assert!(is_path_like("$DIR/test.rs"));
    assert!(is_path_like("$RUST/lib/rustlib"));
    assert!(is_path_like("$CARGO/registry/src"));
}

#[test]
fn is_path_like_accepts_adopter_placeholder() {
    assert!(is_path_like("$NIX_STORE"));
    assert!(is_path_like("$SANDBOX_ROOT"));
    assert!(is_path_like("$VENDOR_CACHE_2026"));
}

#[test]
fn is_path_like_accepts_adopter_placeholder_with_suffix() {
    assert!(is_path_like("$NIX_STORE/rust"));
    assert!(is_path_like("$SANDBOX_ROOT/target/release"));
}

#[test]
fn is_path_like_accepts_interior_lowercase_dollar_within_path() {
    assert!(is_path_like("/path/$nix/sub"));
    assert!(is_path_like("/some/$cache/dir"));
    assert!(is_path_like("$WORKSPACE/$tmp/run"));
}

#[test]
fn is_path_like_rejects_diagnostic_text_plain() {
    for s in &["error", "warning", "help", "note", "error:", "E0277", ":"] {
        assert!(
            !is_path_like(s),
            "is_path_like must reject diagnostic-text plain pattern {s:?}",
        );
    }
}

#[test]
fn is_path_like_rejects_round2_block1_surface() {
    for s in &[
        "  |",
        "For more information about this error",
        "expected due to this",
    ] {
        assert!(!is_path_like(s), "BLOCK-1 surface {s:?} must be rejected");
    }
}

#[test]
fn is_path_like_rejects_round2_block2_surface() {
    for s in &["error[", "warning[", "error: aborting due to"] {
        assert!(!is_path_like(s), "BLOCK-2 surface {s:?} must be rejected");
    }
}

#[test]
fn is_path_like_rejects_length_one_separator() {
    assert!(!is_path_like("/"));
    assert!(!is_path_like(r"\"));
}

#[test]
fn is_path_like_rejects_length_one_dollar() {
    assert!(!is_path_like("$"));
}

#[test]
fn is_path_like_rejects_bare_dollar_patterns() {
    for s in &["$ ", "$1", "$lowercase", "$ NAME", "$_"] {
        assert!(
            !is_path_like(s),
            "bare `$` pattern {s:?} must be rejected by leading-`$` guard",
        );
    }
}

#[test]
fn is_path_like_rejects_lowercase_dollar_with_separator() {
    for s in &[
        "$nix/path",
        "$lowercase/anything",
        "$_path/x",
        "$1/path",
        "$ /space-then-slash",
        r"$nix\path",
    ] {
        assert!(
            !is_path_like(s),
            "lowercase `$` + separator {s:?} must be rejected by rule-3 leading-`$` guard \
             (would have passed via rule 4(a)/(b) before round-4 amendment)",
        );
    }
}

#[test]
fn is_path_like_rejects_placeholder_with_trailing_junk() {
    for s in &["$DIR-", "$A!", "$RUST.", "$DIR ", "$WORKSPACE,"] {
        assert!(
            !is_path_like(s),
            "placeholder with trailing junk {s:?} must be rejected: \
             rule (4c) is full-string anchored",
        );
    }
    assert!(is_path_like("$DIR/x"));
    assert!(
        !is_complete_placeholder_token("$DIR/x"),
        "(4c) alone must reject `$DIR/x`; that pattern passes is_path_like via rule 4(a)",
    );
}

#[test]
fn is_path_like_rejects_empty_and_whitespace() {
    assert!(!is_path_like(""));
    assert!(!is_path_like(" "));
    assert!(!is_path_like("\t\t"));
}

#[test]
fn is_path_like_rejects_embedded_markers_no_path() {
    assert!(!is_path_like("errored"));
    assert!(!is_path_like("aborted"));
}

#[test]
fn is_path_like_rejects_markers_with_trailing_colon() {
    assert!(!is_path_like("error:"));
    assert!(!is_path_like("note:"));
    assert!(!is_path_like("help:"));
}

#[test]
fn is_path_like_rejects_newline_bearing() {
    assert!(!is_path_like("a\nb"));
    assert!(!is_path_like("$DIR\n"));
}

#[test]
fn is_banner_shape_accepts_explain_footer() {
    assert!(is_banner_shape(
        "For more information about this error, try `rustc --explain E0277`.",
    ));
    assert!(is_banner_shape(
        "For more information about this error, try `rustc --explain E0001`.",
    ));
    assert!(is_banner_shape(
        "For more information about this error, try `rustc --explain E9999`.",
    ));
    assert!(is_banner_shape(
        "For more information about this error in the documentation.",
    ));
}

#[test]
fn is_banner_shape_accepts_macro_origin_trailer() {
    assert!(is_banner_shape(
        "note: this error originates from the macro `m` in the crate `c` \
         (in Nightly builds, run with -Z macro-backtrace for more info)",
    ));
    assert!(is_banner_shape(
        "note: this error originates from the attribute macro `derive_more::Display`",
    ));
}

#[test]
fn is_banner_shape_accepts_error_count_summary() {
    assert!(is_banner_shape("error: aborting due to 1 previous error"));
    assert!(is_banner_shape("error: aborting due to 42 previous errors"));
    assert!(is_banner_shape(
        "error: aborting due to 1 previous error; 2 warnings emitted",
    ));
}

#[test]
fn is_banner_shape_accepts_vendored_toolchain_info() {
    assert!(is_banner_shape(
        "info: using rustc from /opt/vendored/rust-1.95.0/bin/rustc",
    ));
    assert!(is_banner_shape(
        "info: switching to nightly toolchain to satisfy unstable feature",
    ));
}

#[test]
fn is_banner_shape_accepts_linker_version() {
    assert!(is_banner_shape(
        "linker version: GNU ld (GNU Binutils) 2.40",
    ));
    assert!(is_banner_shape("linker version: rust-lld 15.0.7"));
}

#[test]
fn is_banner_shape_accepts_structural_banner_shape() {
    assert!(is_banner_shape(
        "Node.js 16 actions are deprecated. Please update the following actions to use \
         Node.js 20: actions/checkout@v3",
    ));
    assert!(is_banner_shape(
        "GitHub Actions deprecation: please migrate to Node.js 20 by end-of-life date",
    ));
    assert!(is_banner_shape(
        "Deprecated generator output: Please update the generated API before release",
    ));
}

#[test]
fn is_banner_shape_rejects_length_floor() {
    for s in &["error", "note", ": ", "linker: lld-15.0.7"] {
        assert!(
            !is_banner_shape(s),
            "banner-shape length-floor rejection: {s:?} (len={})",
            s.len(),
        );
    }
}

#[test]
fn is_banner_shape_rejects_whitespace_leading() {
    for s in &["  |", "   ^^^^^", "\t= note: ..."] {
        assert!(
            !is_banner_shape(s),
            "whitespace-leading {s:?} must be rejected by (A.3)",
        );
    }
}

#[test]
fn is_banner_shape_rejects_span_context_first_byte() {
    for s in &[
        "^^^^^^^^^^^^^^^^^^^^^",            // 21 chars to clear (A.1)
        "= note: some content here for it", // long enough
        "| trait bound goes in here too",
    ] {
        assert!(
            !is_banner_shape(s),
            "span-context-first-byte {s:?} must be rejected by (A.4)",
        );
    }
}

#[test]
fn is_banner_shape_rejects_diagnostic_body_anti_prefix() {
    for s in &[
        "expected one of: cascade, set null",
        "found type `u32` but wanted f64",
        "the trait bound `X: Y` is not satisfied",
        "the type `Foo` cannot be sent across threads",
        "cannot find function `foo` in scope",
        "mismatched types when expected was right",
        "consider importing this trait for the call site",
        "help: try adding `as_ref` for the call site",
    ] {
        assert!(
            !is_banner_shape(s),
            "anti-prefix diagnostic body {s:?} must be rejected by (B)",
        );
    }
}

#[test]
fn is_banner_shape_rejects_diagnostic_keyword_with_colon() {
    assert!(
        !is_banner_shape("warning: use of deprecated function `f`"),
        "`warning: ...` MUST be rejected even though it contains `deprecated`",
    );
    assert!(!is_banner_shape(
        "error[E0277]: trait not implemented for this type",
    ));
    assert!(!is_banner_shape("error[E0277]"));
}

#[test]
fn is_banner_shape_rejects_lowercase_leading_non_rustc() {
    assert!(!is_banner_shape("gitlab ci deprecation banner here"));
}

#[test]
fn is_banner_shape_rejects_uppercase_leading_short() {
    assert!(!is_banner_shape("Node 16 deprecated"));
}

#[test]
fn is_banner_shape_rejects_diagnostic_looking_like_banner() {
    assert!(
        !is_banner_shape("error: cannot find type `Foo` in scope"),
        "diagnostic-looking-like-banner must be rejected (defense-in-depth)",
    );
}

fn extra_subs_toml(from: &str) -> String {
    format!(
        r#"
        [package.metadata.lihaaf]
        dylib_crate = "consumer"
        extern_crates = ["consumer"]
        extra_substitutions = [
            {{ from = '{from}', to = "$WORKSPACE/x" }},
        ]
    "#,
    )
}

#[test]
fn validate_extra_substitutions_rejects_non_path_from() {
    let bad: Vec<&str> = vec![
        "error",
        "expected due to this",
        "error: aborting due to",
        "$",
        "$lowercase",
        "$nix/path",
        "$DIR-",
        "$RUST.",
        "$WORKSPACE,",
        " ",
        "errored",
        "error:",
    ];
    for from in &bad {
        let toml = extra_subs_toml(from);
        let err = parse_str(&toml).unwrap_err();
        let msg = unwrap_invalid(err);
        assert!(
            msg.contains("not path-like")
                || msg.contains("is_path_like")
                || msg.contains("extra_substitutions"),
            "rejection of {from:?} should mention validator: {msg}",
        );
    }
}

#[test]
fn validate_extra_substitutions_accepts_path_from() {
    let good: Vec<&str> = vec![
        "/nix/store/abc123",
        r"C:\Users\runner\.cargo",
        "target/release",
        "nix/store",
        "$DIR",
        "$WORKSPACE",
        "$RUST",
        "$DIR/test.rs",
        "$NIX_STORE",
        "$NIX_STORE/rust",
        "/path/$nix/sub",
        "/some/$cache/dir",
        "$WORKSPACE/$tmp/run",
    ];
    for from in &good {
        let toml = extra_subs_toml(from);
        let cfg = parse_str(&toml).unwrap_or_else(|e| {
            panic!("expected {from:?} to pass is_path_like, but got error: {e:?}");
        });
        assert_eq!(cfg.suites[0].extra_substitutions.len(), 1);
        assert_eq!(cfg.suites[0].extra_substitutions[0].from, *from);
    }
}

#[test]
fn validate_extra_substitutions_rejects_newline_in_to() {
    let toml = r#"
        [package.metadata.lihaaf]
        dylib_crate = "consumer"
        extern_crates = ["consumer"]
        extra_substitutions = [
            { from = "/nix/store", to = "alpha\nbeta" },
        ]
    "#;
    let err = parse_str(toml).unwrap_err();
    let msg = unwrap_invalid(err);
    assert!(
        msg.contains("newline") || msg.contains("single-line"),
        "newline-in-to error should mention newline: {msg}",
    );
}

#[test]
fn validate_extra_substitutions_accepts_compound_to() {
    for to_value in &["", "$RUST", "$RUST/lib/rustlib"] {
        let toml = format!(
            r#"
            [package.metadata.lihaaf]
            dylib_crate = "consumer"
            extern_crates = ["consumer"]
            extra_substitutions = [
                {{ from = "/nix/store", to = "{to_value}" }},
            ]
        "#,
        );
        let cfg = parse_str(&toml).unwrap_or_else(|e| {
            panic!("expected to={to_value:?} to pass, got: {e:?}");
        });
        assert_eq!(cfg.suites[0].extra_substitutions[0].to, *to_value);
    }
}

fn strip_lines_toml(line: &str) -> String {
    format!(
        r#"
        [package.metadata.lihaaf]
        dylib_crate = "consumer"
        extern_crates = ["consumer"]
        strip_lines = ['{line}']
    "#,
    )
}

fn strip_prefixes_toml(prefix: &str) -> String {
    format!(
        r#"
        [package.metadata.lihaaf]
        dylib_crate = "consumer"
        extern_crates = ["consumer"]
        strip_line_prefixes = ['{prefix}']
    "#,
    )
}

#[test]
fn validate_strip_patterns_accepts_path() {
    let good: Vec<&str> = vec![
        "/nix/store/abc123",
        r"C:\Users\runner\.cargo",
        "target/release",
        "nix/store",
        "$DIR",
        "$DIR/test.rs",
        "$NIX_STORE",
        "$NIX_STORE/rust",
        "/path/$nix/sub",
    ];
    for pat in &good {
        let toml_strip = strip_lines_toml(pat);
        parse_str(&toml_strip).unwrap_or_else(|e| {
            panic!("strip_lines accept {pat:?}: {e:?}");
        });
        let toml_prefix = strip_prefixes_toml(pat);
        parse_str(&toml_prefix).unwrap_or_else(|e| {
            panic!("strip_line_prefixes accept {pat:?}: {e:?}");
        });
    }
}

#[test]
fn validate_strip_patterns_accepts_banner() {
    let good: Vec<&str> = vec![
        "For more information about this error, try x",
        "note: this error originates from the macro `m` here",
        "error: aborting due to 1 previous error",
        "info: using rustc from /opt/vendored/rust-1.95.0/bin/rustc",
        "linker version: GNU ld (GNU Binutils) 2.40",
        "Node.js 16 actions are deprecated. Please update the actions",
    ];
    for pat in &good {
        let toml_strip = strip_lines_toml(pat);
        parse_str(&toml_strip).unwrap_or_else(|e| {
            panic!("strip_lines accept banner {pat:?}: {e:?}");
        });
        let toml_prefix = strip_prefixes_toml(pat);
        parse_str(&toml_prefix).unwrap_or_else(|e| {
            panic!("strip_line_prefixes accept banner {pat:?}: {e:?}");
        });
    }
}

#[test]
fn validate_strip_patterns_rejects_span_context() {
    let bad: Vec<&str> = vec![
        "  |",
        "   ^^^^^",
        "^^^^^^^^^^^^^^^^^^^^^",
        "= note: some content here for it",
    ];
    for pat in &bad {
        let toml_strip = strip_lines_toml(pat);
        assert!(
            parse_str(&toml_strip).is_err(),
            "strip_lines must reject span-context {pat:?}",
        );
        let toml_prefix = strip_prefixes_toml(pat);
        assert!(
            parse_str(&toml_prefix).is_err(),
            "strip_line_prefixes must reject span-context {pat:?}",
        );
    }
}

#[test]
fn validate_strip_patterns_rejects_diagnostic_keywords() {
    let bad: Vec<&str> = vec![
        "error",
        "warning",
        "note",
        "error[",
        "error: aborting due to",
        "error[E0277]: trait not implemented for this type",
    ];
    for pat in &bad {
        let toml_strip = strip_lines_toml(pat);
        assert!(
            parse_str(&toml_strip).is_err(),
            "strip_lines must reject diagnostic keyword {pat:?}",
        );
        let toml_prefix = strip_prefixes_toml(pat);
        assert!(
            parse_str(&toml_prefix).is_err(),
            "strip_line_prefixes must reject diagnostic keyword {pat:?}",
        );
    }
}

#[test]
fn validate_strip_patterns_rejects_diagnostic_body() {
    let bad: Vec<&str> = vec![
        "the trait bound `X: Y` is not satisfied",
        "cannot find function `foo` in scope",
        "mismatched types when comparing two structs",
        "consider importing this trait for the call site",
    ];
    for pat in &bad {
        let toml_strip = strip_lines_toml(pat);
        assert!(
            parse_str(&toml_strip).is_err(),
            "strip_lines must reject diagnostic body {pat:?}",
        );
        let toml_prefix = strip_prefixes_toml(pat);
        assert!(
            parse_str(&toml_prefix).is_err(),
            "strip_line_prefixes must reject diagnostic body {pat:?}",
        );
    }
}

#[test]
fn validate_strip_patterns_rejects_disguised_diagnostic() {
    let pat = "error: cannot find type `Foo` in scope";
    let toml_strip = strip_lines_toml(pat);
    assert!(
        parse_str(&toml_strip).is_err(),
        "disguised diagnostic must be rejected by strip_lines (defense-in-depth)",
    );
    let toml_prefix = strip_prefixes_toml(pat);
    assert!(
        parse_str(&toml_prefix).is_err(),
        "disguised diagnostic must be rejected by strip_line_prefixes",
    );
}

#[test]
fn validate_strip_patterns_rejects_short_and_dollar() {
    let bad: Vec<&str> = vec![
        "/",
        r"\",
        "$",
        "$lowercase",
        "$1",
        "$nix/path",
        "$lowercase/anything",
        "$DIR-",
        "$WORKSPACE,",
        " ",
    ];
    for pat in &bad {
        let toml_strip = strip_lines_toml(pat);
        assert!(
            parse_str(&toml_strip).is_err(),
            "strip_lines must reject {pat:?}",
        );
        let toml_prefix = strip_prefixes_toml(pat);
        assert!(
            parse_str(&toml_prefix).is_err(),
            "strip_line_prefixes must reject {pat:?}",
        );
    }
}

#[test]
fn validate_strip_patterns_rejects_newline_bearing() {
    let toml = r#"
        [package.metadata.lihaaf]
        dylib_crate = "consumer"
        extern_crates = ["consumer"]
        strip_lines = ["alpha\nbeta"]
    "#;
    let err = parse_str(toml).unwrap_err();
    let msg = unwrap_invalid(err);
    assert!(
        msg.contains("newline") || msg.contains("single-line"),
        "newline in strip_lines must surface as newline error: {msg}",
    );
    let toml2 = r#"
        [package.metadata.lihaaf]
        dylib_crate = "consumer"
        extern_crates = ["consumer"]
        strip_line_prefixes = ["alpha\nbeta"]
    "#;
    let err2 = parse_str(toml2).unwrap_err();
    let msg2 = unwrap_invalid(err2);
    assert!(
        msg2.contains("newline") || msg2.contains("single-line"),
        "newline in strip_line_prefixes must surface as newline error: {msg2}",
    );
}

#[test]
fn extra_substitutions_collision_with_builtin_placeholder() {
    let cfg = parse_str(
        r#"
        [package.metadata.lihaaf]
        dylib_crate = "consumer"
        extern_crates = ["consumer"]
        extra_substitutions = [
            { from = "$DIR", to = "$NOT_DIR" },
        ]
    "#,
    )
    .unwrap();
    assert_eq!(cfg.suites[0].extra_substitutions[0].from, "$DIR");
    assert_eq!(cfg.suites[0].extra_substitutions[0].to, "$NOT_DIR");
}

#[test]
fn extra_substitutions_per_suite_override_interaction() {
    let cfg = parse_str(
        r#"
        [package.metadata.lihaaf]
        dylib_crate = "consumer"
        extern_crates = ["consumer"]
        extra_substitutions = [
            { from = "/default/a", to = "$WORKSPACE/a" },
            { from = "/default/b", to = "$WORKSPACE/b" },
        ]

        [[package.metadata.lihaaf.suite]]
        name = "named"
        fixture_dirs = ["tests/lihaaf/named"]
        extra_substitutions = [
            { from = "/named/x", to = "$WORKSPACE/x" },
        ]
    "#,
    )
    .unwrap();
    assert_eq!(cfg.suites[0].extra_substitutions.len(), 2);
    assert_eq!(cfg.suites[1].extra_substitutions.len(), 1);
    assert_eq!(cfg.suites[1].extra_substitutions[0].from, "/named/x");
}

#[test]
fn strip_patterns_per_suite_override_interaction() {
    let cfg = parse_str(
        r#"
        [package.metadata.lihaaf]
        dylib_crate = "consumer"
        extern_crates = ["consumer"]
        strip_lines = [
            "/default/path",
            "error: aborting due to 1 previous error",
        ]

        [[package.metadata.lihaaf.suite]]
        name = "named"
        fixture_dirs = ["tests/lihaaf/named"]
        strip_lines = [
            "/named/path",
        ]
    "#,
    )
    .unwrap();
    assert_eq!(cfg.suites[0].strip_lines.len(), 2);
    assert_eq!(cfg.suites[1].strip_lines.len(), 1);
    assert_eq!(cfg.suites[1].strip_lines[0], "/named/path");
}

