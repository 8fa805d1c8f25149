use lihaaf::cli::Cli;
use lihaaf::compat::baseline::{BaselineResult, BaselineVerdict, MismatchEntry};
use lihaaf::compat::cli::{parse_argv_json, CompatArgs, DEFAULT_CARGO_TEST_ARGV_JSON};
use lihaaf::compat::discovery::DiscoveryUnrecognized;
use lihaaf::compat::{
    assemble_diagnostic_errors, basename_fallback, build_inner_cli, build_mismatch_examples, inner_error_exit_code,
    lihaaf_side_counts, render_argv, render_inner_command,
};
use lihaaf::error::{Error, Outcome};
use lihaaf::normalize::NormalizationContext;

fn base_cli() -> Cli {
    Cli {
        bless: false,
        compat: true,
        compat_cargo_test_argv: None,
        compat_commit: None,
        compat_filter: Vec::new(),
        compat_manifest: None,
        compat_package: None,
        compat_report: Some("/tmp/lihaaf-build-inner-cli-test-report.json".to_string()),
        compat_root: Some("/tmp/lihaaf-build-inner-cli-test-root".to_string()),
        compat_trybuild_macro: Vec::new(),
        filter: Vec::new(),
        jobs: None,
        suite: Vec::new(),
        no_cache: false,
        manifest_path: None,
        list: false,
        quiet: false,
        verbose: false,
        use_symlink: false,
        keep_output: false,
        inner_compat_normalize: false,
    }
}

fn neutral_compat_args() -> CompatArgs {
    CompatArgs {
        compat_root: "/tmp/lihaaf-build-inner-cli-test-root".to_string(),
        compat_report: "/tmp/lihaaf-build-inner-cli-test-report.json".to_string(),
        compat_cargo_test_argv: vec!["cargo".to_string(), "test".to_string()],
        compat_manifest: None,
        compat_package: None,
        compat_commit: None,
        compat_filter: Vec::new(),
        compat_trybuild_macro: Vec::new(),
        inner_cli: base_cli(),
    }
}

#[test]
fn build_inner_cli_sets_inner_compat_normalize_true() {
    let args = neutral_compat_args();
    let inner = build_inner_cli(&args, "/tmp/lihaaf-build-inner-cli-test/target/lihaaf-overlay/Cargo.toml");
    assert!(inner.inner_compat_normalize);
    assert!(!inner.compat);
}

#[test]
fn normalization_context_reads_inner_compat_normalize() {
    let ctx_compat = NormalizationContext::new("/p".to_string(), "/r".to_string()).with_compat_short_cargo(true);
    assert!(ctx_compat.compat_short_cargo);
    let ctx_non_compat =
        NormalizationContext::new("/p".to_string(), "/r".to_string()).with_compat_short_cargo(false);
    assert!(!ctx_non_compat.compat_short_cargo);
}

#[test]
fn assemble_diagnostic_errors_ignores_baseline_unknown_count() {
    let errors = assemble_diagnostic_errors(None, &Vec::new(), None, "/tmp/compat-root");
    assert!(errors.is_empty(), "got {errors:?}");
    assert!(!errors.iter().any(|e| e.error_type == "baseline_unknown"));
}

#[test]
fn render_inner_command_manifest_path_is_repo_relative() {
    let args = neutral_compat_args();
    let cmd_a = render_inner_command(
        &args,
        "/home/runner/work/my-crate/target/lihaaf-overlay/Cargo.toml",
        "/home/runner/work/my-crate",
    );
    let cmd_b = render_inner_command(
        &args,
        "/home/tarunvir/projects/my-crate/target/lihaaf-overlay/Cargo.toml",
        "/home/tarunvir/projects/my-crate",
    );
    assert_eq!(cmd_a, cmd_b);
    assert!(!cmd_a.contains("/home/"), "got `{cmd_a}`");
    assert!(cmd_a.contains("target/lihaaf-overlay/Cargo.toml"), "got `{cmd_a}`");
}

#[test]
fn assemble_diagnostic_errors_orders_kinds_by_source_seam() {
    let unrec = DiscoveryUnrecognized {
        file: "/tmp/compat-root/tests/ui.rs".to_string(),
        line: 7,
        detail: "non-literal arg".into(),
    };
    let errors = assemble_diagnostic_errors(
        Some("rustup spawn failed".into()),
        &vec![unrec],
        Some("inner panicked".into()),
        "/tmp/compat-root",
    );
    let types: Vec<&str> = errors.iter().map(|e| e.error_type.as_str()).collect();
    assert_eq!(types, vec!["toolchain_capture_failed", "discovery_unrecognized", "lihaaf_session_failed"]);
    assert_eq!(errors[1].file, "tests/ui.rs");
    assert_eq!(errors[1].line, 7);
}

#[test]
fn render_inner_command_lists_every_flag_in_order() {
    let mut args = neutral_compat_args();
    args.inner_cli.bless = true;
    args.inner_cli.quiet = true;
    args.inner_cli.keep_output = true;
    args.inner_cli.jobs = Some(12);
    args.inner_cli.suite = vec!["a".into(), "b".into()];
    args.compat_filter = vec!["x".into()];
    let cmd = render_inner_command(&args, "/r/target/lihaaf-overlay/Cargo.toml", "/r");
    assert_eq!(
        cmd,
        "cargo lihaaf --manifest-path target/lihaaf-overlay/Cargo.toml --bless --quiet --keep-output --jobs 12 --suite a --suite b --filter x"
    );
}

#[test]
fn render_argv_joins_with_spaces() {
    assert_eq!(render_argv(&vec!["cargo".into(), "test".into(), "--".into()]), "cargo test --");
    assert_eq!(render_argv(&Vec::new()), "");
}

#[test]
fn basename_fallback_takes_the_last_name() {
    assert_eq!(basename_fallback("/home/u/my-crate"), "my-crate");
    assert_eq!(basename_fallback("/home/u/my-crate/"), "my-crate");
    assert_eq!(basename_fallback("/"), "unknown");
    assert_eq!(basename_fallback("a/.."), "unknown");
}

#[test]
fn mismatch_examples_name_the_baseline_side() {
    let result = BaselineResult {
        pass: None,
        fail: None,
        unknown_count: 0,
        exit_code: 0,
        dur_ms: 0,
        sidecar_path: String::new(),
        argv: Vec::new(),
        mismatch_entries: vec![
            MismatchEntry { fixture: "tests/ui/a.rs".into(), baseline_verdict: BaselineVerdict::Pass },
            MismatchEntry { fixture: "tests/ui/b.rs".into(), baseline_verdict: BaselineVerdict::Fail },
        ],
    };
    let ex = build_mismatch_examples(&result, &Vec::new());
    assert_eq!(ex.len(), 2);
    assert_eq!(ex[0].mismatch_type, "baseline_only_pass");
    assert_eq!(ex[1].mismatch_type, "baseline_only_fail");
    assert_eq!(ex[1].fixture, "tests/ui/b.rs");
}

#[test]
fn inner_errors_exit_with_config_code() {
    let session = Error::Session(Outcome::ConfigInvalid { message: "m".into() });
    assert_eq!(inner_error_exit_code(&session), 64);
    let other = Error::JsonParse { context: "c".into(), message: "m".into() };
    assert_eq!(inner_error_exit_code(&other), 64);
    assert_eq!(lihaaf_side_counts(3, 0), (3, 0, 0));
    assert_eq!(lihaaf_side_counts(3, 2), (3, 2, 1));
}

#[test]
fn default_argv_parses_to_cargo_test() {
    let argv = parse_argv_json(DEFAULT_CARGO_TEST_ARGV_JSON).expect("default must parse");
    assert_eq!(argv, vec!["cargo".to_string(), "test".to_string()]);
}

#[test]
fn parse_argv_json_rejects_object() {
    match parse_argv_json(r#"{"cargo":"test"}"#).expect_err("object must be rejected") {
        Error::Cli { message, .. } => assert!(message.contains("JSON object"), "{message}"),
        other => panic!("expected Cli error, got {other:?}"),
    }
}

#[test]
fn parse_argv_json_rejects_string() {
    match parse_argv_json(r#""cargo test""#).expect_err("string must be rejected") {
        Error::Cli { message, .. } => assert!(message.contains("JSON string"), "{message}"),
        other => panic!("expected Cli error, got {other:?}"),
    }
}

#[test]
fn parse_argv_json_rejects_non_string_element() {
    match parse_argv_json(r#"["cargo", 42]"#).expect_err("number element must be rejected") {
        Error::Cli { message, .. } => {
            assert!(message.contains("index 1"), "{message}");
            assert!(message.contains("JSON number"), "{message}");
        }
        other => panic!("expected Cli error, got {other:?}"),
    }
}

#[test]
fn parse_argv_json_rejects_malformed_json() {
    match parse_argv_json(r#"["cargo","test"#).expect_err("malformed JSON must be rejected") {
        Error::Cli { message, .. } => assert!(message.contains("failed to parse as JSON"), "{message}"),
        other => panic!("expected Cli error, got {other:?}"),
    }
}

#[test]
fn parse_argv_json_accepts_extended_argv() {
    let argv = parse_argv_json(r#"["cargo","+nightly","test","--","--ignored"]"#).expect("extended argv must parse");
    assert_eq!(
        argv,
        vec![
            "cargo".to_string(),
            "+nightly".to_string(),
            "test".to_string(),
            "--".to_string(),
            "--ignored".to_string(),
        ]
    );
}

#[test]
fn compat_args_from_cli_carries_compat_package() {
    let mut cli = base_cli();
    cli.compat_package = Some("axum-macros".to_string());
    let args = CompatArgs::from_cli(cli, Ok("/work".to_string())).expect("from_cli must succeed");
    assert_eq!(args.compat_package.as_deref(), Some("axum-macros"));
}

#[test]
fn from_cli_absolutizes_relative_compat_root() {
    let mut cli = base_cli();
    cli.compat_root = Some("my-crate-root".to_string());
    let args = CompatArgs::from_cli(cli, Ok("/tmp/xyz".to_string())).expect("from_cli must succeed");
    assert_eq!(args.compat_root, "/tmp/xyz/my-crate-root");
    assert_eq!(args.compat_report, "/tmp/lihaaf-build-inner-cli-test-report.json");
    assert_eq!(args.compat_cargo_test_argv, vec!["cargo".to_string(), "test".to_string()]);
    let mut cli = base_cli();
    cli.compat_root = Some("rel".to_string());
    match CompatArgs::from_cli(cli, Err("no cwd".to_string())) {
        Err(Error::Io { message, .. }) => assert_eq!(message, "no cwd"),
        other => panic!("expected Io error, got {other:?}"),
    }
}

#[test]
fn parse_argv_json_exact_messages() {
    match parse_argv_json("null") {
        Err(Error::Cli { clap_exit_code, message }) => {
            assert_eq!(clap_exit_code, 2);
            assert_eq!(
                message,
                "error: `--compat-cargo-test-argv` must be a JSON array of strings (e.g. `[\"cargo\",\"test\"]`); got a JSON null"
            );
        }
        other => panic!("expected Cli error, got {other:?}"),
    }
    match parse_argv_json(r#"["a", "b", true, 1]"#) {
        Err(Error::Cli { message, .. }) => assert_eq!(
            message,
            "error: `--compat-cargo-test-argv` element at index 2 is a JSON boolean but every element must be a JSON string"
        ),
        other => panic!("expected Cli error, got {other:?}"),
    }
    assert_eq!(parse_argv_json("[]").unwrap(), Vec::<String>::new());
}
