use lihaaf::cli::{eq_ignore_ascii_case, parse_jobs, parse_u32, Cli};
use lihaaf::error::Error;

fn plain() -> Cli {
    Cli {
        bless: false,
        compat: false,
        compat_cargo_test_argv: None,
        compat_commit: None,
        compat_filter: Vec::new(),
        compat_manifest: None,
        compat_package: None,
        compat_report: None,
        compat_root: None,
        compat_trybuild_macro: Vec::new(),
        filter: Vec::new(),
        jobs: None,
        suite: Vec::new(),
        no_cache: false,
        manifest_path: None,
        list: false,
        quiet: false,
        verbose: false,
        use_symlink: false,
        keep_output: false,
        inner_compat_normalize: false,
    }
}

fn cli_message(r: Result<(), Error>) -> String {
    match r {
        Err(Error::Cli { clap_exit_code, message }) => {
            assert_eq!(clap_exit_code, 2);
            message
        }
        other => panic!("expected Cli error, got {other:?}"),
    }
}

#[test]
fn jobs_must_be_positive() {
    assert_eq!(parse_jobs("4"), Ok(4));
    assert_eq!(parse_jobs("+8"), Ok(8));
    let zero = parse_jobs("0").unwrap_err();
    assert!(zero.contains("positive integer"), "{zero}");
    assert_eq!(parse_jobs("x"), Err("`x` is not a non-negative integer".to_string()));
    assert_eq!(parse_jobs("-1"), Err("`-1` is not a non-negative integer".to_string()));
    assert_eq!(parse_u32("4294967295"), Some(4294967295));
    assert_eq!(parse_u32("4294967296"), None);
    assert_eq!(parse_u32(""), None);
}

#[test]
fn plain_mode_refuses_compat_flags() {
    assert!(plain().validate_mode_consistency().is_ok());
    let mut c = plain();
    c.compat_commit = Some("abc".into());
    c.compat_root = Some("r".into());
    assert_eq!(
        cli_message(c.validate_mode_consistency()),
        "error: `--compat-commit` requires `--compat` (compat-mode-only flag). Pass `--compat` to switch the binary into compat mode, or remove `--compat-commit`."
    );
    let mut c = plain();
    c.compat_trybuild_macro = vec!["m".into()];
    assert!(cli_message(c.validate_mode_consistency()).contains("--compat-trybuild-macro"));
}

#[test]
fn compat_mode_needs_root_and_report() {
    let mut c = plain();
    c.compat = true;
    assert_eq!(
        cli_message(c.validate_mode_consistency()),
        "error: `--compat-root` is required when `--compat` is set. See `cargo lihaaf --help` for the compat-mode invocation shape."
    );
    c.compat_root = Some("/r".into());
    assert!(cli_message(c.validate_mode_consistency()).contains("--compat-report"));
    c.compat_report = Some("/r/report.json".into());
    assert!(c.validate_mode_consistency().is_ok());
    c.filter = vec!["f".into()];
    assert_eq!(
        cli_message(c.validate_mode_consistency()),
        "error: `--filter` cannot be combined with `--compat`: compat mode owns the fixture-path filter surface. Use `--compat-filter` instead."
    );
    c.filter = Vec::new();
    c.manifest_path = Some("Cargo.toml".into());
    assert!(cli_message(c.validate_mode_consistency()).contains("--manifest-path"));
}

#[test]
fn bless_comes_from_flag_or_env() {
    let mut c = plain();
    assert!(!c.effective_bless_with(None));
    assert!(c.effective_bless_with(Some("1")));
    assert!(c.effective_bless_with(Some("TrUe")));
    assert!(!c.effective_bless_with(Some("yes")));
    c.bless = true;
    assert!(c.effective_bless_with(None));
    assert!(eq_ignore_ascii_case("ABC", "abc"));
    assert!(!eq_ignore_ascii_case("ABC", "abd"));
}

#[test]
fn bless_via_env_when_flag_absent() {
    let c = plain();
    assert!(c.effective_bless_with(Some("1")));
    assert!(c.effective_bless_with(Some("TRUE")));
    assert!(!c.effective_bless_with(Some("yes")));
    assert!(!c.effective_bless_with(None));
}
