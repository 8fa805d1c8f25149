use lihaaf::compat::baseline::{baseline_exit_code, baseline_result, check_baseline_argv};
use lihaaf::compat::discovery::{
    alias_segments, check_no_double_star, finish_discovery, is_test_attribute, is_testcases_constructor_path,
    module_macro_message, non_literal_call_message, path_segments_string, split_nonempty_pieces, terminal_kind,
    zero_fixtures_message, parse_failure_entry, read_test_source, CallSite, DiscoveredFixture, DiscoveryUnrecognized, FixtureKind as CompatKind,
};
use lihaaf::compat::fixture_convert::{conversion_target, converted_dirs, file_name, sort_converted, with_extension, ConvertedFixture};
use lihaaf::config::Suite;
use lihaaf::discovery::{
    classify_dir, finish_collect, fixture_record, no_fixture_dirs_error, resolve_fixture_dir, Fixture, FixtureKind,
};
use lihaaf::error::{Error, Outcome};

fn site(file: &str, line: usize) -> CallSite {
    CallSite { file: file.into(), line, enclosing_test_fn: None }
}

fn found(rel: &str, kind: CompatKind, line: usize) -> DiscoveredFixture {
    DiscoveredFixture {
        fixture_path: format!("/c/{rel}"),
        relative_path: rel.into(),
        kind,
        call_site: site("/c/tests/trybuild.rs", line),
    }
}

#[test]
fn classification_matches_directory_marker() {
    assert_eq!(classify_dir("/c/tests/lihaaf/compile_fail", "compile_fail"), FixtureKind::CompileFail);
    assert_eq!(classify_dir("/c/tests/lihaaf/compile_pass", "compile_fail"), FixtureKind::CompilePass);
    assert_eq!(classify_dir("/c/tests/ui_compile_fail_x", "compile_fail"), FixtureKind::CompileFail);
    assert_eq!(resolve_fixture_dir("/c", "tests/ui"), "/c/tests/ui");
    assert_eq!(resolve_fixture_dir("/c", "/abs/ui"), "/abs/ui");
}

#[test]
fn sort_is_lexicographic() {
    let mk = |p: &str| fixture_record(p.to_string(), "/c", FixtureKind::CompileFail);
    let f = mk("/c/tests/cf/zeta.rs");
    assert_eq!(f.relative_path, "tests/cf/zeta.rs");
    assert_eq!(f.stem, "zeta");
    let all = vec![mk("/c/tests/cf/zeta.rs"), mk("/c/tests/cf/alpha.rs"), mk("/c/tests/cf/mu.rs")];
    let sorted = finish_collect(all, &Vec::new());
    let stems: Vec<String> = sorted.iter().map(|f: &Fixture| f.stem.clone()).collect();
    assert_eq!(stems, vec!["alpha", "mu", "zeta"]);
}

#[test]
fn filter_or_match_against_relative_path() {
    let mk = |p: &str| fixture_record(p.to_string(), "/c", FixtureKind::CompileFail);
    let all = vec![
        mk("/c/tests/lihaaf/compile_fail/phase7_aaa.rs"),
        mk("/c/tests/lihaaf/compile_fail/phase8_bbb.rs"),
        mk("/c/tests/lihaaf/compile_fail/unrelated.rs"),
    ];
    let filtered = finish_collect(all, &vec!["phase7".to_string(), "phase8".to_string()]);
    assert_eq!(filtered.len(), 2);
    let stems: Vec<String> = filtered.iter().map(|f| f.stem.clone()).collect();
    assert_eq!(stems, vec!["phase7_aaa", "phase8_bbb"]);
}

fn suite(name: &str, dirs: Vec<&str>) -> Suite {
    Suite {
        name: name.into(),
        extern_crates: vec!["consumer".into()],
        fixture_dirs: dirs.into_iter().map(String::from).collect(),
        features: vec![],
        edition: "2021".into(),
        dev_deps: vec![],
        compile_fail_marker: "compile_fail".into(),
        fixture_timeout_secs: 90,
        per_fixture_memory_mb: 1024,
        allow_lints: vec![],
        extra_substitutions: vec![],
        strip_lines: vec![],
        strip_line_prefixes: vec![],
    }
}

#[test]
fn empty_fixture_dirs_is_session_outcome() {
    let s = suite("default", vec!["nope/never/exists", "also/missing"]);
    match no_fixture_dirs_error(&s, "/tmp/crate") {
        Error::Session(Outcome::ConfigInvalid { message }) => {
            assert!(message.contains("zero existing directories"));
            assert!(message.contains("\"default\""));
        }
        other => panic!("expected ConfigInvalid, got {other:?}"),
    }
}

#[test]
fn empty_fixture_dirs_diagnostic_includes_named_suite() {
    let s = suite("spatial", vec!["tests/spatial/missing"]);
    match no_fixture_dirs_error(&s, "/tmp/crate") {
        Error::Session(Outcome::ConfigInvalid { message }) => {
            assert!(message.contains("\"spatial\""));
        }
        other => panic!("expected ConfigInvalid, got {other:?}"),
    }
}

#[test]
fn empty_dirs_report_the_configuration() {
    let suite = Suite {
        name: "default".into(),
        extern_crates: vec!["consumer".into()],
        fixture_dirs: vec!["tests/a".into(), "tests/\"b\"".into()],
        features: vec![],
        edition: "2021".into(),
        dev_deps: vec![],
        compile_fail_marker: "compile_fail".into(),
        fixture_timeout_secs: 90,
        per_fixture_memory_mb: 1024,
        allow_lints: vec![],
        extra_substitutions: vec![],
        strip_lines: vec![],
        strip_line_prefixes: vec![],
    };
    match no_fixture_dirs_error(&suite, "/c") {
        Error::Session(Outcome::ConfigInvalid { message }) => assert_eq!(
            message,
            "suite \"default\".fixture_dirs resolves to zero existing directories under /c.\nWhy this matters: nothing to test.\n  Configured: [\"tests/a\", \"tests/\\\"b\\\"\"]"
        ),
        other => panic!("expected a session outcome, got {other:?}"),
    }
}

#[test]
fn discovery_sorts_and_drops_repeats() {
    let out = finish_discovery(
        vec![
            found("tests/ui/b.rs", CompatKind::Pass, 3),
            found("tests/ui/a.rs", CompatKind::Pass, 3),
            found("tests/ui/b.rs", CompatKind::Pass, 3),
            found("tests/ui/b.rs", CompatKind::CompileFail, 3),
        ],
        vec![
            DiscoveryUnrecognized { file: "/c/tests/b.rs".into(), line: 1, detail: "x".into() },
            DiscoveryUnrecognized { file: "/c/tests/a.rs".into(), line: 9, detail: "y".into() },
            DiscoveryUnrecognized { file: "/c/tests/a.rs".into(), line: 2, detail: "z".into() },
        ],
    );
    let rels: Vec<(&str, CompatKind)> = out.fixtures.iter().map(|f| (f.relative_path.as_str(), f.kind)).collect();
    assert_eq!(
        rels,
        vec![("tests/ui/a.rs", CompatKind::Pass), ("tests/ui/b.rs", CompatKind::Pass), ("tests/ui/b.rs", CompatKind::CompileFail)]
    );
    let lines: Vec<usize> = out.unrecognized.iter().map(|u| u.line).collect();
    assert_eq!(lines, vec![2, 9, 1]);
}

#[test]
fn trybuild_paths_are_recognized() {
    let (plain, with_new) = alias_segments(&vec!["my::Cases".to_string(), "::other::".to_string()]);
    assert_eq!(plain[0], vec!["my".to_string(), "Cases".to_string()]);
    assert_eq!(with_new[0], vec!["my".to_string(), "Cases".to_string(), "new".to_string()]);
    assert_eq!(plain[1], vec!["other".to_string()]);
    let std_path = vec!["trybuild".to_string(), "TestCases".to_string(), "new".to_string()];
    assert!(is_testcases_constructor_path(false, &std_path, &plain, &with_new));
    assert!(!is_testcases_constructor_path(true, &std_path, &plain, &with_new));
    assert!(is_testcases_constructor_path(false, &with_new[0], &plain, &with_new));
    assert!(is_testcases_constructor_path(false, &vec!["other".to_string()], &plain, &with_new));
    assert!(!is_testcases_constructor_path(false, &vec!["TestCases".to_string()], &plain, &with_new));
    assert_eq!(split_nonempty_pieces("a//b/", "/"), vec!["a".to_string(), "b".to_string()]);
    assert_eq!(split_nonempty_pieces("a:::b", "::"), vec!["a".to_string(), ":b".to_string()]);
}

#[test]
fn path_segments_string_no_leading() {
    assert_eq!(path_segments_string(false, &vec!["core".into(), "test".into()]), "core::test");
}

#[test]
fn path_segments_string_with_leading() {
    assert_eq!(path_segments_string(true, &vec!["core".into(), "test".into()]), "::core::test");
}

#[test]
fn is_test_attribute_bare() {
    assert!(is_test_attribute(&vec!["test".into()]));
}

#[test]
fn is_test_attribute_qualified() {
    assert!(is_test_attribute(&vec!["::core::test".into()]));
    assert!(is_test_attribute(&vec!["core::test".into()]));
}

#[test]
fn is_test_attribute_rejects_other() {
    assert!(!is_test_attribute(&vec!["tokio::test".into(), "inline".into()]));
}

#[test]
fn discovery_messages() {
    assert_eq!(terminal_kind("pass"), Some(CompatKind::Pass));
    assert_eq!(terminal_kind("compile_fail"), Some(CompatKind::CompileFail));
    assert_eq!(terminal_kind("run"), None);
    assert_eq!(zero_fixtures_message("tests/ui/*.rs"), "literal `tests/ui/*.rs` resolved to zero fixture paths");
    assert_eq!(
        check_no_double_star("tests/**/x.rs"),
        Err("glob `tests/**/x.rs` uses `**` which is not supported in v0.1".to_string())
    );
    assert_eq!(check_no_double_star("tests/*/x.rs"), Ok(()));
    assert!(non_literal_call_message("pass").starts_with("non-literal or multi-argument call to .pass()"));
    assert!(module_macro_message("m").contains("`m!`"));
}

#[test]
fn conversion_destinations() {
    let (root, pass, fail) = converted_dirs("/c");
    assert_eq!(root, "/c/target/lihaaf-compat-converted");
    assert_eq!(pass, "/c/target/lihaaf-compat-converted/compile_pass");
    assert_eq!(fail, "/c/target/lihaaf-compat-converted/compile_fail");
    let f = found("tests/ui/bad.rs", CompatKind::CompileFail, 1);
    let (dest, src_stderr, dest_stderr) = conversion_target("/c", &f).unwrap();
    assert_eq!(dest, "/c/target/lihaaf-compat-converted/compile_fail/bad.rs");
    assert_eq!(src_stderr, "/c/tests/ui/bad.stderr");
    assert_eq!(dest_stderr, "/c/target/lihaaf-compat-converted/compile_fail/bad.stderr");
    assert_eq!(with_extension("/a/.hidden", "stderr"), "/a/.hidden.stderr");
    assert_eq!(with_extension("/a/b.c.rs", "stderr"), "/a/b.c.stderr");
    assert_eq!(file_name("/a/.."), None);
    let mut bad = f.clone();
    bad.fixture_path = "/".into();
    match conversion_target("/c", &bad) {
        Err(Error::Io { message, .. }) => assert_eq!(message, "fixture path has no file name"),
        other => panic!("expected Io error, got {other:?}"),
    }
}

#[test]
fn convert_sorts_output_by_dest_path() {
    let conv = |p: &str| ConvertedFixture {
        src_path: String::new(),
        dest_path: p.into(),
        dest_stderr: None,
        kind: CompatKind::Pass,
    };
    let sorted = sort_converted(vec![
        conv("/c/target/lihaaf-compat-converted/compile_pass/z.rs"),
        conv("/c/target/lihaaf-compat-converted/compile_pass/a.rs"),
    ]);
    assert_eq!(sorted.len(), 2);
    assert!(sorted[0].dest_path < sorted[1].dest_path, "output must be sorted");
    assert_eq!(sorted[0].dest_path, "/c/target/lihaaf-compat-converted/compile_pass/a.rs");
}

#[test]
fn convert_copies_pass_fixture_into_compile_pass_subdir() {
    let f = found("tests/ui/good.rs", CompatKind::Pass, 1);
    let (dest, _, _) = conversion_target("/c", &f).unwrap();
    assert_eq!(dest, "/c/target/lihaaf-compat-converted/compile_pass/good.rs");
}

#[test]
fn empty_argv_is_rejected_with_directed_message() {
    match check_baseline_argv(&Vec::new()) {
        Err(Error::Cli { message, .. }) => {
            assert!(message.contains("--compat-cargo-test-argv"), "diagnostic must name the flag; got: {message}");
            assert!(message.contains("at least one argument"), "got: {message}");
        }
        other => panic!("expected Cli error, got {other:?}"),
    }
}

#[test]
fn baseline_argv_and_exit_code() {
    assert!(check_baseline_argv(&vec!["cargo".into()]).is_ok());
    assert_eq!(baseline_exit_code(None), -1);
    assert_eq!(baseline_exit_code(Some(101)), 101);
    let r = baseline_result(vec!["cargo".into()], Some(0), 12, "/c/s.json".into());
    assert_eq!((r.pass, r.fail, r.unknown_count, r.exit_code, r.dur_ms), (None, None, 0, 0, 12));
}

#[test]
fn suite_kind_maps_to_compat_kind() {
    assert_eq!(CompatKind::from_kind(FixtureKind::CompilePass), CompatKind::Pass);
    assert_eq!(CompatKind::from_kind(FixtureKind::CompileFail), CompatKind::CompileFail);
}


#[test]
fn unparsable_test_file_is_recorded_at_its_error_line() {
    match read_test_source("tests/ui.rs", "fn main() {\n    let = ;\n}\n") {
        Err(u) => {
            assert_eq!(u.file, "tests/ui.rs");
            assert_eq!(u.line, 2);
            assert!(u.detail.starts_with("parse_failed: "), "{}", u.detail);
        }
        Ok(_) => panic!("expected a parse failure"),
    }
    assert!(read_test_source("tests/ok.rs", "fn main() {}\n").is_ok());
}

#[test]
fn parse_failure_without_line_is_put_on_line_one() {
    let u = parse_failure_entry("tests/x.rs", 0, "unexpected end of input");
    assert_eq!(u.line, 1);
    assert_eq!(u.detail, "parse_failed: unexpected end of input");
    assert_eq!(parse_failure_entry("tests/x.rs", 7, "m").line, 7);
}
