use lihaaf::compat::report::{
    canonicalize, BaselineCounts, Commands, CompatEnvelope, EnvelopeError, ExcludedFixture, GeneratedPath,
    LihaafCounts, MismatchExample, OverlayMetadata, Results,
};

fn sample_envelope() -> CompatEnvelope {
    CompatEnvelope {
        schema_version: 1,
        mode: "compat".into(),
        crate_name: "demo".into(),
        commit: String::new(),
        commands: Commands {
            baseline: "cargo test".into(),
            lihaaf: "cargo lihaaf --compat --compat-root .".into(),
        },
        results: Results {
            baseline: BaselineCounts { pass: 0, fail: 0, unknown_count: 0, exit_code: 0, dur_ms: 0 },
            lihaaf: LihaafCounts { pass: 0, fail: 0, exit_code: 0, dur_ms: 0, toolchain: "rustc 1.95.0".into() },
            mismatch_count: 0,
        },
        mismatch_examples: Vec::new(),
        errors: Vec::new(),
        excluded_fixtures: Vec::new(),
        generated_paths: Vec::new(),
        overlay: OverlayMetadata { generated: true, dropped_comments: Vec::new(), upstream_already_has_dylib: false },
        toolchain: "rustc 1.95.0".into(),
    }
}

#[test]
fn canonicalize_is_idempotent() {
    let mut env = sample_envelope();
    env.mismatch_examples = vec![
        MismatchExample { fixture: "tests/z.rs".into(), mismatch_type: "verdict_mismatch".into(), notes: String::new() },
        MismatchExample { fixture: "tests/a.rs".into(), mismatch_type: "verdict_mismatch".into(), notes: String::new() },
    ];
    canonicalize(&mut env);
    let after_first = env.clone();
    canonicalize(&mut env);
    assert_eq!(after_first, env, "canonicalize must be idempotent across repeated calls");
    assert_eq!(env.mismatch_examples[0].fixture, "tests/a.rs");
    assert_eq!(env.mismatch_examples[1].fixture, "tests/z.rs");
}

#[test]
fn errors_sort_by_file_then_line_then_type() {
    let mut env = sample_envelope();
    env.errors = vec![
        EnvelopeError {
            error_type: "z_type".into(),
            fixture: None,
            file: "tests/foo.rs".into(),
            line: 10,
            detail: String::new(),
        },
        EnvelopeError {
            error_type: "a_type".into(),
            fixture: None,
            file: "tests/foo.rs".into(),
            line: 10,
            detail: String::new(),
        },
        EnvelopeError {
            error_type: "m_type".into(),
            fixture: None,
            file: "tests/bar.rs".into(),
            line: 100,
            detail: String::new(),
        },
    ];
    canonicalize(&mut env);
    assert_eq!(env.errors[0].file, "tests/bar.rs");
    assert_eq!(env.errors[1].file, "tests/foo.rs");
    assert_eq!(env.errors[1].error_type, "a_type", "errors at the same (file, line) must tiebreak by error_type");
    assert_eq!(env.errors[2].error_type, "z_type");
}

#[test]
fn canonicalize_orders_every_list_and_keeps_the_rest() {
    let mut env = sample_envelope();
    env.errors = vec![
        EnvelopeError { error_type: "t".into(), fixture: None, file: "a.rs".into(), line: 9, detail: String::new() },
        EnvelopeError { error_type: "t".into(), fixture: None, file: "a.rs".into(), line: 10, detail: String::new() },
    ];
    env.excluded_fixtures = vec![
        ExcludedFixture { fixture: "b.rs".into(), reason: "x".into() },
        ExcludedFixture { fixture: "a.rs".into(), reason: "y".into() },
    ];
    env.generated_paths = vec![
        GeneratedPath { path: "target/z".into(), class: "cleaned".into() },
        GeneratedPath { path: "target/a".into(), class: "kept".into() },
    ];
    env.overlay.dropped_comments = vec!["zz".into(), "aa".into(), "mm".into()];
    canonicalize(&mut env);
    assert_eq!(env.errors[0].line, 9, "lines compare as numbers");
    assert_eq!(env.excluded_fixtures[0].fixture, "a.rs");
    assert_eq!(env.generated_paths[0].path, "target/a");
    assert_eq!(env.overlay.dropped_comments, vec!["aa".to_string(), "mm".to_string(), "zz".to_string()]);
    assert_eq!(env.crate_name, "demo");
    assert_eq!(env.toolchain, "rustc 1.95.0");
}

#[test]
fn canonicalize_keeps_equal_keys_in_input_order() {
    let mut env = sample_envelope();
    env.mismatch_examples = vec![
        MismatchExample { fixture: "tests/a.rs".into(), mismatch_type: "second".into(), notes: String::new() },
        MismatchExample { fixture: "tests/a.rs".into(), mismatch_type: "first".into(), notes: String::new() },
    ];
    canonicalize(&mut env);
    assert_eq!(env.mismatch_examples[0].mismatch_type, "second");
    assert_eq!(env.mismatch_examples[1].mismatch_type, "first");
}
