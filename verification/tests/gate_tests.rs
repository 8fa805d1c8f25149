use lihaaf::compat::gate::{check_gate, parse_baseline, Ceiling, CeilingMap, GateOutcome};
use lihaaf::compat::report::{
    BaselineCounts, Commands, CompatEnvelope, EnvelopeError, ExcludedFixture, LihaafCounts, OverlayMetadata,
    Results,
};
use lihaaf::error::Error;

fn envelope_with(
    crate_name: &str,
    mismatch_count: u32,
    baseline_unknown: u32,
    baseline_exit: i32,
    lihaaf_exit: i32,
) -> CompatEnvelope {
    CompatEnvelope {
        schema_version: 1,
        mode: "compat".into(),
        crate_name: crate_name.into(),
        commit: String::new(),
        commands: Commands {
            baseline: "cargo test".into(),
            lihaaf: "cargo lihaaf --compat".into(),
        },
        results: Results {
            baseline: BaselineCounts {
                pass: 0,
                fail: 0,
                unknown_count: baseline_unknown,
                exit_code: baseline_exit,
                dur_ms: 0,
            },
            lihaaf: LihaafCounts {
                pass: 0,
                fail: 0,
                exit_code: lihaaf_exit,
                dur_ms: 0,
                toolchain: "rustc 1.95.0".into(),
            },
            mismatch_count,
        },
        mismatch_examples: Vec::new(),
        errors: Vec::new(),
        excluded_fixtures: Vec::new(),
        generated_paths: Vec::new(),
        overlay: OverlayMetadata {
            generated: true,
            dropped_comments: Vec::new(),
            upstream_already_has_dylib: false,
        },
        toolchain: "rustc 1.95.0".into(),
    }
}

fn demo_baseline() -> CeilingMap {
    let mut baseline = CeilingMap::new();
    baseline.insert("demo".into(), Ceiling { n_max: 5 });
    baseline
}

fn block_message(outcome: GateOutcome) -> String {
    match outcome {
        GateOutcome::Block(msg) => msg,
        other => panic!("expected Block, got {other:?}"),
    }
}

#[test]
fn parse_baseline_accepts_empty_input() {
    let map = parse_baseline(b"", "baseline.toml").expect("empty must parse");
    assert!(map.is_empty());
}

#[test]
fn parse_baseline_reads_one_crate() {
    let toml = b"[serde-json]\nn_max = 12\n";
    let map = parse_baseline(toml, "baseline.toml").expect("must parse");
    assert_eq!(map.len(), 1);
    assert_eq!(map.get("serde-json").unwrap().n_max, 12);
}

#[test]
fn parse_baseline_rejects_negative_n_max() {
    let toml = b"[foo]\nn_max = -1\n";
    let err = parse_baseline(toml, "baseline.toml").expect_err("must reject");
    let msg = format!("{err:?}");
    assert!(msg.contains("non-negative"), "got: {msg}");
}

#[test]
fn parse_baseline_rejects_missing_n_max() {
    let toml = b"[foo]\nother = 1\n";
    let err = parse_baseline(toml, "baseline.toml").expect_err("must reject");
    let msg = format!("{err:?}");
    assert!(msg.contains("n_max"), "got: {msg}");
}

#[test]
fn check_gate_unenrolled_crate_is_noop() {
    let baseline = CeilingMap::new();
    let env = envelope_with("not-listed", 99, 0, 0, 0);
    assert_eq!(check_gate(&baseline, &env), GateOutcome::NotEnrolled);
}

#[test]
fn check_gate_under_ceiling_passes() {
    let env = envelope_with("demo", 3, 0, 0, 0);
    assert_eq!(check_gate(&demo_baseline(), &env), GateOutcome::Allow);
}

#[test]
fn check_gate_at_ceiling_passes() {
    let env = envelope_with("demo", 5, 0, 0, 0);
    assert_eq!(check_gate(&demo_baseline(), &env), GateOutcome::Allow);
}

#[test]
fn check_gate_over_ceiling_blocks() {
    let env = envelope_with("demo", 6, 0, 0, 0);
    let msg = block_message(check_gate(&demo_baseline(), &env));
    assert!(msg.contains("mismatch_count"), "got: {msg}");
    assert!(msg.contains("n_max"), "got: {msg}");
}

#[test]
fn check_gate_blocks_on_baseline_unknown_count() {
    let env = envelope_with("demo", 0, 1, 0, 0);
    let msg = block_message(check_gate(&demo_baseline(), &env));
    assert!(msg.contains("unknown_count"), "got: {msg}");
}

#[test]
fn check_gate_blocks_on_baseline_exit_code_nonzero() {
    let env = envelope_with("demo", 0, 0, 1, 0);
    let msg = block_message(check_gate(&demo_baseline(), &env));
    assert!(msg.contains("baseline.exit_code"), "got: {msg}");
}

#[test]
fn check_gate_blocks_on_lihaaf_exit_code_nonzero() {
    let env = envelope_with("demo", 0, 0, 0, 1);
    let msg = block_message(check_gate(&demo_baseline(), &env));
    assert!(msg.contains("lihaaf.exit_code"), "got: {msg}");
}

#[test]
fn check_gate_blocks_when_errors_nonempty() {
    let mut env = envelope_with("demo", 0, 0, 0, 0);
    env.errors.push(EnvelopeError {
        error_type: "discovery_unrecognized".into(),
        fixture: None,
        file: "tests/trybuild.rs".into(),
        line: 42,
        detail: "unrecognized test pattern".into(),
    });
    let msg = block_message(check_gate(&demo_baseline(), &env));
    assert!(msg.contains("envelope.errors"), "got: {msg}");
    assert!(msg.contains("discovery_unrecognized"), "got: {msg}");
}

#[test]
fn check_gate_blocks_when_totals_diverge_without_excluded() {
    let mut env = envelope_with("demo", 0, 0, 0, 0);
    env.results.baseline.pass = 10;
    env.results.baseline.fail = 0;
    env.results.lihaaf.pass = 8;
    env.results.lihaaf.fail = 0;
    let msg = block_message(check_gate(&demo_baseline(), &env));
    assert!(msg.contains("per-side totals"), "got: {msg}");
    assert!(msg.contains("10"), "got: {msg}");
    assert!(msg.contains("8"), "got: {msg}");
}

#[test]
fn check_gate_allows_when_excluded_accounts_for_delta() {
    let mut env = envelope_with("demo", 0, 0, 0, 0);
    env.results.baseline.pass = 10;
    env.results.baseline.fail = 0;
    env.results.lihaaf.pass = 8;
    env.results.lihaaf.fail = 0;
    env.excluded_fixtures.push(ExcludedFixture {
        fixture: "tests/ui/skip_a.rs".into(),
        reason: "compat limitation".into(),
    });
    env.excluded_fixtures.push(ExcludedFixture {
        fixture: "tests/ui/skip_b.rs".into(),
        reason: "compat limitation".into(),
    });
    assert_eq!(check_gate(&demo_baseline(), &env), GateOutcome::Allow);
}

#[test]
fn gate_messages_are_exact() {
    let env = envelope_with("demo", 6, 0, 0, 0);
    assert_eq!(
        block_message(check_gate(&demo_baseline(), &env)),
        "mismatch_count = 6 exceeds ceiling `demo.n_max = 5` (the shrinking-only rule: a PR may decrease but not increase the per-crate ceiling)"
    );
    let env = envelope_with("demo", 0, 0, -3, 0);
    assert_eq!(
        block_message(check_gate(&demo_baseline(), &env)),
        "baseline.exit_code = -3 (must be 0; the baseline `cargo test` invocation must succeed before deltas are meaningful)"
    );
    let env = envelope_with("demo", 9, 2, 1, 1);
    let msg = block_message(check_gate(&demo_baseline(), &env));
    assert!(msg.starts_with("baseline.unknown_count = 2 "), "got: {msg}");
}

#[test]
fn parse_baseline_error_cases() {
    let cases: Vec<(&[u8], &str)> = vec![
        (b"foo = 1\n", "baseline.toml entry for crate `foo` must be a table"),
        (b"[foo]\nn_max = \"x\"\n", "baseline.toml `foo.n_max` must be a non-negative integer"),
        (b"[foo]\nn_max = 4294967296\n", "baseline.toml `foo.n_max = 4294967296` exceeds the u32 range"),
        (b"[foo]\nn_max = -7\n", "baseline.toml `foo.n_max = -7` must be non-negative"),
        (b"[foo]\nother = 1\n", "baseline.toml entry for crate `foo` is missing required key `n_max`"),
        (b"[b]\nn_max = 1\n[a]\nn_max = -1\n[c]\n", "baseline.toml `a.n_max = -1` must be non-negative"),
    ];
    for (input, expected) in cases {
        match parse_baseline(input, "baseline.toml") {
            Err(Error::TomlParse { path, message }) => {
                assert_eq!(path, "baseline.toml");
                assert_eq!(message, expected);
            }
            other => panic!("expected TomlParse, got {other:?}"),
        }
    }
    match parse_baseline(b"\xff\xfe", "b.toml") {
        Err(Error::TomlParse { message, .. }) => {
            assert!(message.starts_with("baseline.toml is not valid UTF-8: "), "got: {message}")
        }
        other => panic!("expected TomlParse, got {other:?}"),
    }
    match parse_baseline(b"[[[", "b.toml") {
        Err(Error::TomlParse { message, .. }) => assert!(message.starts_with("baseline.toml: "), "got: {message}"),
        other => panic!("expected TomlParse, got {other:?}"),
    }
}

#[test]
fn parse_baseline_reads_several_crates() {
    let map = parse_baseline(b"[b]\nn_max = 0\n[a]\nn_max = 4294967295\n", "baseline.toml").unwrap();
    assert_eq!(map.len(), 2);
    assert_eq!(map.get("a").unwrap().n_max, 4294967295);
    assert_eq!(map.get("b").unwrap().n_max, 0);
    assert!(map.get("c").is_none());
}

#[test]
fn ceiling_map_insert_replaces() {
    let mut map = CeilingMap::new();
    map.insert("x".into(), Ceiling { n_max: 1 });
    map.insert("y".into(), Ceiling { n_max: 2 });
    map.insert("x".into(), Ceiling { n_max: 3 });
    assert_eq!(map.len(), 2);
    assert_eq!(map.get("x"), Some(Ceiling { n_max: 3 }));
    assert_eq!(map.get("y"), Some(Ceiling { n_max: 2 }));
}

#[test]
fn baseline_whose_document_is_not_a_table_is_refused() {
    let text = b"\"$__toml_private_datetime\" = \"1979-05-27T07:32:00Z\"\n";
    match parse_baseline(text, "baseline.toml") {
        Err(Error::TomlParse { message, .. }) => assert_eq!(message, "baseline.toml top level must be a table"),
        Err(other) => panic!("expected TomlParse, got {other:?}"),
        Ok(_) => panic!("expected an error"),
    }
}
