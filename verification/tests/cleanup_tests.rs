use lihaaf::compat::cleanup::{classify_entry, classify_pending, finish_cleanup, is_under_cargo_target, GeneratedPath, GeneratedPathClass, PendingPath};
use lihaaf::error::Error;

fn pending(root: &str, path: &str) -> PendingPath {
    PendingPath { path: path.to_string(), target_root: root.to_string() }
}

#[test]
fn classify_without_git_falls_through_to_cleaned() {
    let entry = pending("/tmp/crate", "/tmp/crate/artifact.txt");
    assert_eq!(classify_entry(&entry, false, false, false), GeneratedPathClass::Cleaned);
    assert_eq!(classify_entry(&entry, true, false, false), GeneratedPathClass::Kept);
    assert_eq!(classify_entry(&entry, false, true, false), GeneratedPathClass::Committed);
    assert_eq!(classify_entry(&entry, false, false, true), GeneratedPathClass::Ignored);
}

#[test]
fn cargo_target_is_classified_without_filesystem_lookup() {
    let entry = pending("/tmp/crate", "/tmp/crate/target/lihaaf-compat-converted");
    assert_eq!(classify_entry(&entry, false, false, false), GeneratedPathClass::Ignored);
    assert_eq!(classify_entry(&entry, true, true, false), GeneratedPathClass::Ignored);
}

#[test]
fn sibling_target_directory_is_not_under_cargo_target() {
    assert!(!is_under_cargo_target("/tmp/crate", "/tmp/crate/targets/file.txt"));
    assert!(is_under_cargo_target("/tmp/crate", "/tmp/crate/target/file.txt"));
    assert!(is_under_cargo_target("/tmp/crate", "/tmp/crate/./target/x"));
}

#[test]
fn classify_pending_keeps_order_and_applies_keep_output() {
    let ps = vec![
        pending("/tmp/crate", "/tmp/crate/target/x"),
        pending("/tmp/crate", "/tmp/crate/a.txt"),
        pending("/tmp/crate", "/tmp/crate/b.txt"),
    ];
    let out = classify_pending(&ps, false, &vec![false, true, false], &vec![false, false, false]);
    let classes: Vec<GeneratedPathClass> = out.iter().map(|g| g.class).collect();
    assert_eq!(classes, vec![GeneratedPathClass::Ignored, GeneratedPathClass::Committed, GeneratedPathClass::Cleaned]);
    assert_eq!(out[2].path, "/tmp/crate/b.txt");
    let kept = classify_pending(&ps, true, &vec![false, true, false], &vec![false, false, false]);
    assert_eq!(kept[2].class, GeneratedPathClass::Kept);
}

#[test]
fn finish_cleanup_sorts_paths_when_nothing_failed() {
    let rs = vec![
        (GeneratedPath { path: "/b".to_string(), class: GeneratedPathClass::Cleaned }, None),
        (GeneratedPath { path: "/a".to_string(), class: GeneratedPathClass::Kept }, None),
    ];
    let out = finish_cleanup(rs).expect("no failure");
    assert_eq!(out.iter().map(|g| g.path.as_str()).collect::<Vec<_>>(), vec!["/a", "/b"]);
}

#[test]
fn finish_cleanup_keeps_first_error_and_names_the_others() {
    let io = |p: &str| Error::Io { context: "removing".to_string(), path: Some(p.to_string()), message: "denied".to_string() };
    let rs = vec![
        (GeneratedPath { path: "/a".to_string(), class: GeneratedPathClass::Cleaned }, Some(io("/a"))),
        (GeneratedPath { path: "/b".to_string(), class: GeneratedPathClass::Committed }, None),
        (GeneratedPath { path: "/c".to_string(), class: GeneratedPathClass::Cleaned }, Some(io("/c"))),
        (GeneratedPath { path: "/d".to_string(), class: GeneratedPathClass::Cleaned }, Some(io("/d"))),
    ];
    match finish_cleanup(rs) {
        Err(Error::Io { context, path, message }) => {
            assert_eq!(path.as_deref(), Some("/a"));
            assert_eq!(message, "denied");
            assert_eq!(
                context,
                "removing (and 2 other compat-generated path(s) also failed to remove: /c, /d)"
            );
        }
        other => panic!("expected Io error, got {other:?}"),
    }
}
