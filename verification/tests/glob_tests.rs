use lihaaf::compat::discovery::{glob_segment_matches, has_glob_chars};

#[test]
fn glob_segment_matches_star() {
    assert!(glob_segment_matches(b"*.rs", b"foo.rs"));
    assert!(glob_segment_matches(b"*.rs", b".rs")); // empty match is OK
    assert!(!glob_segment_matches(b"*.rs", b"foo.txt"));
    assert!(glob_segment_matches(b"*", b"anything"));
}

#[test]
fn glob_segment_matches_question_mark() {
    assert!(glob_segment_matches(b"foo?.rs", b"foo1.rs"));
    assert!(glob_segment_matches(b"foo?.rs", b"fooX.rs"));
    assert!(!glob_segment_matches(b"foo?.rs", b"foo.rs"));
    assert!(!glob_segment_matches(b"foo?.rs", b"foo12.rs"));
}

#[test]
fn glob_segment_matches_character_class() {
    assert!(glob_segment_matches(b"fix[abc].rs", b"fixa.rs"));
    assert!(glob_segment_matches(b"fix[abc].rs", b"fixb.rs"));
    assert!(glob_segment_matches(b"fix[abc].rs", b"fixc.rs"));
    assert!(!glob_segment_matches(b"fix[abc].rs", b"fixd.rs"));
}

#[test]
fn glob_segment_matches_literal_dot_in_pattern() {
    assert!(glob_segment_matches(b"foo.rs", b"foo.rs"));
    assert!(!glob_segment_matches(b"foo.rs", b"fooArs"));
}

#[test]
fn glob_segment_matches_combined_star_class() {
    assert!(glob_segment_matches(b"*[xy].rs", b"foox.rs"));
    assert!(glob_segment_matches(b"*[xy].rs", b"fooy.rs"));
    assert!(!glob_segment_matches(b"*[xy].rs", b"fooz.rs"));
}

#[test]
fn has_glob_chars_negative() {
    assert!(!has_glob_chars("tests/ui/foo.rs"));
    assert!(!has_glob_chars(""));
}

#[test]
fn has_glob_chars_positive() {
    assert!(has_glob_chars("tests/ui/*.rs"));
    assert!(has_glob_chars("tests/ui/f?o.rs"));
    assert!(has_glob_chars("tests/ui/f[abc].rs"));
}
