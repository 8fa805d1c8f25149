use lihaaf::compat::overlay::text::{
    canonical_key_order, extract_unquoted_comment, post_process_output, scan_dropped_comments,
};

#[test]
fn canonical_key_order_starts_with_package() {
    assert_eq!(canonical_key_order()[0], "package");
}

#[test]
fn extract_unquoted_comment_strips_leading_hash() {
    assert_eq!(extract_unquoted_comment("# a leading comment"), Some("a leading comment".into()));
}

#[test]
fn extract_unquoted_comment_handles_trailing() {
    assert_eq!(extract_unquoted_comment(r#"name = "demo" # trailing"#), Some("trailing".into()));
}

#[test]
fn extract_unquoted_comment_ignores_hash_inside_string() {
    assert_eq!(extract_unquoted_comment(r#"url = "http://example.com/#anchor""#), None);
}

#[test]
fn extract_unquoted_comment_ignores_hash_inside_single_quote() {
    assert_eq!(extract_unquoted_comment(r#"name = 'foo#bar'"#), None);
}

#[test]
fn scan_ignores_hash_inside_multiline_basic_string() {
    let text = "description = \"\"\"\nline with #notacomment\n\"\"\"\n";
    let comments = scan_dropped_comments(text);
    assert!(
        comments.iter().all(|c| !c.contains("notacomment")),
        "multi-line basic string body must not be classified as a comment; got {comments:?}",
    );
}

#[test]
fn scan_ignores_hash_inside_multiline_literal_string() {
    let text = "description = '''\nline with #stillnotacomment\n'''\n";
    let comments = scan_dropped_comments(text);
    assert!(
        comments.iter().all(|c| !c.contains("stillnotacomment")),
        "multi-line literal string body must not be classified as a comment; got {comments:?}",
    );
}

#[test]
fn scan_recognizes_comment_after_multiline_string_closes() {
    let text = "description = \"\"\"\nblock\n\"\"\" # real comment\n";
    let comments = scan_dropped_comments(text);
    assert!(
        comments.iter().any(|c| c == "real comment"),
        "comment AFTER the multi-line string close must be captured; got {comments:?}",
    );
    assert!(
        comments.iter().all(|c| !c.contains("block")),
        "multi-line body must never appear as a comment; got {comments:?}",
    );
}

#[test]
fn scan_basic_string_escape_does_not_strand_state() {
    let text = "name = \"foo \\\" #notacomment\"\n# real\n";
    let comments = scan_dropped_comments(text);
    assert!(
        !comments.iter().any(|c| c.contains("notacomment")),
        "escaped quote inside basic string must keep scanner in-string; got {comments:?}",
    );
    assert!(
        comments.iter().any(|c| c == "real"),
        "comment on the following line must still be captured; got {comments:?}",
    );
}

#[test]
fn post_process_strips_trailing_whitespace() {
    let raw = "foo = 1  \nbar = 2\t\n";
    let out = post_process_output(raw);
    assert!(out.lines().all(|l| !l.ends_with(' ') && !l.ends_with('\t')));
}

#[test]
fn post_process_strips_cr() {
    let raw = "foo = 1\r\nbar = 2\r\n";
    let out = post_process_output(raw);
    assert!(!out.contains('\r'));
}

#[test]
fn post_process_collapses_blank_runs() {
    let raw = "foo = 1\n\n\n\nbar = 2\n";
    let out = post_process_output(raw);
    assert_eq!(out, "foo = 1\n\nbar = 2\n");
}

#[test]
fn post_process_exact_shapes() {
    assert_eq!(post_process_output(""), "\n");
    assert_eq!(post_process_output("\n\n\n"), "\n");
    assert_eq!(post_process_output("a \t\r\n\n\nb\n\n\n"), "a\n\nb\n");
    assert_eq!(post_process_output("x"), "x\n");
    let once = post_process_output("[a]\nk = 1   \n\n\n[b]\n");
    assert_eq!(post_process_output(&once), once);
}

#[test]
fn scan_collects_every_comment_in_order() {
    let text = "# first\r\nkey = 'v' #  second  \n[t] # third\nx = \"a\\\\\" # fourth\n";
    assert_eq!(scan_dropped_comments(text), vec!["first", "second", "third", "fourth"]);
    assert_eq!(scan_dropped_comments("#"), vec![""]);
    assert_eq!(scan_dropped_comments("x = 'a\n# after unterminated literal\n"), vec!["after unterminated literal"]);
}

#[test]
fn multi_line_string_closes_on_last_quote_of_run() {
    assert_eq!(scan_dropped_comments("x = \"\"\"a\"\"\"\" # c\n"), vec!["c".to_string()]);
    assert_eq!(scan_dropped_comments("x = \"\"\"a\"\"\"\"\" # d\n"), vec!["d".to_string()]);
    assert_eq!(scan_dropped_comments("x = '''a''''' # e\n"), vec!["e".to_string()]);
    assert_eq!(scan_dropped_comments("x = '''a''' # f\n"), vec!["f".to_string()]);
}

#[test]
fn post_process_drops_every_carriage_return() {
    assert_eq!(post_process_output("a\rb = 1\r\nc = 2\r\n"), "ab = 1\nc = 2\n");
    assert!(!post_process_output("x = \"\r\"\r\n\r\n\r\ny = 1").contains('\r'));
}
