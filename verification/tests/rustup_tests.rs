use lihaaf::compat::rustup::parse_active_toolchain;

#[test]
fn parse_strips_default_suffix() {
    let out = b"stable-x86_64-unknown-linux-gnu (default)\n";
    assert_eq!(parse_active_toolchain(out).as_deref(), Some("stable-x86_64-unknown-linux-gnu"));
}

#[test]
fn parse_handles_bare_identifier_without_default_suffix() {
    let out = b"1.95.0-x86_64-unknown-linux-gnu\n";
    assert_eq!(parse_active_toolchain(out).as_deref(), Some("1.95.0-x86_64-unknown-linux-gnu"));
}

#[test]
fn parse_returns_none_on_empty_output() {
    assert_eq!(parse_active_toolchain(b""), None);
    assert_eq!(parse_active_toolchain(b"\n\n  \n"), None);
}

#[test]
fn parse_returns_none_on_non_utf8() {
    let bad: &[u8] = &[0xff, 0xfe, b'\n'];
    assert_eq!(parse_active_toolchain(bad), None);
}

#[test]
fn parse_takes_first_non_empty_line() {
    let out = b"\n  \nnightly-2026-04-01-x86_64-unknown-linux-gnu\n";
    assert_eq!(
        parse_active_toolchain(out).as_deref(),
        Some("nightly-2026-04-01-x86_64-unknown-linux-gnu"),
    );
}

#[test]
fn parse_trims_tabs_and_crlf() {
    assert_eq!(parse_active_toolchain(b"\t beta-aarch64 (override)\r\nx\n").as_deref(), Some("beta-aarch64"));
    assert_eq!(parse_active_toolchain(b"\xe2\x80\x83nightly\xe2\x80\x83\n").as_deref(), Some("nightly"));
}
