//! Command-line options and the rules on which of them go together.
use vstd::prelude::*;
use crate::error::Error;
use crate::text::{push_str, str_eq};

verus! {

/// The parsed command line.
#[derive(Debug, Clone)]
pub struct Cli {
    pub bless: bool,
    pub compat: bool,
    pub compat_cargo_test_argv: Option<String>,
    pub compat_commit: Option<String>,
    pub compat_filter: Vec<String>,
    pub compat_manifest: Option<String>,
    pub compat_package: Option<String>,
    pub compat_report: Option<String>,
    pub compat_root: Option<String>,
    pub compat_trybuild_macro: Vec<String>,
    pub filter: Vec<String>,
    pub jobs: Option<u32>,
    pub suite: Vec<String>,
    pub no_cache: bool,
    pub manifest_path: Option<String>,
    pub list: bool,
    pub quiet: bool,
    pub verbose: bool,
    pub use_symlink: bool,
    pub keep_output: bool,
    /// Set by the compat driver on the inner session it starts.
    pub inner_compat_normalize: bool,
}

/// Decimal digit.
pub open spec fn is_digit(c: char) -> bool {
    '0' <= c && c <= '9'
}

/// Value of a run of decimal digits.
pub open spec fn digits_value(s: Seq<char>) -> nat
    decreases s.len(),
{
    if s.len() == 0 {
        0
    } else {
        digits_value(s.drop_last()) * 10 + ((s.last() as u32) - 48) as nat
    }
}

/// What `u32::from_str` accepts: an optional `+`, then one or more
/// decimal digits whose value fits in `u32`.
pub open spec fn u32_text(s: Seq<char>) -> Option<u32> {
    let d = if s.len() > 0 && s[0] == '+' { s.drop_first() } else { s };
    if d.len() > 0 && (forall|i: int| 0 <= i < d.len() ==> is_digit(#[trigger] d[i])) && digits_value(d)
        <= u32::MAX {
        Some(digits_value(d) as u32)
    } else {
        None
    }
}

/// `u32::from_str`, with the error dropped: the value of an optional `+`
/// and one or more decimal digits, when it fits in `u32`.
#[verifier::external_body]
pub fn parse_u32(s: &str) -> (r: Option<u32>)
    ensures
        r == u32_text(s@),
{
    s.parse::<u32>().ok()
}

/// The message for a `--jobs` value that is not a number.
pub open spec fn jobs_not_number_text(s: Seq<char>) -> Seq<char> {
    "`"@ + s + "` is not a non-negative integer"@
}

pub const JOBS_ZERO_TEXT: &'static str = "must be a positive integer (`-j 0` is rejected; omit `-j` to use the default)";

/// Parses `--jobs`: a positive integer.
pub fn parse_jobs(s: &str) -> (r: Result<u32, String>)
    ensures
        match u32_text(s@) {
            None => r matches Err(m) && m@ == jobs_not_number_text(s@),
            Some(n) => if n == 0 {
                r matches Err(m) && m@ == JOBS_ZERO_TEXT@
            } else {
                r == Ok::<u32, String>(n)
            },
        },
{
    match parse_u32(s) {
        None => {
            let mut m = String::new();
            push_str(&mut m, "`");
            push_str(&mut m, s);
            push_str(&mut m, "` is not a non-negative integer");
            Err(m)
        },
        Some(n) => {
            if n == 0 {
                let mut m = String::new();
                push_str(&mut m, JOBS_ZERO_TEXT);
                Err(m)
            } else {
                Ok(n)
            }
        },
    }
}

/// A plain flag that compat mode replaces with its own.
pub open spec fn mode_error_text(bare: Seq<char>, compat: Seq<char>, why: Seq<char>) -> Seq<char> {
    "error: `"@ + bare + "` cannot be combined with `--compat`: "@ + why + ". Use `"@ + compat + "` instead."@
}

/// A compat-only flag given without `--compat`.
pub open spec fn non_compat_text(flag: Seq<char>) -> Seq<char> {
    "error: `"@ + flag + "` requires `--compat` (compat-mode-only flag). Pass `--compat` to switch the binary into compat mode, or remove `"@
        + flag + "`."@
}

/// A flag compat mode cannot run without.
pub open spec fn missing_compat_text(flag: Seq<char>) -> Seq<char> {
    "error: `"@ + flag + "` is required when `--compat` is set. See `cargo lihaaf --help` for the compat-mode invocation shape."@
}

/// `e` is a usage error (exit status 2) with message `m`.
pub open spec fn is_cli_error(e: Error, m: Seq<char>) -> bool {
    e matches Error::Cli { clap_exit_code, message } && clap_exit_code == 2 && message@ == m
}

pub fn cli_mode_error(bare_flag: &str, compat_flag: &str, rationale: &str) -> (e: Error)
    ensures
        is_cli_error(e, mode_error_text(bare_flag@, compat_flag@, rationale@)),
{
    let mut m = String::new();
    push_str(&mut m, "error: `");
    push_str(&mut m, bare_flag);
    push_str(&mut m, "` cannot be combined with `--compat`: ");
    push_str(&mut m, rationale);
    push_str(&mut m, ". Use `");
    push_str(&mut m, compat_flag);
    push_str(&mut m, "` instead.");
    Error::Cli { clap_exit_code: 2, message: m }
}

pub fn non_compat_mode_error(flag: &str) -> (e: Error)
    ensures
        is_cli_error(e, non_compat_text(flag@)),
{
    let mut m = String::new();
    push_str(&mut m, "error: `");
    push_str(&mut m, flag);
    push_str(
        &mut m,
        "` requires `--compat` (compat-mode-only flag). Pass `--compat` to switch the binary into compat mode, or remove `",
    );
    push_str(&mut m, flag);
    push_str(&mut m, "`.");
    Error::Cli { clap_exit_code: 2, message: m }
}

pub fn missing_required_compat_flag(flag: &str) -> (e: Error)
    ensures
        is_cli_error(e, missing_compat_text(flag@)),
{
    let mut m = String::new();
    push_str(&mut m, "error: `");
    push_str(&mut m, flag);
    push_str(
        &mut m,
        "` is required when `--compat` is set. See `cargo lihaaf --help` for the compat-mode invocation shape.",
    );
    Error::Cli { clap_exit_code: 2, message: m }
}

/// The first rule the flags break, as its message; `None` when they go
/// together. In compat mode the plain filter and manifest flags are
/// refused and the root and report are required; outside it every
/// compat flag is refused, in alphabetical order.
pub open spec fn mode_problem(c: Cli) -> Option<Seq<char>> {
    if c.compat {
        if c.filter@.len() > 0 {
            Some(mode_error_text("--filter"@, "--compat-filter"@, "compat mode owns the fixture-path filter surface"@))
        } else if c.manifest_path is Some {
            Some(mode_error_text("--manifest-path"@, "--compat-manifest"@, "compat mode owns the manifest-path surface"@))
        } else if c.compat_root is None {
            Some(missing_compat_text("--compat-root"@))
        } else if c.compat_report is None {
            Some(missing_compat_text("--compat-report"@))
        } else {
            None
        }
    } else if c.compat_cargo_test_argv is Some {
        Some(non_compat_text("--compat-cargo-test-argv"@))
    } else if c.compat_commit is Some {
        Some(non_compat_text("--compat-commit"@))
    } else if c.compat_filter@.len() > 0 {
        Some(non_compat_text("--compat-filter"@))
    } else if c.compat_manifest is Some {
        Some(non_compat_text("--compat-manifest"@))
    } else if c.compat_report is Some {
        Some(non_compat_text("--compat-report"@))
    } else if c.compat_root is Some {
        Some(non_compat_text("--compat-root"@))
    } else if c.compat_trybuild_macro@.len() > 0 {
        Some(non_compat_text("--compat-trybuild-macro"@))
    } else {
        None
    }
}

/// Outside compat mode every compat-only flag is refused, each on its own:
/// a command line without `--compat` that sets any of them is a mode
/// error; without `--compat` and without any of them, no compat rule
/// applies. In compat mode the plain `--filter` and `--manifest-path` are
/// refused and `--compat-root` and `--compat-report` are required;
/// nothing else is checked.
pub proof fn lemma_compat_flags_need_compat(c: Cli)
    ensures
        c.compat ==> (mode_problem(c) is None <==> c.filter@.len() == 0 && c.manifest_path is None
            && c.compat_root is Some && c.compat_report is Some),
        !c.compat && (c.compat_cargo_test_argv is Some || c.compat_commit is Some || c.compat_filter@.len() > 0
            || c.compat_manifest is Some || c.compat_report is Some || c.compat_root is Some
            || c.compat_trybuild_macro@.len() > 0) ==> mode_problem(c) is Some,
        !c.compat && c.compat_cargo_test_argv is None && c.compat_commit is None && c.compat_filter@.len() == 0
            && c.compat_manifest is None && c.compat_report is None && c.compat_root is None
            && c.compat_trybuild_macro@.len() == 0 ==> mode_problem(c) is None,
{
}

impl Cli {
    /// `--bless`, or the `LIHAAF_OVERWRITE` value (`env`) being `1` or
    /// `true` in any ASCII case.
    pub fn effective_bless_with(&self, env: Option<&str>) -> (r: bool)
        ensures
            r == (self.bless || (env matches Some(v) && (v@ == "1"@ || ascii_lower(v@) == ascii_lower("true"@)))),
    {
        if self.bless {
            return true;
        }
        match env {
            None => false,
            Some(v) => str_eq(v, "1") || eq_ignore_ascii_case(v, "true"),
        }
    }

    /// Checks which flags go together; see [`mode_problem`].
    pub fn validate_mode_consistency(&self) -> (r: Result<(), Error>)
        ensures
            match mode_problem(*self) {
                None => r is Ok,
                Some(m) => r matches Err(e) && is_cli_error(e, m),
            },
    {
        if self.compat {
            if self.filter.len() > 0 {
                return Err(
                    cli_mode_error("--filter", "--compat-filter", "compat mode owns the fixture-path filter surface"),
                );
            }
            if self.manifest_path.is_some() {
                return Err(
                    cli_mode_error("--manifest-path", "--compat-manifest", "compat mode owns the manifest-path surface"),
                );
            }
            if self.compat_root.is_none() {
                return Err(missing_required_compat_flag("--compat-root"));
            }
            if self.compat_report.is_none() {
                return Err(missing_required_compat_flag("--compat-report"));
            }
        } else {
            if self.compat_cargo_test_argv.is_some() {
                return Err(non_compat_mode_error("--compat-cargo-test-argv"));
            }
            if self.compat_commit.is_some() {
                return Err(non_compat_mode_error("--compat-commit"));
            }
            if self.compat_filter.len() > 0 {
                return Err(non_compat_mode_error("--compat-filter"));
            }
            if self.compat_manifest.is_some() {
                return Err(non_compat_mode_error("--compat-manifest"));
            }
            if self.compat_report.is_some() {
                return Err(non_compat_mode_error("--compat-report"));
            }
            if self.compat_root.is_some() {
                return Err(non_compat_mode_error("--compat-root"));
            }
            if self.compat_trybuild_macro.len() > 0 {
                return Err(non_compat_mode_error("--compat-trybuild-macro"));
            }
        }
        Ok(())
    }
}

/// ASCII letters lowered; every other character kept.
pub open spec fn ascii_lower(s: Seq<char>) -> Seq<char> {
    s.map_values(|c: char| if 'A' <= c && c <= 'Z' { ((c as u32) + 32) as char } else { c })
}

/// `str::eq_ignore_ascii_case`.
pub fn eq_ignore_ascii_case(a: &str, b: &str) -> (r: bool)
    ensures
        r == (ascii_lower(a@) == ascii_lower(b@)),
{
    let x = crate::text::chars_of(a);
    let y = crate::text::chars_of(b);
    if x.len() != y.len() {
        proof {
            assert(ascii_lower(a@).len() != ascii_lower(b@).len());
        }
        return false;
    }
    let mut i: usize = 0;
    while i < x.len()
        invariant
            x@ == a@,
            y@ == b@,
            x@.len() == y@.len(),
            i <= x@.len(),
            forall|j: int| 0 <= j < i ==> ascii_lower(a@)[j] == ascii_lower(b@)[j],
        decreases x@.len() - i,
    {
        let c = x[i];
        let d = y[i];
        let lc: char = if 'A' <= c && c <= 'Z' { ((c as u32) + 32) as u8 as char } else { c };
        let ld: char = if 'A' <= d && d <= 'Z' { ((d as u32) + 32) as u8 as char } else { d };
        if lc != ld {
            proof {
                assert(ascii_lower(a@)[i as int] != ascii_lower(b@)[i as int]);
            }
            return false;
        }
        i = i + 1;
    }
    proof {
        assert(ascii_lower(a@) =~= ascii_lower(b@));
    }
    true
}

} // verus!
