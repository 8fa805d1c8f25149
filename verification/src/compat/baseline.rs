//! The baseline `cargo test` run: what it is given and what it reports.
use vstd::prelude::*;
use crate::error::Error;
use crate::text::push_str;

verus! {

/// How the baseline run judged a fixture.
#[derive(Debug, Clone, Copy, PartialEq, Eq, Structural)]
pub enum BaselineVerdict {
    Pass,
    Fail,
}

/// A fixture on which the baseline run and lihaaf disagree.
#[derive(Debug, Clone)]
pub struct MismatchEntry {
    pub fixture: String,
    pub baseline_verdict: BaselineVerdict,
}

/// What the baseline run reports.
#[derive(Debug, Clone)]
pub struct BaselineResult {
    pub pass: Option<u32>,
    pub fail: Option<u32>,
    pub unknown_count: u32,
    pub exit_code: i32,
    pub dur_ms: u64,
    pub sidecar_path: String,
    pub argv: Vec<String>,
    pub mismatch_entries: Vec<MismatchEntry>,
}

/// Version of the sidecar JSON layout.
pub const SIDECAR_SCHEMA_VERSION: u32 = 1;

/// Exit code recorded when the process ended without one (a signal).
pub const SIGNAL_TERMINATED_EXIT_SENTINEL: i32 = -1;

pub const EMPTY_ARGV_TEXT: &'static str = "error: `--compat-cargo-test-argv` must contain at least one argument (the program to spawn, e.g. `\"cargo\"`)";

/// Refuses an empty baseline argv: there is no program to start.
pub fn check_baseline_argv(argv: &Vec<String>) -> (r: Result<(), Error>)
    ensures
        r is Ok <==> argv@.len() > 0,
        r matches Err(e) ==> crate::cli::is_cli_error(e, EMPTY_ARGV_TEXT@),
{
    if argv.len() == 0 {
        let mut m = String::new();
        push_str(&mut m, EMPTY_ARGV_TEXT);
        return Err(Error::Cli { clap_exit_code: 2, message: m });
    }
    Ok(())
}

/// The exit code to record for a finished process.
pub fn baseline_exit_code(code: Option<i32>) -> (c: i32)
    ensures
        c == match code {
            Some(x) => x,
            None => SIGNAL_TERMINATED_EXIT_SENTINEL,
        },
{
    match code {
        Some(x) => x,
        None => SIGNAL_TERMINATED_EXIT_SENTINEL,
    }
}

/// The report of a baseline run that finished with `code` after `dur_ms`
/// and wrote its output to `sidecar_path`; counts are not parsed here.
pub fn baseline_result(argv: Vec<String>, code: Option<i32>, dur_ms: u64, sidecar_path: String) -> (r: BaselineResult)
    ensures
        r.pass is None,
        r.fail is None,
        r.unknown_count == 0,
        r.exit_code == (match code {
            Some(x) => x,
            None => SIGNAL_TERMINATED_EXIT_SENTINEL,
        }),
        r.dur_ms == dur_ms,
        r.sidecar_path == sidecar_path,
        r.argv@ == argv@,
        r.mismatch_entries@.len() == 0,
{
    BaselineResult {
        pass: None,
        fail: None,
        unknown_count: 0,
        exit_code: baseline_exit_code(code),
        dur_ms,
        sidecar_path,
        argv,
        mismatch_entries: Vec::new(),
    }
}

} // verus!
