//! Errors and session outcomes shared across the harness.
use vstd::prelude::*;

verus! {

/// A session-level outcome that ends the run with a dedicated exit code.
#[derive(Debug, Clone)]
pub enum Outcome {
    /// `[package.metadata.lihaaf]` is missing or invalid.
    ConfigInvalid { message: String },
}

/// Exit code reported for a configuration outcome.
pub const CONFIG_INVALID_EXIT_CODE: i32 = 64;

impl Outcome {
    /// Process exit code for this outcome.
    pub fn exit_code(&self) -> (c: i32)
        ensures
            c == CONFIG_INVALID_EXIT_CODE,
    {
        match self {
            Outcome::ConfigInvalid { .. } => CONFIG_INVALID_EXIT_CODE,
        }
    }
}

/// Errors the harness reports.
#[derive(Debug, Clone)]
pub enum Error {
    /// A session outcome (configuration problems).
    Session(Outcome),
    /// A TOML document failed to parse.
    TomlParse { path: String, message: String },
    /// Bad command-line usage; `clap_exit_code` is the exit status.
    Cli { clap_exit_code: i32, message: String },
    /// A filesystem or process operation failed.
    Io { context: String, path: Option<String>, message: String },
    /// JSON could not be read or written.
    JsonParse { context: String, message: String },
    /// A subprocess could not be started.
    SubprocessSpawn { program: String, message: String },
    /// The upstream manifest patches the crate itself to an external
    /// target, which the overlay cannot keep.
    CompatPatchOverrideConflict { crate_name: String, upstream_entry: String, expected_resolution: String },
    /// Mirroring the upstream package root into the staged overlay
    /// failed at `stage`, with the I/O message when there was one.
    OverlayMirrorFailed { upstream: String, staged: String, stage: String, message: Option<String> },
}

} // verus!
