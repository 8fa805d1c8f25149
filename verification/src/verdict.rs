//! Per-fixture verdicts produced by the snapshot comparison.
use vstd::prelude::*;

verus! {

/// Outcome of comparing a fixture's normalized stderr with its snapshot.
#[derive(Debug, Clone)]
pub enum Verdict {
    /// The snapshot differs; carries the rendered unified diff.
    SnapshotDiff { diff: String },
    /// Either side exceeded the hard line ceiling; carries line counts and
    /// the first lines of each side.
    SnapshotDiffTooLarge {
        actual_lines: usize,
        expected_lines: usize,
        actual_head: String,
        expected_head: String,
    },
}

} // verus!
