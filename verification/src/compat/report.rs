//! The compat-mode report envelope and its canonical ordering.
use vstd::prelude::*;
use crate::compat::cleanup;
use crate::sort::{lemma_stable_sort_idempotent, stable_sort, stable_sorted, SortKey};
use crate::text::{lemma_str_lt_asymmetric, lemma_str_lt_irreflexive, str_less, str_lt};
use crate::util::{relative_spec, relative_to};

verus! {

/// The whole report one compat run writes.
#[derive(Debug, Clone, PartialEq, Eq)]
pub struct CompatEnvelope {
    pub schema_version: u32,
    pub mode: String,
    pub crate_name: String,
    pub commit: String,
    pub commands: Commands,
    pub results: Results,
    pub mismatch_examples: Vec<MismatchExample>,
    pub errors: Vec<EnvelopeError>,
    pub excluded_fixtures: Vec<ExcludedFixture>,
    pub generated_paths: Vec<GeneratedPath>,
    pub overlay: OverlayMetadata,
    pub toolchain: String,
}

/// The two command lines that were run.
#[derive(Debug, Clone, PartialEq, Eq)]
pub struct Commands {
    pub baseline: String,
    pub lihaaf: String,
}

/// Counts from both sides and how many fixtures disagree.
#[derive(Debug, Clone, PartialEq, Eq)]
pub struct Results {
    pub baseline: BaselineCounts,
    pub lihaaf: LihaafCounts,
    pub mismatch_count: u32,
}

/// Counts from the baseline `cargo test` run.
#[derive(Debug, Clone, PartialEq, Eq)]
pub struct BaselineCounts {
    pub pass: u32,
    pub fail: u32,
    pub unknown_count: u32,
    pub exit_code: i32,
    pub dur_ms: u64,
}

/// Counts from the lihaaf run.
#[derive(Debug, Clone, PartialEq, Eq)]
pub struct LihaafCounts {
    pub pass: u32,
    pub fail: u32,
    pub exit_code: i32,
    pub dur_ms: u64,
    pub toolchain: String,
}

/// One fixture on which the two sides disagree.
#[derive(Debug, Clone, PartialEq, Eq)]
pub struct MismatchExample {
    pub fixture: String,
    pub mismatch_type: String,
    pub notes: String,
}

/// One error recorded during the run.
#[derive(Debug, Clone, PartialEq, Eq)]
pub struct EnvelopeError {
    pub error_type: String,
    pub fixture: Option<String>,
    pub file: String,
    pub line: u32,
    pub detail: String,
}

/// A fixture left out of the comparison, with the reason.
#[derive(Debug, Clone, PartialEq, Eq)]
pub struct ExcludedFixture {
    pub fixture: String,
    pub reason: String,
}

/// A generated path, relative to the compat root, and its class name.
#[derive(Debug, Clone, PartialEq, Eq)]
pub struct GeneratedPath {
    pub path: String,
    pub class: String,
}

/// What the overlay manifest did.
#[derive(Debug, Clone, PartialEq, Eq)]
pub struct OverlayMetadata {
    pub generated: bool,
    pub dropped_comments: Vec<String>,
    pub upstream_already_has_dylib: bool,
}

impl SortKey for MismatchExample {
    open spec fn sorts_after(&self, other: &Self) -> bool {
        str_lt(other.fixture@, self.fixture@)
    }

    fn after(&self, other: &Self) -> (r: bool) {
        str_less(other.fixture.as_str(), self.fixture.as_str())
    }

    proof fn lemma_asymmetric(a: &Self, b: &Self) {
        lemma_str_lt_asymmetric(b.fixture@, a.fixture@);
    }
}

impl SortKey for ExcludedFixture {
    open spec fn sorts_after(&self, other: &Self) -> bool {
        str_lt(other.fixture@, self.fixture@)
    }

    fn after(&self, other: &Self) -> (r: bool) {
        str_less(other.fixture.as_str(), self.fixture.as_str())
    }

    proof fn lemma_asymmetric(a: &Self, b: &Self) {
        lemma_str_lt_asymmetric(b.fixture@, a.fixture@);
    }
}

impl SortKey for GeneratedPath {
    open spec fn sorts_after(&self, other: &Self) -> bool {
        str_lt(other.path@, self.path@)
    }

    fn after(&self, other: &Self) -> (r: bool) {
        str_less(other.path.as_str(), self.path.as_str())
    }

    proof fn lemma_asymmetric(a: &Self, b: &Self) {
        lemma_str_lt_asymmetric(b.path@, a.path@);
    }
}

impl SortKey for String {
    open spec fn sorts_after(&self, other: &Self) -> bool {
        str_lt(other@, self@)
    }

    fn after(&self, other: &Self) -> (r: bool) {
        str_less(other.as_str(), self.as_str())
    }

    proof fn lemma_asymmetric(a: &Self, b: &Self) {
        lemma_str_lt_asymmetric(b@, a@);
    }
}

/// Errors order by file, then line, then error type.
pub open spec fn error_key_lt(a: EnvelopeError, b: EnvelopeError) -> bool {
    ||| str_lt(a.file@, b.file@)
    ||| (a.file@ == b.file@ && a.line < b.line)
    ||| (a.file@ == b.file@ && a.line == b.line && str_lt(a.error_type@, b.error_type@))
}

impl SortKey for EnvelopeError {
    open spec fn sorts_after(&self, other: &Self) -> bool {
        error_key_lt(*other, *self)
    }

    fn after(&self, other: &Self) -> (r: bool) {
        if str_less(other.file.as_str(), self.file.as_str()) {
            return true;
        }
        if !crate::text::str_eq(other.file.as_str(), self.file.as_str()) {
            return false;
        }
        if other.line < self.line {
            return true;
        }
        if other.line != self.line {
            return false;
        }
        str_less(other.error_type.as_str(), self.error_type.as_str())
    }

    proof fn lemma_asymmetric(a: &Self, b: &Self) {
        lemma_str_lt_asymmetric(b.file@, a.file@);
        lemma_str_lt_asymmetric(b.error_type@, a.error_type@);
        lemma_str_lt_irreflexive(a.file@);
    }
}

/// Report entry for a cleanup record: the path relative to the compat
/// root, and the class as a lowercase name.
pub fn generated_path_from_cleanup(cleanup_entry: &cleanup::GeneratedPath, compat_root: &str) -> (g: GeneratedPath)
    ensures
        g.path@ == relative_spec(cleanup_entry.path@, compat_root@),
        g.class@ == match cleanup_entry.class {
            cleanup::GeneratedPathClass::Committed => "committed"@,
            cleanup::GeneratedPathClass::Ignored => "ignored"@,
            cleanup::GeneratedPathClass::Cleaned => "cleaned"@,
            cleanup::GeneratedPathClass::Kept => "kept"@,
        },
{
    let rel = relative_to(cleanup_entry.path.as_str(), compat_root);
    let class = match cleanup_entry.class {
        cleanup::GeneratedPathClass::Committed => "committed",
        cleanup::GeneratedPathClass::Ignored => "ignored",
        cleanup::GeneratedPathClass::Cleaned => "cleaned",
        cleanup::GeneratedPathClass::Kept => "kept",
    };
    GeneratedPath { path: rel, class: class.to_owned() }
}

/// Puts the envelope's lists in canonical order so that two runs over the
/// same input serialize identically.
pub fn canonicalize(envelope: &mut CompatEnvelope)
    ensures
        final(envelope).mismatch_examples@ == stable_sorted(old(envelope).mismatch_examples@),
        final(envelope).errors@ == stable_sorted(old(envelope).errors@),
        final(envelope).excluded_fixtures@ == stable_sorted(old(envelope).excluded_fixtures@),
        final(envelope).generated_paths@ == stable_sorted(old(envelope).generated_paths@),
        final(envelope).overlay.dropped_comments@ == stable_sorted(old(envelope).overlay.dropped_comments@),
        final(envelope).schema_version == old(envelope).schema_version,
        final(envelope).mode == old(envelope).mode,
        final(envelope).crate_name == old(envelope).crate_name,
        final(envelope).commit == old(envelope).commit,
        final(envelope).commands == old(envelope).commands,
        final(envelope).results == old(envelope).results,
        final(envelope).overlay.generated == old(envelope).overlay.generated,
        final(envelope).overlay.upstream_already_has_dylib == old(envelope).overlay.upstream_already_has_dylib,
        final(envelope).toolchain == old(envelope).toolchain,
{
    let mut m: Vec<MismatchExample> = Vec::new();
    std::mem::swap(&mut m, &mut envelope.mismatch_examples);
    envelope.mismatch_examples = stable_sort(m);
    let mut e: Vec<EnvelopeError> = Vec::new();
    std::mem::swap(&mut e, &mut envelope.errors);
    envelope.errors = stable_sort(e);
    let mut x: Vec<ExcludedFixture> = Vec::new();
    std::mem::swap(&mut x, &mut envelope.excluded_fixtures);
    envelope.excluded_fixtures = stable_sort(x);
    let mut g: Vec<GeneratedPath> = Vec::new();
    std::mem::swap(&mut g, &mut envelope.generated_paths);
    envelope.generated_paths = stable_sort(g);
    let mut d: Vec<String> = Vec::new();
    std::mem::swap(&mut d, &mut envelope.overlay.dropped_comments);
    envelope.overlay.dropped_comments = stable_sort(d);
}

/// Canonical order is a fixed point: canonicalizing an envelope that was
/// already canonicalized leaves every list as it was.
pub proof fn lemma_canonicalize_idempotent(
    m: Seq<MismatchExample>,
    e: Seq<EnvelopeError>,
    x: Seq<ExcludedFixture>,
    g: Seq<GeneratedPath>,
    d: Seq<String>,
)
    ensures
        stable_sorted(stable_sorted(m)) == stable_sorted(m),
        stable_sorted(stable_sorted(e)) == stable_sorted(e),
        stable_sorted(stable_sorted(x)) == stable_sorted(x),
        stable_sorted(stable_sorted(g)) == stable_sorted(g),
        stable_sorted(stable_sorted(d)) == stable_sorted(d),
{
    lemma_stable_sort_idempotent(m);
    lemma_stable_sort_idempotent(e);
    lemma_stable_sort_idempotent(x);
    lemma_stable_sort_idempotent(g);
    lemma_stable_sort_idempotent(d);
}

} // verus!
