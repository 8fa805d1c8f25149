//! The decisions of the staged package-root mirror: which upstream
//! entries are mirrored, how a staged entry is reconciled, which staged
//! entries the stale-cleanup pass removes, and when the staged manifest
//! is acceptable. The filesystem work is the caller's.
use vstd::prelude::*;
use crate::paths::{comps_view, path_comps, path_components};
use crate::text::str_eq;

verus! {

/// Upstream top-level entries that are never mirrored.
pub open spec fn mirror_excluded_spec(name: Seq<char>) -> bool {
    name == "target"@ || name == ".git"@ || name == "Cargo.toml"@ || name == "Cargo.lock"@
}

/// Staged entries removed even when upstream has them.
pub open spec fn must_remove_spec(name: Seq<char>) -> bool {
    name == ".git"@ || name == "Cargo.lock"@
}

/// What the mirror never copies from the upstream crate root: exactly
/// `target` (the staged overlay itself lives in it), `.git`, `Cargo.toml`
/// (the overlay writes its own) and `Cargo.lock`; every other top-level
/// name is mirrored.
pub proof fn lemma_mirror_skips_exactly(name: Seq<char>)
    ensures
        mirror_excluded_spec(name) <==> (name =~= seq!['t', 'a', 'r', 'g', 'e', 't'] || name =~= seq!['.', 'g', 'i', 't']
            || name =~= seq!['C', 'a', 'r', 'g', 'o', '.', 't', 'o', 'm', 'l'] || name =~= seq![
            'C',
            'a',
            'r',
            'g',
            'o',
            '.',
            'l',
            'o',
            'c',
            'k',
        ]),
{
    reveal_strlit("target");
    reveal_strlit(".git");
    reveal_strlit("Cargo.toml");
    reveal_strlit("Cargo.lock");
    assert("target"@ =~= seq!['t', 'a', 'r', 'g', 'e', 't']);
    assert(".git"@ =~= seq!['.', 'g', 'i', 't']);
    assert("Cargo.toml"@ =~= seq!['C', 'a', 'r', 'g', 'o', '.', 't', 'o', 'm', 'l']);
    assert("Cargo.lock"@ =~= seq!['C', 'a', 'r', 'g', 'o', '.', 'l', 'o', 'c', 'k']);
}

pub fn mirror_excluded(name: &str) -> (r: bool)
    ensures
        r == mirror_excluded_spec(name@),
{
    str_eq(name, "target") || str_eq(name, ".git") || str_eq(name, "Cargo.toml") || str_eq(name, "Cargo.lock")
}

/// What the stale-cleanup pass does with one staged entry.
#[derive(Debug, Clone, Copy, PartialEq, Eq, Structural)]
pub enum StaleAction {
    /// Left in place.
    Keep,
    /// Removed: it must never be in the staged overlay.
    RemoveMustBeAbsent,
    /// Removed: upstream has no entry of that name any more.
    RemoveOrphan,
}

pub open spec fn stale_action_spec(name: Seq<char>, upstream_names: Seq<Seq<char>>) -> StaleAction {
    if name == "Cargo.toml"@ || name == "target"@ {
        StaleAction::Keep
    } else if must_remove_spec(name) {
        StaleAction::RemoveMustBeAbsent
    } else if !upstream_names.contains(name) {
        StaleAction::RemoveOrphan
    } else {
        StaleAction::Keep
    }
}

/// The stale-cleanup decision for staged entry `name`, given the names
/// of the upstream top-level entries: the generated manifest and
/// `target/` stay, `.git` and `Cargo.lock` go, and so does any entry
/// upstream no longer has.
pub fn stale_action(name: &str, upstream_names: &Vec<String>) -> (r: StaleAction)
    ensures
        r == stale_action_spec(name@, upstream_names.deep_view()),
{
    if str_eq(name, "Cargo.toml") || str_eq(name, "target") {
        return StaleAction::Keep;
    }
    if str_eq(name, ".git") || str_eq(name, "Cargo.lock") {
        return StaleAction::RemoveMustBeAbsent;
    }
    let mut i: usize = 0;
    while i < upstream_names.len()
        invariant
            !(name@ == "Cargo.toml"@ || name@ == "target"@),
            !must_remove_spec(name@),
            i <= upstream_names@.len(),
            forall|k: int| 0 <= k < i ==> upstream_names.deep_view()[k] != name@,
        decreases upstream_names@.len() - i,
    {
        if str_eq(upstream_names[i].as_str(), name) {
            assert(upstream_names.deep_view()[i as int] == name@);
            assert(upstream_names.deep_view().contains(name@));
            return StaleAction::Keep;
        }
        i = i + 1;
    }
    StaleAction::RemoveOrphan
}

/// What is at a staged mirror path before it is reconciled.
#[derive(Debug, Clone)]
pub enum StagedEntry {
    Absent,
    /// A symbolic link, with the path it points to.
    Symlink(String),
    File,
    Dir,
    /// Anything else (a fifo, a device).
    Other,
}

/// How one staged mirror entry is brought to the canonical state.
#[derive(Debug, Clone, Copy, PartialEq, Eq, Structural)]
pub enum Reconcile {
    /// Already a link to the upstream entry: nothing to do.
    Skip,
    /// Nothing there: create the canonical mirror.
    Create,
    /// Unlink the stale link, then create.
    UnlinkThenCreate,
    /// Remove the file, then create.
    RemoveFileThenCreate,
    /// Remove the directory tree, then create.
    RemoveDirThenCreate,
    /// Remove the odd entry, then create.
    RemoveOtherThenCreate,
}

pub open spec fn reconcile_spec(staged: StagedEntry, upstream_path: Seq<char>) -> Reconcile {
    match staged {
        StagedEntry::Absent => Reconcile::Create,
        StagedEntry::Symlink(t) => if path_comps(t@) == path_comps(upstream_path) {
            Reconcile::Skip
        } else {
            Reconcile::UnlinkThenCreate
        },
        StagedEntry::File => Reconcile::RemoveFileThenCreate,
        StagedEntry::Dir => Reconcile::RemoveDirThenCreate,
        StagedEntry::Other => Reconcile::RemoveOtherThenCreate,
    }
}

/// The reconcile decision for one entry: a link that already names the
/// upstream path (component by component) is kept; anything else in the
/// way is removed first; then the canonical mirror is created.
pub fn reconcile_entry(staged: &StagedEntry, upstream_path: &str) -> (r: Reconcile)
    ensures
        r == reconcile_spec(*staged, upstream_path@),
{
    match staged {
        StagedEntry::Absent => Reconcile::Create,
        StagedEntry::Symlink(t) => {
            let a = path_components(t.as_str());
            let b = path_components(upstream_path);
            if crate::paths::comps_eq(&a, &b) {
                Reconcile::Skip
            } else {
                Reconcile::UnlinkThenCreate
            }
        },
        StagedEntry::File => Reconcile::RemoveFileThenCreate,
        StagedEntry::Dir => Reconcile::RemoveDirThenCreate,
        StagedEntry::Other => Reconcile::RemoveOtherThenCreate,
    }
}

/// The stage an error of the removal step reports (none when nothing is
/// removed).
pub fn reconcile_stage(r: Reconcile) -> (s: Option<&'static str>)
    ensures
        match r {
            Reconcile::UnlinkThenCreate => s matches Some(t) && t@ == "stale-symlink-unlink"@,
            Reconcile::RemoveFileThenCreate => s matches Some(t) && t@ == "stale-file-remove"@,
            Reconcile::RemoveDirThenCreate => s matches Some(t) && t@ == "stale-dir-remove"@,
            Reconcile::RemoveOtherThenCreate => s matches Some(t) && t@ == "stale-other-remove"@,
            _ => s is None,
        },
{
    match r {
        Reconcile::UnlinkThenCreate => Some("stale-symlink-unlink"),
        Reconcile::RemoveFileThenCreate => Some("stale-file-remove"),
        Reconcile::RemoveDirThenCreate => Some("stale-dir-remove"),
        Reconcile::RemoveOtherThenCreate => Some("stale-other-remove"),
        _ => None,
    }
}

/// Why creating a symbolic link failed, as far as the fallback cares.
#[derive(Debug, Clone, Copy, PartialEq, Eq, Structural)]
pub enum LinkFailure {
    PermissionDenied,
    Unsupported,
    AlreadyExists,
    Other,
}

/// After a failed symlink: `(copy instead, unlink the staged path
/// first)`. A permission or support failure falls back to a copy; an
/// entry that appeared meanwhile is unlinked and copied; any other
/// failure is an error.
pub fn link_fallback(f: LinkFailure) -> (r: (bool, bool))
    ensures
        r == match f {
            LinkFailure::PermissionDenied => (true, false),
            LinkFailure::Unsupported => (true, false),
            LinkFailure::AlreadyExists => (true, true),
            LinkFailure::Other => (false, false),
        },
{
    match f {
        LinkFailure::PermissionDenied => (true, false),
        LinkFailure::Unsupported => (true, false),
        LinkFailure::AlreadyExists => (true, true),
        LinkFailure::Other => (false, false),
    }
}

/// The staged manifest's kind, read without following links.
#[derive(Debug, Clone, Copy, PartialEq, Eq, Structural)]
pub enum ManifestKind {
    Symlink,
    File,
    Other,
}

/// The mirror's final check: the staged `Cargo.toml` is a regular file.
/// A link or any other kind is refused with the stage that names it.
pub fn manifest_postcondition(k: ManifestKind) -> (r: Result<(), &'static str>)
    ensures
        match k {
            ManifestKind::File => r is Ok,
            ManifestKind::Symlink => r matches Err(s) && s@ == "post-condition-cargo-toml-is-symlink"@,
            ManifestKind::Other => r matches Err(s) && s@ == "post-condition-cargo-toml-not-regular-file"@,
        },
{
    match k {
        ManifestKind::File => Ok(()),
        ManifestKind::Symlink => Err("post-condition-cargo-toml-is-symlink"),
        ManifestKind::Other => Err("post-condition-cargo-toml-not-regular-file"),
    }
}

} // verus!
