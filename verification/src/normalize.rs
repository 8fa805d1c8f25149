//! Adopter-defined rewrites applied to normalized stderr.
use vstd::prelude::*;

verus! {

/// Replace every occurrence of `from` with `to`.
#[derive(Debug, Clone, PartialEq, Eq)]
pub struct Substitution {
    pub from: String,
    pub to: String,
}

} // verus!

verus! {

/// What stderr normalization needs to know about the session.
#[derive(Debug, Clone)]
pub struct NormalizationContext {
    pub package_root: String,
    pub repo_root: String,
    /// Rewrite long `$CARGO` paths to the short form compat snapshots use.
    pub compat_short_cargo: bool,
}

impl NormalizationContext {
    pub fn new(package_root: String, repo_root: String) -> (c: Self)
        ensures
            c.package_root == package_root,
            c.repo_root == repo_root,
            !c.compat_short_cargo,
    {
        NormalizationContext { package_root, repo_root, compat_short_cargo: false }
    }

    /// The same context with the short-`$CARGO` rewrite set to `on`.
    pub fn with_compat_short_cargo(self, on: bool) -> (c: Self)
        ensures
            c.package_root == self.package_root,
            c.repo_root == self.repo_root,
            c.compat_short_cargo == on,
    {
        NormalizationContext { compat_short_cargo: on, ..self }
    }
}

} // verus!
