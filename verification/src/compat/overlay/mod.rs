//! The overlay manifest: a canonical copy of the upstream `Cargo.toml`
//! that builds the crate as a dylib for the inner lihaaf session.
use vstd::prelude::*;

pub mod idempotence;
pub mod manifest;
pub mod mirror;
pub mod paths;
pub mod plan;
pub mod serialize;
pub mod text;

verus! {

} // verus!
