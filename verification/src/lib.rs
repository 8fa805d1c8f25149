//! Verified core of the lihaaf proc-macro test harness.
use vstd::prelude::*;

pub mod cli;
pub mod text;
pub mod compat;
pub mod diff;
pub mod myers;
pub mod discovery;
pub mod verdict;
pub mod toml_model;
pub mod toml_doc;
pub mod json_model;
pub mod error;
pub mod normalize;
pub mod config;
pub mod config_msg;
pub mod paths;
pub mod sort;
pub mod util;

verus! {

} // verus!
