//! Album and film library tooling: naming, path grounding, hash checks,
//! manifest rendering and disc-identifier computation.
use vstd::prelude::*;

pub mod text;
pub mod hash;
pub mod names;
pub mod paths;
pub mod config;
pub mod source;
pub mod glob;
pub mod order;
pub mod ctdb;
pub mod manifest;
pub mod library;
pub mod film;
pub mod nix;
pub mod fetch;
pub mod json;
pub mod manifest_data;

verus! {
} // verus!
