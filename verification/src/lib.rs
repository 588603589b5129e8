//! Verified project rules of a PSP homebrew studio: names, confined
//! project paths, generated sources and Makefiles, build logs and their
//! diagnostics, PBP headers and copy verification.
use vstd::prelude::*;

pub mod text;
pub mod order;
pub mod path;
pub mod confine;
pub mod rules;
pub mod templates;
pub mod compile;
pub mod pbp;
pub mod transfer;
pub mod project;
pub mod env;
pub mod tree;
pub mod sources;
pub mod files;
pub mod deploy;

verus! {
} // verus!
