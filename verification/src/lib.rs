#![verifier::loop_isolation(false)]
//! A patch state manager for package manifests: redirects declared
//! dependencies to an alternate source (a local workspace or a git
//! repository), records enough state inside the manifest itself to make the
//! operation reversible and idempotent, and later restores exactly what it
//! changed and nothing else.

pub mod cargo_ops;
pub mod cli;
pub mod error;
pub mod laws;
pub mod manifest;
pub mod patch;
pub mod pattern;
pub mod source;
pub mod store;
pub mod strutil;

pub use error::PatchError;
pub use patch::{apply_patches, remove_patches};
pub use pattern::glob_match;
pub use source::{GitReference, PatchSource};
