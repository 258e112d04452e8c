//! The error taxonomy. Every failure stems from missing or invalid input;
//! nothing is retried or downgraded internally.

use vstd::prelude::*;

verus! {

/// Everything that can go wrong while applying or removing patches.
///
/// The input and format errors (`TargetManifestNotFound`, the read, write
/// and parse errors, `SourceNotFound`) are raised at the I/O boundary; the
/// selection and completion errors are raised by the core logic itself.
#[derive(Debug, PartialEq)]
pub enum PatchError {
    /// The target manifest does not exist at the given path.
    TargetManifestNotFound { path: String },
    /// The target manifest could not be read.
    CargoTomlReadError { path: String },
    /// The target manifest could not be written back.
    CargoTomlWriteError { path: String },
    /// The target manifest text does not parse as a structured document.
    TomlParseError { path: String },
    /// Neither a local path nor a git URL was given as the source.
    NoSourceSpecified,
    /// The source workspace root has no manifest.
    SourceNotFound { path: String },
    /// The source root has a manifest but resolves to no member packages.
    NotAWorkspace { path: String },
    /// The pattern matched no candidate crate.
    NoMatchingCrates { pattern: String },
    /// A git source was requested without a pattern; without workspace
    /// metadata there is no other way to bound which dependencies are
    /// affected.
    PatternRequired,
    /// A removal was requested but the manifest holds no managed state.
    NoPatchesFound,
}

impl PatchError {
    /// A short human-readable description of the error.
    pub fn message(&self) -> String {
        match self {
            PatchError::TargetManifestNotFound { path } => {
                concat_msg("Target manifest not found: ", path)
            },
            PatchError::CargoTomlReadError { path } => {
                concat_msg("Failed to read Cargo.toml at ", path)
            },
            PatchError::CargoTomlWriteError { path } => {
                concat_msg("Failed to write Cargo.toml at ", path)
            },
            PatchError::TomlParseError { path } => {
                concat_msg("Failed to parse Cargo.toml at ", path)
            },
            PatchError::NoSourceSpecified => String::from_str(
                "No source specified. Use --path or --git",
            ),
            PatchError::SourceNotFound { path } => {
                concat_msg("Source path does not exist: ", path)
            },
            PatchError::NotAWorkspace { path } => {
                concat_msg("Source path is not a valid cargo workspace: ", path)
            },
            PatchError::NoMatchingCrates { pattern } => {
                concat_msg("No crates found matching pattern: ", pattern)
            },
            PatchError::PatternRequired => String::from_str(
                "A pattern is required when patching from a git source",
            ),
            PatchError::NoPatchesFound => String::from_str("No patches found to remove"),
        }
    }
}

/// Join a fixed prefix and a detail string.
fn concat_msg(prefix: &str, detail: &String) -> (r: String)
    ensures
        r@ == prefix@ + detail@,
{
    let mut out = String::from_str(prefix);
    out.append(detail.as_str());
    out
}

} // verus!
