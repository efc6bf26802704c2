//! The library's error type.
use vstd::prelude::*;

verus! {

/// Errors reported by this crate.
#[derive(Debug)]
pub enum RepoError {
    /// The path is not a directory holding an ebuild repository.
    InvalidRepository(String),
    /// `metadata/layout.conf` is missing.
    MissingLayout(String),
    /// A `Manifest` file is malformed.
    InvalidManifest(String),
    /// A profile file is malformed.
    InvalidProfile(String),
    /// A file could not be read.
    Io { path: String, message: String },
    /// The embedded shell failed.
    Shell(String),
    /// A package atom did not parse.
    Atom(portage_atom::Error),
    /// Ebuild metadata is invalid (such as an unknown EAPI).
    Metadata(String),
    /// `portage_metadata` refused a cache entry or a set of metadata values.
    MetadataParse(portage_metadata::Error),
}

} // verus!
