//! Self-contained Linux application installers: a package is a runtime binary
//! followed by an embedded, digest-bound, optionally Ed25519-signed payload.
//! This crate holds the package format and its two endpoints: assembling a
//! package (builder side) and locating, authenticating and unpacking the
//! payload (runtime side), together with the pure installation logic.

use vstd::prelude::*;

pub mod codec;
pub mod config;
pub mod detect;
pub mod extractor;
pub mod paths;
pub mod installer;
pub mod json;
pub mod manifest;
pub mod metadata;
pub mod payload;
pub mod polkit;
pub mod signing;
pub mod state;

verus! {

/// Error taxonomy of the whole crate; each variant names one failure the
/// format or the installer can report.
#[derive(Debug, Clone, Copy, PartialEq, Eq, Structural)]
pub enum LxeError {
    ConfigInvalid,
    BuildScriptFailed,
    RuntimeNotFound,
    NoPayload,
    MetadataTooLarge,
    MetadataParseError,
    MalformedSignature,
    UnauthenticPackage,
    CorruptPayload,
    ExtractionFailed,
    AuthorizationDenied,
    UnsafeRemovalRefused,
}

} // verus!
