//! Error taxonomy of the library.
//!
//! Every failure a caller can see is one of these variants; the payload is a
//! human-readable description for status surfaces.

use vstd::prelude::*;

verus! {

/// The failures surfaced by the store, the manager, the notifier and the
/// profile registry.
#[derive(Debug)]
pub enum EnvError {
    /// A store namespace could not be opened at all.
    StoreUnavailable(String),
    /// A single store entry could not be decoded; recovered locally, the
    /// entry is skipped.
    EncodingError(String),
    /// The scope guard or the elevation check refused a mutation.
    PermissionDenied(String),
    /// A variable name is absent from the cache or the store.
    NotFound(String),
    /// A malformed variable name or value was rejected before any I/O.
    InvalidInput(String),
    /// A malformed profile document, or an attempt to apply a disabled
    /// profile.
    ConfigurationError(String),
    /// A profile name is absent from the registry.
    ProfileNotFound(String),
    /// The change-notification broadcast primitive itself failed.
    RefreshFailed(String),
}

pub type EnvResult<T> = Result<T, EnvError>;

} // verus!
