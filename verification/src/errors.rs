//! Error taxonomy of the library.
//!
//! `DomainError` covers validation and availability failures of the domain
//! itself; `InfrastructureError` wraps it and adds the failures of the
//! surrounding services (HTTP, the recording process, the filesystem).

use vstd::prelude::*;

verus! {

/// A failure of the domain rules: a malformed identifier or URL, an unknown
/// model, or a model that is not currently streaming.
#[derive(Debug)]
pub enum DomainError {
    InvalidModelName(String),
    InvalidStreamUrl(String),
    ModelNotFound(String),
    ModelOffline,
}

/// A failure of the surrounding services. `RecordingCancelled` is a clean
/// early stop, never counted as a job failure.
#[derive(Debug)]
pub enum InfrastructureError {
    Domain(DomainError),
    ExternalService(String),
    RecordingError(String),
    RecordingCancelled,
    Io(String),
}

impl InfrastructureError {
    /// A cancelled recording is excluded from the failure list; every other
    /// infrastructure error counts as a per-job failure.
    pub fn es_fallo(&self) -> (r: bool)
        ensures
            r == !(self is RecordingCancelled),
    {
        !matches!(self, InfrastructureError::RecordingCancelled)
    }
}

} // verus!
