//! Errors of the service.

use crate::certificate::CertificateError;
use crate::keypair::error::DecodingError;
use crate::service::dto::DtoConversionError;
use crate::trust::TrustError;
use crate::trust_graph::TrustGraphError;
use vstd::prelude::*;

verus! {

/// Why an operation of the service failed.
#[derive(Debug)]
pub enum ServiceError {
    /// No public key could be taken from a peer id.
    PublicKeyExtractionError(String),
    /// A peer id holds no valid public key.
    PublicKeyDecodeError(DecodingError),
    /// The trust graph failed.
    TGError(TrustGraphError),
    /// A certificate was refused.
    CertError(CertificateError),
    /// A value of the wire could not be converted.
    DtoError(DtoConversionError),
    /// A trust was refused.
    TrustError(TrustError),
    /// The timestamp does not come from the timestamp service of the host.
    InvalidTimestampTetraplet(String),
    /// The named statement is issued later than the current timestamp.
    InvalidTimestamp(String),
    /// Someone other than the creator of the service tried to set a root.
    NotOwner,
}

} // verus!
