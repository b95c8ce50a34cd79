//! The results of the operations of the service: whether the operation succeeded, what
//! it gave, and the message of the error where it failed.

use crate::service::dto::{Certificate, Revocation, Trust};
use crate::service::error::ServiceError;
use vstd::prelude::*;

verus! {

/// A trust of the wire with empty texts and times 0, for the result of a failure.
pub fn empty_trust() -> (out: Trust)
    ensures
        out.issued_for@.len() == 0,
        out.signature@.len() == 0,
        out.sig_type@.len() == 0,
        out.expires_at == 0,
        out.issued_at == 0,
{
    Trust {
        issued_for: String::new(),
        expires_at: 0,
        signature: String::new(),
        sig_type: String::new(),
        issued_at: 0,
    }
}

/// A revocation of the wire with empty texts and time 0, for the result of a failure.
pub fn empty_revocation() -> (out: Revocation)
    ensures
        out.revoked_peer_id@.len() == 0,
        out.signature@.len() == 0,
        out.sig_type@.len() == 0,
        out.revoked_by@.len() == 0,
        out.revoked_at == 0,
{
    Revocation {
        revoked_peer_id: String::new(),
        revoked_at: 0,
        signature: String::new(),
        sig_type: String::new(),
        revoked_by: String::new(),
    }
}

/// The outcome of inserting a certificate.
#[derive(Debug)]
pub struct InsertResult {
    pub success: bool,
    pub error: String,
}

impl InsertResult {
    /// The result of an outcome: success with what the operation gave and an empty
    /// error, or failure with the message of the error and nothing else.
    pub fn from(result: Result<(), ServiceError>) -> (out: Self)
        ensures
            out.success == result is Ok,
            result is Ok ==> out.error@.len() == 0,
    {
        match result {
            Ok(()) => InsertResult { success: true, error: String::new() },
            Err(e) => InsertResult { success: false, error: e.to_string() },
        }
    }
}

/// The outcome of asking for a weight: the weight and the peer id that was asked for.
#[derive(Debug)]
pub struct WeightResult {
    pub success: bool,
    pub weight: u32,
    pub peer_id: String,
    pub error: String,
}

impl WeightResult {
    /// The result of an outcome: success with what the operation gave and an empty
    /// error, or failure with the message of the error and nothing else.
    pub fn from(result: Result<(u32, String), ServiceError>) -> (out: Self)
        ensures
            out.success == result is Ok,
            result matches Ok(value) ==> out.weight == value.0 && out.peer_id == value.1
                && out.error@.len() == 0,
            result is Err ==> out.weight == 0 && out.peer_id@.len() == 0,
    {
        match result {
            Ok((weight, peer_id)) => WeightResult { success: true, weight, peer_id, error: String::new() },
            Err(e) => WeightResult {
                success: false,
                weight: 0u32,
                peer_id: String::new(),
                error: e.to_string(),
            },
        }
    }
}

/// The outcome of asking for certificates.
#[derive(Debug)]
pub struct AllCertsResult {
    pub success: bool,
    pub certificates: Vec<Certificate>,
    pub error: String,
}

impl AllCertsResult {
    /// The result of an outcome: success with what the operation gave and an empty
    /// error, or failure with the message of the error and nothing else.
    pub fn from(result: Result<Vec<Certificate>, ServiceError>) -> (out: Self)
        ensures
            out.success == result is Ok,
            result matches Ok(value) ==> out.certificates == value && out.error@.len() == 0,
            result is Err ==> out.certificates@.len() == 0,
    {
        match result {
            Ok(value) => AllCertsResult { success: true, certificates: value, error: String::new() },
            Err(e) => AllCertsResult { success: false, certificates: Vec::new(), error: e.to_string() },
        }
    }
}

/// The outcome of adding a root.
#[derive(Debug)]
pub struct AddRootResult {
    pub success: bool,
    pub error: String,
}

impl AddRootResult {
    /// The result of an outcome: success with what the operation gave and an empty
    /// error, or failure with the message of the error and nothing else.
    pub fn from(result: Result<(), ServiceError>) -> (out: Self)
        ensures
            out.success == result is Ok,
            result is Ok ==> out.error@.len() == 0,
    {
        match result {
            Ok(()) => AddRootResult { success: true, error: String::new() },
            Err(e) => AddRootResult { success: false, error: e.to_string() },
        }
    }
}

/// The outcome of setting a root.
#[derive(Debug)]
pub struct SetRootResult {
    pub success: bool,
    pub error: String,
}

impl SetRootResult {
    /// The result of an outcome: success with what the operation gave and an empty
    /// error, or failure with the message of the error and nothing else.
    pub fn from(result: Result<(), ServiceError>) -> (out: Self)
        ensures
            out.success == result is Ok,
            result is Ok ==> out.error@.len() == 0,
    {
        match result {
            Ok(()) => SetRootResult { success: true, error: String::new() },
            Err(e) => SetRootResult { success: false, error: e.to_string() },
        }
    }
}

/// The outcome of asking for the bytes that the signature of a trust signs.
#[derive(Debug)]
pub struct GetTrustBytesResult {
    pub success: bool,
    pub result: Vec<u8>,
    pub error: String,
}

impl GetTrustBytesResult {
    /// The result of an outcome: success with what the operation gave and an empty
    /// error, or failure with the message of the error and nothing else.
    pub fn from(result: Result<Vec<u8>, ServiceError>) -> (out: Self)
        ensures
            out.success == result is Ok,
            result matches Ok(value) ==> out.result == value && out.error@.len() == 0,
            result is Err ==> out.result@.len() == 0,
    {
        match result {
            Ok(value) => GetTrustBytesResult { success: true, result: value, error: String::new() },
            Err(e) => GetTrustBytesResult { success: false, result: Vec::new(), error: e.to_string() },
        }
    }
}

/// The outcome of putting a trust together from its parts and a signature.
#[derive(Debug)]
pub struct IssueTrustResult {
    pub success: bool,
    pub trust: Trust,
    pub error: String,
}

impl IssueTrustResult {
    /// The result of an outcome: success with what the operation gave and an empty
    /// error, or failure with the message of the error and nothing else.
    pub fn from(result: Result<Trust, ServiceError>) -> (out: Self)
        ensures
            out.success == result is Ok,
            result matches Ok(value) ==> out.trust == value && out.error@.len() == 0,
            result is Err ==> out.trust.issued_for@.len() == 0,
    {
        match result {
            Ok(value) => IssueTrustResult { success: true, trust: value, error: String::new() },
            Err(e) => IssueTrustResult { success: false, trust: empty_trust(), error: e.to_string() },
        }
    }
}

/// The outcome of verifying a trust.
#[derive(Debug)]
pub struct VerifyTrustResult {
    pub success: bool,
    pub error: String,
}

impl VerifyTrustResult {
    /// The result of an outcome: success with what the operation gave and an empty
    /// error, or failure with the message of the error and nothing else.
    pub fn from(result: Result<(), ServiceError>) -> (out: Self)
        ensures
            out.success == result is Ok,
            result is Ok ==> out.error@.len() == 0,
    {
        match result {
            Ok(()) => VerifyTrustResult { success: true, error: String::new() },
            Err(e) => VerifyTrustResult { success: false, error: e.to_string() },
        }
    }
}

/// The outcome of adding a trust: the weight that the trust hands on.
#[derive(Debug)]
pub struct AddTrustResult {
    pub success: bool,
    pub weight: u32,
    pub error: String,
}

impl AddTrustResult {
    /// The result of an outcome: success with what the operation gave and an empty
    /// error, or failure with the message of the error and nothing else.
    pub fn from(result: Result<u32, ServiceError>) -> (out: Self)
        ensures
            out.success == result is Ok,
            result matches Ok(value) ==> out.weight == value && out.error@.len() == 0,
            result is Err ==> out.weight == 0,
    {
        match result {
            Ok(value) => AddTrustResult { success: true, weight: value, error: String::new() },
            Err(e) => AddTrustResult { success: false, weight: 0u32, error: e.to_string() },
        }
    }
}

/// The outcome of asking for the bytes that the signature of a revocation signs.
#[derive(Debug)]
pub struct GetRevokeBytesResult {
    pub success: bool,
    pub result: Vec<u8>,
    pub error: String,
}

impl GetRevokeBytesResult {
    /// The result of an outcome: success with what the operation gave and an empty
    /// error, or failure with the message of the error and nothing else.
    pub fn from(result: Result<Vec<u8>, ServiceError>) -> (out: Self)
        ensures
            out.success == result is Ok,
            result matches Ok(value) ==> out.result == value && out.error@.len() == 0,
            result is Err ==> out.result@.len() == 0,
    {
        match result {
            Ok(value) => GetRevokeBytesResult { success: true, result: value, error: String::new() },
            Err(e) => GetRevokeBytesResult { success: false, result: Vec::new(), error: e.to_string() },
        }
    }
}

/// The outcome of putting a revocation together from its parts and a signature.
#[derive(Debug)]
pub struct IssueRevocationResult {
    pub success: bool,
    pub revocation: Revocation,
    pub error: String,
}

impl IssueRevocationResult {
    /// The result of an outcome: success with what the operation gave and an empty
    /// error, or failure with the message of the error and nothing else.
    pub fn from(result: Result<Revocation, ServiceError>) -> (out: Self)
        ensures
            out.success == result is Ok,
            result matches Ok(value) ==> out.revocation == value && out.error@.len() == 0,
            result is Err ==> out.revocation.revoked_peer_id@.len() == 0,
    {
        match result {
            Ok(value) => IssueRevocationResult { success: true, revocation: value, error: String::new() },
            Err(e) => IssueRevocationResult { success: false, revocation: empty_revocation(), error: e.to_string() },
        }
    }
}

/// The outcome of a revocation.
#[derive(Debug)]
pub struct RevokeResult {
    pub success: bool,
    pub error: String,
}

impl RevokeResult {
    /// The result of an outcome: success with what the operation gave and an empty
    /// error, or failure with the message of the error and nothing else.
    pub fn from(result: Result<(), ServiceError>) -> (out: Self)
        ensures
            out.success == result is Ok,
            result is Ok ==> out.error@.len() == 0,
    {
        match result {
            Ok(()) => RevokeResult { success: true, error: String::new() },
            Err(e) => RevokeResult { success: false, error: e.to_string() },
        }
    }
}

/// The outcome of asking for the revocations of a peer.
#[derive(Debug)]
pub struct ExportRevocationsResult {
    pub success: bool,
    pub revocations: Vec<Revocation>,
    pub error: String,
}

impl ExportRevocationsResult {
    /// The result of an outcome: success with what the operation gave and an empty
    /// error, or failure with the message of the error and nothing else.
    pub fn from(result: Result<Vec<Revocation>, ServiceError>) -> (out: Self)
        ensures
            out.success == result is Ok,
            result matches Ok(value) ==> out.revocations == value && out.error@.len() == 0,
            result is Err ==> out.revocations@.len() == 0,
    {
        match result {
            Ok(value) => ExportRevocationsResult { success: true, revocations: value, error: String::new() },
            Err(e) => ExportRevocationsResult { success: false, revocations: Vec::new(), error: e.to_string() },
        }
    }
}

} // verus!
