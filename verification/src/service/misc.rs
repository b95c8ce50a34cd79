//! Provenance of timestamps, and public keys from peer ids.

use crate::keypair::peer_id::peer_id_multihash;
use crate::keypair::public_key::{public_key_of_peer_id, PeerIdError, PublicKey};
use crate::service::error::ServiceError;
use vstd::prelude::*;

verus! {

/// Where an argument of a call comes from: which function of which service on which
/// peer produced it.
#[derive(Debug, Clone, Default)]
pub struct SecurityTetraplet {
    pub peer_pk: String,
    pub service_id: String,
    pub function_name: String,
    pub json_path: String,
}

/// What the host tells a service about the call that it serves.
#[derive(Debug, Clone, Default)]
pub struct CallParameters {
    /// The peer that started the call.
    pub init_peer_id: String,
    /// The peer that created the service.
    pub service_creator_peer_id: String,
    /// The peer that hosts the service.
    pub host_id: String,
    /// For each argument of the call, where it comes from.
    pub tetraplets: Vec<Vec<SecurityTetraplet>>,
}

/// Whether the argument at index `arg_number` is a timestamp that the timestamp
/// function of the host itself produced: its first tetraplet names the service `peer`,
/// the function `timestamp_sec` and the host as peer.
pub open spec fn timestamp_trusted(call_parameters: CallParameters, arg_number: int) -> bool {
    &&& 0 <= arg_number < call_parameters.tetraplets@.len()
    &&& call_parameters.tetraplets@[arg_number]@.len() > 0
    &&& call_parameters.tetraplets@[arg_number]@[0].service_id@ == "peer"@
    &&& call_parameters.tetraplets@[arg_number]@[0].function_name@ == "timestamp_sec"@
    &&& call_parameters.tetraplets@[arg_number]@[0].peer_pk@ == call_parameters.host_id@
}

/// Whether two texts are the same.
pub fn same_text(a: &str, b: &str) -> (same: bool)
    ensures
        same == (a@ == b@),
{
    a.to_owned() == b.to_owned()
}

/// Checks that the timestamp at `arg_number` is generated on the current host with the
/// builtin `peer` `timestamp_sec`.
pub fn check_timestamp_tetraplets(call_parameters: &CallParameters, arg_number: usize) -> (out: Result<
    (),
    ServiceError,
>)
    ensures
        out is Ok <==> timestamp_trusted(*call_parameters, arg_number as int),
        out matches Err(e) ==> e is InvalidTimestampTetraplet,
{
    if arg_number >= call_parameters.tetraplets.len() {
        return Err(ServiceError::InvalidTimestampTetraplet("no tetraplets".to_owned()));
    }
    let tetraplets = &call_parameters.tetraplets[arg_number];
    if tetraplets.len() == 0 {
        return Err(ServiceError::InvalidTimestampTetraplet("no tetraplets".to_owned()));
    }
    let tetraplet = &tetraplets[0];
    if same_text(tetraplet.service_id.as_str(), "peer") && same_text(
        tetraplet.function_name.as_str(),
        "timestamp_sec",
    ) && same_text(tetraplet.peer_pk.as_str(), call_parameters.host_id.as_str()) {
        Ok(())
    } else {
        Err(ServiceError::InvalidTimestampTetraplet(tetraplet.function_name.clone()))
    }
}

/// Runs `func` and hands out what it gives.
pub fn wrapped_try<F, T>(func: F) -> (out: T) where F: FnOnce() -> T
    requires
        func.requires(()),
    ensures
        func.ensures((), out),
{
    func()
}

/// The public key that a peer id holds inline.
pub fn extract_public_key(peer_id: &str) -> (out: Result<PublicKey, ServiceError>)
    ensures
        match out {
            Ok(pk) => public_key_of_peer_id(peer_id@) == Some(pk@),
            Err(ServiceError::PublicKeyExtractionError(_)) => peer_id_multihash(peer_id@) is None,
            Err(ServiceError::PublicKeyDecodeError(_)) => peer_id_multihash(peer_id@) is Some
                && public_key_of_peer_id(peer_id@) is None,
            Err(_) => false,
        },
        out is Ok <==> public_key_of_peer_id(peer_id@) is Some,
{
    match PublicKey::from_peer_id(peer_id) {
        Ok(pk) => Ok(pk),
        Err(PeerIdError::Parse(e)) => Err(ServiceError::PublicKeyExtractionError(e)),
        Err(PeerIdError::Key(e)) => Err(ServiceError::PublicKeyDecodeError(e)),
    }
}

} // verus!
