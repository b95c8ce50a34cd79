//! The operations of the service on a trust graph, with their outcomes.

use crate::certificate::{cert_of_text, Certificate};
use crate::keypair::public_key::public_key_of_peer_id;
use crate::keypair::signature::Signature;
use crate::model::{
    certs_found,
    issuer_in_cert,
    updated,
    weight_of,
    without_expired,
    Relations,
};
use crate::revoke::{revocation_metadata, revocation_signed, Revocation, RevocationView};
use crate::service::dto;
use crate::service::dto::{certificate_of_dto, revocation_of_dto, trust_of_dto};
use crate::service::error::ServiceError;
use crate::service::misc::{
    check_timestamp_tetraplets,
    extract_public_key,
    same_text,
    timestamp_trusted,
    CallParameters,
};
use crate::trust::{trust_metadata, trust_valid, Trust, TrustView};
use crate::trust_graph::{
    cert_views,
    certs_found_from,
    chain_added,
    is_weight_from,
    next_weight,
    TrustGraph,
    TrustGraphError,
};
use crate::trust_graph_storage::Storage;
use crate::trust_relation::{AuthView, RelationView};
use vstd::prelude::*;

verus! {

/// The certificates that certificates of the wire stand for.
pub open spec fn dto_cert_views(certs: Seq<dto::Certificate>) -> Seq<Seq<TrustView>> {
    Seq::new(certs.len(), |i: int| certificate_of_dto(certs[i]).unwrap())
}

/// The certificates in their form on the wire.
fn certs_to_dto(certs: &Vec<Certificate>) -> (out: Vec<dto::Certificate>)
    ensures
        out@.len() == certs@.len(),
        forall|i: int| 0 <= i < out@.len() ==> certificate_of_dto(#[trigger] out@[i]) == Some(certs@[i]@),
        dto_cert_views(out@) == cert_views(certs@),
{
    let mut out: Vec<dto::Certificate> = Vec::new();
    let mut n: usize = 0;
    while n < certs.len()
        invariant
            n <= certs@.len(),
            out@.len() == n,
            forall|i: int| 0 <= i < n ==> certificate_of_dto(#[trigger] out@[i]) == Some(certs@[i]@),
        decreases certs@.len() - n,
    {
        out.push(dto::Certificate::from(&certs[n]));
        n += 1;
    }
    assert(dto_cert_views(out@) =~= cert_views(certs@));
    out
}

/// Whether the graph holds the same relations and roots in two states.
pub open spec fn unchanged<S: Storage>(before: TrustGraph<S>, after: TrustGraph<S>) -> bool {
    after.relations() == before.relations() && after.roots() == before.roots()
}

/// The weight of the peer `peer_id` at `timestamp_sec`, which must be a timestamp of
/// the host. The expired authorizations are swept before the weight is computed.
pub fn get_weight_impl<S: Storage>(
    tg: &mut TrustGraph<S>,
    call_parameters: &CallParameters,
    peer_id: String,
    timestamp_sec: u64,
) -> (out: Result<u32, ServiceError>)
    requires
        old(tg).inv(),
    ensures
        final(tg).inv(),
        final(tg).roots() == old(tg).roots(),
        S::infallible() ==> (out is Ok <==> timestamp_trusted(*call_parameters, 1)
            && public_key_of_peer_id(peer_id@) is Some),
        match out {
            Ok(weight) => {
                &&& timestamp_trusted(*call_parameters, 1)
                &&& public_key_of_peer_id(peer_id@) is Some
                &&& final(tg).relations() == without_expired(old(tg).relations(), timestamp_sec)
                &&& weight == weight_of(
                    final(tg).relations(),
                    final(tg).roots(),
                    public_key_of_peer_id(peer_id@).unwrap(),
                )
            },
            Err(ServiceError::InvalidTimestampTetraplet(_)) => !timestamp_trusted(
                *call_parameters,
                1,
            ) && unchanged(*old(tg), *final(tg)),
            Err(ServiceError::TGError(e)) => e is InternalStorageError,
            Err(_) => timestamp_trusted(*call_parameters, 1) && public_key_of_peer_id(peer_id@)
                is None && unchanged(*old(tg), *final(tg)),
        },
{
    match check_timestamp_tetraplets(call_parameters, 1) {
        Ok(()) => {},
        Err(e) => {
            return Err(e);
        },
    }
    let public_key = match extract_public_key(peer_id.as_str()) {
        Ok(pk) => pk,
        Err(e) => {
            return Err(e);
        },
    };
    match tg.weight(&public_key, timestamp_sec) {
        Ok(weight) => Ok(weight),
        Err(e) => Err(ServiceError::TGError(e)),
    }
}

/// The weight of the peer `peer_id` at `timestamp_sec` by its certificates that pass
/// through `issuer`.
pub fn get_weight_from_impl<S: Storage>(
    tg: &mut TrustGraph<S>,
    call_parameters: &CallParameters,
    peer_id: String,
    issuer: String,
    timestamp_sec: u64,
) -> (out: Result<u32, ServiceError>)
    requires
        old(tg).inv(),
    ensures
        final(tg).inv(),
        final(tg).roots() == old(tg).roots(),
        S::infallible() ==> (out is Ok <==> timestamp_trusted(*call_parameters, 2)
            && public_key_of_peer_id(peer_id@) is Some && public_key_of_peer_id(issuer@) is Some),
        match out {
            Ok(weight) => {
                &&& timestamp_trusted(*call_parameters, 2)
                &&& public_key_of_peer_id(peer_id@) is Some
                &&& public_key_of_peer_id(issuer@) is Some
                &&& final(tg).relations() == without_expired(old(tg).relations(), timestamp_sec)
                &&& is_weight_from(
                    final(tg).relations(),
                    final(tg).roots(),
                    public_key_of_peer_id(peer_id@).unwrap(),
                    public_key_of_peer_id(issuer@).unwrap(),
                    weight,
                )
            },
            Err(ServiceError::InvalidTimestampTetraplet(_)) => !timestamp_trusted(
                *call_parameters,
                2,
            ) && unchanged(*old(tg), *final(tg)),
            Err(ServiceError::TGError(e)) => e is InternalStorageError,
            Err(_) => timestamp_trusted(*call_parameters, 2) && (public_key_of_peer_id(peer_id@)
                is None || public_key_of_peer_id(issuer@) is None) && unchanged(
                *old(tg),
                *final(tg),
            ),
        },
{
    match check_timestamp_tetraplets(call_parameters, 2) {
        Ok(()) => {},
        Err(e) => {
            return Err(e);
        },
    }
    let issued_for_pk = match extract_public_key(peer_id.as_str()) {
        Ok(pk) => pk,
        Err(e) => {
            return Err(e);
        },
    };
    let issuer_pk = match extract_public_key(issuer.as_str()) {
        Ok(pk) => pk,
        Err(e) => {
            return Err(e);
        },
    };
    match tg.weight_from(&issued_for_pk, &issuer_pk, timestamp_sec) {
        Ok(weight) => Ok(weight),
        Err(e) => Err(ServiceError::TGError(e)),
    }
}

/// Adds the trusts of a certificate to the graph, in order.
fn add_cert<S: Storage>(tg: &mut TrustGraph<S>, certificate: &Certificate, timestamp_sec: u64) -> (out:
    Result<(), ServiceError>)
    requires
        old(tg).inv(),
    ensures
        final(tg).inv(),
        final(tg).roots() == old(tg).roots(),
        add_cert_outcome(*old(tg), *final(tg), certificate@, timestamp_sec, out),
{
    match tg.add(certificate, timestamp_sec) {
        Ok(()) => Ok(()),
        Err(e) => Err(ServiceError::TGError(e)),
    }
}

/// What adding the certificate `chain` at `now` comes to.
pub open spec fn add_cert_outcome<S: Storage>(
    before: TrustGraph<S>,
    after: TrustGraph<S>,
    chain: Seq<TrustView>,
    now: u64,
    out: Result<(), ServiceError>,
) -> bool {
    &&& S::infallible() ==> (out is Ok <==> chain.len() > 0 && forall|i: int|
        0 <= i < chain.len() ==> trust_valid(#[trigger] chain[i], issuer_in_cert(chain, i), now))
    &&& match out {
        Ok(()) => {
            &&& chain.len() > 0
            &&& forall|i: int|
                0 <= i < chain.len() ==> trust_valid(#[trigger] chain[i], issuer_in_cert(chain, i), now)
            &&& after.relations() == chain_added(before.relations(), chain, now, chain.len() as int)
        },
        Err(ServiceError::TGError(TrustGraphError::EmptyChain)) => chain.len() == 0
            && after.relations() == before.relations(),
        Err(ServiceError::TGError(TrustGraphError::TrustVerificationError(_))) => exists|k: int|
            {
                &&& 0 <= k < chain.len()
                &&& !trust_valid(#[trigger] chain[k], issuer_in_cert(chain, k), now)
                &&& after.relations() == chain_added(before.relations(), chain, now, k)
            },
        Err(ServiceError::TGError(TrustGraphError::InternalStorageError(_))) => chain.len() > 0,
        Err(_) => false,
    }
}

/// Adds a certificate in its text form to the graph, if it is valid at `timestamp_sec`.
pub fn insert_cert_impl_raw<S: Storage>(tg: &mut TrustGraph<S>, certificate: String, timestamp_sec: u64) -> (out:
    Result<(), ServiceError>)
    requires
        old(tg).inv(),
    ensures
        final(tg).inv(),
        final(tg).roots() == old(tg).roots(),
        match cert_of_text(vstd::utf8::encode_utf8(certificate@)) {
            Some(chain) => add_cert_outcome(*old(tg), *final(tg), chain, timestamp_sec, out),
            None => out matches Err(ServiceError::CertError(_)) && unchanged(*old(tg), *final(tg)),
        },
{
    let certificate = match Certificate::from_str(certificate.as_str()) {
        Ok(certificate) => certificate,
        Err(e) => {
            return Err(ServiceError::CertError(e));
        },
    };
    add_cert(tg, &certificate, timestamp_sec)
}

/// Adds a certificate in its form on the wire to the graph, if it is valid at
/// `timestamp_sec`.
pub fn insert_cert_impl<S: Storage>(tg: &mut TrustGraph<S>, certificate: dto::Certificate, timestamp_sec: u64) -> (out:
    Result<(), ServiceError>)
    requires
        old(tg).inv(),
    ensures
        final(tg).inv(),
        final(tg).roots() == old(tg).roots(),
        match certificate_of_dto(certificate) {
            Some(chain) => add_cert_outcome(*old(tg), *final(tg), chain, timestamp_sec, out),
            None => out matches Err(ServiceError::DtoError(_)) && unchanged(*old(tg), *final(tg)),
        },
{
    let certificate = match certificate.try_into() {
        Ok(certificate) => certificate,
        Err(e) => {
            return Err(ServiceError::DtoError(e));
        },
    };
    add_cert(tg, &certificate, timestamp_sec)
}

/// All certificates of the peer `issued_for` at `timestamp_sec`, which must be a
/// timestamp of the host; `arg_number` is the place of the timestamp among the
/// arguments of the call.
pub fn get_all_certs_impl<S: Storage>(
    tg: &mut TrustGraph<S>,
    call_parameters: &CallParameters,
    arg_number: usize,
    issued_for: String,
    timestamp_sec: u64,
) -> (out: Result<Vec<dto::Certificate>, ServiceError>)
    requires
        old(tg).inv(),
    ensures
        final(tg).inv(),
        final(tg).roots() == old(tg).roots(),
        S::infallible() ==> (out is Ok <==> timestamp_trusted(*call_parameters, arg_number as int)
            && public_key_of_peer_id(issued_for@) is Some),
        match out {
            Ok(certs) => {
                &&& timestamp_trusted(*call_parameters, arg_number as int)
                &&& public_key_of_peer_id(issued_for@) is Some
                &&& final(tg).relations() == without_expired(old(tg).relations(), timestamp_sec)
                &&& forall|i: int|
                    0 <= i < certs@.len() ==> certificate_of_dto(#[trigger] certs@[i]) is Some
                &&& certs_found(
                    final(tg).relations(),
                    final(tg).roots().dom(),
                    public_key_of_peer_id(issued_for@).unwrap(),
                    dto_cert_views(certs@),
                )
            },
            Err(ServiceError::InvalidTimestampTetraplet(_)) => !timestamp_trusted(
                *call_parameters,
                arg_number as int,
            ) && unchanged(*old(tg), *final(tg)),
            Err(ServiceError::TGError(e)) => e is InternalStorageError,
            Err(_) => timestamp_trusted(*call_parameters, arg_number as int)
                && public_key_of_peer_id(issued_for@) is None && unchanged(*old(tg), *final(tg)),
        },
{
    match check_timestamp_tetraplets(call_parameters, arg_number) {
        Ok(()) => {},
        Err(e) => {
            return Err(e);
        },
    }
    let public_key = match extract_public_key(issued_for.as_str()) {
        Ok(pk) => pk,
        Err(e) => {
            return Err(e);
        },
    };
    match tg.get_all_certs(&public_key, timestamp_sec) {
        Ok(certs) => Ok(certs_to_dto(&certs)),
        Err(e) => Err(ServiceError::TGError(e)),
    }
}

/// The certificates of the peer `issued_for` at `timestamp_sec` that pass through
/// `issuer`; `arg_number` is the place of the timestamp among the arguments of the call.
pub fn get_all_certs_from_impl<S: Storage>(
    tg: &mut TrustGraph<S>,
    call_parameters: &CallParameters,
    arg_number: usize,
    issued_for: String,
    issuer: String,
    timestamp_sec: u64,
) -> (out: Result<Vec<dto::Certificate>, ServiceError>)
    requires
        old(tg).inv(),
    ensures
        final(tg).inv(),
        final(tg).roots() == old(tg).roots(),
        S::infallible() ==> (out is Ok <==> timestamp_trusted(*call_parameters, arg_number as int)
            && public_key_of_peer_id(issued_for@) is Some && public_key_of_peer_id(issuer@)
            is Some),
        match out {
            Ok(certs) => {
                &&& timestamp_trusted(*call_parameters, arg_number as int)
                &&& public_key_of_peer_id(issued_for@) is Some
                &&& public_key_of_peer_id(issuer@) is Some
                &&& final(tg).relations() == without_expired(old(tg).relations(), timestamp_sec)
                &&& forall|i: int|
                    0 <= i < certs@.len() ==> certificate_of_dto(#[trigger] certs@[i]) is Some
                &&& certs_found_from(
                    final(tg).relations(),
                    final(tg).roots().dom(),
                    public_key_of_peer_id(issued_for@).unwrap(),
                    public_key_of_peer_id(issuer@).unwrap(),
                    dto_cert_views(certs@),
                )
            },
            Err(ServiceError::InvalidTimestampTetraplet(_)) => !timestamp_trusted(
                *call_parameters,
                arg_number as int,
            ) && unchanged(*old(tg), *final(tg)),
            Err(ServiceError::TGError(e)) => e is InternalStorageError,
            Err(_) => timestamp_trusted(*call_parameters, arg_number as int) && (
            public_key_of_peer_id(issued_for@) is None || public_key_of_peer_id(issuer@) is None)
                && unchanged(*old(tg), *final(tg)),
        },
{
    match check_timestamp_tetraplets(call_parameters, arg_number) {
        Ok(()) => {},
        Err(e) => {
            return Err(e);
        },
    }
    let issued_for_pk = match extract_public_key(issued_for.as_str()) {
        Ok(pk) => pk,
        Err(e) => {
            return Err(e);
        },
    };
    let issuer_pk = match extract_public_key(issuer.as_str()) {
        Ok(pk) => pk,
        Err(e) => {
            return Err(e);
        },
    };
    match tg.get_all_certs_from(&issued_for_pk, &issuer_pk, timestamp_sec) {
        Ok(certs) => Ok(certs_to_dto(&certs)),
        Err(e) => Err(ServiceError::TGError(e)),
    }
}

/// Registers the peer `peer_id` as a root with the given weight factor.
pub fn add_root_impl<S: Storage>(tg: &mut TrustGraph<S>, peer_id: String, weight: u32) -> (out: Result<
    (),
    ServiceError,
>)
    requires
        old(tg).inv(),
    ensures
        final(tg).inv(),
        final(tg).relations() == old(tg).relations(),
        S::infallible() ==> (out is Ok <==> public_key_of_peer_id(peer_id@) is Some),
        out matches Err(e) ==> e is TGError || e is PublicKeyExtractionError
            || e is PublicKeyDecodeError,
        match out {
            Ok(()) => public_key_of_peer_id(peer_id@) is Some && final(tg).roots() == old(
                tg,
            ).roots().insert(public_key_of_peer_id(peer_id@).unwrap(), weight),
            Err(ServiceError::TGError(e)) => e is InternalStorageError && final(tg).roots() == old(
                tg,
            ).roots(),
            Err(_) => public_key_of_peer_id(peer_id@) is None && final(tg).roots() == old(
                tg,
            ).roots(),
        },
{
    let public_key = match extract_public_key(peer_id.as_str()) {
        Ok(pk) => pk,
        Err(e) => {
            return Err(e);
        },
    };
    match tg.add_root_weight_factor(public_key, weight) {
        Ok(()) => Ok(()),
        Err(e) => Err(ServiceError::TGError(e)),
    }
}

/// Sets the peer `peer_id` as a root with the given weight factor. Only the creator of
/// the service may do so: a call that another peer started is refused and changes
/// nothing.
pub fn set_root_impl<S: Storage>(
    tg: &mut TrustGraph<S>,
    call_parameters: &CallParameters,
    peer_id: String,
    max_chain_len: u32,
) -> (out: Result<(), ServiceError>)
    requires
        old(tg).inv(),
    ensures
        final(tg).inv(),
        final(tg).relations() == old(tg).relations(),
        out matches Err(ServiceError::NotOwner) <==> call_parameters.service_creator_peer_id@
            != call_parameters.init_peer_id@,
        out is Err ==> final(tg).roots() == old(tg).roots(),
        S::infallible() ==> (out is Ok <==> call_parameters.service_creator_peer_id@
            == call_parameters.init_peer_id@ && public_key_of_peer_id(peer_id@) is Some),
        out is Ok ==> public_key_of_peer_id(peer_id@) is Some && final(tg).roots() == old(
            tg,
        ).roots().insert(public_key_of_peer_id(peer_id@).unwrap(), max_chain_len),
{
    if same_text(
        call_parameters.service_creator_peer_id.as_str(),
        call_parameters.init_peer_id.as_str(),
    ) {
        add_root_impl(tg, peer_id, max_chain_len)
    } else {
        Err(ServiceError::NotOwner)
    }
}

/// The bytes that the signature of a trust for the peer `peer_id` signs.
pub fn get_trust_bytes_imp(peer_id: String, expires_at_sec: u64, issued_at_sec: u64) -> (out: Result<
    Vec<u8>,
    ServiceError,
>)
    ensures
        out is Ok <==> public_key_of_peer_id(peer_id@) is Some,
        out matches Ok(bytes) ==> bytes@ == trust_metadata(
            public_key_of_peer_id(peer_id@).unwrap(),
            expires_at_sec,
            issued_at_sec,
        ),
{
    let public_key = match extract_public_key(peer_id.as_str()) {
        Ok(pk) => pk,
        Err(e) => {
            return Err(e);
        },
    };
    Ok(Trust::metadata_bytes(&public_key, expires_at_sec, issued_at_sec))
}

/// Puts a trust for the peer `peer_id` together from its times and the raw bytes of a
/// signature that was made elsewhere. The signature is not verified.
pub fn issue_trust_impl(peer_id: String, expires_at_sec: u64, issued_at_sec: u64, trust_bytes: Vec<u8>) -> (out:
    Result<dto::Trust, ServiceError>)
    ensures
        out is Ok <==> public_key_of_peer_id(peer_id@) is Some,
        out matches Ok(trust) ==> trust_of_dto(trust) == Some(
            TrustView {
                issued_for: public_key_of_peer_id(peer_id@).unwrap(),
                expires_at: expires_at_sec,
                signature: seq![public_key_of_peer_id(peer_id@).unwrap()[0]] + trust_bytes@,
                issued_at: issued_at_sec,
            },
        ),
{
    let public_key = match extract_public_key(peer_id.as_str()) {
        Ok(pk) => pk,
        Err(e) => {
            return Err(e);
        },
    };
    let signature = Signature::from_bytes(public_key.get_key_format(), trust_bytes);
    Ok(dto::Trust::from(&Trust::new(public_key, expires_at_sec, issued_at_sec, signature)))
}

/// Verifies a trust of the wire as given by the peer `issuer_peer_id`, at
/// `timestamp_sec`, which must be a timestamp of the host.
pub fn verify_trust_impl(
    call_parameters: &CallParameters,
    trust: dto::Trust,
    issuer_peer_id: String,
    timestamp_sec: u64,
) -> (out: Result<(), ServiceError>)
    ensures
        out is Ok <==> {
            &&& timestamp_trusted(*call_parameters, 2)
            &&& public_key_of_peer_id(issuer_peer_id@) is Some
            &&& trust_of_dto(trust) is Some
            &&& trust_valid(
                trust_of_dto(trust).unwrap(),
                public_key_of_peer_id(issuer_peer_id@).unwrap(),
                timestamp_sec,
            )
        },
        out matches Err(ServiceError::InvalidTimestampTetraplet(_)) <==> !timestamp_trusted(
            *call_parameters,
            2,
        ),
{
    match check_timestamp_tetraplets(call_parameters, 2) {
        Ok(()) => {},
        Err(e) => {
            return Err(e);
        },
    }
    let public_key = match extract_public_key(issuer_peer_id.as_str()) {
        Ok(pk) => pk,
        Err(e) => {
            return Err(e);
        },
    };
    let trust = match trust.try_into() {
        Ok(trust) => trust,
        Err(e) => {
            return Err(ServiceError::DtoError(e));
        },
    };
    match Trust::verify(&trust, &public_key, timestamp_sec) {
        Ok(()) => Ok(()),
        Err(e) => Err(ServiceError::TrustError(e)),
    }
}

/// Adds a trust of the wire as given by the peer `issuer_peer_id`, at `timestamp_sec`,
/// which must be a timestamp of the host and not earlier than the trust was issued.
pub fn add_trust_impl<S: Storage>(
    tg: &mut TrustGraph<S>,
    call_parameters: &CallParameters,
    trust: dto::Trust,
    issuer_peer_id: String,
    timestamp_sec: u64,
) -> (out: Result<u32, ServiceError>)
    requires
        old(tg).inv(),
    ensures
        final(tg).inv(),
        final(tg).roots() == old(tg).roots(),
        S::infallible() ==> (out is Ok <==> {
            &&& public_key_of_peer_id(issuer_peer_id@) is Some
            &&& timestamp_trusted(*call_parameters, 2)
            &&& trust.issued_at <= timestamp_sec
            &&& trust_of_dto(trust) is Some
            &&& trust_valid(
                trust_of_dto(trust).unwrap(),
                public_key_of_peer_id(issuer_peer_id@).unwrap(),
                timestamp_sec,
            )
        }),
        match out {
            Ok(weight) => {
                let issuer = public_key_of_peer_id(issuer_peer_id@).unwrap();
                let t = trust_of_dto(trust).unwrap();
                &&& public_key_of_peer_id(issuer_peer_id@) is Some
                &&& timestamp_trusted(*call_parameters, 2)
                &&& trust.issued_at <= timestamp_sec
                &&& trust_of_dto(trust) is Some
                &&& trust_valid(t, issuer, timestamp_sec)
                &&& final(tg).relations() == updated(
                    without_expired(old(tg).relations(), timestamp_sec),
                    RelationView::Auth(AuthView { trust: t, issued_by: issuer }),
                )
                &&& weight == next_weight(
                    weight_of(
                        without_expired(old(tg).relations(), timestamp_sec),
                        old(tg).roots(),
                        issuer,
                    ),
                    issuer == t.issued_for,
                )
            },
            Err(ServiceError::InvalidTimestamp(_)) => trust.issued_at > timestamp_sec && unchanged(
                *old(tg),
                *final(tg),
            ),
            Err(ServiceError::TGError(TrustGraphError::InternalStorageError(_))) => true,
            Err(_) => unchanged(*old(tg), *final(tg)),
        },
{
    let public_key = match extract_public_key(issuer_peer_id.as_str()) {
        Ok(pk) => pk,
        Err(e) => {
            return Err(e);
        },
    };
    match check_timestamp_tetraplets(call_parameters, 2) {
        Ok(()) => {},
        Err(e) => {
            return Err(e);
        },
    }
    if trust.issued_at > timestamp_sec {
        return Err(ServiceError::InvalidTimestamp("trust".to_owned()));
    }
    let trust = match trust.try_into() {
        Ok(trust) => trust,
        Err(e) => {
            return Err(ServiceError::DtoError(e));
        },
    };
    match tg.add_trust(&trust, &public_key, timestamp_sec) {
        Ok(weight) => Ok(weight),
        Err(e) => Err(ServiceError::TGError(e)),
    }
}

/// The bytes that the signature of a revocation of the peer `revoked_peer_id` signs.
pub fn get_revoke_bytes_impl(revoked_peer_id: String, revoked_at: u64) -> (out: Result<
    Vec<u8>,
    ServiceError,
>)
    ensures
        out is Ok <==> public_key_of_peer_id(revoked_peer_id@) is Some,
        out matches Ok(bytes) ==> bytes@ == revocation_metadata(
            public_key_of_peer_id(revoked_peer_id@).unwrap(),
            revoked_at,
        ),
{
    let public_key = match extract_public_key(revoked_peer_id.as_str()) {
        Ok(pk) => pk,
        Err(e) => {
            return Err(e);
        },
    };
    Ok(Revocation::signature_bytes(&public_key, revoked_at))
}

/// Puts a revocation of the peer `revoked_peer_id` by the peer `revoked_by_peer_id`
/// together from its time and the raw bytes of a signature that was made elsewhere.
/// The signature is not verified.
pub fn issue_revocation_impl(
    revoked_by_peer_id: String,
    revoked_peer_id: String,
    revoked_at_sec: u64,
    signature_bytes: Vec<u8>,
) -> (out: Result<dto::Revocation, ServiceError>)
    ensures
        out is Ok <==> public_key_of_peer_id(revoked_peer_id@) is Some && public_key_of_peer_id(
            revoked_by_peer_id@,
        ) is Some,
        out matches Ok(revocation) ==> revocation_of_dto(revocation) == Some(
            RevocationView {
                pk: public_key_of_peer_id(revoked_peer_id@).unwrap(),
                revoked_at: revoked_at_sec,
                revoked_by: public_key_of_peer_id(revoked_by_peer_id@).unwrap(),
                signature: seq![public_key_of_peer_id(revoked_by_peer_id@).unwrap()[0]]
                    + signature_bytes@,
            },
        ),
{
    let revoked_pk = match extract_public_key(revoked_peer_id.as_str()) {
        Ok(pk) => pk,
        Err(e) => {
            return Err(e);
        },
    };
    let revoked_by_pk = match extract_public_key(revoked_by_peer_id.as_str()) {
        Ok(pk) => pk,
        Err(e) => {
            return Err(e);
        },
    };
    let signature = Signature::from_bytes(revoked_by_pk.get_key_format(), signature_bytes);
    Ok(dto::Revocation::from(&Revocation::new(revoked_by_pk, revoked_pk, revoked_at_sec, signature)))
}

/// Offers a revocation of the wire to the graph, at `timestamp_sec`, which must be a
/// timestamp of the host and not earlier than the revocation was made.
pub fn revoke_impl<S: Storage>(
    tg: &mut TrustGraph<S>,
    call_parameters: &CallParameters,
    revoke: dto::Revocation,
    timestamp_sec: u64,
) -> (out: Result<(), ServiceError>)
    requires
        old(tg).inv(),
    ensures
        final(tg).inv(),
        final(tg).roots() == old(tg).roots(),
        S::infallible() ==> (out is Ok <==> {
            &&& timestamp_trusted(*call_parameters, 1)
            &&& revoke.revoked_at <= timestamp_sec
            &&& revocation_of_dto(revoke) is Some
            &&& revocation_signed(revocation_of_dto(revoke).unwrap())
        }),
        match out {
            Ok(()) => {
                &&& timestamp_trusted(*call_parameters, 1)
                &&& revoke.revoked_at <= timestamp_sec
                &&& revocation_of_dto(revoke) is Some
                &&& revocation_signed(revocation_of_dto(revoke).unwrap())
                &&& final(tg).relations() == updated(
                    old(tg).relations(),
                    RelationView::Revocation(revocation_of_dto(revoke).unwrap()),
                )
            },
            Err(ServiceError::InvalidTimestampTetraplet(_)) => !timestamp_trusted(
                *call_parameters,
                1,
            ) && unchanged(*old(tg), *final(tg)),
            Err(ServiceError::InvalidTimestamp(_)) => timestamp_trusted(*call_parameters, 1)
                && revoke.revoked_at > timestamp_sec && unchanged(*old(tg), *final(tg)),
            Err(_) => unchanged(*old(tg), *final(tg)),
        },
{
    match check_timestamp_tetraplets(call_parameters, 1) {
        Ok(()) => {},
        Err(e) => {
            return Err(e);
        },
    }
    if revoke.revoked_at > timestamp_sec {
        return Err(ServiceError::InvalidTimestamp("revoke".to_owned()));
    }
    let revocation = match revoke.try_into() {
        Ok(revocation) => revocation,
        Err(e) => {
            return Err(ServiceError::DtoError(e));
        },
    };
    match tg.revoke(revocation) {
        Ok(()) => Ok(()),
        Err(e) => Err(ServiceError::TGError(e)),
    }
}

/// The revocations of the wire that stand for the stored revocations of a peer.
pub open spec fn lists_dto_revocations(rels: Relations, subject: Seq<u8>, revocations: Seq<dto::Revocation>) -> bool {
    &&& forall|i: int|
        0 <= i < revocations.len() ==> {
            &&& revocation_of_dto(#[trigger] revocations[i]) is Some
            &&& crate::model::has_revocation(rels, revocation_of_dto(revocations[i]).unwrap())
            &&& revocation_of_dto(revocations[i]).unwrap().pk == subject
        }
    &&& forall|issuer: Seq<u8>|
        rels.dom().contains((subject, issuer)) && rels[(subject, issuer)] is Revocation
            ==> exists|i: int|
            0 <= i < revocations.len() && revocation_of_dto(#[trigger] revocations[i]) is Some
                && revocation_of_dto(revocations[i]).unwrap().revoked_by == issuer
}

/// The stored revocations of the peer `issued_for`, in their form on the wire.
pub fn export_revocations_impl<S: Storage>(tg: &TrustGraph<S>, issued_for: String) -> (out: Result<
    Vec<dto::Revocation>,
    ServiceError,
>)
    requires
        tg.inv(),
    ensures
        S::infallible() ==> (out is Ok <==> public_key_of_peer_id(issued_for@) is Some),
        match out {
            Ok(revocations) => public_key_of_peer_id(issued_for@) is Some && lists_dto_revocations(
                tg.relations(),
                public_key_of_peer_id(issued_for@).unwrap(),
                revocations@,
            ),
            Err(ServiceError::TGError(e)) => e is InternalStorageError,
            Err(_) => public_key_of_peer_id(issued_for@) is None,
        },
{
    let issued_for_pk = match extract_public_key(issued_for.as_str()) {
        Ok(pk) => pk,
        Err(e) => {
            return Err(e);
        },
    };
    let stored = match tg.get_revocations(&issued_for_pk) {
        Ok(stored) => stored,
        Err(e) => {
            return Err(ServiceError::TGError(e));
        },
    };
    let mut out: Vec<dto::Revocation> = Vec::new();
    let mut n: usize = 0;
    while n < stored.len()
        invariant
            n <= stored@.len(),
            out@.len() == n,
            forall|i: int| 0 <= i < n ==> revocation_of_dto(#[trigger] out@[i]) == Some(stored@[i]@),
        decreases stored@.len() - n,
    {
        out.push(dto::Revocation::from(&stored[n]));
        n += 1;
    }
    proof {
        let rels = tg.relations();
        let subject = issued_for_pk@;
        assert forall|issuer: Seq<u8>|
            rels.dom().contains((subject, issuer)) && rels[(subject, issuer)]
                is Revocation implies exists|i: int|
            0 <= i < out@.len() && revocation_of_dto(#[trigger] out@[i]) is Some && revocation_of_dto(
                out@[i],
            ).unwrap().revoked_by == issuer by {
            let i = choose|i: int| 0 <= i < stored@.len() && (#[trigger] stored@[i])@.revoked_by == issuer;
            assert(revocation_of_dto(out@[i]) == Some(stored@[i]@));
        }
    }
    Ok(out)
}

} // verus!
