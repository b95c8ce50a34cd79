//! The method table of the service. Each method runs its operation on the trust graph
//! and hands out the result in the form that crosses the wire.

use crate::service::dto::{Certificate, Revocation, Trust};
use crate::service::misc::{timestamp_trusted, CallParameters};
use crate::service::results::{
    AddTrustResult,
    AllCertsResult,
    ExportRevocationsResult,
    GetRevokeBytesResult,
    GetTrustBytesResult,
    InsertResult,
    IssueRevocationResult,
    IssueTrustResult,
    RevokeResult,
    SetRootResult,
    VerifyTrustResult,
    WeightResult,
};
use crate::service::service_impl::{
    add_trust_impl,
    export_revocations_impl,
    get_all_certs_from_impl,
    get_all_certs_impl,
    get_revoke_bytes_impl,
    get_trust_bytes_imp,
    get_weight_from_impl,
    get_weight_impl,
    insert_cert_impl,
    insert_cert_impl_raw,
    issue_revocation_impl,
    issue_trust_impl,
    revoke_impl,
    set_root_impl,
    unchanged,
    verify_trust_impl,
};
use crate::certificate::cert_of_text;
use crate::keypair::public_key::public_key_of_peer_id;
use crate::model::{certs_found, issuer_in_cert, updated, weight_of, without_expired};
use crate::revoke::{revocation_signed, RevocationView};
use crate::service::dto::{certificate_of_dto, revocation_of_dto, trust_of_dto};
use crate::service::service_impl::{dto_cert_views, lists_dto_revocations};
use crate::trust::{trust_valid, TrustView};
use crate::trust_graph::{certs_found_from, chain_added, is_weight_from, next_weight};
use crate::trust_relation::{AuthView, RelationView};
use crate::trust_graph::TrustGraph;
use crate::trust_graph_storage::Storage;
use vstd::prelude::*;

verus! {

/// Sets a root. Only the creator of the service can set roots: for any other caller
/// the result is a failure and the graph is not changed.
pub fn set_root<S: Storage>(
    tg: &mut TrustGraph<S>,
    call_parameters: &CallParameters,
    peer_id: String,
    max_chain_len: u32,
) -> (out: SetRootResult)
    requires
        old(tg).inv(),
    ensures
        final(tg).inv(),
        final(tg).relations() == old(tg).relations(),
        call_parameters.service_creator_peer_id@ != call_parameters.init_peer_id@ ==> !out.success
            && unchanged(*old(tg), *final(tg)),
        !out.success ==> final(tg).roots() == old(tg).roots(),
        out.success ==> public_key_of_peer_id(peer_id@) is Some && final(tg).roots() == old(
            tg,
        ).roots().insert(public_key_of_peer_id(peer_id@).unwrap(), max_chain_len),
        S::infallible() ==> (out.success <==> call_parameters.service_creator_peer_id@
            == call_parameters.init_peer_id@ && public_key_of_peer_id(peer_id@) is Some),
{
    SetRootResult::from(set_root_impl(tg, call_parameters, peer_id, max_chain_len))
}

/// Adds a certificate in its text form to the graph if it is valid.
pub fn insert_cert_raw<S: Storage>(tg: &mut TrustGraph<S>, certificate: String, timestamp_sec: u64) -> (out:
    InsertResult)
    requires
        old(tg).inv(),
    ensures
        final(tg).inv(),
        final(tg).roots() == old(tg).roots(),
        insert_outcome(
            *old(tg),
            *final(tg),
            cert_of_text(vstd::utf8::encode_utf8(certificate@)),
            timestamp_sec,
            out,
        ),
{
    InsertResult::from(insert_cert_impl_raw(tg, certificate, timestamp_sec))
}

/// What inserting a certificate comes to, where `chain` is the certificate that was
/// handed in, if it could be read at all: success means that every trust of the chain
/// was valid and was added; a certificate that cannot be read changes nothing.
pub open spec fn insert_outcome<S: Storage>(
    before: TrustGraph<S>,
    after: TrustGraph<S>,
    chain: Option<Seq<TrustView>>,
    now: u64,
    out: InsertResult,
) -> bool {
    &&& out.success ==> out.error@.len() == 0
    &&& match chain {
        Some(chain) => {
            &&& out.success ==> {
                &&& chain.len() > 0
                &&& forall|i: int|
                    0 <= i < chain.len() ==> trust_valid(
                        #[trigger] chain[i],
                        issuer_in_cert(chain, i),
                        now,
                    )
                &&& after.relations() == chain_added(before.relations(), chain, now, chain.len() as int)
            }
            &&& chain.len() == 0 ==> !out.success && unchanged(before, after)
            &&& S::infallible() ==> (out.success <==> chain.len() > 0 && forall|i: int|
                0 <= i < chain.len() ==> trust_valid(
                    #[trigger] chain[i],
                    issuer_in_cert(chain, i),
                    now,
                ))
        },
        None => !out.success && unchanged(before, after),
    }
}

/// Adds a certificate in its form on the wire to the graph if it is valid.
pub fn insert_cert<S: Storage>(tg: &mut TrustGraph<S>, certificate: Certificate, timestamp_sec: u64) -> (out:
    InsertResult)
    requires
        old(tg).inv(),
    ensures
        final(tg).inv(),
        final(tg).roots() == old(tg).roots(),
        insert_outcome(*old(tg), *final(tg), certificate_of_dto(certificate), timestamp_sec, out),
{
    InsertResult::from(insert_cert_impl(tg, certificate, timestamp_sec))
}

/// All certificates of a peer.
pub fn get_all_certs<S: Storage>(
    tg: &mut TrustGraph<S>,
    call_parameters: &CallParameters,
    issued_for: String,
    timestamp_sec: u64,
) -> (out: AllCertsResult)
    requires
        old(tg).inv(),
    ensures
        final(tg).inv(),
        final(tg).roots() == old(tg).roots(),
        certs_outcome(*old(tg), *final(tg), *call_parameters, 1, issued_for@, timestamp_sec, out),
{
    AllCertsResult::from(get_all_certs_impl(tg, call_parameters, 1, issued_for, timestamp_sec))
}

/// What asking for the certificates of the peer `issued_for` comes to, where the
/// timestamp is the argument at `arg_number`: success means that the timestamp comes
/// from the host, the peer id holds a key, the expired authorizations were swept, and
/// the certificates are those of the key, shorter ones first. A failure hands out no
/// certificates.
pub open spec fn certs_outcome<S: Storage>(
    before: TrustGraph<S>,
    after: TrustGraph<S>,
    call_parameters: CallParameters,
    arg_number: int,
    issued_for: Seq<char>,
    now: u64,
    out: AllCertsResult,
) -> bool {
    &&& out.success ==> {
        &&& timestamp_trusted(call_parameters, arg_number)
        &&& public_key_of_peer_id(issued_for) is Some
        &&& after.relations() == without_expired(before.relations(), now)
        &&& forall|i: int|
            0 <= i < out.certificates@.len() ==> certificate_of_dto(#[trigger] out.certificates@[i])
                is Some
        &&& certs_found(
            after.relations(),
            after.roots().dom(),
            public_key_of_peer_id(issued_for).unwrap(),
            dto_cert_views(out.certificates@),
        )
    }
    &&& !out.success ==> out.certificates@.len() == 0
    &&& S::infallible() ==> (out.success <==> timestamp_trusted(call_parameters, arg_number)
        && public_key_of_peer_id(issued_for) is Some)
}

/// What asking for the certificates of the peer `issued_for` that pass through the
/// peer `issuer` comes to.
pub open spec fn certs_from_outcome<S: Storage>(
    before: TrustGraph<S>,
    after: TrustGraph<S>,
    call_parameters: CallParameters,
    arg_number: int,
    issued_for: Seq<char>,
    issuer: Seq<char>,
    now: u64,
    out: AllCertsResult,
) -> bool {
    &&& out.success ==> {
        &&& timestamp_trusted(call_parameters, arg_number)
        &&& public_key_of_peer_id(issued_for) is Some
        &&& public_key_of_peer_id(issuer) is Some
        &&& after.relations() == without_expired(before.relations(), now)
        &&& forall|i: int|
            0 <= i < out.certificates@.len() ==> certificate_of_dto(#[trigger] out.certificates@[i])
                is Some
        &&& certs_found_from(
            after.relations(),
            after.roots().dom(),
            public_key_of_peer_id(issued_for).unwrap(),
            public_key_of_peer_id(issuer).unwrap(),
            dto_cert_views(out.certificates@),
        )
    }
    &&& !out.success ==> out.certificates@.len() == 0
    &&& S::infallible() ==> (out.success <==> timestamp_trusted(call_parameters, arg_number)
        && public_key_of_peer_id(issued_for) is Some && public_key_of_peer_id(issuer) is Some)
}

/// The certificates of a peer that pass through an issuer.
pub fn get_all_certs_from<S: Storage>(
    tg: &mut TrustGraph<S>,
    call_parameters: &CallParameters,
    issued_for: String,
    issuer: String,
    timestamp_sec: u64,
) -> (out: AllCertsResult)
    requires
        old(tg).inv(),
    ensures
        final(tg).inv(),
        final(tg).roots() == old(tg).roots(),
        certs_from_outcome(
            *old(tg),
            *final(tg),
            *call_parameters,
            2,
            issued_for@,
            issuer@,
            timestamp_sec,
            out,
        ),
{
    AllCertsResult::from(
        get_all_certs_from_impl(tg, call_parameters, 2, issued_for, issuer, timestamp_sec),
    )
}

/// All certificates of the host of the service.
pub fn get_host_certs<S: Storage>(tg: &mut TrustGraph<S>, call_parameters: &CallParameters, timestamp_sec: u64) -> (out:
    AllCertsResult)
    requires
        old(tg).inv(),
    ensures
        final(tg).inv(),
        final(tg).roots() == old(tg).roots(),
        certs_outcome(
            *old(tg),
            *final(tg),
            *call_parameters,
            0,
            call_parameters.host_id@,
            timestamp_sec,
            out,
        ),
{
    AllCertsResult::from(
        get_all_certs_impl(tg, call_parameters, 0, call_parameters.host_id.clone(), timestamp_sec),
    )
}

/// The certificates of the host of the service that pass through an issuer.
pub fn get_host_certs_from<S: Storage>(
    tg: &mut TrustGraph<S>,
    call_parameters: &CallParameters,
    issuer: String,
    timestamp_sec: u64,
) -> (out: AllCertsResult)
    requires
        old(tg).inv(),
    ensures
        final(tg).inv(),
        final(tg).roots() == old(tg).roots(),
        certs_from_outcome(
            *old(tg),
            *final(tg),
            *call_parameters,
            1,
            call_parameters.host_id@,
            issuer@,
            timestamp_sec,
            out,
        ),
{
    AllCertsResult::from(
        get_all_certs_from_impl(
            tg,
            call_parameters,
            1,
            call_parameters.host_id.clone(),
            issuer,
            timestamp_sec,
        ),
    )
}

/// The weight of a peer, together with the peer id that was asked for.
pub fn get_weight<S: Storage>(
    tg: &mut TrustGraph<S>,
    call_parameters: &CallParameters,
    peer_id: String,
    timestamp_sec: u64,
) -> (out: WeightResult)
    requires
        old(tg).inv(),
    ensures
        final(tg).inv(),
        final(tg).roots() == old(tg).roots(),
        out.success ==> {
            &&& timestamp_trusted(*call_parameters, 1)
            &&& public_key_of_peer_id(peer_id@) is Some
            &&& out.peer_id@ == peer_id@
            &&& final(tg).relations() == without_expired(old(tg).relations(), timestamp_sec)
            &&& out.weight == weight_of(
                final(tg).relations(),
                final(tg).roots(),
                public_key_of_peer_id(peer_id@).unwrap(),
            )
        },
        !out.success ==> out.weight == 0 && out.peer_id@.len() == 0,
        S::infallible() ==> (out.success <==> timestamp_trusted(*call_parameters, 1)
            && public_key_of_peer_id(peer_id@) is Some),
{
    let asked = peer_id.clone();
    match get_weight_impl(tg, call_parameters, peer_id, timestamp_sec) {
        Ok(weight) => WeightResult::from(Ok((weight, asked))),
        Err(e) => WeightResult::from(Err(e)),
    }
}

/// The weight of a peer by its certificates that pass through an issuer.
pub fn get_weight_from<S: Storage>(
    tg: &mut TrustGraph<S>,
    call_parameters: &CallParameters,
    peer_id: String,
    issuer: String,
    timestamp_sec: u64,
) -> (out: WeightResult)
    requires
        old(tg).inv(),
    ensures
        final(tg).inv(),
        final(tg).roots() == old(tg).roots(),
        out.success ==> {
            &&& timestamp_trusted(*call_parameters, 2)
            &&& public_key_of_peer_id(peer_id@) is Some
            &&& public_key_of_peer_id(issuer@) is Some
            &&& out.peer_id@ == peer_id@
            &&& final(tg).relations() == without_expired(old(tg).relations(), timestamp_sec)
            &&& is_weight_from(
                final(tg).relations(),
                final(tg).roots(),
                public_key_of_peer_id(peer_id@).unwrap(),
                public_key_of_peer_id(issuer@).unwrap(),
                out.weight,
            )
        },
        !out.success ==> out.weight == 0 && out.peer_id@.len() == 0,
        S::infallible() ==> (out.success <==> timestamp_trusted(*call_parameters, 2)
            && public_key_of_peer_id(peer_id@) is Some && public_key_of_peer_id(issuer@) is Some),
{
    let asked = peer_id.clone();
    match get_weight_from_impl(tg, call_parameters, peer_id, issuer, timestamp_sec) {
        Ok(weight) => WeightResult::from(Ok((weight, asked))),
        Err(e) => WeightResult::from(Err(e)),
    }
}

/// The bytes that the signature of a trust signs.
pub fn get_trust_bytes(issued_for_peer_id: String, expires_at_sec: u64, issued_at_sec: u64) -> (out:
    GetTrustBytesResult)
    ensures
        out.success <==> public_key_of_peer_id(issued_for_peer_id@) is Some,
        out.success ==> out.result@ == crate::trust::trust_metadata(
            public_key_of_peer_id(issued_for_peer_id@).unwrap(),
            expires_at_sec,
            issued_at_sec,
        ),
        !out.success ==> out.result@.len() == 0,
{
    GetTrustBytesResult::from(get_trust_bytes_imp(issued_for_peer_id, expires_at_sec, issued_at_sec))
}

/// A trust put together from its parts and a signature made elsewhere.
pub fn issue_trust(
    issued_for_peer_id: String,
    expires_at_sec: u64,
    issued_at_sec: u64,
    trust_bytes: Vec<u8>,
) -> (out: IssueTrustResult)
    ensures
        out.success <==> public_key_of_peer_id(issued_for_peer_id@) is Some,
        out.success ==> trust_of_dto(out.trust) == Some(
            TrustView {
                issued_for: public_key_of_peer_id(issued_for_peer_id@).unwrap(),
                expires_at: expires_at_sec,
                signature: seq![public_key_of_peer_id(issued_for_peer_id@).unwrap()[0]] + trust_bytes@,
                issued_at: issued_at_sec,
            },
        ),
        !out.success ==> out.trust.issued_for@.len() == 0,
{
    let result = issue_trust_impl(issued_for_peer_id, expires_at_sec, issued_at_sec, trust_bytes);
    proof {
        if result is Ok {
            assert(crate::service::dto::trust_of_dto(result->Ok_0) is Some);
        }
    }
    IssueTrustResult::from(result)
}

/// Verifies a trust.
pub fn verify_trust(
    call_parameters: &CallParameters,
    trust: Trust,
    issuer_peer_id: String,
    timestamp_sec: u64,
) -> (out: VerifyTrustResult)
    ensures
        out.success <==> {
            &&& timestamp_trusted(*call_parameters, 2)
            &&& public_key_of_peer_id(issuer_peer_id@) is Some
            &&& crate::service::dto::trust_of_dto(trust) is Some
            &&& crate::trust::trust_valid(
                crate::service::dto::trust_of_dto(trust).unwrap(),
                public_key_of_peer_id(issuer_peer_id@).unwrap(),
                timestamp_sec,
            )
        },
{
    VerifyTrustResult::from(verify_trust_impl(call_parameters, trust, issuer_peer_id, timestamp_sec))
}

/// Adds a trust and hands out the weight that it hands on.
pub fn add_trust<S: Storage>(
    tg: &mut TrustGraph<S>,
    call_parameters: &CallParameters,
    trust: Trust,
    issuer_peer_id: String,
    timestamp_sec: u64,
) -> (out: AddTrustResult)
    requires
        old(tg).inv(),
    ensures
        final(tg).inv(),
        final(tg).roots() == old(tg).roots(),
        out.success ==> {
            let issuer = public_key_of_peer_id(issuer_peer_id@).unwrap();
            let t = trust_of_dto(trust).unwrap();
            &&& public_key_of_peer_id(issuer_peer_id@) is Some
            &&& timestamp_trusted(*call_parameters, 2)
            &&& trust.issued_at <= timestamp_sec
            &&& trust_of_dto(trust) is Some
            &&& trust_valid(t, issuer, timestamp_sec)
            &&& final(tg).relations() == updated(
                without_expired(old(tg).relations(), timestamp_sec),
                RelationView::Auth(AuthView { trust: t, issued_by: issuer }),
            )
            &&& out.weight == next_weight(
                weight_of(
                    without_expired(old(tg).relations(), timestamp_sec),
                    old(tg).roots(),
                    issuer,
                ),
                issuer == t.issued_for,
            )
        },
        !out.success ==> out.weight == 0,
        S::infallible() ==> (out.success <==> {
            &&& public_key_of_peer_id(issuer_peer_id@) is Some
            &&& timestamp_trusted(*call_parameters, 2)
            &&& trust.issued_at <= timestamp_sec
            &&& trust_of_dto(trust) is Some
            &&& trust_valid(
                trust_of_dto(trust).unwrap(),
                public_key_of_peer_id(issuer_peer_id@).unwrap(),
                timestamp_sec,
            )
        }),
{
    AddTrustResult::from(add_trust_impl(tg, call_parameters, trust, issuer_peer_id, timestamp_sec))
}

/// The bytes that the signature of a revocation signs.
pub fn get_revocation_bytes(revoked_peer_id: String, revoked_at: u64) -> (out: GetRevokeBytesResult)
    ensures
        out.success <==> public_key_of_peer_id(revoked_peer_id@) is Some,
        out.success ==> out.result@ == crate::revoke::revocation_metadata(
            public_key_of_peer_id(revoked_peer_id@).unwrap(),
            revoked_at,
        ),
        !out.success ==> out.result@.len() == 0,
{
    GetRevokeBytesResult::from(get_revoke_bytes_impl(revoked_peer_id, revoked_at))
}

/// A revocation put together from its parts and a signature made elsewhere.
pub fn issue_revocation(
    revoked_by_peer_id: String,
    revoked_peer_id: String,
    revoked_at_sec: u64,
    signature_bytes: Vec<u8>,
) -> (out: IssueRevocationResult)
    ensures
        out.success <==> public_key_of_peer_id(revoked_peer_id@) is Some && public_key_of_peer_id(
            revoked_by_peer_id@,
        ) is Some,
        out.success ==> revocation_of_dto(out.revocation) == Some(
            RevocationView {
                pk: public_key_of_peer_id(revoked_peer_id@).unwrap(),
                revoked_at: revoked_at_sec,
                revoked_by: public_key_of_peer_id(revoked_by_peer_id@).unwrap(),
                signature: seq![public_key_of_peer_id(revoked_by_peer_id@).unwrap()[0]]
                    + signature_bytes@,
            },
        ),
        !out.success ==> out.revocation.revoked_peer_id@.len() == 0,
{
    let result = issue_revocation_impl(
        revoked_by_peer_id,
        revoked_peer_id,
        revoked_at_sec,
        signature_bytes,
    );
    proof {
        if result is Ok {
            assert(crate::service::dto::revocation_of_dto(result->Ok_0) is Some);
        }
    }
    IssueRevocationResult::from(result)
}

/// Offers a revocation to the graph.
pub fn revoke<S: Storage>(
    tg: &mut TrustGraph<S>,
    call_parameters: &CallParameters,
    revocation: Revocation,
    timestamp_sec: u64,
) -> (out: RevokeResult)
    requires
        old(tg).inv(),
    ensures
        final(tg).inv(),
        final(tg).roots() == old(tg).roots(),
        out.success ==> {
            &&& timestamp_trusted(*call_parameters, 1)
            &&& revocation.revoked_at <= timestamp_sec
            &&& revocation_of_dto(revocation) is Some
            &&& revocation_signed(revocation_of_dto(revocation).unwrap())
            &&& final(tg).relations() == updated(
                old(tg).relations(),
                RelationView::Revocation(revocation_of_dto(revocation).unwrap()),
            )
        },
        !out.success ==> unchanged(*old(tg), *final(tg)),
        S::infallible() ==> (out.success <==> {
            &&& timestamp_trusted(*call_parameters, 1)
            &&& revocation.revoked_at <= timestamp_sec
            &&& revocation_of_dto(revocation) is Some
            &&& revocation_signed(revocation_of_dto(revocation).unwrap())
        }),
{
    RevokeResult::from(revoke_impl(tg, call_parameters, revocation, timestamp_sec))
}

/// The stored revocations of a peer.
pub fn export_revocations<S: Storage>(tg: &TrustGraph<S>, issued_for: String) -> (out:
    ExportRevocationsResult)
    requires
        tg.inv(),
    ensures
        out.success ==> public_key_of_peer_id(issued_for@) is Some && lists_dto_revocations(
            tg.relations(),
            public_key_of_peer_id(issued_for@).unwrap(),
            out.revocations@,
        ),
        !out.success ==> out.revocations@.len() == 0,
        S::infallible() ==> (out.success <==> public_key_of_peer_id(issued_for@) is Some),
{
    ExportRevocationsResult::from(export_revocations_impl(tg, issued_for))
}

} // verus!
