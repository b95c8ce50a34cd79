//! The two relations that the graph stores between an issuer and a subject.

use crate::keypair::public_key::PublicKey;
use crate::keypair::signature::Signature;
use crate::revoke::{Revocation, RevocationView};
use crate::trust::{Trust, TrustView};
use vstd::prelude::*;

verus! {

/// A trust together with who gave it.
#[derive(Debug)]
pub struct Auth {
    /// Proof of this authorization.
    pub trust: Trust,
    /// The issuer of this authorization.
    pub issued_by: PublicKey,
}

/// An authorization as plain values.
#[verifier::ext_equal]
pub struct AuthView {
    pub trust: TrustView,
    pub issued_by: Seq<u8>,
}

impl View for Auth {
    type V = AuthView;

    open spec fn view(&self) -> AuthView {
        AuthView { trust: self.trust@, issued_by: self.issued_by@ }
    }
}

impl Clone for Auth {
    fn clone(&self) -> (out: Self)
        ensures
            out@ == self@,
    {
        Auth { trust: self.trust.clone(), issued_by: self.issued_by.clone() }
    }
}

/// What an issuer currently says of a subject: that it trusts it, or that it revoked it.
#[derive(Debug)]
pub enum TrustRelation {
    Auth(Auth),
    Revocation(Revocation),
}

/// A relation as plain values.
#[verifier::ext_equal]
pub enum RelationView {
    Auth(AuthView),
    Revocation(RevocationView),
}

impl RelationView {
    /// When the relation was created.
    pub open spec fn issued_at(self) -> u64 {
        match self {
            RelationView::Auth(auth) => auth.trust.issued_at,
            RelationView::Revocation(r) => r.revoked_at,
        }
    }

    /// The encoded key of the creator of the relation.
    pub open spec fn issued_by(self) -> Seq<u8> {
        match self {
            RelationView::Auth(auth) => auth.issued_by,
            RelationView::Revocation(r) => r.revoked_by,
        }
    }

    /// The encoded key of the subject of the relation.
    pub open spec fn issued_for(self) -> Seq<u8> {
        match self {
            RelationView::Auth(auth) => auth.trust.issued_for,
            RelationView::Revocation(r) => r.pk,
        }
    }

    /// When the relation expires; a revocation never does and reports 0.
    pub open spec fn expires_at(self) -> u64 {
        match self {
            RelationView::Auth(auth) => auth.trust.expires_at,
            RelationView::Revocation(_) => 0,
        }
    }

    /// The encoded signature of the relation.
    pub open spec fn signature(self) -> Seq<u8> {
        match self {
            RelationView::Auth(auth) => auth.trust.signature,
            RelationView::Revocation(r) => r.signature,
        }
    }

    /// The pair under which the relation is stored: subject, then issuer.
    pub open spec fn key(self) -> (Seq<u8>, Seq<u8>) {
        (self.issued_for(), self.issued_by())
    }
}

impl View for TrustRelation {
    type V = RelationView;

    open spec fn view(&self) -> RelationView {
        match self {
            TrustRelation::Auth(auth) => RelationView::Auth(auth@),
            TrustRelation::Revocation(r) => RelationView::Revocation(r@),
        }
    }
}

impl TrustRelation {
    /// Returns the time at which this relation was created.
    pub fn issued_at(&self) -> (out: u64)
        ensures
            out == self@.issued_at(),
    {
        match self {
            TrustRelation::Auth(auth) => auth.trust.issued_at,
            TrustRelation::Revocation(r) => r.revoked_at,
        }
    }

    /// Returns the public key of the creator of this relation.
    pub fn issued_by(&self) -> (out: &PublicKey)
        ensures
            out@ == self@.issued_by(),
    {
        match self {
            TrustRelation::Auth(auth) => &auth.issued_by,
            TrustRelation::Revocation(r) => &r.revoked_by,
        }
    }

    /// Returns the public key of the subject of this relation.
    pub fn issued_for(&self) -> (out: &PublicKey)
        ensures
            out@ == self@.issued_for(),
    {
        match self {
            TrustRelation::Auth(auth) => &auth.trust.issued_for,
            TrustRelation::Revocation(r) => &r.pk,
        }
    }

    /// Returns the expiry of this relation; revocations never expire and report 0.
    pub fn expires_at(&self) -> (out: u64)
        ensures
            out == self@.expires_at(),
    {
        match self {
            TrustRelation::Auth(auth) => auth.trust.expires_at,
            TrustRelation::Revocation(_) => 0,
        }
    }

    /// Returns the signature of this relation.
    pub fn signature(&self) -> (out: &Signature)
        ensures
            out@ == self@.signature(),
    {
        match self {
            TrustRelation::Auth(auth) => &auth.trust.signature,
            TrustRelation::Revocation(r) => &r.signature,
        }
    }
}

impl Clone for TrustRelation {
    fn clone(&self) -> (out: Self)
        ensures
            out@ == self@,
    {
        match self {
            TrustRelation::Auth(auth) => TrustRelation::Auth(auth.clone()),
            TrustRelation::Revocation(r) => TrustRelation::Revocation(r.clone()),
        }
    }
}

} // verus!
