//! A revocation: the signed statement that an issuer withdraws its trust in a subject.

use crate::bytes::append_bytes;
use crate::digest::{sha256, sha256_of};
use crate::keypair::error::{SigningError, VerificationError};
use crate::keypair::key_pair::KeyPair;
use crate::keypair::public_key::PublicKey;
use crate::keypair::signature::{signature_accepted, Signature};
use vstd::bytes::{spec_u64_to_le_bytes, u64_to_le_bytes};
use vstd::prelude::*;

verus! {

/// Why a revocation was refused or could not be made.
#[derive(Debug)]
pub enum RevokeError {
    /// The signature does not verify under the revoker's key.
    IncorrectSignature(VerificationError),
    /// The revoker's key pair could not sign.
    SigningFailure(SigningError),
}

/// A document that cancels trust given before. It does not expire; a later relation from
/// the same issuer to the same subject takes its place.
#[derive(Debug)]
pub struct Revocation {
    /// Who is revoked.
    pub pk: PublicKey,
    /// When the revocation was created, in seconds since the epoch.
    pub revoked_at: u64,
    /// The issuer of this revocation.
    pub revoked_by: PublicKey,
    /// Signature of the issuer over the hash of subject and time.
    pub signature: Signature,
}

/// A revocation as plain values.
#[verifier::ext_equal]
pub struct RevocationView {
    pub pk: Seq<u8>,
    pub revoked_at: u64,
    pub revoked_by: Seq<u8>,
    pub signature: Seq<u8>,
}

impl View for Revocation {
    type V = RevocationView;

    open spec fn view(&self) -> RevocationView {
        RevocationView {
            pk: self.pk@,
            revoked_at: self.revoked_at,
            revoked_by: self.revoked_by@,
            signature: self.signature@,
        }
    }
}

/// The bytes that a revocation's signature signs: the SHA-256 digest of the encoded
/// subject key and the time as 8 little-endian bytes.
pub open spec fn revocation_metadata(pk: Seq<u8>, revoked_at: u64) -> Seq<u8> {
    sha256_of(pk + spec_u64_to_le_bytes(revoked_at))
}

/// Whether the signature of `r` is accepted under the key of its issuer.
pub open spec fn revocation_signed(r: RevocationView) -> bool {
    signature_accepted(r.revoked_by, revocation_metadata(r.pk, r.revoked_at), r.signature)
}

impl Revocation {
    /// A revocation with the given fields. Nothing is checked.
    pub fn new(revoked_by: PublicKey, pk: PublicKey, revoked_at: u64, signature: Signature) -> (out:
        Self)
        ensures
            out.pk == pk,
            out.revoked_at == revoked_at,
            out.revoked_by == revoked_by,
            out.signature == signature,
    {
        Self { pk, revoked_at, revoked_by, signature }
    }

    /// Creates the revocation of `to_revoke` by `revoker`, signed by the revoker. The
    /// revocation made is rightly signed.
    pub fn create(revoker: &KeyPair, to_revoke: PublicKey, revoked_at: u64) -> (out: Result<
        Self,
        RevokeError,
    >)
        ensures
            out matches Ok(r) && {
                &&& r.pk == to_revoke
                &&& r.revoked_at == revoked_at
                &&& r.revoked_by@ == revoker.public_view()
                &&& r.signature@ == revoker.signature_view(
                    revocation_metadata(to_revoke@, revoked_at),
                )
                &&& revocation_signed(r@)
            },
    {
        let msg = Revocation::signature_bytes(&to_revoke, revoked_at);
        match revoker.sign(msg.as_slice()) {
            Ok(signature) => Ok(Revocation::new(revoker.public(), to_revoke, revoked_at, signature)),
            Err(e) => Err(RevokeError::SigningFailure(e)),
        }
    }

    /// The bytes that the signature of a revocation signs.
    pub fn signature_bytes(pk: &PublicKey, revoked_at: u64) -> (out: Vec<u8>)
        ensures
            out@ == revocation_metadata(pk@, revoked_at),
            out@.len() == 32,
    {
        let mut metadata: Vec<u8> = Vec::new();
        let pk_bytes = pk.encode();
        append_bytes(&mut metadata, pk_bytes.as_slice());
        append_bytes(&mut metadata, u64_to_le_bytes(revoked_at).as_slice());
        assert(metadata@ =~= pk@ + spec_u64_to_le_bytes(revoked_at));
        sha256(metadata.as_slice())
    }

    /// Verifies that the revocation is signed by its issuer.
    pub fn verify(revoke: &Revocation) -> (out: Result<(), RevokeError>)
        ensures
            out is Ok <==> revocation_signed(revoke@),
            out matches Err(e) ==> e is IncorrectSignature,
    {
        let msg = Revocation::signature_bytes(&revoke.pk, revoke.revoked_at);
        match revoke.revoked_by.verify(msg.as_slice(), &revoke.signature) {
            Ok(()) => Ok(()),
            Err(e) => Err(RevokeError::IncorrectSignature(e)),
        }
    }
}

impl Clone for Revocation {
    fn clone(&self) -> (out: Self)
        ensures
            out@ == self@,
    {
        Revocation {
            pk: self.pk.clone(),
            revoked_at: self.revoked_at,
            revoked_by: self.revoked_by.clone(),
            signature: self.signature.clone(),
        }
    }
}

} // verus!
