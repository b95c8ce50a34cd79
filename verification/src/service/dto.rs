//! The forms in which trusts, revocations and certificates cross the wire: keys as
//! peer ids, signatures as base58 text with the name of their algorithm.

use crate::base58::{ascii_chars, base58_bytes, base58_string, base58_text, from_base58};
use crate::keypair::error::{DecodingError, Error};
use crate::keypair::key_pair::{format_of_name, KeyFormat};
use crate::keypair::public_key::{public_key_of_peer_id, PeerIdError, PublicKey};
use crate::keypair::signature::Signature;
use crate::revoke::RevocationView;
use crate::trust::TrustView;
use vstd::prelude::*;
use vstd::utf8::encode_utf8;

verus! {

/// Why a value of the wire could not be converted.
#[derive(Debug)]
pub enum DtoConversionError {
    /// A text is no base58; carries what the decoder said.
    Base58Error(String),
    /// A peer id holds no valid public key.
    PublicKeyDecodeError(DecodingError),
    /// A text is no peer id.
    PeerIdDecodeError(String),
    /// The name of a signature algorithm is not known.
    InvalidKeyFormat(Error),
}

/// A certificate on the wire.
#[derive(Debug, Clone, PartialEq, Eq)]
pub struct Certificate {
    pub chain: Vec<Trust>,
}

/// A trust on the wire.
#[derive(Debug, Clone, PartialEq, Eq, Default)]
pub struct Trust {
    /// For whom this trust is issued, as a peer id.
    pub issued_for: String,
    /// Expiration date of the trust, in seconds.
    pub expires_at: u64,
    /// The raw signature, as base58 text.
    pub signature: String,
    /// The name of the algorithm of the signature.
    pub sig_type: String,
    /// Creation time of the trust, in seconds.
    pub issued_at: u64,
}

/// A revocation on the wire.
#[derive(Debug, Clone, PartialEq, Eq, Default)]
pub struct Revocation {
    /// Who is revoked, as a peer id.
    pub revoked_peer_id: String,
    /// When the revocation was created, in seconds.
    pub revoked_at: u64,
    /// The raw signature, as base58 text.
    pub signature: String,
    /// The name of the algorithm of the signature.
    pub sig_type: String,
    /// The issuer of this revocation, as a peer id.
    pub revoked_by: String,
}

/// The encoded signature that a base58 text of a raw signature and the name of its
/// algorithm stand for.
pub open spec fn signature_of_dto(signature: Seq<char>, sig_type: Seq<char>) -> Option<Seq<u8>> {
    if format_of_name(sig_type) is Some && base58_bytes(encode_utf8(signature)) is Some {
        Some(
            seq![format_of_name(sig_type).unwrap().spec_tag()] + base58_bytes(
                encode_utf8(signature),
            ).unwrap(),
        )
    } else {
        None
    }
}

/// The trust that a trust of the wire stands for, where it stands for one.
pub open spec fn trust_of_dto(t: Trust) -> Option<TrustView> {
    if public_key_of_peer_id(t.issued_for@) is Some && signature_of_dto(t.signature@, t.sig_type@)
        is Some {
        Some(
            TrustView {
                issued_for: public_key_of_peer_id(t.issued_for@).unwrap(),
                expires_at: t.expires_at,
                signature: signature_of_dto(t.signature@, t.sig_type@).unwrap(),
                issued_at: t.issued_at,
            },
        )
    } else {
        None
    }
}

/// The revocation that a revocation of the wire stands for, where it stands for one.
pub open spec fn revocation_of_dto(r: Revocation) -> Option<RevocationView> {
    if public_key_of_peer_id(r.revoked_peer_id@) is Some && public_key_of_peer_id(r.revoked_by@)
        is Some && signature_of_dto(r.signature@, r.sig_type@) is Some {
        Some(
            RevocationView {
                pk: public_key_of_peer_id(r.revoked_peer_id@).unwrap(),
                revoked_at: r.revoked_at,
                revoked_by: public_key_of_peer_id(r.revoked_by@).unwrap(),
                signature: signature_of_dto(r.signature@, r.sig_type@).unwrap(),
            },
        )
    } else {
        None
    }
}

/// The certificate that a certificate of the wire stands for, where every trust of it
/// stands for one.
pub open spec fn certificate_of_dto(c: Certificate) -> Option<Seq<TrustView>> {
    if forall|i: int| 0 <= i < c.chain@.len() ==> trust_of_dto(#[trigger] c.chain@[i]) is Some {
        Some(Seq::new(c.chain@.len(), |i: int| trust_of_dto(c.chain@[i]).unwrap()))
    } else {
        None
    }
}

/// The bytes of an ASCII text are the bytes of its characters.
pub proof fn lemma_ascii_text_bytes(text: Seq<u8>)
    requires
        forall|i: int| 0 <= i < text.len() ==> #[trigger] text[i] < 128,
    ensures
        encode_utf8(ascii_chars(text)) == text,
{
    let chars = ascii_chars(text);
    assert(vstd::utf8::is_ascii_chars(chars)) by {
        assert forall|i: int| 0 <= i < chars.len() implies 0 <= (#[trigger] chars[i]) as nat <= 127 by {
            assert(chars[i] == text[i] as char);
        }
    }
    vstd::utf8::is_ascii_chars_encode_utf8(chars);
    assert(encode_utf8(chars) =~= text) by {
        assert forall|i: int| 0 <= i < text.len() implies encode_utf8(chars)[i] == text[i] by {
            assert(chars[i] == text[i] as char);
        }
    }
}

/// The key of a peer id, for a conversion from the wire.
fn key_of_peer_id(text: &str) -> (out: Result<PublicKey, DtoConversionError>)
    ensures
        out is Ok <==> public_key_of_peer_id(text@) is Some,
        out matches Ok(pk) ==> public_key_of_peer_id(text@) == Some(pk@),
        out matches Err(e) ==> e is PeerIdDecodeError || e is PublicKeyDecodeError,
{
    match PublicKey::from_peer_id(text) {
        Ok(pk) => Ok(pk),
        Err(PeerIdError::Parse(e)) => Err(DtoConversionError::PeerIdDecodeError(e)),
        Err(PeerIdError::Key(e)) => Err(DtoConversionError::PublicKeyDecodeError(e)),
    }
}

/// The signature of a base58 text and the name of its algorithm.
fn signature_of_texts(signature: &str, sig_type: &str) -> (out: Result<Signature, DtoConversionError>)
    ensures
        out is Ok <==> signature_of_dto(signature@, sig_type@) is Some,
        out matches Ok(sig) ==> signature_of_dto(signature@, sig_type@) == Some(sig@),
        out matches Err(e) ==> e is Base58Error || e is InvalidKeyFormat,
{
    let raw = match from_base58(signature.as_bytes()) {
        Ok(raw) => raw,
        Err(e) => {
            return Err(DtoConversionError::Base58Error(e));
        },
    };
    let format = match KeyFormat::from_str(sig_type) {
        Ok(format) => format,
        Err(e) => {
            return Err(DtoConversionError::InvalidKeyFormat(e));
        },
    };
    Ok(Signature::from_bytes(format, raw))
}

impl Trust {
    /// The trust of the library that this trust of the wire stands for.
    pub fn try_into(self) -> (out: Result<crate::trust::Trust, DtoConversionError>)
        ensures
            out is Ok <==> trust_of_dto(self) is Some,
            out matches Ok(t) ==> trust_of_dto(self) == Some(t@),
    {
        let issued_for = match key_of_peer_id(self.issued_for.as_str()) {
            Ok(pk) => pk,
            Err(e) => {
                return Err(e);
            },
        };
        let signature = match signature_of_texts(self.signature.as_str(), self.sig_type.as_str()) {
            Ok(sig) => sig,
            Err(e) => {
                return Err(e);
            },
        };
        Ok(
            crate::trust::Trust {
                issued_for,
                expires_at: self.expires_at,
                signature,
                issued_at: self.issued_at,
            },
        )
    }

    /// The form of a trust on the wire. Converting it back gives the trust.
    pub fn from(t: &crate::trust::Trust) -> (out: Self)
        ensures
            trust_of_dto(out) == Some(t@),
            out.expires_at == t.expires_at,
            out.issued_at == t.issued_at,
    {
        let issued_for = t.issued_for.to_peer_id();
        let raw_signature = t.signature.get_raw_signature();
        let signature = base58_string(raw_signature.bytes.as_slice());
        proof {
            let text = base58_text(raw_signature.bytes@);
            lemma_alphanumeric_text_bytes(text);
        }
        Trust {
            issued_for,
            expires_at: t.expires_at,
            signature,
            sig_type: raw_signature.sig_type.name(),
            issued_at: t.issued_at,
        }
    }
}

/// The bytes of the string of a text of digits and letters are the text.
pub proof fn lemma_alphanumeric_text_bytes(text: Seq<u8>)
    requires
        crate::base58::all_alphanumeric(text),
    ensures
        encode_utf8(ascii_chars(text)) == text,
{
    assert forall|i: int| 0 <= i < text.len() implies #[trigger] text[i] < 128 by {
        assert(crate::base58::is_alphanumeric(text[i]));
    }
    lemma_ascii_text_bytes(text);
}

impl Revocation {
    /// The revocation of the library that this revocation of the wire stands for.
    pub fn try_into(self) -> (out: Result<crate::revoke::Revocation, DtoConversionError>)
        ensures
            out is Ok <==> revocation_of_dto(self) is Some,
            out matches Ok(r) ==> revocation_of_dto(self) == Some(r@),
    {
        let revoked_pk = match key_of_peer_id(self.revoked_peer_id.as_str()) {
            Ok(pk) => pk,
            Err(e) => {
                return Err(e);
            },
        };
        let revoked_by_pk = match key_of_peer_id(self.revoked_by.as_str()) {
            Ok(pk) => pk,
            Err(e) => {
                return Err(e);
            },
        };
        let signature = match signature_of_texts(self.signature.as_str(), self.sig_type.as_str()) {
            Ok(sig) => sig,
            Err(e) => {
                return Err(e);
            },
        };
        Ok(
            crate::revoke::Revocation {
                pk: revoked_pk,
                revoked_at: self.revoked_at,
                revoked_by: revoked_by_pk,
                signature,
            },
        )
    }

    /// The form of a revocation on the wire. Converting it back gives the revocation.
    pub fn from(r: &crate::revoke::Revocation) -> (out: Self)
        ensures
            revocation_of_dto(out) == Some(r@),
            out.revoked_at == r.revoked_at,
    {
        let revoked_by = r.revoked_by.to_peer_id();
        let revoked_peer_id = r.pk.to_peer_id();
        let raw_signature = r.signature.get_raw_signature();
        let signature = base58_string(raw_signature.bytes.as_slice());
        proof {
            let text = base58_text(raw_signature.bytes@);
            lemma_alphanumeric_text_bytes(text);
        }
        Revocation {
            revoked_peer_id,
            revoked_at: r.revoked_at,
            signature,
            sig_type: raw_signature.sig_type.name(),
            revoked_by,
        }
    }
}

impl Certificate {
    /// The certificate of the library that this certificate of the wire stands for.
    pub fn try_into(self) -> (out: Result<crate::certificate::Certificate, DtoConversionError>)
        ensures
            out is Ok <==> certificate_of_dto(self) is Some,
            out matches Ok(c) ==> certificate_of_dto(self) == Some(c@),
    {
        let ghost all = self.chain@;
        let mut rest = self.chain;
        let mut reversed: Vec<crate::trust::Trust> = Vec::new();
        loop
            invariant
                all == self.chain@,
                rest@.len() <= all.len(),
                rest@ == all.subrange(0, rest@.len() as int),
                reversed@.len() == all.len() - rest@.len(),
                forall|i: int|
                    0 <= i < reversed@.len() ==> trust_of_dto(all[all.len() - 1 - i]) == Some(
                        (#[trigger] reversed@[i])@,
                    ),
            ensures
                reversed@.len() == all.len(),
                forall|i: int|
                    0 <= i < reversed@.len() ==> trust_of_dto(all[all.len() - 1 - i]) == Some(
                        (#[trigger] reversed@[i])@,
                    ),
            decreases rest@.len(),
        {
            match rest.pop() {
                Some(t) => {
                    let ghost dto = t;
                    match t.try_into() {
                        Ok(trust) => {
                            reversed.push(trust);
                        },
                        Err(e) => {
                            proof {
                                assert(dto == all[rest@.len() as int]);
                                assert(self.chain@[rest@.len() as int] == dto);
                                assert(trust_of_dto(self.chain@[rest@.len() as int]) is None);
                            }
                            return Err(e);
                        },
                    }
                },
                None => {
                    break ;
                },
            }
        }
        let mut chain: Vec<crate::trust::Trust> = Vec::new();
        loop
            invariant
                reversed@.len() + chain@.len() == all.len(),
                forall|i: int|
                    0 <= i < reversed@.len() ==> trust_of_dto(all[all.len() - 1 - i]) == Some(
                        (#[trigger] reversed@[i])@,
                    ),
                forall|i: int|
                    0 <= i < chain@.len() ==> trust_of_dto(all[i]) == Some((#[trigger] chain@[i])@),
            ensures
                chain@.len() == all.len(),
                forall|i: int|
                    0 <= i < chain@.len() ==> trust_of_dto(all[i]) == Some((#[trigger] chain@[i])@),
            decreases reversed@.len(),
        {
            match reversed.pop() {
                Some(trust) => {
                    chain.push(trust);
                },
                None => {
                    break ;
                },
            }
        }
        let cert = crate::certificate::Certificate { chain };
        proof {
            assert forall|i: int| 0 <= i < all.len() implies trust_of_dto(#[trigger] all[i]) is Some by {
                assert(trust_of_dto(all[i]) == Some(chain@[i]@));
            }
            assert(cert@ =~= certificate_of_dto(self).unwrap()) by {
                assert forall|i: int| 0 <= i < cert@.len() implies cert@[i] == trust_of_dto(
                    all[i],
                ).unwrap() by {
                    assert(trust_of_dto(all[i]) == Some(chain@[i]@));
                }
            }
        }
        Ok(cert)
    }

    /// The form of a certificate on the wire. Converting it back gives the certificate.
    pub fn from(c: &crate::certificate::Certificate) -> (out: Self)
        ensures
            certificate_of_dto(out) == Some(c@),
    {
        let mut chain: Vec<Trust> = Vec::new();
        let mut n: usize = 0;
        while n < c.chain.len()
            invariant
                n <= c.chain@.len(),
                chain@.len() == n,
                forall|i: int| 0 <= i < n ==> trust_of_dto(#[trigger] chain@[i]) == Some(c.chain@[i]@),
            decreases c.chain@.len() - n,
        {
            chain.push(Trust::from(&c.chain[n]));
            n += 1;
        }
        let out = Certificate { chain };
        proof {
            assert(certificate_of_dto(out).unwrap() =~= c@);
        }
        out
    }
}

} // verus!
