//! Signatures behind the algorithm tag.

use crate::bytes::{append_bytes, bytes_equal, copy_bytes};
use crate::digest::sha256_of;
use crate::keypair::ed25519;
use crate::keypair::error::DecodingError;
use crate::keypair::key_pair::{format_of_tag, KeyFormat, ED25519_TAG, SECP256K1_TAG};
use crate::keypair::secp256k1;
use vstd::prelude::*;
use vstd::slice::slice_subrange;
use vstd::std_specs::cmp::PartialEqSpecImpl;

verus! {

/// A signature, tagged with the algorithm that made it.
#[derive(Debug)]
pub enum Signature {
    Ed25519(ed25519::Signature),
    Secp256k1(secp256k1::Signature),
}

/// The bytes of a signature together with the algorithm that made it.
pub struct RawSignature {
    pub bytes: Vec<u8>,
    pub sig_type: KeyFormat,
}

/// A signature views as its encoding: the tag byte, then the raw signature.
impl View for Signature {
    type V = Seq<u8>;

    open spec fn view(&self) -> Seq<u8> {
        match self {
            Signature::Ed25519(sig) => seq![ED25519_TAG] + sig@,
            Signature::Secp256k1(sig) => seq![SECP256K1_TAG] + sig@,
        }
    }
}

/// The bytes of an encoding after its tag byte.
pub open spec fn raw_part(bytes: Seq<u8>) -> Seq<u8> {
    bytes.subrange(1, bytes.len() as int)
}

/// Whether `bytes` are the encoding of a signature: a known tag and then any bytes.
pub open spec fn is_signature_encoding(bytes: Seq<u8>) -> bool {
    bytes.len() >= 1 && format_of_tag(bytes[0]) is Some
}

/// Whether verification accepts the encoded signature `sig` on `msg` under the encoded
/// public key `pk`: both carry the tag of the same algorithm, and the curve library of
/// that algorithm accepts the raw parts. Secp256k1 signatures are made on the SHA-256
/// digest of the message.
pub open spec fn signature_accepted(pk: Seq<u8>, msg: Seq<u8>, sig: Seq<u8>) -> bool {
    &&& pk.len() >= 1
    &&& sig.len() >= 1
    &&& pk[0] == sig[0]
    &&& if pk[0] == ED25519_TAG {
        ed25519::ed25519_accepts(raw_part(pk), msg, raw_part(sig))
    } else if pk[0] == SECP256K1_TAG {
        secp256k1::secp256k1_accepts(raw_part(pk), sha256_of(msg), raw_part(sig))
    } else {
        false
    }
}

impl Signature {
    fn get_prefix(&self) -> (out: u8)
        ensures
            out == self@[0],
    {
        match self {
            Signature::Ed25519(_) => KeyFormat::Ed25519.tag(),
            Signature::Secp256k1(_) => KeyFormat::Secp256k1.tag(),
        }
    }

    /// The encoding of the signature: the tag byte, then the raw signature.
    pub fn encode(&self) -> (out: Vec<u8>)
        ensures
            out@ == self@,
            is_signature_encoding(out@),
    {
        let mut result: Vec<u8> = Vec::new();
        result.push(self.get_prefix());
        match self {
            Signature::Ed25519(sig) => append_bytes(&mut result, sig.0.as_slice()),
            Signature::Secp256k1(sig) => append_bytes(&mut result, sig.0.as_slice()),
        }
        assert(result@ =~= self@);
        result
    }

    /// Decodes a signature from its encoding. Empty input is rejected for its length,
    /// an unknown tag byte as such; the raw part is taken as it is.
    pub fn decode(bytes: Vec<u8>) -> (out: Result<Signature, DecodingError>)
        ensures
            match out {
                Ok(sig) => is_signature_encoding(bytes@) && sig@ == bytes@,
                Err(DecodingError::InvalidLength) => bytes@.len() == 0,
                Err(DecodingError::InvalidTypeByte) => bytes@.len() >= 1 && format_of_tag(
                    bytes@[0],
                ) is None,
                Err(_) => false,
            },
    {
        if bytes.len() == 0 {
            return Err(DecodingError::InvalidLength);
        }
        match KeyFormat::try_from(bytes[0]) {
            Ok(format) => {
                let raw = copy_bytes(slice_subrange(bytes.as_slice(), 1, bytes.len()));
                assert(seq![bytes@[0]] + raw@ =~= bytes@);
                Ok(Signature::from_bytes(format, raw))
            },
            Err(e) => Err(e),
        }
    }

    /// The raw signature, without the tag.
    pub fn to_vec(&self) -> (out: &[u8])
        ensures
            out@ == raw_part(self@),
    {
        match self {
            Signature::Ed25519(sig) => {
                assert(raw_part(seq![ED25519_TAG] + sig@) =~= sig@);
                sig.0.as_slice()
            },
            Signature::Secp256k1(sig) => {
                assert(raw_part(seq![SECP256K1_TAG] + sig@) =~= sig@);
                sig.0.as_slice()
            },
        }
    }

    /// The algorithm that made the signature.
    pub fn get_signature_type(&self) -> (out: KeyFormat)
        ensures
            out.spec_tag() == self@[0],
    {
        match self {
            Signature::Ed25519(_) => KeyFormat::Ed25519,
            Signature::Secp256k1(_) => KeyFormat::Secp256k1,
        }
    }

    /// The raw signature together with its algorithm.
    pub fn get_raw_signature(&self) -> (out: RawSignature)
        ensures
            out.bytes@ == raw_part(self@),
            out.sig_type.spec_tag() == self@[0],
            self@ == seq![out.sig_type.spec_tag()] + out.bytes@,
    {
        let out = RawSignature {
            bytes: copy_bytes(self.to_vec()),
            sig_type: self.get_signature_type(),
        };
        assert(self@ =~= seq![out.sig_type.spec_tag()] + out.bytes@);
        out
    }

    /// The signature of the given algorithm with the given raw bytes.
    pub fn from_bytes(key_format: KeyFormat, bytes: Vec<u8>) -> (out: Signature)
        ensures
            out@ == seq![key_format.spec_tag()] + bytes@,
    {
        match key_format {
            KeyFormat::Ed25519 => Signature::Ed25519(ed25519::Signature(bytes)),
            KeyFormat::Secp256k1 => Signature::Secp256k1(secp256k1::Signature(bytes)),
        }
    }
}

impl Clone for Signature {
    fn clone(&self) -> (out: Self)
        ensures
            out@ == self@,
    {
        match self {
            Signature::Ed25519(sig) => Signature::Ed25519(
                ed25519::Signature(copy_bytes(sig.0.as_slice())),
            ),
            Signature::Secp256k1(sig) => Signature::Secp256k1(
                secp256k1::Signature(copy_bytes(sig.0.as_slice())),
            ),
        }
    }
}

impl PartialEq for Signature {
    fn eq(&self, other: &Self) -> (same: bool) {
        let same_format = self.get_prefix() == other.get_prefix();
        let same_bytes = bytes_equal(self.to_vec(), other.to_vec());
        proof {
            assert(self@ =~= seq![self@[0]] + raw_part(self@));
            assert(other@ =~= seq![other@[0]] + raw_part(other@));
        }
        same_format && same_bytes
    }
}

impl Eq for Signature {

}

impl PartialEqSpecImpl for Signature {
    open spec fn obeys_eq_spec() -> bool {
        true
    }

    open spec fn eq_spec(&self, other: &Self) -> bool {
        self@ == other@
    }
}

/// What decoding makes of `bytes`: nothing for empty input and for an unknown tag, and
/// otherwise the bytes themselves, which are the view of the decoded signature.
pub open spec fn signature_decoded(bytes: Seq<u8>) -> Option<Seq<u8>> {
    if is_signature_encoding(bytes) {
        Some(bytes)
    } else {
        None
    }
}

/// Round trip of the encoding: the encoding of a signature decodes to the signature.
pub proof fn lemma_signature_round_trip(sig: Signature)
    ensures
        signature_decoded(sig@) == Some(sig@),
{
}

} // verus!
