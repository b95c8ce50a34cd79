//! Public keys behind the algorithm tag.

use crate::base58::{ascii_chars, base58_bytes, base58_string, base58_text, from_base58};
use crate::bytes::append_bytes;
use crate::keypair::ed25519;
use crate::keypair::error::{DecodingError, VerificationError};
use crate::keypair::key_pair::{KeyFormat, ED25519_TAG, SECP256K1_TAG};
use crate::keypair::peer_id::{
    decode_inlined_key,
    ed25519_peer_id,
    parse_peer_id,
    peer_id_multihash,
    peer_id_text,
    protobuf_key,
    secp256k1_peer_id,
    IDENTITY_CODE,
};
use crate::keypair::secp256k1;
use crate::keypair::signature::{raw_part, signature_accepted, Signature};
use vstd::prelude::*;
use vstd::slice::slice_subrange;
use vstd::std_specs::cmp::PartialEqSpecImpl;
use vstd::string::StringSliceAdditionalSpecFns;

verus! {

/// The public key of an identity. Keys are ordered and hashed by their encoding.
#[derive(Debug, PartialOrd, Ord, Hash)]
pub enum PublicKey {
    /// A public Ed25519 key.
    Ed25519(ed25519::PublicKey),
    /// A public Secp256k1 key.
    Secp256k1(secp256k1::PublicKey),
}

/// A public key views as its encoding: the tag byte, then the raw key. Two keys are the
/// same key exactly when these bytes are the same.
impl View for PublicKey {
    type V = Seq<u8>;

    open spec fn view(&self) -> Seq<u8> {
        match self {
            PublicKey::Ed25519(pk) => seq![ED25519_TAG] + pk@,
            PublicKey::Secp256k1(pk) => seq![SECP256K1_TAG] + pk@,
        }
    }
}

/// Whether `bytes` are the encoding of a public key: the Ed25519 tag and 32 bytes, or
/// the Secp256k1 tag and 33 bytes, that the curve library of the algorithm accepts.
pub open spec fn is_public_key_encoding(bytes: Seq<u8>) -> bool {
    &&& bytes.len() >= 1
    &&& if bytes[0] == ED25519_TAG {
        bytes.len() == 33 && ed25519::ed25519_key_valid(raw_part(bytes))
    } else if bytes[0] == SECP256K1_TAG {
        bytes.len() == 34 && secp256k1::secp256k1_key_valid(raw_part(bytes))
    } else {
        false
    }
}

/// The kinds of failure of decoding a key or a signature.
pub enum KeyDecodeFailure {
    InvalidLength,
    InvalidTypeByte,
    Ed25519,
    Secp256k1,
}

/// The failure with which decoding refuses `bytes` as a public key, if it does. Empty
/// input fails for its length and an unknown tag as such. After the Ed25519 tag, a raw
/// part that is not 32 bytes long fails for its length, and 32 bytes that the curve
/// library refuses as an Ed25519 failure. After the Secp256k1 tag, whatever the curve
/// library refuses is a Secp256k1 failure.
pub open spec fn public_key_decoding(bytes: Seq<u8>) -> Option<KeyDecodeFailure> {
    if bytes.len() == 0 {
        Some(KeyDecodeFailure::InvalidLength)
    } else if bytes[0] == ED25519_TAG {
        if bytes.len() != 33 {
            Some(KeyDecodeFailure::InvalidLength)
        } else if !ed25519::ed25519_key_valid(raw_part(bytes)) {
            Some(KeyDecodeFailure::Ed25519)
        } else {
            None
        }
    } else if bytes[0] == SECP256K1_TAG {
        if bytes.len() != 34 || !secp256k1::secp256k1_key_valid(raw_part(bytes)) {
            Some(KeyDecodeFailure::Secp256k1)
        } else {
            None
        }
    } else {
        Some(KeyDecodeFailure::InvalidTypeByte)
    }
}

/// The kind of a decoding error, as far as keys and signatures can give it.
pub open spec fn key_failure_of(e: DecodingError) -> Option<KeyDecodeFailure> {
    match e {
        DecodingError::InvalidLength => Some(KeyDecodeFailure::InvalidLength),
        DecodingError::InvalidTypeByte => Some(KeyDecodeFailure::InvalidTypeByte),
        DecodingError::Ed25519(_) => Some(KeyDecodeFailure::Ed25519),
        DecodingError::Secp256k1 => Some(KeyDecodeFailure::Secp256k1),
        _ => None,
    }
}

/// What reading a public key from the base58 text `text` comes to: a text that is no
/// base58 fails as such, and one that is fails as its bytes fail to decode.
pub open spec fn public_key_from_text(text: Seq<u8>, out: Result<PublicKey, DecodingError>) -> bool {
    match out {
        Ok(pk) => base58_bytes(text) == Some(pk@) && is_public_key_encoding(pk@),
        Err(DecodingError::Base58DecodeError(_)) => base58_bytes(text) is None,
        Err(e) => (base58_bytes(text) matches Some(bytes) && key_failure_of(e) == public_key_decoding(
            bytes,
        ) && key_failure_of(e) is Some),
    }
}

/// The encoded public key that a peer id holds inline: the peer id must hold a multihash
/// with the identity code whose digest is the protobuf encoding of a valid key of a
/// supported algorithm.
pub open spec fn public_key_of_peer_id(text: Seq<char>) -> Option<Seq<u8>> {
    match peer_id_multihash(text) {
        Some(hash) => if hash.0 == IDENTITY_CODE {
            match protobuf_key(hash.1) {
                Some(key) => if is_public_key_encoding(seq![key.0] + key.1) {
                    Some(seq![key.0] + key.1)
                } else {
                    None
                },
                None => None,
            }
        } else {
            None
        },
        None => None,
    }
}

/// Whether a verification failure carries the base58 texts of the raw signature and of
/// the raw key.
pub open spec fn failure_names(e: VerificationError, sig: Seq<u8>, key: Seq<u8>) -> bool {
    match e {
        VerificationError::Ed25519(_, s, k) => s@ == ascii_chars(base58_text(sig)) && k@
            == ascii_chars(base58_text(key)),
        VerificationError::Secp256k1(_, s, k) => s@ == ascii_chars(base58_text(sig)) && k@
            == ascii_chars(base58_text(key)),
        VerificationError::AlgorithmMismatch(s, k) => s@ == ascii_chars(base58_text(sig)) && k@
            == ascii_chars(base58_text(key)),
    }
}

/// Why a peer id gave no public key.
#[derive(Debug)]
pub enum PeerIdError {
    /// The text is no peer id; carries what the parser said.
    Parse(String),
    /// The peer id holds no valid public key inline.
    Key(DecodingError),
}

impl PublicKey {
    /// What every public key satisfies: its raw part is a valid key.
    pub open spec fn wf(&self) -> bool {
        match self {
            PublicKey::Ed25519(pk) => pk.wf(),
            PublicKey::Secp256k1(pk) => pk.wf(),
        }
    }

    /// The view of a well-formed key is the encoding of a public key.
    pub proof fn lemma_wf(self)
        requires
            self.wf(),
        ensures
            is_public_key_encoding(self@),
    {
        match self {
            PublicKey::Ed25519(pk) => {
                pk.lemma_wf();
                assert(raw_part(self@) =~= pk@);
            },
            PublicKey::Secp256k1(pk) => {
                pk.lemma_wf();
                assert(raw_part(self@) =~= pk@);
            },
        }
    }

    /// The peer id of the key. Reading the peer id gives the key back.
    pub fn to_peer_id(&self) -> (out: String)
        ensures
            out@ == peer_id_text(self@[0], raw_part(self@)),
            public_key_of_peer_id(out@) == Some(self@),
    {
        match self {
            PublicKey::Ed25519(pk) => {
                let raw = pk.encode();
                proof {
                    use_type_invariant(pk);
                    pk.lemma_wf();
                    assert(raw_part(self@) =~= pk@);
                }
                ed25519_peer_id(raw.as_slice())
            },
            PublicKey::Secp256k1(pk) => {
                let raw = pk.encode();
                proof {
                    use_type_invariant(pk);
                    pk.lemma_wf();
                    assert(raw_part(self@) =~= pk@);
                }
                secp256k1_peer_id(raw.as_slice())
            },
        }
    }

    /// The public key that a peer id holds inline. A text that is no peer id fails as
    /// such; a peer id that holds a hash of its key, or a key of an algorithm that is
    /// not supported, fails as not inlined; raw bytes that are no valid key fail as
    /// they do in decoding.
    pub fn from_peer_id(text: &str) -> (out: Result<PublicKey, PeerIdError>)
        ensures
            match out {
                Ok(pk) => public_key_of_peer_id(text@) == Some(pk@),
                Err(PeerIdError::Parse(_)) => peer_id_multihash(text@) is None,
                Err(PeerIdError::Key(_)) => peer_id_multihash(text@) is Some
                    && public_key_of_peer_id(text@) is None,
            },
    {
        let hash = match parse_peer_id(text) {
            Ok(hash) => hash,
            Err(e) => {
                return Err(PeerIdError::Parse(e));
            },
        };
        if hash.0 != IDENTITY_CODE {
            return Err(PeerIdError::Key(DecodingError::PublicKeyNotInlined(text.to_owned())));
        }
        let key = match decode_inlined_key(hash.1.as_slice()) {
            Some(key) => key,
            None => {
                return Err(PeerIdError::Key(DecodingError::PublicKeyNotInlined(text.to_owned())));
            },
        };
        proof {
            assert(raw_part(seq![key.0.spec_tag()] + key.1@) =~= key.1@);
        }
        match key.0 {
            KeyFormat::Ed25519 => match ed25519::PublicKey::decode(key.1.as_slice()) {
                Ok(pk) => Ok(PublicKey::Ed25519(pk)),
                Err(e) => Err(PeerIdError::Key(e)),
            },
            KeyFormat::Secp256k1 => match secp256k1::PublicKey::decode(key.1.as_slice()) {
                Ok(pk) => Ok(PublicKey::Secp256k1(pk)),
                Err(e) => Err(PeerIdError::Key(e)),
            },
        }
    }

    /// Verifies that `sig` is a signature on `msg` made with the secret that belongs to
    /// this key. Key and signature must be of the same algorithm. A failure carries the
    /// base58 texts of the raw signature and of the raw key.
    pub fn verify(&self, msg: &[u8], sig: &Signature) -> (out: Result<(), VerificationError>)
        ensures
            out is Ok <==> signature_accepted(self@, msg@, sig@),
            out matches Err(VerificationError::AlgorithmMismatch(_, _)) <==> self@[0] != sig@[0],
            out matches Err(e) ==> failure_names(e, raw_part(sig@), raw_part(self@)),
    {
        let raw_sig = sig.to_vec();
        match self {
            PublicKey::Ed25519(pk) => {
                proof {
                    use_type_invariant(pk);
                    pk.lemma_wf();
                    assert(raw_part(self@) =~= pk@);
                }
                match sig {
                    Signature::Ed25519(_) => match pk.verify(msg, raw_sig) {
                        Ok(()) => Ok(()),
                        Err(e) => Err(
                            VerificationError::Ed25519(
                                e,
                                base58_string(raw_sig),
                                base58_string(pk.encode().as_slice()),
                            ),
                        ),
                    },
                    _ => Err(
                        VerificationError::AlgorithmMismatch(
                            base58_string(raw_sig),
                            base58_string(pk.encode().as_slice()),
                        ),
                    ),
                }
            },
            PublicKey::Secp256k1(pk) => {
                proof {
                    use_type_invariant(pk);
                    pk.lemma_wf();
                    assert(raw_part(self@) =~= pk@);
                }
                match sig {
                    Signature::Secp256k1(_) => match pk.verify(msg, raw_sig) {
                        Ok(()) => Ok(()),
                        Err(e) => Err(
                            VerificationError::Secp256k1(
                                e,
                                base58_string(raw_sig),
                                base58_string(pk.encode().as_slice()),
                            ),
                        ),
                    },
                    _ => Err(
                        VerificationError::AlgorithmMismatch(
                            base58_string(raw_sig),
                            base58_string(pk.encode().as_slice()),
                        ),
                    ),
                }
            },
        }
    }

    fn get_prefix(&self) -> (out: u8)
        ensures
            out == self@[0],
    {
        match self {
            PublicKey::Ed25519(_) => KeyFormat::Ed25519.tag(),
            PublicKey::Secp256k1(_) => KeyFormat::Secp256k1.tag(),
        }
    }

    /// The encoding of the key: the tag byte, then the raw key.
    pub fn encode(&self) -> (out: Vec<u8>)
        ensures
            out@ == self@,
            is_public_key_encoding(out@),
    {
        let mut result: Vec<u8> = Vec::new();
        result.push(self.get_prefix());
        match self {
            PublicKey::Ed25519(pk) => {
                let raw = pk.encode();
                append_bytes(&mut result, raw.as_slice());
                proof {
                    use_type_invariant(pk);
                    pk.lemma_wf();
                    assert(result@ =~= self@);
                    assert(raw_part(result@) =~= pk@);
                }
            },
            PublicKey::Secp256k1(pk) => {
                let raw = pk.encode();
                append_bytes(&mut result, raw.as_slice());
                proof {
                    use_type_invariant(pk);
                    pk.lemma_wf();
                    assert(result@ =~= self@);
                    assert(raw_part(result@) =~= pk@);
                }
            },
        }
        result
    }

    /// Decodes a key from its encoding. Succeeds exactly on the encodings of public
    /// keys, and then the key views as the input.
    pub fn decode(bytes: &[u8]) -> (out: Result<PublicKey, DecodingError>)
        ensures
            match out {
                Ok(pk) => public_key_decoding(bytes@) is None && pk@ == bytes@,
                Err(e) => public_key_decoding(bytes@) is Some && key_failure_of(e)
                    == public_key_decoding(bytes@),
            },
            out is Ok <==> is_public_key_encoding(bytes@),
    {
        if bytes.len() == 0 {
            return Err(DecodingError::InvalidLength);
        }
        let raw = slice_subrange(bytes, 1, bytes.len());
        match KeyFormat::try_from(bytes[0]) {
            Ok(KeyFormat::Ed25519) => {
                match ed25519::PublicKey::decode(raw) {
                    Ok(pk) => {
                        assert(seq![ED25519_TAG] + pk@ =~= bytes@);
                        Ok(PublicKey::Ed25519(pk))
                    },
                    Err(e) => Err(e),
                }
            },
            Ok(KeyFormat::Secp256k1) => {
                match secp256k1::PublicKey::decode(raw) {
                    Ok(pk) => {
                        assert(seq![SECP256K1_TAG] + pk@ =~= bytes@);
                        Ok(PublicKey::Secp256k1(pk))
                    },
                    Err(e) => Err(e),
                }
            },
            Err(e) => Err(e),
        }
    }

    /// Decodes a key from the base58 text of its encoding.
    pub fn from_base58(text: &str) -> (out: Result<PublicKey, DecodingError>)
        ensures
            public_key_from_text(text.spec_bytes(), out),
    {
        Self::from_base58_bytes(text.as_bytes())
    }

    /// Decodes a key from the bytes of the base58 text of its encoding.
    pub fn from_base58_bytes(text: &[u8]) -> (out: Result<PublicKey, DecodingError>)
        ensures
            public_key_from_text(text@, out),
    {
        match from_base58(text) {
            Ok(bytes) => PublicKey::decode(bytes.as_slice()),
            Err(e) => Err(DecodingError::Base58DecodeError(e)),
        }
    }

    /// The base58 text of the encoding of the key. The text reads back as this key.
    pub fn to_base58(&self) -> (out: String)
        ensures
            out@ == ascii_chars(base58_text(self@)),
            base58_bytes(base58_text(self@)) == Some(self@),
            is_public_key_encoding(self@),
    {
        base58_string(self.encode().as_slice())
    }

    /// The raw key, without the tag.
    pub fn to_vec(&self) -> (out: Vec<u8>)
        ensures
            out@ == raw_part(self@),
    {
        match self {
            PublicKey::Ed25519(pk) => {
                let out = pk.encode();
                assert(raw_part(seq![ED25519_TAG] + pk@) =~= pk@);
                out
            },
            PublicKey::Secp256k1(pk) => {
                let out = pk.encode();
                assert(raw_part(seq![SECP256K1_TAG] + pk@) =~= pk@);
                out
            },
        }
    }

    /// The algorithm of the key.
    pub fn get_key_format(&self) -> (out: KeyFormat)
        ensures
            out.spec_tag() == self@[0],
    {
        match self {
            PublicKey::Ed25519(_) => KeyFormat::Ed25519,
            PublicKey::Secp256k1(_) => KeyFormat::Secp256k1,
        }
    }
}

impl Clone for PublicKey {
    fn clone(&self) -> (out: Self)
        ensures
            out@ == self@,
    {
        match self {
            PublicKey::Ed25519(pk) => PublicKey::Ed25519(pk.clone()),
            PublicKey::Secp256k1(pk) => PublicKey::Secp256k1(pk.clone()),
        }
    }
}

impl PartialEq for PublicKey {
    fn eq(&self, other: &Self) -> (same: bool) {
        match (self, other) {
            (PublicKey::Ed25519(a), PublicKey::Ed25519(b)) => {
                proof {
                    assert(raw_part(seq![ED25519_TAG] + a@) =~= a@);
                    assert(raw_part(seq![ED25519_TAG] + b@) =~= b@);
                }
                a.same(b)
            },
            (PublicKey::Secp256k1(a), PublicKey::Secp256k1(b)) => {
                proof {
                    assert(raw_part(seq![SECP256K1_TAG] + a@) =~= a@);
                    assert(raw_part(seq![SECP256K1_TAG] + b@) =~= b@);
                }
                a.same(b)
            },
            _ => {
                assert(self@[0] != other@[0]);
                false
            },
        }
    }
}

impl Eq for PublicKey {

}

impl PartialEqSpecImpl for PublicKey {
    open spec fn obeys_eq_spec() -> bool {
        true
    }

    open spec fn eq_spec(&self, other: &Self) -> bool {
        self@ == other@
    }
}

/// What decoding makes of `bytes`: nothing where it fails, and otherwise the bytes
/// themselves, which are the view of the decoded key.
pub open spec fn public_key_decoded(bytes: Seq<u8>) -> Option<Seq<u8>> {
    if public_key_decoding(bytes) is None {
        Some(bytes)
    } else {
        None
    }
}

/// Round trip of the encoding: the encoding of a public key decodes to the key.
pub proof fn lemma_public_key_round_trip(pk: PublicKey)
    requires
        pk.wf(),
    ensures
        is_public_key_encoding(pk@),
        public_key_decoded(pk@) == Some(pk@),
{
    pk.lemma_wf();
}

} // verus!
