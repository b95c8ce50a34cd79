//! The key pair of an identity, and the names and tags of the supported algorithms.

use crate::digest::sha256_of;
use crate::keypair::ed25519;
use crate::keypair::error::{DecodingError, Error, SigningError, VerificationError};
use crate::keypair::public_key::{public_key_of_peer_id, PublicKey};
use crate::keypair::secp256k1;
use crate::keypair::signature::{signature_accepted, Signature};
use vstd::prelude::*;

verus! {

/// The signature algorithms; each has a one-byte tag that is stable on disk and on the wire.
#[derive(Debug, Clone, Copy, PartialEq, Eq, Structural)]
pub enum KeyFormat {
    Ed25519,
    Secp256k1,
}

/// The tag byte of Ed25519 keys and signatures.
pub const ED25519_TAG: u8 = 0;

/// The tag byte that stands for RSA. It is kept free: this library holds no RSA keys
/// and refuses the tag.
pub const RSA_TAG: u8 = 1;

/// The tag byte of Secp256k1 keys and signatures.
pub const SECP256K1_TAG: u8 = 2;

/// The format that a name stands for: `ed25519` or `secp256k1`.
pub open spec fn format_of_name(name: Seq<char>) -> Option<KeyFormat> {
    if name == "ed25519"@ {
        Some(KeyFormat::Ed25519)
    } else if name == "secp256k1"@ {
        Some(KeyFormat::Secp256k1)
    } else {
        None
    }
}

/// The format that a tag byte stands for.
pub open spec fn format_of_tag(tag: u8) -> Option<KeyFormat> {
    if tag == ED25519_TAG {
        Some(KeyFormat::Ed25519)
    } else if tag == SECP256K1_TAG {
        Some(KeyFormat::Secp256k1)
    } else {
        None
    }
}

impl KeyFormat {
    /// The tag byte of a format.
    pub open spec fn spec_tag(self) -> u8 {
        match self {
            KeyFormat::Ed25519 => ED25519_TAG,
            KeyFormat::Secp256k1 => SECP256K1_TAG,
        }
    }

    /// The name of a format.
    pub open spec fn spec_name(self) -> Seq<char> {
        match self {
            KeyFormat::Ed25519 => "ed25519"@,
            KeyFormat::Secp256k1 => "secp256k1"@,
        }
    }

    /// The format named by `s`.
    pub fn from_str(s: &str) -> (out: Result<KeyFormat, Error>)
        ensures
            match out {
                Ok(format) => format_of_name(s@) == Some(format),
                Err(Error::InvalidKeyFormat(name)) => format_of_name(s@) is None && name@ == s@,
            },
    {
        if s.to_owned() == "ed25519".to_owned() {
            Ok(KeyFormat::Ed25519)
        } else if s.to_owned() == "secp256k1".to_owned() {
            Ok(KeyFormat::Secp256k1)
        } else {
            Err(Error::InvalidKeyFormat(s.to_owned()))
        }
    }

    /// The format with the tag `value`.
    pub fn try_from(value: u8) -> (out: Result<KeyFormat, DecodingError>)
        ensures
            match out {
                Ok(format) => format_of_tag(value) == Some(format),
                Err(DecodingError::InvalidTypeByte) => format_of_tag(value) is None,
                Err(_) => false,
            },
    {
        if value == ED25519_TAG {
            Ok(KeyFormat::Ed25519)
        } else if value == SECP256K1_TAG {
            Ok(KeyFormat::Secp256k1)
        } else {
            Err(DecodingError::InvalidTypeByte)
        }
    }

    /// The tag byte of this format.
    pub fn tag(self) -> (out: u8)
        ensures
            out == self.spec_tag(),
            format_of_tag(out) == Some(self),
    {
        match self {
            KeyFormat::Ed25519 => ED25519_TAG,
            KeyFormat::Secp256k1 => SECP256K1_TAG,
        }
    }

    /// The name of this format.
    pub fn name(self) -> (out: String)
        ensures
            out@ == self.spec_name(),
            format_of_name(out@) == Some(self),
    {
        proof {
            lemma_format_names_differ();
        }
        match self {
            KeyFormat::Ed25519 => "ed25519".to_owned(),
            KeyFormat::Secp256k1 => "secp256k1".to_owned(),
        }
    }
}

/// The names of the formats are different texts.
pub proof fn lemma_format_names_differ()
    ensures
        "ed25519"@ != "secp256k1"@,
{
    reveal_strlit("ed25519");
    reveal_strlit("secp256k1");
    assert("ed25519"@.len() == 7);
    assert("secp256k1"@.len() == 9);
}

/// The key pair of an identity.
pub enum KeyPair {
    /// An Ed25519 key pair.
    Ed25519(ed25519::Keypair),
    /// A Secp256k1 key pair.
    Secp256k1(secp256k1::Keypair),
}

impl KeyPair {
    /// The encoding of the public key of this pair: the tag byte, then the raw key.
    pub open spec fn public_view(&self) -> Seq<u8> {
        match self {
            KeyPair::Ed25519(pair) => seq![ED25519_TAG] + pair.public_bytes(),
            KeyPair::Secp256k1(pair) => seq![SECP256K1_TAG] + pair.public_bytes(),
        }
    }

    /// The raw secret bytes of this pair.
    pub open spec fn secret_view(&self) -> Seq<u8> {
        match self {
            KeyPair::Ed25519(pair) => pair.secret_bytes(),
            KeyPair::Secp256k1(pair) => pair.secret_bytes(),
        }
    }

    /// The format of this pair.
    pub open spec fn format_view(&self) -> KeyFormat {
        match self {
            KeyPair::Ed25519(_) => KeyFormat::Ed25519,
            KeyPair::Secp256k1(_) => KeyFormat::Secp256k1,
        }
    }

    /// The encoding of the signature that this pair makes on `msg`. An Ed25519 pair
    /// signs the message itself, a Secp256k1 pair its SHA-256 digest.
    pub open spec fn signature_view(&self, msg: Seq<u8>) -> Seq<u8> {
        match self {
            KeyPair::Ed25519(pair) => seq![ED25519_TAG] + ed25519::ed25519_signature_of(
                pair.secret_bytes(),
                msg,
            ),
            KeyPair::Secp256k1(pair) => seq![SECP256K1_TAG] + secp256k1::secp256k1_signature_of(
                pair.secret_bytes(),
                sha256_of(msg),
            ),
        }
    }

    /// The public key encoding that belongs to a secret of the given format.
    pub open spec fn public_of(format: KeyFormat, secret: Seq<u8>) -> Seq<u8> {
        match format {
            KeyFormat::Ed25519 => seq![ED25519_TAG] + ed25519::ed25519_public_of(secret),
            KeyFormat::Secp256k1 => seq![SECP256K1_TAG] + secp256k1::secp256k1_public_of(secret),
        }
    }

    /// Generates a fresh key pair of the given format.
    pub fn generate(format: KeyFormat) -> (out: KeyPair)
        ensures
            out.format_view() == format,
            out.secret_view().len() == 32,
            out.public_view() == KeyPair::public_of(format, out.secret_view()),
    {
        match format {
            KeyFormat::Ed25519 => KeyPair::generate_ed25519(),
            KeyFormat::Secp256k1 => KeyPair::generate_secp256k1(),
        }
    }

    /// Generates a fresh Ed25519 key pair.
    pub fn generate_ed25519() -> (out: KeyPair)
        ensures
            out.format_view() == KeyFormat::Ed25519,
            out.secret_view().len() == 32,
            out.public_view() == KeyPair::public_of(KeyFormat::Ed25519, out.secret_view()),
    {
        KeyPair::Ed25519(ed25519::Keypair::generate())
    }

    /// Generates a fresh Secp256k1 key pair.
    pub fn generate_secp256k1() -> (out: KeyPair)
        ensures
            out.format_view() == KeyFormat::Secp256k1,
            out.secret_view().len() == 32,
            out.public_view() == KeyPair::public_of(KeyFormat::Secp256k1, out.secret_view()),
    {
        KeyPair::Secp256k1(secp256k1::Keypair::generate())
    }

    /// Decodes a Secp256k1 key pair from a DER-encoded secret key in an ECPrivateKey
    /// structure, and zeroes the input on success.
    pub fn secp256k1_from_der(der: &mut Vec<u8>) -> (out: Result<KeyPair, DecodingError>)
        ensures
            match out {
                Ok(pair) => {
                    &&& secp256k1::der_private_key(old(der)@) == Some(pair.secret_view())
                    &&& pair.format_view() == KeyFormat::Secp256k1
                    &&& pair.public_view() == KeyPair::public_of(
                        KeyFormat::Secp256k1,
                        pair.secret_view(),
                    )
                    &&& final(der)@.len() == old(der)@.len()
                    &&& forall|i: int| 0 <= i < final(der)@.len() ==> final(der)@[i] == 0u8
                },
                Err(DecodingError::Secp256k1) => {
                    &&& (secp256k1::der_private_key(old(der)@) matches Some(key)
                        ==> !secp256k1::secp256k1_secret_valid(key))
                    &&& final(der)@ == old(der)@
                },
                Err(_) => false,
            },
    {
        match secp256k1::SecretKey::from_der(der) {
            Ok(secret) => Ok(KeyPair::Secp256k1(secp256k1::Keypair::from_secret(secret))),
            Err(e) => Err(e),
        }
    }

    /// Signs `msg` with the secret of this pair. The signature is the one that this pair
    /// makes on `msg`, and verification accepts it under the public key of this pair.
    pub fn sign(&self, msg: &[u8]) -> (out: Result<Signature, SigningError>)
        ensures
            out matches Ok(sig) && sig@ == self.signature_view(msg@) && signature_accepted(
                self.public_view(),
                msg@,
                sig@,
            ),
    {
        match self {
            KeyPair::Ed25519(pair) => {
                match pair.sign(msg) {
                    Ok(raw) => {
                        proof {
                            use_type_invariant(pair);
                            pair.lemma_wf();
                        }
                        assert((seq![ED25519_TAG] + pair.public_bytes()).subrange(1, 33)
                            =~= pair.public_bytes());
                        assert((seq![ED25519_TAG] + raw@).subrange(1, 65) =~= raw@);
                        Ok(Signature::Ed25519(ed25519::Signature(raw)))
                    },
                    Err(e) => Err(e),
                }
            },
            KeyPair::Secp256k1(pair) => {
                match pair.secret().sign(msg) {
                    Ok(raw) => {
                        proof {
                            use_type_invariant(pair);
                            pair.lemma_wf();
                        }
                        assert((seq![SECP256K1_TAG] + pair.public_bytes()).subrange(1, 34)
                            =~= pair.public_bytes());
                        assert((seq![SECP256K1_TAG] + raw@).subrange(1, 1 + raw@.len() as int)
                            =~= raw@);
                        Ok(Signature::Secp256k1(secp256k1::Signature(raw)))
                    },
                    Err(e) => Err(SigningError::Secp256k1(e)),
                }
            },
        }
    }

    /// The format of this pair.
    pub fn key_format(&self) -> (out: KeyFormat)
        ensures
            out == self.format_view(),
    {
        match self {
            KeyPair::Ed25519(_) => KeyFormat::Ed25519,
            KeyPair::Secp256k1(_) => KeyFormat::Secp256k1,
        }
    }

    /// The public key of this pair.
    pub fn public(&self) -> (out: PublicKey)
        ensures
            out@ == self.public_view(),
    {
        match self {
            KeyPair::Ed25519(pair) => PublicKey::Ed25519(pair.public()),
            KeyPair::Secp256k1(pair) => PublicKey::Secp256k1(pair.public().clone()),
        }
    }

    /// The raw secret bytes of this pair.
    pub fn secret(&self) -> (out: Vec<u8>)
        ensures
            out@ == self.secret_view(),
    {
        match self {
            KeyPair::Ed25519(pair) => pair.secret().to_bytes(),
            KeyPair::Secp256k1(pair) => pair.secret().to_bytes(),
        }
    }

    /// The peer id of the public key of this pair.
    pub fn get_peer_id(&self) -> (out: String)
        ensures
            public_key_of_peer_id(out@) == Some(self.public_view()),
    {
        self.public().to_peer_id()
    }

    /// Verifies `signature` on `msg` under `pk`.
    pub fn verify(pk: &PublicKey, msg: &[u8], signature: &Signature) -> (out: Result<
        (),
        VerificationError,
    >)
        ensures
            out is Ok <==> signature_accepted(pk@, msg@, signature@),
    {
        pk.verify(msg, signature)
    }

    /// The bytes of this pair: for Ed25519 the secret and then the public key, for
    /// Secp256k1 the secret.
    pub fn to_vec(&self) -> (out: Vec<u8>)
        ensures
            out@ == match self.format_view() {
                KeyFormat::Ed25519 => self.secret_view() + self.public_view().subrange(1, 33),
                KeyFormat::Secp256k1 => self.secret_view(),
            },
    {
        match self {
            KeyPair::Ed25519(pair) => {
                let out = pair.encode();
                proof {
                    use_type_invariant(pair);
                    pair.lemma_wf();
                }
                assert((seq![ED25519_TAG] + pair.public_bytes()).subrange(1, 33)
                    =~= pair.public_bytes());
                out
            },
            KeyPair::Secp256k1(pair) => pair.secret().to_bytes(),
        }
    }

    /// Decodes a pair of the given format from the bytes that `to_vec` makes.
    pub fn from_vec(bytes: Vec<u8>, format: KeyFormat) -> (out: Result<KeyPair, DecodingError>)
        ensures
            match format {
                KeyFormat::Ed25519 => match out {
                    Ok(pair) => {
                        &&& ed25519::keypair_bytes_valid(bytes@)
                        &&& pair.format_view() == format
                        &&& pair.secret_view() == bytes@.subrange(0, 32)
                        &&& pair.public_view() == seq![ED25519_TAG] + bytes@.subrange(32, 64)
                    },
                    Err(DecodingError::InvalidLength) => bytes@.len() != 64,
                    Err(DecodingError::Ed25519(_)) => bytes@.len() == 64
                        && !ed25519::keypair_bytes_valid(bytes@),
                    Err(_) => false,
                },
                KeyFormat::Secp256k1 => match out {
                    Ok(pair) => {
                        &&& secp256k1::secp256k1_secret_valid(bytes@)
                        &&& pair.format_view() == format
                        &&& pair.secret_view() == bytes@
                        &&& pair.public_view() == KeyPair::public_of(format, bytes@)
                    },
                    Err(DecodingError::Secp256k1) => !secp256k1::secp256k1_secret_valid(bytes@),
                    Err(_) => false,
                },
            },
    {
        let mut bytes = bytes;
        match format {
            KeyFormat::Ed25519 => {
                match ed25519::Keypair::decode(&mut bytes) {
                    Ok(pair) => Ok(KeyPair::Ed25519(pair)),
                    Err(e) => Err(e),
                }
            },
            KeyFormat::Secp256k1 => {
                match secp256k1::SecretKey::from_bytes(&mut bytes) {
                    Ok(secret) => Ok(KeyPair::Secp256k1(secp256k1::Keypair::from_secret(secret))),
                    Err(e) => Err(e),
                }
            },
        }
    }

    /// The pair of the given format that belongs to a raw secret key.
    pub fn from_secret_key(bytes: Vec<u8>, format: KeyFormat) -> (out: Result<
        KeyPair,
        DecodingError,
    >)
        ensures
            match out {
                Ok(pair) => {
                    &&& bytes@.len() == 32
                    &&& pair.format_view() == format
                    &&& pair.secret_view() == bytes@
                    &&& pair.public_view() == KeyPair::public_of(format, bytes@)
                },
                Err(DecodingError::InvalidLength) => format == KeyFormat::Ed25519 && bytes@.len()
                    != 32,
                Err(DecodingError::Secp256k1) => format == KeyFormat::Secp256k1
                    && !secp256k1::secp256k1_secret_valid(bytes@),
                Err(_) => false,
            },
    {
        let mut bytes = bytes;
        match format {
            KeyFormat::Ed25519 => {
                match ed25519::SecretKey::from_bytes(&mut bytes) {
                    Ok(secret) => Ok(KeyPair::Ed25519(ed25519::Keypair::from_secret(secret))),
                    Err(e) => Err(e),
                }
            },
            KeyFormat::Secp256k1 => {
                match secp256k1::SecretKey::from_bytes(&mut bytes) {
                    Ok(secret) => Ok(KeyPair::Secp256k1(secp256k1::Keypair::from_secret(secret))),
                    Err(e) => Err(e),
                }
            },
        }
    }
}

impl Clone for KeyPair {
    fn clone(&self) -> (out: Self)
        ensures
            out.public_view() == self.public_view(),
            out.secret_view() == self.secret_view(),
            out.format_view() == self.format_view(),
    {
        match self {
            KeyPair::Ed25519(pair) => KeyPair::Ed25519(pair.clone()),
            KeyPair::Secp256k1(pair) => KeyPair::Secp256k1(pair.clone()),
        }
    }
}

} // verus!
