//! Secp256k1 keys. The curve arithmetic is done by `libsecp256k1`; this module holds
//! the keys as bytes and states what the calls into that crate are trusted to do.
//! Messages are signed as their SHA-256 digest, and signatures are DER-encoded.

use crate::bytes::{bytes_equal, copy_bytes, wipe};
use crate::digest::{sha256, sha256_of};
use crate::keypair::error::DecodingError;
use asn1_der::typed::DerDecodable;
use vstd::prelude::*;

verus! {

pub const SECRET_KEY_LENGTH: usize = 32;

pub const PUBLIC_KEY_LENGTH: usize = 33;

pub const UNCOMPRESSED_PUBLIC_KEY_LENGTH: usize = 65;

/// Whether `bytes` are accepted as a secret key.
pub uninterp spec fn secp256k1_secret_valid(bytes: Seq<u8>) -> bool;

/// The compressed public key that belongs to a secret key.
pub uninterp spec fn secp256k1_public_of(secret: Seq<u8>) -> Seq<u8>;

/// The DER-encoded signature that a secret key makes on a 32-byte digest.
pub uninterp spec fn secp256k1_signature_of(secret: Seq<u8>, digest: Seq<u8>) -> Seq<u8>;

/// Whether verification accepts the DER-encoded `sig` on `digest` under the compressed
/// public key `public`.
pub uninterp spec fn secp256k1_accepts(public: Seq<u8>, digest: Seq<u8>, sig: Seq<u8>) -> bool;

/// Whether `bytes` are accepted as a compressed public key.
pub uninterp spec fn secp256k1_key_valid(bytes: Seq<u8>) -> bool;

/// The uncompressed form of a compressed public key.
pub uninterp spec fn secp256k1_uncompressed(public: Seq<u8>) -> Seq<u8>;

/// Calls `SecretKey::random` with the thread's random source and `serialize`. Trusted:
/// the secret is 32 bytes long and is accepted as a secret key. Nothing else is claimed.
#[verifier::external_body]
fn random_secret() -> (secret: Vec<u8>)
    ensures
        secret@.len() == 32,
        secp256k1_secret_valid(secret@),
{
    libsecp256k1::SecretKey::random(&mut rand::thread_rng()).serialize().to_vec()
}

/// Calls `SecretKey::parse_slice`. Trusted: whether the bytes are accepted is a function
/// of the bytes alone, and only 32 bytes are ever accepted.
#[verifier::external_body]
fn check_secret(bytes: &[u8]) -> (ok: bool)
    ensures
        ok == secp256k1_secret_valid(bytes@),
        ok ==> bytes@.len() == 32,
{
    libsecp256k1::SecretKey::parse_slice(bytes).is_ok()
}

/// Calls `PublicKey::from_secret_key` and `serialize_compressed`. Trusted: the public
/// key is a function of the secret alone, is 33 bytes long, and is itself accepted as a
/// compressed public key.
#[verifier::external_body]
fn derive_public(secret: &[u8]) -> (public: Vec<u8>)
    requires
        secp256k1_secret_valid(secret@),
    ensures
        public@ == secp256k1_public_of(secret@),
        public@.len() == 33,
        secp256k1_key_valid(public@),
{
    let secret = libsecp256k1::SecretKey::parse_slice(secret).unwrap();
    libsecp256k1::PublicKey::from_secret_key(&secret).serialize_compressed().to_vec()
}

/// Calls `Message::parse_slice`, `sign` and `serialize_der`. Trusted: the signature is
/// a function of secret and digest alone and is accepted under the public key of the
/// secret. A digest that is not 32 bytes long is refused with the crate's message.
#[verifier::external_body]
fn sign_digest(secret: &[u8], digest: &[u8]) -> (out: Result<Vec<u8>, String>)
    requires
        secp256k1_secret_valid(secret@),
    ensures
        out is Ok <==> digest@.len() == 32,
        out matches Ok(sig) ==> {
            &&& sig@ == secp256k1_signature_of(secret@, digest@)
            &&& secp256k1_accepts(secp256k1_public_of(secret@), digest@, sig@)
        },
{
    let secret = libsecp256k1::SecretKey::parse_slice(secret).unwrap();
    let message = libsecp256k1::Message::parse_slice(digest).map_err(|e| format!("{:?}", e))?;
    Ok(libsecp256k1::sign(&message, &secret).0.serialize_der().as_ref().to_vec())
}

/// Calls `Message::parse_slice`, `Signature::parse_der`, `PublicKey::parse_slice` and
/// `verify`. Trusted: whether the three parse and the check says yes is a function of
/// the three byte strings alone. A failure to parse is handed out as the crate's message.
#[verifier::external_body]
fn verify_digest(public: &[u8], digest: &[u8], sig: &[u8]) -> (out: Result<bool, String>)
    ensures
        out matches Ok(true) <==> secp256k1_accepts(public@, digest@, sig@),
{
    let message = libsecp256k1::Message::parse_slice(digest).map_err(|e| format!("{:?}", e))?;
    let signature = libsecp256k1::Signature::parse_der(sig).map_err(|e| format!("{:?}", e))?;
    let format = Some(libsecp256k1::PublicKeyFormat::Compressed);
    let key = libsecp256k1::PublicKey::parse_slice(public, format).map_err(|e| format!("{:?}", e))?;
    Ok(libsecp256k1::verify(&message, &signature, &key))
}

/// Calls `PublicKey::parse_slice` for the compressed format. Trusted: whether the bytes
/// are accepted is a function of the bytes alone, and only 33 bytes are ever accepted.
#[verifier::external_body]
fn check_public(bytes: &[u8]) -> (ok: bool)
    ensures
        ok == secp256k1_key_valid(bytes@),
        ok ==> bytes@.len() == 33,
{
    libsecp256k1::PublicKey::parse_slice(bytes, Some(libsecp256k1::PublicKeyFormat::Compressed)).is_ok()
}

/// Calls `PublicKey::parse_slice` and `serialize`. Trusted: the uncompressed form is a
/// function of the compressed key alone and is 65 bytes long.
#[verifier::external_body]
fn uncompress(public: &[u8]) -> (full: Vec<u8>)
    requires
        secp256k1_key_valid(public@),
    ensures
        full@ == secp256k1_uncompressed(public@),
        full@.len() == 65,
{
    let format = Some(libsecp256k1::PublicKeyFormat::Compressed);
    libsecp256k1::PublicKey::parse_slice(public, format).unwrap().serialize().to_vec()
}

/// The octet string at the second place of the DER-encoded sequence `der`, if `der` is
/// such a sequence and holds an octet string there.
pub uninterp spec fn der_private_key(der: Seq<u8>) -> Option<Seq<u8>>;

/// Calls `Sequence::decode`, `Sequence::get` for the second element and
/// `Vec::<u8>::load` of `asn1_der`. Trusted: whether the bytes are a sequence with an
/// octet string at its second place, and which, is a function of the bytes alone.
#[verifier::external_body]
fn private_key_of_der(der: &[u8]) -> (out: Option<Vec<u8>>)
    ensures
        match out {
            Some(key) => der_private_key(der@) == Some(key@),
            None => der_private_key(der@) is None,
        },
{
    let sequence = asn1_der::typed::Sequence::decode(der).ok()?;
    let object = sequence.get(1).ok()?;
    Vec::<u8>::load(object).ok()
}

/// A Secp256k1 public key: 33 bytes that the curve library accepts as a compressed key.
/// Keys are ordered and hashed by their bytes.
#[derive(Debug, PartialEq, Eq, PartialOrd, Ord, Hash)]
pub struct PublicKey {
    bytes: Vec<u8>,
}

/// A Secp256k1 secret key: 32 bytes that the curve library accepts.
pub struct SecretKey {
    bytes: Vec<u8>,
}

/// A Secp256k1 key pair: a secret and the public key that belongs to it.
pub struct Keypair {
    secret: SecretKey,
    public: PublicKey,
}

/// A DER-encoded Secp256k1 signature as bytes. Any bytes can be held; only verification
/// judges them.
#[derive(Debug)]
pub struct Signature(pub Vec<u8>);

impl View for PublicKey {
    type V = Seq<u8>;

    closed spec fn view(&self) -> Seq<u8> {
        self.bytes@
    }
}

impl View for SecretKey {
    type V = Seq<u8>;

    closed spec fn view(&self) -> Seq<u8> {
        self.bytes@
    }
}

impl View for Signature {
    type V = Seq<u8>;

    open spec fn view(&self) -> Seq<u8> {
        self.0@
    }
}

impl PublicKey {
    /// What every public key satisfies: 33 bytes that are a valid compressed key.
    #[verifier::type_invariant]
    pub closed spec fn wf(self) -> bool {
        self.bytes@.len() == 33 && secp256k1_key_valid(self.bytes@)
    }

    /// A well-formed key views as 33 valid bytes.
    pub proof fn lemma_wf(self)
        requires
            self.wf(),
        ensures
            self@.len() == 33,
            secp256k1_key_valid(self@),
    {
    }

    /// Verifies the DER-encoded `sig` on the SHA-256 digest of `msg` under this key.
    pub fn verify(&self, msg: &[u8], sig: &[u8]) -> (out: Result<(), String>)
        ensures
            out is Ok <==> secp256k1_accepts(self@, sha256_of(msg@), sig@),
    {
        let digest = sha256(msg);
        self.verify_hashed(digest.as_slice(), sig)
    }

    /// Verifies the DER-encoded `sig` on a raw 256-bit message under this key.
    pub fn verify_hashed(&self, msg: &[u8], sig: &[u8]) -> (out: Result<(), String>)
        ensures
            out is Ok <==> secp256k1_accepts(self@, msg@, sig@),
    {
        match verify_digest(self.bytes.as_slice(), msg, sig) {
            Ok(true) => Ok(()),
            Ok(false) => Err("signature does not verify".to_owned()),
            Err(e) => Err(e),
        }
    }

    /// The 33 bytes of the key in compressed form.
    pub fn encode(&self) -> (out: Vec<u8>)
        ensures
            out@ == self@,
            out@.len() == 33,
    {
        proof {
            use_type_invariant(self);
        }
        copy_bytes(self.bytes.as_slice())
    }

    /// The 65 bytes of the key in uncompressed form.
    pub fn encode_uncompressed(&self) -> (out: Vec<u8>)
        ensures
            out@ == secp256k1_uncompressed(self@),
            out@.len() == 65,
    {
        proof {
            use_type_invariant(self);
        }
        uncompress(self.bytes.as_slice())
    }

    /// Decodes a key from its 33 bytes in compressed form.
    pub fn decode(bytes: &[u8]) -> (out: Result<PublicKey, DecodingError>)
        ensures
            match out {
                Ok(key) => bytes@.len() == 33 && secp256k1_key_valid(bytes@) && key@ == bytes@,
                Err(DecodingError::Secp256k1) => bytes@.len() != 33 || !secp256k1_key_valid(bytes@),
                Err(_) => false,
            },
    {
        if check_public(bytes) {
            Ok(PublicKey { bytes: copy_bytes(bytes) })
        } else {
            Err(DecodingError::Secp256k1)
        }
    }

    /// Whether two keys hold the same bytes.
    pub fn same(&self, other: &PublicKey) -> (same: bool)
        ensures
            same == (self@ == other@),
    {
        bytes_equal(self.bytes.as_slice(), other.bytes.as_slice())
    }
}

impl Clone for PublicKey {
    fn clone(&self) -> (out: Self)
        ensures
            out@ == self@,
    {
        proof {
            use_type_invariant(self);
        }
        PublicKey { bytes: copy_bytes(self.bytes.as_slice()) }
    }
}

impl SecretKey {
    /// What every secret key satisfies: 32 bytes that are a valid secret.
    #[verifier::type_invariant]
    pub closed spec fn wf(self) -> bool {
        self.bytes@.len() == 32 && secp256k1_secret_valid(self.bytes@)
    }

    /// A well-formed secret views as 32 valid bytes.
    pub proof fn lemma_wf(self)
        requires
            self.wf(),
        ensures
            self@.len() == 32,
            secp256k1_secret_valid(self@),
    {
    }

    /// Generates a fresh secret key.
    pub fn generate() -> (out: SecretKey)
        ensures
            out@.len() == 32,
            secp256k1_secret_valid(out@),
    {
        SecretKey { bytes: random_secret() }
    }

    /// Takes a secret key from bytes and zeroes the input on success. Bytes that the
    /// curve library does not accept as a secret are refused and left as they are.
    pub fn from_bytes(sk_bytes: &mut Vec<u8>) -> (out: Result<SecretKey, DecodingError>)
        ensures
            match out {
                Ok(key) => {
                    &&& old(sk_bytes)@.len() == 32
                    &&& secp256k1_secret_valid(old(sk_bytes)@)
                    &&& key@ == old(sk_bytes)@
                    &&& final(sk_bytes)@ == Seq::new(32, |i: int| 0u8)
                },
                Err(DecodingError::Secp256k1) => {
                    &&& !secp256k1_secret_valid(old(sk_bytes)@)
                    &&& final(sk_bytes)@ == old(sk_bytes)@
                },
                Err(_) => false,
            },
    {
        if !check_secret(sk_bytes.as_slice()) {
            return Err(DecodingError::Secp256k1);
        }
        let key = SecretKey { bytes: copy_bytes(sk_bytes.as_slice()) };
        wipe(sk_bytes);
        assert(sk_bytes@ =~= Seq::new(32, |i: int| 0u8));
        Ok(key)
    }

    /// Decodes a DER-encoded secret key in an ECPrivateKey structure: a sequence whose
    /// second element is the octet string of the secret. The input and the bytes taken
    /// from it are zeroed on success; a failure leaves the input as it is.
    pub fn from_der(der: &mut Vec<u8>) -> (out: Result<SecretKey, DecodingError>)
        ensures
            match out {
                Ok(key) => {
                    &&& der_private_key(old(der)@) == Some(key@)
                    &&& secp256k1_secret_valid(key@)
                    &&& final(der)@.len() == old(der)@.len()
                    &&& forall|i: int| 0 <= i < final(der)@.len() ==> final(der)@[i] == 0u8
                },
                Err(DecodingError::Secp256k1) => {
                    &&& (der_private_key(old(der)@) matches Some(key) ==> !secp256k1_secret_valid(
                        key,
                    ))
                    &&& final(der)@ == old(der)@
                },
                Err(_) => false,
            },
    {
        let mut sk_bytes = match private_key_of_der(der.as_slice()) {
            Some(bytes) => bytes,
            None => {
                return Err(DecodingError::Secp256k1);
            },
        };
        match SecretKey::from_bytes(&mut sk_bytes) {
            Ok(key) => {
                wipe(der);
                Ok(key)
            },
            Err(e) => Err(e),
        }
    }

    /// Signs the SHA-256 digest of a message with this secret key, producing a
    /// DER-encoded signature.
    pub fn sign(&self, msg: &[u8]) -> (out: Result<Vec<u8>, String>)
        ensures
            out matches Ok(sig) && sig@ == secp256k1_signature_of(self@, sha256_of(msg@))
                && secp256k1_accepts(secp256k1_public_of(self@), sha256_of(msg@), sig@),
    {
        let digest = sha256(msg);
        self.sign_hashed(digest.as_slice())
    }

    /// The 32 secret bytes.
    pub fn to_bytes(&self) -> (out: Vec<u8>)
        ensures
            out@ == self@,
            out@.len() == 32,
    {
        proof {
            use_type_invariant(self);
        }
        copy_bytes(self.bytes.as_slice())
    }

    /// Signs a raw message of 256 bits with this secret key, producing a DER-encoded
    /// signature. A message of another length is refused.
    pub fn sign_hashed(&self, msg: &[u8]) -> (out: Result<Vec<u8>, String>)
        ensures
            out is Ok <==> msg@.len() == 32,
            out matches Ok(sig) ==> sig@ == secp256k1_signature_of(self@, msg@) && secp256k1_accepts(
                secp256k1_public_of(self@),
                msg@,
                sig@,
            ),
    {
        proof {
            use_type_invariant(self);
        }
        sign_digest(self.bytes.as_slice(), msg)
    }
}

impl Clone for SecretKey {
    fn clone(&self) -> (out: Self)
        ensures
            out@ == self@,
    {
        proof {
            use_type_invariant(self);
        }
        SecretKey { bytes: copy_bytes(self.bytes.as_slice()) }
    }
}

impl Keypair {
    /// What every key pair satisfies: the public key belongs to the secret.
    #[verifier::type_invariant]
    pub closed spec fn wf(self) -> bool {
        &&& self.secret.wf()
        &&& self.public.wf()
        &&& self.public@ == secp256k1_public_of(self.secret@)
    }

    /// The secret bytes of the pair.
    pub closed spec fn secret_bytes(&self) -> Seq<u8> {
        self.secret@
    }

    /// The public key bytes of the pair.
    pub closed spec fn public_bytes(&self) -> Seq<u8> {
        self.public@
    }

    /// The public key of a well-formed pair is the one that belongs to its secret.
    pub proof fn lemma_wf(self)
        requires
            self.wf(),
        ensures
            self.secret_bytes().len() == 32,
            self.public_bytes().len() == 33,
            self.public_bytes() == secp256k1_public_of(self.secret_bytes()),
            secp256k1_key_valid(self.public_bytes()),
            secp256k1_secret_valid(self.secret_bytes()),
    {
    }

    /// Generates a fresh key pair: a fresh secret with the public key that belongs to it.
    pub fn generate() -> (out: Keypair)
        ensures
            out.secret_bytes().len() == 32,
            out.public_bytes() == secp256k1_public_of(out.secret_bytes()),
    {
        Keypair::from_secret(SecretKey::generate())
    }

    /// The key pair that belongs to a secret key.
    pub fn from_secret(secret: SecretKey) -> (out: Keypair)
        ensures
            out.secret_bytes() == secret@,
            out.secret_bytes().len() == 32,
            out.public_bytes() == secp256k1_public_of(secret@),
    {
        proof {
            use_type_invariant(&secret);
        }
        let public = derive_public(secret.bytes.as_slice());
        Keypair { secret, public: PublicKey { bytes: public } }
    }

    /// The public key of this pair.
    pub fn public(&self) -> (out: &PublicKey)
        ensures
            out@ == self.public_bytes(),
    {
        &self.public
    }

    /// The secret key of this pair.
    pub fn secret(&self) -> (out: &SecretKey)
        ensures
            out@ == self.secret_bytes(),
    {
        &self.secret
    }
}

impl Clone for Keypair {
    fn clone(&self) -> (out: Self)
        ensures
            out.secret_bytes() == self.secret_bytes(),
            out.public_bytes() == self.public_bytes(),
    {
        proof {
            use_type_invariant(self);
        }
        Keypair { secret: self.secret.clone(), public: self.public.clone() }
    }
}

} // verus!
