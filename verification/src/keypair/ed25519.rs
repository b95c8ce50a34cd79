//! Ed25519 keys. The curve arithmetic is done by `ed25519_dalek`; this module holds the
//! keys as bytes and states what the calls into that crate are trusted to do.

use crate::bytes::{bytes_equal, copy_bytes, wipe};
use crate::keypair::error::{DecodingError, SigningError};
use ed25519_dalek::Signer;
use ed25519_dalek::Verifier;
use vstd::prelude::*;
use vstd::slice::slice_subrange;

verus! {

pub const SECRET_KEY_LENGTH: usize = 32;

pub const PUBLIC_KEY_LENGTH: usize = 32;

pub const KEYPAIR_LENGTH: usize = 64;

pub const SIGNATURE_LENGTH: usize = 64;

/// The public key bytes that belong to a 32-byte secret.
pub uninterp spec fn ed25519_public_of(secret: Seq<u8>) -> Seq<u8>;

/// The signature that a 32-byte secret makes on a message.
pub uninterp spec fn ed25519_signature_of(secret: Seq<u8>, msg: Seq<u8>) -> Seq<u8>;

/// Whether verification accepts `sig` on `msg` under the public key bytes `public`.
pub uninterp spec fn ed25519_accepts(public: Seq<u8>, msg: Seq<u8>, sig: Seq<u8>) -> bool;

/// Whether `bytes` are accepted as the encoding of a public key.
pub uninterp spec fn ed25519_key_valid(bytes: Seq<u8>) -> bool;

/// Calls `SigningKey::generate` with the operating system's random source and hands out
/// the secret. Trusted: the secret is 32 bytes long. Nothing else is claimed of it.
#[verifier::external_body]
fn random_secret() -> (secret: Vec<u8>)
    ensures
        secret@.len() == 32,
{
    ed25519_dalek::SigningKey::generate(&mut rand::rngs::OsRng).to_bytes().to_vec()
}

/// Calls `SigningKey::from_bytes` and `verifying_key`. Trusted: the public key is a
/// function of the secret alone, is 32 bytes long, and is itself accepted as a key
/// encoding (a `VerifyingKey` always holds bytes that decompress).
#[verifier::external_body]
fn derive_public(secret: &[u8]) -> (public: Vec<u8>)
    requires
        secret@.len() == 32,
    ensures
        public@ == ed25519_public_of(secret@),
        public@.len() == 32,
        ed25519_key_valid(public@),
{
    let secret: [u8; 32] = secret.try_into().unwrap();
    ed25519_dalek::SigningKey::from_bytes(&secret).verifying_key().to_bytes().to_vec()
}

/// Calls `Signer::try_sign` on the `SigningKey` of `secret`. Trusted: with a 32-byte
/// secret the call succeeds; the signature is a function of secret and message alone, is
/// 64 bytes long, and is accepted under the public key of that secret.
#[verifier::external_body]
fn sign_message(secret: &[u8], msg: &[u8]) -> (out: Result<Vec<u8>, ed25519_dalek::SignatureError>)
    ensures
        secret@.len() == 32 ==> out is Ok,
        out matches Ok(sig) ==> {
            &&& sig@ == ed25519_signature_of(secret@, msg@)
            &&& sig@.len() == 64
            &&& ed25519_accepts(ed25519_public_of(secret@), msg@, sig@)
        },
{
    let key = ed25519_dalek::SigningKey::try_from(secret)?;
    key.try_sign(msg).map(|sig| sig.to_bytes().to_vec())
}

/// Calls `Signature::try_from` and `Verifier::verify` on the `VerifyingKey` of `public`.
/// Trusted: whether the call succeeds is a function of the three byte strings alone.
#[verifier::external_body]
fn verify_message(public: &[u8], msg: &[u8], sig: &[u8]) -> (out: Result<
    (),
    ed25519_dalek::SignatureError,
>)
    ensures
        out is Ok <==> ed25519_accepts(public@, msg@, sig@),
{
    let key = ed25519_dalek::VerifyingKey::try_from(public)?;
    ed25519_dalek::Signature::try_from(sig).and_then(|sig| key.verify(msg, &sig))
}

/// Calls `VerifyingKey::try_from`. Trusted: whether the bytes are accepted is a function
/// of the bytes alone, and only 32 bytes are ever accepted.
#[verifier::external_body]
fn check_public(bytes: &[u8]) -> (out: Result<(), ed25519_dalek::SignatureError>)
    ensures
        out is Ok <==> ed25519_key_valid(bytes@),
        out is Ok ==> bytes@.len() == 32,
{
    ed25519_dalek::VerifyingKey::try_from(bytes).map(|_| ())
}

/// Calls `SigningKey::from_keypair_bytes`. Trusted: 64 bytes are accepted exactly when
/// their second half is a valid public key and is the public key of their first half.
#[verifier::external_body]
fn check_keypair(bytes: &[u8]) -> (out: Result<(), ed25519_dalek::SignatureError>)
    requires
        bytes@.len() == 64,
    ensures
        out is Ok <==> {
            &&& ed25519_key_valid(bytes@.subrange(32, 64))
            &&& ed25519_public_of(bytes@.subrange(0, 32)) == bytes@.subrange(32, 64)
        },
{
    let bytes: [u8; 64] = bytes.try_into().unwrap();
    ed25519_dalek::SigningKey::from_keypair_bytes(&bytes).map(|_| ())
}

/// An Ed25519 public key: 32 bytes that the curve library accepts. Keys are ordered
/// and hashed by their bytes.
#[derive(Debug, PartialEq, Eq, PartialOrd, Ord, Hash)]
pub struct PublicKey {
    bytes: Vec<u8>,
}

/// An Ed25519 secret key: 32 bytes.
pub struct SecretKey {
    bytes: Vec<u8>,
}

/// An Ed25519 key pair: a secret and the public key that belongs to it.
pub struct Keypair {
    secret: SecretKey,
    public: PublicKey,
}

/// An Ed25519 signature as raw bytes. Any bytes can be held; only verification judges them.
#[derive(Debug)]
pub struct Signature(pub Vec<u8>);

impl View for PublicKey {
    type V = Seq<u8>;

    closed spec fn view(&self) -> Seq<u8> {
        self.bytes@
    }
}

impl View for SecretKey {
    type V = Seq<u8>;

    closed spec fn view(&self) -> Seq<u8> {
        self.bytes@
    }
}

impl View for Signature {
    type V = Seq<u8>;

    open spec fn view(&self) -> Seq<u8> {
        self.0@
    }
}

impl PublicKey {
    /// What every public key satisfies: 32 bytes that are a valid key encoding.
    #[verifier::type_invariant]
    pub closed spec fn wf(self) -> bool {
        self.bytes@.len() == 32 && ed25519_key_valid(self.bytes@)
    }

    /// A well-formed key views as 32 valid bytes.
    pub proof fn lemma_wf(self)
        requires
            self.wf(),
        ensures
            self@.len() == 32,
            ed25519_key_valid(self@),
    {
    }

    /// Verifies `sig` on `msg` under this key.
    pub fn verify(&self, msg: &[u8], sig: &[u8]) -> (out: Result<
        (),
        ed25519_dalek::SignatureError,
    >)
        ensures
            out is Ok <==> ed25519_accepts(self@, msg@, sig@),
    {
        verify_message(self.bytes.as_slice(), msg, sig)
    }

    /// The 32 bytes of the key in compressed form.
    pub fn encode(&self) -> (out: Vec<u8>)
        ensures
            out@ == self@,
            out@.len() == 32,
    {
        proof {
            use_type_invariant(self);
        }
        copy_bytes(self.bytes.as_slice())
    }

    /// Decodes a key from its 32 bytes.
    pub fn decode(bytes: &[u8]) -> (out: Result<PublicKey, DecodingError>)
        ensures
            match out {
                Ok(key) => bytes@.len() == 32 && ed25519_key_valid(bytes@) && key@ == bytes@,
                Err(DecodingError::InvalidLength) => bytes@.len() != 32,
                Err(DecodingError::Ed25519(_)) => bytes@.len() == 32 && !ed25519_key_valid(bytes@),
                Err(_) => false,
            },
    {
        if bytes.len() != PUBLIC_KEY_LENGTH {
            return Err(DecodingError::InvalidLength);
        }
        match check_public(bytes) {
            Ok(()) => Ok(PublicKey { bytes: copy_bytes(bytes) }),
            Err(e) => Err(DecodingError::Ed25519(e)),
        }
    }

    /// Whether two keys hold the same bytes.
    pub fn same(&self, other: &PublicKey) -> (same: bool)
        ensures
            same == (self@ == other@),
    {
        bytes_equal(self.bytes.as_slice(), other.bytes.as_slice())
    }
}

impl Clone for PublicKey {
    fn clone(&self) -> (out: Self)
        ensures
            out@ == self@,
    {
        proof {
            use_type_invariant(self);
        }
        PublicKey { bytes: copy_bytes(self.bytes.as_slice()) }
    }
}

impl SecretKey {
    #[verifier::type_invariant]
    spec fn well_formed(self) -> bool {
        self.bytes@.len() == 32
    }

    /// Generates a fresh secret key from the system's random source.
    pub fn generate() -> (out: SecretKey)
        ensures
            out@.len() == 32,
    {
        SecretKey { bytes: random_secret() }
    }

    /// Takes a secret key from exactly 32 bytes and zeroes the input on success.
    pub fn from_bytes(sk_bytes: &mut Vec<u8>) -> (out: Result<SecretKey, DecodingError>)
        ensures
            match out {
                Ok(key) => {
                    &&& old(sk_bytes)@.len() == 32
                    &&& key@ == old(sk_bytes)@
                    &&& final(sk_bytes)@ == Seq::new(32, |i: int| 0u8)
                },
                Err(DecodingError::InvalidLength) => {
                    &&& old(sk_bytes)@.len() != 32
                    &&& final(sk_bytes)@ == old(sk_bytes)@
                },
                Err(_) => false,
            },
    {
        if sk_bytes.len() != SECRET_KEY_LENGTH {
            return Err(DecodingError::InvalidLength);
        }
        let key = SecretKey { bytes: copy_bytes(sk_bytes.as_slice()) };
        wipe(sk_bytes);
        assert(sk_bytes@ =~= Seq::new(32, |i: int| 0u8));
        Ok(key)
    }

    /// The 32 secret bytes.
    pub fn to_bytes(&self) -> (out: Vec<u8>)
        ensures
            out@ == self@,
            out@.len() == 32,
    {
        proof {
            use_type_invariant(self);
        }
        copy_bytes(self.bytes.as_slice())
    }
}

impl Clone for SecretKey {
    fn clone(&self) -> (out: Self)
        ensures
            out@ == self@,
    {
        proof {
            use_type_invariant(self);
        }
        SecretKey { bytes: copy_bytes(self.bytes.as_slice()) }
    }
}

impl Keypair {
    /// What every key pair satisfies: the public key belongs to the 32-byte secret.
    #[verifier::type_invariant]
    pub closed spec fn wf(self) -> bool {
        &&& self.secret@.len() == 32
        &&& self.public.wf()
        &&& self.public@ == ed25519_public_of(self.secret@)
    }

    /// The secret bytes of the pair.
    pub closed spec fn secret_bytes(&self) -> Seq<u8> {
        self.secret@
    }

    /// The public key bytes of the pair.
    pub closed spec fn public_bytes(&self) -> Seq<u8> {
        self.public@
    }

    /// The public key of a well-formed pair is the one that belongs to its secret.
    pub proof fn lemma_wf(self)
        requires
            self.wf(),
        ensures
            self.secret_bytes().len() == 32,
            self.public_bytes().len() == 32,
            self.public_bytes() == ed25519_public_of(self.secret_bytes()),
            ed25519_key_valid(self.public_bytes()),
    {
    }

    /// Generates a fresh key pair: a fresh secret with the public key that belongs to it.
    pub fn generate() -> (out: Keypair)
        ensures
            out.secret_bytes().len() == 32,
            out.public_bytes() == ed25519_public_of(out.secret_bytes()),
    {
        let out = Keypair::from_secret(SecretKey::generate());
        proof {
            use_type_invariant(&out);
            out.lemma_wf();
        }
        out
    }

    /// The key pair that belongs to a secret key.
    pub fn from_secret(secret: SecretKey) -> (out: Keypair)
        ensures
            out.secret_bytes() == secret@,
            out.public_bytes() == ed25519_public_of(secret@),
    {
        proof {
            use_type_invariant(&secret);
        }
        let public = derive_public(secret.bytes.as_slice());
        Keypair { secret, public: PublicKey { bytes: public } }
    }

    /// The 64 bytes of the pair: the secret, then the public key.
    pub fn encode(&self) -> (out: Vec<u8>)
        ensures
            out@ == self.secret_bytes() + self.public_bytes(),
            out@.len() == 64,
    {
        proof {
            use_type_invariant(self);
            use_type_invariant(&self.secret);
            use_type_invariant(&self.public);
        }
        let mut out = copy_bytes(self.secret.bytes.as_slice());
        crate::bytes::append_bytes(&mut out, self.public.bytes.as_slice());
        out
    }

    /// Decodes a pair from the 64 bytes that `encode` makes, and zeroes the input on
    /// success. The public half must be the public key of the secret half.
    pub fn decode(kp: &mut Vec<u8>) -> (out: Result<Keypair, DecodingError>)
        ensures
            match out {
                Ok(pair) => {
                    &&& keypair_bytes_valid(old(kp)@)
                    &&& pair.secret_bytes() == old(kp)@.subrange(0, 32)
                    &&& pair.public_bytes() == old(kp)@.subrange(32, 64)
                    &&& final(kp)@ == Seq::new(64, |i: int| 0u8)
                },
                Err(DecodingError::InvalidLength) => {
                    &&& old(kp)@.len() != 64
                    &&& final(kp)@ == old(kp)@
                },
                Err(DecodingError::Ed25519(_)) => {
                    &&& old(kp)@.len() == 64
                    &&& !keypair_bytes_valid(old(kp)@)
                    &&& final(kp)@ == old(kp)@
                },
                Err(_) => false,
            },
    {
        if kp.len() != KEYPAIR_LENGTH {
            return Err(DecodingError::InvalidLength);
        }
        match check_keypair(kp.as_slice()) {
            Ok(()) => {
                let secret = copy_bytes(slice_subrange(kp.as_slice(), 0, SECRET_KEY_LENGTH));
                let public = copy_bytes(slice_subrange(kp.as_slice(), SECRET_KEY_LENGTH, KEYPAIR_LENGTH));
                wipe(kp);
                assert(kp@ =~= Seq::new(64, |i: int| 0u8));
                Ok(Keypair { secret: SecretKey { bytes: secret }, public: PublicKey { bytes: public } })
            },
            Err(e) => Err(DecodingError::Ed25519(e)),
        }
    }

    /// Signs a message with the secret of this pair.
    pub fn sign(&self, msg: &[u8]) -> (out: Result<Vec<u8>, SigningError>)
        ensures
            out matches Ok(sig) && sig@ == ed25519_signature_of(self.secret_bytes(), msg@)
                && sig@.len() == 64 && ed25519_accepts(self.public_bytes(), msg@, sig@),
    {
        proof {
            use_type_invariant(self);
            use_type_invariant(&self.secret);
        }
        match sign_message(self.secret.bytes.as_slice(), msg) {
            Ok(sig) => Ok(sig),
            Err(e) => Err(SigningError::Ed25519(e)),
        }
    }

    /// The public key of this pair.
    pub fn public(&self) -> (out: PublicKey)
        ensures
            out@ == self.public_bytes(),
    {
        self.public.clone()
    }

    /// The secret key of this pair.
    pub fn secret(&self) -> (out: SecretKey)
        ensures
            out@ == self.secret_bytes(),
    {
        self.secret.clone()
    }
}

impl Clone for Keypair {
    fn clone(&self) -> (out: Self)
        ensures
            out.secret_bytes() == self.secret_bytes(),
            out.public_bytes() == self.public_bytes(),
    {
        proof {
            use_type_invariant(self);
        }
        Keypair { secret: self.secret.clone(), public: self.public.clone() }
    }
}

/// Whether 64 bytes are the encoding of a key pair.
pub open spec fn keypair_bytes_valid(bytes: Seq<u8>) -> bool {
    &&& bytes.len() == 64
    &&& ed25519_key_valid(bytes.subrange(32, 64))
    &&& ed25519_public_of(bytes.subrange(0, 32)) == bytes.subrange(32, 64)
}

/// Decoding what `encode` made gives the same key pair back.
pub proof fn lemma_keypair_round_trip(pair: Keypair)
    requires
        pair.wf(),
    ensures
        keypair_bytes_valid(pair.secret_bytes() + pair.public_bytes()),
        (pair.secret_bytes() + pair.public_bytes()).subrange(0, 32) == pair.secret_bytes(),
        (pair.secret_bytes() + pair.public_bytes()).subrange(32, 64) == pair.public_bytes(),
{
    pair.lemma_wf();
    let bytes = pair.secret_bytes() + pair.public_bytes();
    assert(bytes.subrange(0, 32) =~= pair.secret_bytes());
    assert(bytes.subrange(32, 64) =~= pair.public_bytes());
}

} // verus!
