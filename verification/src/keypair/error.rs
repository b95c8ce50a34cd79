//! Errors of key, signature and key pair handling.

use vstd::prelude::*;

verus! {

/// The failure that `ed25519_dalek` reports from key parsing, signing and verification.
#[verifier::external_type_specification]
#[verifier::external_body]
pub struct ExSignatureError(ed25519_dalek::SignatureError);

/// A key format name that is not known.
#[derive(Debug)]
pub enum Error {
    InvalidKeyFormat(String),
}

/// Why key material could not be decoded.
#[derive(Debug)]
pub enum DecodingError {
    /// The input has the wrong number of bytes.
    InvalidLength,
    /// The bytes are no Ed25519 key.
    Ed25519(ed25519_dalek::SignatureError),
    /// The bytes are no Secp256k1 key.
    Secp256k1,
    /// The leading tag byte names no supported algorithm.
    InvalidTypeByte,
    /// The text is no base58; carries what the decoder said.
    Base58DecodeError(String),
    /// A peer id does not carry its public key inline.
    PublicKeyNotInlined(String),
}

/// Why a message could not be signed.
#[derive(Debug)]
pub enum SigningError {
    /// The Ed25519 signer failed.
    Ed25519(ed25519_dalek::SignatureError),
    /// The Secp256k1 signer failed; carries what it said.
    Secp256k1(String),
}

/// Why a signature was not accepted. Each failure carries the base58 texts of the raw
/// signature and of the raw key.
#[derive(Debug)]
pub enum VerificationError {
    /// The Ed25519 check failed; carries what the verifier said.
    Ed25519(ed25519_dalek::SignatureError, String, String),
    /// The Secp256k1 check failed; carries what the verifier said, if it said anything.
    Secp256k1(String, String, String),
    /// Signature and key are of different algorithms.
    AlgorithmMismatch(String, String),
}

} // verus!
