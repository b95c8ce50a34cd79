//! The messages of the errors, for the `error` field of a result.

use crate::base58::ascii_string;
use crate::certificate::CertificateError;
use crate::keypair::error::{DecodingError, Error, SigningError, VerificationError};
use crate::keypair::public_key::PeerIdError;
use crate::revoke::RevokeError;
use crate::service::dto::DtoConversionError;
use crate::service::error::ServiceError;
use crate::text::{is_digit, lemma_decimal_text, push_decimal};
use crate::trust::TrustError;
use crate::trust_graph::TrustGraphError;
use vstd::prelude::*;
use vstd::string::StringExecFns;

verus! {

/// Calls `to_string` of the failure that `ed25519_dalek` reports. Nothing is claimed of
/// the text.
#[verifier::external_body]
fn signature_error_text(e: &ed25519_dalek::SignatureError) -> (out: String) {
    e.to_string()
}

/// `a` followed by `b`.
pub fn join(a: &str, b: &str) -> (out: String)
    ensures
        out@ == a@ + b@,
{
    let mut out = a.to_owned();
    out.append(b);
    out
}

/// `a`, `b` and `c` one after the other.
pub fn join3(a: &str, b: &str, c: &str) -> (out: String)
    ensures
        out@ == a@ + b@ + c@,
{
    let mut out = a.to_owned();
    out.append(b);
    out.append(c);
    out
}

/// A number of seconds as text.
pub fn seconds_text(secs: u64) -> (out: String)
    ensures
        out@ == crate::base58::ascii_chars(crate::text::decimal_text(secs)),
{
    let mut buf: Vec<u8> = Vec::new();
    push_decimal(&mut buf, secs);
    proof {
        lemma_decimal_text(secs);
        assert(buf@ =~= crate::text::decimal_text(secs));
        assert forall|i: int| 0 <= i < buf@.len() implies #[trigger] buf@[i] < 128 by {
            assert(is_digit(buf@[i]));
        }
    }
    ascii_string(buf)
}

impl Error {
    /// The message of the error.
    pub fn to_string(&self) -> (out: String)
        ensures
            self matches Error::InvalidKeyFormat(name) && out@ == name@
                + " Key format is not supported"@,
    {
        match self {
            Error::InvalidKeyFormat(name) => join(name.as_str(), " Key format is not supported"),
        }
    }
}

impl DecodingError {
    /// The message of the error.
    pub fn to_string(&self) -> (out: String)
        ensures
            self is InvalidLength ==> out@ == "Failed to decode, invalid length"@,
            self is InvalidTypeByte ==> out@ == "Invalid type prefix"@,
            self is Secp256k1 ==> out@ == "Failed to decode with secp256k1"@,
            self is Ed25519 ==> "Failed to decode with ed25519: "@.is_prefix_of(out@),
            self matches DecodingError::Base58DecodeError(e) ==> out@
                == "Cannot decode public key from base58 :"@ + e@,
            self matches DecodingError::PublicKeyNotInlined(peer_id) ==> out@
                == "public key is not inlined in peer id: "@ + peer_id@,
    {
        match self {
            DecodingError::InvalidLength => "Failed to decode, invalid length".to_owned(),
            DecodingError::Ed25519(e) => join(
                "Failed to decode with ed25519: ",
                signature_error_text(e).as_str(),
            ),
            DecodingError::Secp256k1 => "Failed to decode with secp256k1".to_owned(),
            DecodingError::InvalidTypeByte => "Invalid type prefix".to_owned(),
            DecodingError::Base58DecodeError(e) => join(
                "Cannot decode public key from base58 :",
                e.as_str(),
            ),
            DecodingError::PublicKeyNotInlined(peer_id) => join(
                "public key is not inlined in peer id: ",
                peer_id.as_str(),
            ),
        }
    }
}

impl SigningError {
    /// The message of the error: what failed, then what the signer said.
    pub fn to_string(&self) -> (out: String)
        ensures
            self is Ed25519 ==> "Failed to sign with ed25519: "@.is_prefix_of(out@),
            self matches SigningError::Secp256k1(e) ==> out@ == "Failed to sign with secp256k1: "@
                + e@,
    {
        match self {
            SigningError::Ed25519(e) => join(
                "Failed to sign with ed25519: ",
                signature_error_text(e).as_str(),
            ),
            SigningError::Secp256k1(e) => join("Failed to sign with secp256k1: ", e.as_str()),
        }
    }
}

impl VerificationError {
    /// The message of the error: the base58 texts of signature and key, then what the
    /// verifier said.
    pub fn to_string(&self) -> (out: String)
        ensures
            self matches VerificationError::Ed25519(_, signature, public_key) ==> (
            "Failed to verify signature "@ + signature@ + " with "@ + public_key@
                + " ed25519 public key: "@).is_prefix_of(out@),
            self matches VerificationError::Secp256k1(e, signature, public_key) ==> out@
                == "Failed to verify signature "@ + signature@ + " with "@ + public_key@
                + " secp256k1 public key: "@ + e@,
            self matches VerificationError::AlgorithmMismatch(signature, public_key) ==> out@
                == "Failed to verify signature "@ + signature@ + " with "@ + public_key@
                + ": signature and public key are of different algorithms"@,
    {
        match self {
            VerificationError::Secp256k1(e, signature, public_key) => {
                let mut out = join3("Failed to verify signature ", signature.as_str(), " with ");
                out.append(public_key.as_str());
                out.append(" secp256k1 public key: ");
                out.append(e.as_str());
                out
            },
            VerificationError::AlgorithmMismatch(signature, public_key) => {
                let mut out = join3("Failed to verify signature ", signature.as_str(), " with ");
                out.append(public_key.as_str());
                out.append(": signature and public key are of different algorithms");
                out
            },
            VerificationError::Ed25519(e, signature, public_key) => {
                let mut out = join3("Failed to verify signature ", signature.as_str(), " with ");
                out.append(public_key.as_str());
                out.append(" ed25519 public key: ");
                let ghost head = out@;
                out.append(signature_error_text(e).as_str());
                assert(head =~= out@.subrange(0, head.len() as int));
                out
            },
        }
    }
}

impl PeerIdError {
    /// The message of the error.
    pub fn to_string(&self) -> (out: String)
        ensures
            self matches PeerIdError::Parse(e) ==> out@ == "peer id parse error: "@ + e@,
    {
        match self {
            PeerIdError::Parse(e) => join("peer id parse error: ", e.as_str()),
            PeerIdError::Key(e) => e.to_string(),
        }
    }
}

impl TrustError {
    /// The message of the error.
    pub fn to_string(&self) -> (out: String)
        ensures
            self matches TrustError::DecodeErrorInvalidSize(field) ==> out@ == "Cannot decode `"@
                + field@ + "` field in the trust: invalid size"@,
    {
        match self {
            TrustError::Expired(expires_at, now) => {
                let mut out = join3(
                    "Trust is expired at: '",
                    seconds_text(*expires_at).as_str(),
                    "s', current time: '",
                );
                out.append(seconds_text(*now).as_str());
                out.append("s'");
                out
            },
            TrustError::SignatureError(e) => e.to_string(),
            TrustError::SigningFailure(e) => e.to_string(),
            TrustError::DecodePublicKeyError(text, e) => {
                let mut out = join3("Cannot decode the public key: ", text.as_str(), " in the trust: ");
                out.append(e.to_string().as_str());
                out
            },
            TrustError::ParseError(field, text) => {
                let mut out = join3("Cannot parse `", field.as_str(), "` field in the trust '");
                out.append(text.as_str());
                out.append("'");
                out
            },
            TrustError::DecodeSignatureError(text, e) => {
                let mut out = join3("Cannot decode the signature: ", text.as_str(), " in the trust: ");
                out.append(e.to_string().as_str());
                out
            },
            TrustError::Base58DecodeError(field, text, e) => {
                let mut out = join3("Cannot decode `", field.as_str(), "` from base58 format in the trust '");
                out.append(text.as_str());
                out.append("': ");
                out.append(e.as_str());
                out
            },
            TrustError::PublicKeyError(e) => e.to_string(),
            TrustError::DecodeErrorInvalidSize(field) => join3(
                "Cannot decode `",
                field.as_str(),
                "` field in the trust: invalid size",
            ),
        }
    }
}

impl RevokeError {
    /// The message of the error.
    pub fn to_string(&self) -> (out: String)
        ensures
            self is IncorrectSignature ==> "Signature is incorrect: "@.is_prefix_of(out@),
    {
        match self {
            RevokeError::IncorrectSignature(e) => join(
                "Signature is incorrect: ",
                e.to_string().as_str(),
            ),
            RevokeError::SigningFailure(e) => e.to_string(),
        }
    }
}

impl CertificateError {
    /// The message of the error.
    pub fn to_string(&self) -> (out: String)
        ensures
            self is NoTrustedRoot ==> out@ == "Certificate does not contain a trusted root."@,
            self is CertificateLengthError ==> out@
                == "The certificate must have at least 1 trust"@,
    {
        match self {
            CertificateError::IncorrectCertificateFormat(text) => join(
                "Incorrect format of the certificate: ",
                text.as_str(),
            ),
            CertificateError::DecodeError(e) => join(
                "Error while decoding a trust in a certificate: ",
                e.to_string().as_str(),
            ),
            CertificateError::ExpirationError { expires_at, issued_at } => {
                let mut out = join3(
                    "Certificate is expired. Issued at ",
                    seconds_text(*issued_at).as_str(),
                    "s and expired at ",
                );
                out.append(seconds_text(*expires_at).as_str());
                out.append("s");
                out
            },
            CertificateError::NoTrustedRoot => "Certificate does not contain a trusted root.".to_owned(),
            CertificateError::MalformedRoot(e) => join(
                "Root trust did not pass verification: ",
                e.to_string().as_str(),
            ),
            CertificateError::KeyInCertificateError => "There is no `issued_by` public key in a certificate".to_owned(),
            CertificateError::CertificateLengthError => "The certificate must have at least 1 trust".to_owned(),
            CertificateError::DecodeTrustError(line, e) => {
                let mut out = join3(
                    "Cannot convert trust number ",
                    seconds_text(*line as u64).as_str(),
                    " from string: ",
                );
                out.append(e.to_string().as_str());
                out
            },
            CertificateError::VerificationError(index, e) => {
                let mut out = join3("Trust ", seconds_text(*index as u64).as_str(), " in chain did not pass verification: ");
                out.append(e.to_string().as_str());
                out
            },
            CertificateError::TrustCreationError(e) => join(
                "Trust could not be created: ",
                e.to_string().as_str(),
            ),
        }
    }
}

impl TrustGraphError {
    /// The message of the error.
    pub fn to_string(&self) -> (out: String)
        ensures
            self matches TrustGraphError::InternalStorageError(e) ==> out@
                == "Internal storage error: "@ + e@,
            self is NoRoot ==> out@ == "There is no root for this certificate."@,
            self is EmptyChain ==> out@ == "Chain is empty"@,
            self is RevokeCheckError ==> "Error on revoking a trust: "@.is_prefix_of(out@),
            self is TrustVerificationError ==> "Trust verification error: "@.is_prefix_of(out@),
    {
        match self {
            TrustGraphError::InternalStorageError(e) => join("Internal storage error: ", e.as_str()),
            TrustGraphError::NoRoot => "There is no root for this certificate.".to_owned(),
            TrustGraphError::EmptyChain => "Chain is empty".to_owned(),
            TrustGraphError::RevokeCheckError(e) => join(
                "Error on revoking a trust: ",
                e.to_string().as_str(),
            ),
            TrustGraphError::TrustVerificationError(e) => join(
                "Trust verification error: ",
                e.to_string().as_str(),
            ),
        }
    }
}

impl DtoConversionError {
    /// The message of the error.
    pub fn to_string(&self) -> (out: String)
        ensures
            self matches DtoConversionError::Base58Error(e) ==> out@
                == "Cannot convert base58 string to bytes: "@ + e@,
            self is PublicKeyDecodeError ==> "Cannot convert string to PublicKey: "@.is_prefix_of(
                out@,
            ),
            self matches DtoConversionError::PeerIdDecodeError(e) ==> out@
                == "Cannot decode peer id from string: "@ + e@,
    {
        match self {
            DtoConversionError::Base58Error(e) => join(
                "Cannot convert base58 string to bytes: ",
                e.as_str(),
            ),
            DtoConversionError::PublicKeyDecodeError(e) => join(
                "Cannot convert string to PublicKey: ",
                e.to_string().as_str(),
            ),
            DtoConversionError::PeerIdDecodeError(e) => join(
                "Cannot decode peer id from string: ",
                e.as_str(),
            ),
            DtoConversionError::InvalidKeyFormat(e) => e.to_string(),
        }
    }
}

impl ServiceError {
    /// The message of the error, as the `error` field of a result carries it.
    pub fn to_string(&self) -> (out: String)
        ensures
            self is NotOwner ==> out@ == "Root could add only by trust graph service owner"@,
            self matches ServiceError::PublicKeyExtractionError(e) ==> out@
                == "public key extraction from peer id failed: "@ + e@,
            self matches ServiceError::InvalidTimestampTetraplet(e) ==> out@
                == "you should use host peer.timestamp_sec to pass timestamp: "@ + e@,
            self matches ServiceError::InvalidTimestamp(what) ==> out@ == what@
                + " can't be issued later than the current timestamp"@,
    {
        match self {
            ServiceError::PublicKeyExtractionError(e) => join(
                "public key extraction from peer id failed: ",
                e.as_str(),
            ),
            ServiceError::PublicKeyDecodeError(e) => e.to_string(),
            ServiceError::TGError(e) => e.to_string(),
            ServiceError::CertError(e) => e.to_string(),
            ServiceError::DtoError(e) => e.to_string(),
            ServiceError::TrustError(e) => e.to_string(),
            ServiceError::InvalidTimestampTetraplet(e) => join(
                "you should use host peer.timestamp_sec to pass timestamp: ",
                e.as_str(),
            ),
            ServiceError::InvalidTimestamp(what) => join(
                what.as_str(),
                " can't be issued later than the current timestamp",
            ),
            ServiceError::NotOwner => "Root could add only by trust graph service owner".to_owned(),
        }
    }
}

} // verus!
