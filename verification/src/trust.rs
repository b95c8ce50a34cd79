//! A trust: the signed statement that an issuer vouches for a subject until an expiry.

use crate::base58::{
    all_alphanumeric,
    ascii_chars,
    ascii_string,
    base58_bytes,
    base58_text,
    from_base58,
    is_alphanumeric,
    shown,
    to_base58,
};
use crate::bytes::append_bytes;
use crate::text::{
    decimal_text,
    decimal_value,
    is_digit,
    lemma_decimal_text,
    parse_decimal,
    push_decimal,
    NEWLINE,
};
use vstd::string::StringSliceAdditionalSpecFns;
use crate::digest::{sha256, sha256_of};
use crate::keypair::error::{DecodingError, SigningError, VerificationError};
use crate::keypair::key_pair::KeyPair;
use crate::keypair::public_key::{
    is_public_key_encoding,
    key_failure_of,
    public_key_decoding,
    KeyDecodeFailure,
    PublicKey,
};
use crate::keypair::signature::{is_signature_encoding, signature_accepted, Signature};
use vstd::bytes::{
    lemma_auto_spec_u64_to_from_le_bytes,
    spec_u64_from_le_bytes,
    spec_u64_to_le_bytes,
    u64_from_le_bytes,
    u64_to_le_bytes,
};
use vstd::prelude::*;
use vstd::slice::{slice_subrange, slice_to_vec};
use vstd::std_specs::cmp::PartialEqSpecImpl;

verus! {

/// Number of bytes of the expiry in an encoded trust.
pub const EXPIRATION_LEN: usize = 8;

/// Number of bytes of the issue time in an encoded trust.
pub const ISSUED_LEN: usize = 8;

/// One element of the chain of trust of a certificate. Times are seconds since the epoch.
#[derive(Debug)]
pub struct Trust {
    /// For whom this trust is issued.
    pub issued_for: PublicKey,
    /// When the trust expires.
    pub expires_at: u64,
    /// Signature of the issuer over the hash of the other three fields.
    pub signature: Signature,
    /// When the trust was created.
    pub issued_at: u64,
}

/// A trust as plain values: the encodings of key and signature, and the two times.
#[verifier::ext_equal]
pub struct TrustView {
    pub issued_for: Seq<u8>,
    pub expires_at: u64,
    pub signature: Seq<u8>,
    pub issued_at: u64,
}

impl View for Trust {
    type V = TrustView;

    open spec fn view(&self) -> TrustView {
        TrustView {
            issued_for: self.issued_for@,
            expires_at: self.expires_at,
            signature: self.signature@,
            issued_at: self.issued_at,
        }
    }
}

/// Why a trust was refused or could not be made or read.
#[derive(Debug)]
pub enum TrustError {
    /// The trust expired before the current time: the expiry, then the current time.
    Expired(u64, u64),
    /// The signature does not verify under the issuer's key.
    SignatureError(VerificationError),
    /// The issuer's key pair could not sign.
    SigningFailure(SigningError),
    /// The text of a public key does not decode: the text, then the cause.
    DecodePublicKeyError(String, DecodingError),
    /// A number does not parse: the field, then the text.
    ParseError(String, String),
    /// A signature inside a text does not decode.
    DecodeSignatureError(String, DecodingError),
    /// A base58 text does not decode: the field, the text, then the decoder's message.
    Base58DecodeError(String, String, String),
    /// A key or signature inside an encoded trust does not decode.
    PublicKeyError(DecodingError),
    /// The encoded trust ends before the named field does, or goes on after the last.
    DecodeErrorInvalidSize(String),
}

/// The fields of an encoded trust, in the order in which a decoder meets their ends.
pub enum TrustField {
    PublicKeyLen,
    PublicKey,
    SignatureSize,
    Signature,
    Expiration,
    Issued,
}

impl TrustField {
    /// The name under which a size error reports the field.
    pub open spec fn name(self) -> Seq<char> {
        match self {
            TrustField::PublicKeyLen => "public_key_len"@,
            TrustField::PublicKey => "public_key"@,
            TrustField::SignatureSize => "signature_size"@,
            TrustField::Signature => "signature"@,
            TrustField::Expiration => "expiration"@,
            TrustField::Issued => "issued"@,
        }
    }
}

/// Why bytes are not the encoding of a trust.
pub enum TrustDecodeFailure {
    /// The input is too short for the field, or too long after the last field.
    InvalidSize(TrustField),
    /// The public key bytes or the signature bytes do not decode.
    BadKeyMaterial(KeyDecodeFailure),
}

/// The bytes that a trust's signature signs: the SHA-256 digest of the encoded subject
/// key, the expiry and the issue time, both as 8 little-endian bytes.
pub open spec fn trust_metadata(issued_for: Seq<u8>, expires_at: u64, issued_at: u64) -> Seq<u8> {
    sha256_of(issued_for + spec_u64_to_le_bytes(expires_at) + spec_u64_to_le_bytes(issued_at))
}

/// Whether the signature of `t` is accepted under the issuer's encoded public key.
pub open spec fn trust_signed(t: TrustView, issuer: Seq<u8>) -> bool {
    signature_accepted(issuer, trust_metadata(t.issued_for, t.expires_at, t.issued_at), t.signature)
}

/// Whether `t` holds at `now` as a trust given by `issuer`: not expired and rightly signed.
pub open spec fn trust_valid(t: TrustView, issuer: Seq<u8>, now: u64) -> bool {
    t.expires_at >= now && trust_signed(t, issuer)
}

/// The byte encoding of a trust: the length of the key encoding in one byte and the key
/// encoding, the same for the signature, then expiry and issue time as 8 little-endian
/// bytes each. A length is cut to its low 8 bits.
pub open spec fn trust_encoding(t: TrustView) -> Seq<u8> {
    seq![t.issued_for.len() as u8] + t.issued_for + seq![t.signature.len() as u8] + t.signature
        + spec_u64_to_le_bytes(t.expires_at) + spec_u64_to_le_bytes(t.issued_at)
}

/// The kind of failure with which a signature encoding is refused, if it is.
pub open spec fn signature_decoding(bytes: Seq<u8>) -> Option<KeyDecodeFailure> {
    if bytes.len() == 0 {
        Some(KeyDecodeFailure::InvalidLength)
    } else if !is_signature_encoding(bytes) {
        Some(KeyDecodeFailure::InvalidTypeByte)
    } else {
        None
    }
}

/// What decoding makes of `arr`. Every field is checked against the end of the input
/// before it is read, in the order of the encoding; the key and the signature must
/// decode; nothing may follow the issue time.
pub open spec fn trust_decoding(arr: Seq<u8>) -> Result<TrustView, TrustDecodeFailure> {
    if arr.len() < 1 {
        Err(TrustDecodeFailure::InvalidSize(TrustField::PublicKeyLen))
    } else {
        let pk_end = 1 + arr[0] as int;
        if arr.len() < pk_end {
            Err(TrustDecodeFailure::InvalidSize(TrustField::PublicKey))
        } else if public_key_decoding(arr.subrange(1, pk_end)) is Some {
            Err(TrustDecodeFailure::BadKeyMaterial(public_key_decoding(arr.subrange(1, pk_end)).unwrap()))
        } else if arr.len() < pk_end + 1 {
            Err(TrustDecodeFailure::InvalidSize(TrustField::SignatureSize))
        } else {
            let sig_end = pk_end + 1 + arr[pk_end] as int;
            if arr.len() < sig_end {
                Err(TrustDecodeFailure::InvalidSize(TrustField::Signature))
            } else if signature_decoding(arr.subrange(pk_end + 1, sig_end)) is Some {
                Err(
                    TrustDecodeFailure::BadKeyMaterial(
                        signature_decoding(arr.subrange(pk_end + 1, sig_end)).unwrap(),
                    ),
                )
            } else if arr.len() < sig_end + 8 {
                Err(TrustDecodeFailure::InvalidSize(TrustField::Expiration))
            } else if arr.len() != sig_end + 16 {
                Err(TrustDecodeFailure::InvalidSize(TrustField::Issued))
            } else {
                Ok(
                    TrustView {
                        issued_for: arr.subrange(1, pk_end),
                        expires_at: spec_u64_from_le_bytes(arr.subrange(sig_end, sig_end + 8)),
                        signature: arr.subrange(pk_end + 1, sig_end),
                        issued_at: spec_u64_from_le_bytes(arr.subrange(sig_end + 8, sig_end + 16)),
                    },
                )
            }
        }
    }
}

/// The failure that a decoding error reports.
pub open spec fn trust_failure_of(e: TrustError) -> Option<TrustDecodeFailure> {
    match e {
        TrustError::DecodeErrorInvalidSize(name) => {
            if name@ == TrustField::PublicKeyLen.name() {
                Some(TrustDecodeFailure::InvalidSize(TrustField::PublicKeyLen))
            } else if name@ == TrustField::PublicKey.name() {
                Some(TrustDecodeFailure::InvalidSize(TrustField::PublicKey))
            } else if name@ == TrustField::SignatureSize.name() {
                Some(TrustDecodeFailure::InvalidSize(TrustField::SignatureSize))
            } else if name@ == TrustField::Signature.name() {
                Some(TrustDecodeFailure::InvalidSize(TrustField::Signature))
            } else if name@ == TrustField::Expiration.name() {
                Some(TrustDecodeFailure::InvalidSize(TrustField::Expiration))
            } else if name@ == TrustField::Issued.name() {
                Some(TrustDecodeFailure::InvalidSize(TrustField::Issued))
            } else {
                None
            }
        },
        TrustError::PublicKeyError(e) => match key_failure_of(e) {
            Some(f) => Some(TrustDecodeFailure::BadKeyMaterial(f)),
            None => None,
        },
        _ => None,
    }
}

/// The trust that four texts stand for: the base58 text of the encoded key of the
/// subject, the base58 text of the encoded signature, and expiry and issue time in
/// decimal. Nothing where one of them does not decode.
pub open spec fn trust_of_texts(issued_for: Seq<u8>, signature: Seq<u8>, expires_at: Seq<u8>, issued_at: Seq<
    u8,
>) -> Option<TrustView> {
    if base58_bytes(issued_for) is Some && public_key_decoding(
        base58_bytes(issued_for).unwrap(),
    ) is None && base58_bytes(signature) is Some && signature_decoding(
        base58_bytes(signature).unwrap(),
    ) is None && decimal_value(expires_at) is Some && decimal_value(issued_at) is Some {
        Some(
            TrustView {
                issued_for: base58_bytes(issued_for).unwrap(),
                expires_at: decimal_value(expires_at).unwrap(),
                signature: base58_bytes(signature).unwrap(),
                issued_at: decimal_value(issued_at).unwrap(),
            },
        )
    } else {
        None
    }
}

/// What reading a trust from four texts comes to. The texts are read in the order
/// subject, signature, expiry, issue time, and the first that does not decode decides
/// the failure.
pub open spec fn trust_texts_outcome(
    issued_for: Seq<u8>,
    signature: Seq<u8>,
    expires_at: Seq<u8>,
    issued_at: Seq<u8>,
    out: Result<Trust, TrustError>,
) -> bool {
    match out {
        Ok(t) => trust_of_texts(issued_for, signature, expires_at, issued_at) == Some(t@),
        Err(e) => {
            &&& trust_of_texts(issued_for, signature, expires_at, issued_at) is None
            &&& match e {
                TrustError::Base58DecodeError(field, _, _) => {
                    ||| field@ == "issued_for"@ && base58_bytes(issued_for) is None
                    ||| field@ == "signature"@ && base58_bytes(signature) is None
                },
                TrustError::DecodePublicKeyError(_, _) => base58_bytes(issued_for) is Some
                    && public_key_decoding(base58_bytes(issued_for).unwrap()) is Some,
                TrustError::DecodeSignatureError(_, _) => base58_bytes(signature) is Some
                    && signature_decoding(base58_bytes(signature).unwrap()) is Some,
                TrustError::ParseError(field, _) => {
                    ||| field@ == "expires_at"@ && decimal_value(expires_at) is None
                    ||| field@ == "issued_at"@ && decimal_value(issued_at) is None
                },
                _ => false,
            }
        },
    }
}

/// The text of a trust: the base58 text of the encoded key of the subject, the base58
/// text of the encoded signature, and expiry and issue time in decimal, each on a line
/// of its own; no newline ends the last line.
pub open spec fn trust_text(t: TrustView) -> Seq<u8> {
    base58_text(t.issued_for) + seq![10u8] + base58_text(t.signature) + seq![10u8] + decimal_text(
        t.expires_at,
    ) + seq![10u8] + decimal_text(t.issued_at)
}

impl Trust {
    /// A trust with the given fields. Nothing is checked.
    pub fn new(issued_for: PublicKey, expires_at: u64, issued_at: u64, signature: Signature) -> (out:
        Self)
        ensures
            out.issued_for == issued_for,
            out.expires_at == expires_at,
            out.issued_at == issued_at,
            out.signature == signature,
    {
        Self { issued_for, expires_at, issued_at, signature }
    }

    /// Creates the trust that `issued_by` gives to `issued_for`, signed over the hash of
    /// subject, expiry and issue time. The trust made is rightly signed by the issuer,
    /// so it is valid at every time up to its expiry.
    pub fn create(issued_by: &KeyPair, issued_for: PublicKey, expires_at: u64, issued_at: u64) -> (out:
        Result<Self, TrustError>)
        ensures
            out matches Ok(t) && {
                &&& t.issued_for == issued_for
                &&& t.expires_at == expires_at
                &&& t.issued_at == issued_at
                &&& t.signature@ == issued_by.signature_view(
                    trust_metadata(issued_for@, expires_at, issued_at),
                )
                &&& trust_signed(t@, issued_by.public_view())
                &&& forall|now: u64| now <= expires_at ==> trust_valid(t@, issued_by.public_view(), now)
            },
    {
        let msg = Self::metadata_bytes(&issued_for, expires_at, issued_at);
        match issued_by.sign(msg.as_slice()) {
            Ok(signature) => Ok(Self { issued_for, expires_at, signature, issued_at }),
            Err(e) => Err(TrustError::SigningFailure(e)),
        }
    }

    /// Verifies that the trust has not expired at `cur_time` and that its signature is
    /// the issuer's. Expiry is tested first.
    pub fn verify(trust: &Trust, issued_by: &PublicKey, cur_time: u64) -> (out: Result<
        (),
        TrustError,
    >)
        ensures
            out is Ok <==> trust_valid(trust@, issued_by@, cur_time),
            match out {
                Ok(()) => true,
                Err(TrustError::Expired(expires_at, now)) => trust.expires_at < cur_time
                    && expires_at == trust.expires_at && now == cur_time,
                Err(TrustError::SignatureError(_)) => trust.expires_at >= cur_time && !trust_signed(
                    trust@,
                    issued_by@,
                ),
                Err(_) => false,
            },
    {
        if trust.expires_at < cur_time {
            return Err(TrustError::Expired(trust.expires_at, cur_time));
        }
        let msg = Self::metadata_bytes(&trust.issued_for, trust.expires_at, trust.issued_at);
        match KeyPair::verify(issued_by, msg.as_slice(), &trust.signature) {
            Ok(()) => Ok(()),
            Err(e) => Err(TrustError::SignatureError(e)),
        }
    }

    /// The bytes that the signature of a trust signs.
    pub fn metadata_bytes(pk: &PublicKey, expires_at: u64, issued_at: u64) -> (out: Vec<u8>)
        ensures
            out@ == trust_metadata(pk@, expires_at, issued_at),
            out@.len() == 32,
    {
        let pk_encoded = pk.encode();
        let expires_at_encoded = u64_to_le_bytes(expires_at);
        let issued_at_encoded = u64_to_le_bytes(issued_at);
        let mut metadata: Vec<u8> = Vec::new();
        append_bytes(&mut metadata, pk_encoded.as_slice());
        append_bytes(&mut metadata, expires_at_encoded.as_slice());
        append_bytes(&mut metadata, issued_at_encoded.as_slice());
        assert(metadata@ =~= pk@ + spec_u64_to_le_bytes(expires_at) + spec_u64_to_le_bytes(
            issued_at,
        ));
        sha256(metadata.as_slice())
    }

    /// Encodes the trust into bytes.
    pub fn encode(&self) -> (out: Vec<u8>)
        ensures
            out@ == trust_encoding(self@),
    {
        let mut vec: Vec<u8> = Vec::new();
        let issued_for = self.issued_for.encode();
        let signature = self.signature.encode();
        vec.push(issued_for.len() as u8);
        append_bytes(&mut vec, issued_for.as_slice());
        vec.push(signature.len() as u8);
        append_bytes(&mut vec, signature.as_slice());
        append_bytes(&mut vec, u64_to_le_bytes(self.expires_at).as_slice());
        append_bytes(&mut vec, u64_to_le_bytes(self.issued_at).as_slice());
        assert(vec@ =~= trust_encoding(self@));
        vec
    }

    fn check_arr_len(arr: &[u8], field_name: &str, check_len: usize) -> (out: Result<
        (),
        TrustError,
    >)
        ensures
            arr@.len() >= check_len ==> out is Ok,
            arr@.len() < check_len ==> (out matches Err(TrustError::DecodeErrorInvalidSize(name))
                && name@ == field_name@),
    {
        if arr.len() < check_len {
            Err(TrustError::DecodeErrorInvalidSize(field_name.to_owned()))
        } else {
            Ok(())
        }
    }

    /// Decodes a trust from the bytes that `encode` makes. Every field is bounds-checked
    /// before it is read, and input that goes on after the issue time is refused as a
    /// wrong size of that field.
    pub fn decode(arr: &[u8]) -> (out: Result<Self, TrustError>)
        ensures
            match out {
                Ok(t) => trust_decoding(arr@) == Ok::<TrustView, TrustDecodeFailure>(t@),
                Err(e) => trust_decoding(arr@) is Err && trust_failure_of(e) == Some(
                    trust_decoding(arr@)->Err_0,
                ),
            },
    {
        proof {
            lemma_field_names_differ();
        }
        match Self::check_arr_len(arr, "public_key_len", 1) {
            Ok(()) => {},
            Err(e) => {
                return Err(e);
            },
        }
        let pk_len: usize = arr[0] as usize;
        let mut offset: usize = 1;

        match Self::check_arr_len(arr, "public_key", offset + pk_len) {
            Ok(()) => {},
            Err(e) => {
                return Err(e);
            },
        }
        let pk = match PublicKey::decode(slice_subrange(arr, offset, offset + pk_len)) {
            Ok(pk) => pk,
            Err(e) => {
                return Err(TrustError::PublicKeyError(e));
            },
        };
        offset += pk_len;

        match Self::check_arr_len(arr, "signature_size", offset + 1) {
            Ok(()) => {},
            Err(e) => {
                return Err(e);
            },
        }
        let signature_len: usize = arr[offset] as usize;
        offset += 1;

        match Self::check_arr_len(arr, "signature", offset + signature_len) {
            Ok(()) => {},
            Err(e) => {
                return Err(e);
            },
        }
        let signature_bytes = slice_subrange(arr, offset, offset + signature_len);
        let signature = match Signature::decode(slice_to_vec(signature_bytes)) {
            Ok(signature) => signature,
            Err(e) => {
                return Err(TrustError::PublicKeyError(e));
            },
        };
        offset += signature_len;

        match Self::check_arr_len(arr, "expiration", offset + EXPIRATION_LEN) {
            Ok(()) => {},
            Err(e) => {
                return Err(e);
            },
        }
        let expiration_bytes = slice_subrange(arr, offset, offset + EXPIRATION_LEN);
        let expiration_date = u64_from_le_bytes(expiration_bytes);
        offset += EXPIRATION_LEN;

        if arr.len() != offset + ISSUED_LEN {
            return Err(TrustError::DecodeErrorInvalidSize("issued".to_owned()));
        }
        let issued_bytes = slice_subrange(arr, offset, offset + ISSUED_LEN);
        let issued_date = u64_from_le_bytes(issued_bytes);

        Ok(Self { issued_for: pk, signature, expires_at: expiration_date, issued_at: issued_date })
    }
}

impl Trust {
    fn bs58_str_to_vec(text: &[u8], field: &str) -> (out: Result<Vec<u8>, TrustError>)
        ensures
            match out {
                Ok(bytes) => base58_bytes(text@) == Some(bytes@),
                Err(TrustError::Base58DecodeError(name, _, _)) => base58_bytes(text@) is None
                    && name@ == field@,
                Err(_) => false,
            },
    {
        match from_base58(text) {
            Ok(bytes) => Ok(bytes),
            Err(e) => Err(TrustError::Base58DecodeError(field.to_owned(), shown(text), e)),
        }
    }

    fn str_to_duration(text: &[u8], field: &str) -> (out: Result<u64, TrustError>)
        ensures
            match out {
                Ok(secs) => decimal_value(text@) == Some(secs),
                Err(TrustError::ParseError(name, _)) => decimal_value(text@) is None && name@
                    == field@,
                Err(_) => false,
            },
    {
        match parse_decimal(text) {
            Some(secs) => Ok(secs),
            None => Err(TrustError::ParseError(field.to_owned(), shown(text))),
        }
    }

    /// Reads a trust from the four texts of its text form.
    pub fn convert_from_strings(issued_for: &str, signature: &str, expires_at: &str, issued_at: &str) -> (out:
        Result<Self, TrustError>)
        ensures
            trust_texts_outcome(
                issued_for.spec_bytes(),
                signature.spec_bytes(),
                expires_at.spec_bytes(),
                issued_at.spec_bytes(),
                out,
            ),
    {
        Self::convert_from_texts(
            issued_for.as_bytes(),
            signature.as_bytes(),
            expires_at.as_bytes(),
            issued_at.as_bytes(),
        )
    }

    /// Reads a trust from the bytes of the four texts of its text form.
    pub fn convert_from_texts(issued_for: &[u8], signature: &[u8], expires_at: &[u8], issued_at: &[u8]) -> (out:
        Result<Self, TrustError>)
        ensures
            trust_texts_outcome(issued_for@, signature@, expires_at@, issued_at@, out),
    {
        // PublicKey
        let issued_for_bytes = match Self::bs58_str_to_vec(issued_for, "issued_for") {
            Ok(bytes) => bytes,
            Err(e) => {
                return Err(e);
            },
        };
        let issued_for_key = match PublicKey::decode(issued_for_bytes.as_slice()) {
            Ok(pk) => pk,
            Err(e) => {
                return Err(TrustError::DecodePublicKeyError(shown(issued_for), e));
            },
        };

        // signature with its tag
        let signature_bytes = match Self::bs58_str_to_vec(signature, "signature") {
            Ok(bytes) => bytes,
            Err(e) => {
                return Err(e);
            },
        };
        let signature_value = match Signature::decode(signature_bytes) {
            Ok(sig) => sig,
            Err(e) => {
                return Err(TrustError::DecodeSignatureError(shown(signature), e));
            },
        };

        // seconds
        let expires_at_secs = match Self::str_to_duration(expires_at, "expires_at") {
            Ok(secs) => secs,
            Err(e) => {
                return Err(e);
            },
        };

        // seconds
        let issued_at_secs = match Self::str_to_duration(issued_at, "issued_at") {
            Ok(secs) => secs,
            Err(e) => {
                return Err(e);
            },
        };

        Ok(Trust::new(issued_for_key, expires_at_secs, issued_at_secs, signature_value))
    }

    /// Appends the text of the trust to `buf`. The four texts that are written read
    /// back as this trust.
    pub fn push_text(&self, buf: &mut Vec<u8>)
        ensures
            final(buf)@ == old(buf)@ + trust_text(self@),
            trust_of_texts(
                base58_text(self@.issued_for),
                base58_text(self@.signature),
                decimal_text(self@.expires_at),
                decimal_text(self@.issued_at),
            ) == Some(self@),
            all_alphanumeric(base58_text(self@.issued_for)),
            all_alphanumeric(base58_text(self@.signature)),
    {
        let issued_for = to_base58(self.issued_for.encode().as_slice());
        let signature = to_base58(self.signature.encode().as_slice());
        proof {
            lemma_decimal_text(self.expires_at);
            lemma_decimal_text(self.issued_at);
        }
        append_bytes(buf, issued_for.as_slice());
        buf.push(NEWLINE);
        append_bytes(buf, signature.as_slice());
        buf.push(NEWLINE);
        push_decimal(buf, self.expires_at);
        buf.push(NEWLINE);
        push_decimal(buf, self.issued_at);
        assert(buf@ =~= old(buf)@ + trust_text(self@));
    }

    /// The text of the trust: four lines without a newline at the end. The four lines
    /// read back as this trust.
    pub fn to_string(&self) -> (out: String)
        ensures
            out@ == ascii_chars(trust_text(self@)),
            trust_of_texts(
                base58_text(self@.issued_for),
                base58_text(self@.signature),
                decimal_text(self@.expires_at),
                decimal_text(self@.issued_at),
            ) == Some(self@),
    {
        let mut buf: Vec<u8> = Vec::new();
        self.push_text(&mut buf);
        proof {
            lemma_trust_text_ascii(self@);
            assert(buf@ =~= trust_text(self@));
        }
        ascii_string(buf)
    }
}

/// The text of a trust whose base58 texts are alphanumeric is ASCII.
pub proof fn lemma_trust_text_ascii(t: TrustView)
    requires
        all_alphanumeric(base58_text(t.issued_for)),
        all_alphanumeric(base58_text(t.signature)),
    ensures
        forall|i: int| 0 <= i < trust_text(t).len() ==> #[trigger] trust_text(t)[i] < 128,
{
    lemma_decimal_text(t.expires_at);
    lemma_decimal_text(t.issued_at);
    let a = base58_text(t.issued_for);
    let b = base58_text(t.signature);
    let c = decimal_text(t.expires_at);
    let d = decimal_text(t.issued_at);
    let text = trust_text(t);
    assert forall|i: int| 0 <= i < text.len() implies #[trigger] text[i] < 128 by {
        if i < a.len() {
            assert(is_alphanumeric(a[i]));
        } else if i == a.len() {
        } else if i < a.len() + 1 + b.len() {
            assert(text[i] == b[i - a.len() - 1]);
            assert(is_alphanumeric(b[i - a.len() - 1]));
        } else if i == a.len() + 1 + b.len() {
        } else if i < a.len() + 1 + b.len() + 1 + c.len() {
            assert(text[i] == c[i - a.len() - b.len() - 2]);
            assert(is_digit(c[i - a.len() - b.len() - 2]));
        } else if i == a.len() + 1 + b.len() + 1 + c.len() {
        } else {
            assert(text[i] == d[i - a.len() - b.len() - c.len() - 3]);
            assert(is_digit(d[i - a.len() - b.len() - c.len() - 3]));
        }
    }
}

/// The names of the fields are different texts.
pub proof fn lemma_field_names_differ()
    ensures
        TrustField::PublicKeyLen.name() != TrustField::PublicKey.name(),
        TrustField::PublicKeyLen.name() != TrustField::SignatureSize.name(),
        TrustField::PublicKeyLen.name() != TrustField::Signature.name(),
        TrustField::PublicKeyLen.name() != TrustField::Expiration.name(),
        TrustField::PublicKeyLen.name() != TrustField::Issued.name(),
        TrustField::PublicKey.name() != TrustField::SignatureSize.name(),
        TrustField::PublicKey.name() != TrustField::Signature.name(),
        TrustField::PublicKey.name() != TrustField::Expiration.name(),
        TrustField::PublicKey.name() != TrustField::Issued.name(),
        TrustField::SignatureSize.name() != TrustField::Signature.name(),
        TrustField::SignatureSize.name() != TrustField::Expiration.name(),
        TrustField::SignatureSize.name() != TrustField::Issued.name(),
        TrustField::Signature.name() != TrustField::Expiration.name(),
        TrustField::Signature.name() != TrustField::Issued.name(),
        TrustField::Expiration.name() != TrustField::Issued.name(),
{
    reveal_strlit("public_key_len");
    reveal_strlit("public_key");
    reveal_strlit("signature_size");
    reveal_strlit("signature");
    reveal_strlit("expiration");
    reveal_strlit("issued");
    assert(TrustField::PublicKeyLen.name().len() == 14);
    assert(TrustField::PublicKey.name().len() == 10);
    assert(TrustField::SignatureSize.name().len() == 14);
    assert(TrustField::Signature.name().len() == 9);
    assert(TrustField::Expiration.name().len() == 10);
    assert(TrustField::Issued.name().len() == 6);
    assert(TrustField::PublicKeyLen.name()[0] != TrustField::SignatureSize.name()[0]);
    assert(TrustField::PublicKey.name()[0] != TrustField::Expiration.name()[0]);
}

impl Clone for Trust {
    fn clone(&self) -> (out: Self)
        ensures
            out@ == self@,
    {
        Trust {
            issued_for: self.issued_for.clone(),
            expires_at: self.expires_at,
            signature: self.signature.clone(),
            issued_at: self.issued_at,
        }
    }
}

impl PartialEq for Trust {
    fn eq(&self, other: &Self) -> (same: bool) {
        self.issued_for == other.issued_for && self.expires_at == other.expires_at
            && self.signature == other.signature && self.issued_at == other.issued_at
    }
}

impl Eq for Trust {

}

impl PartialEqSpecImpl for Trust {
    open spec fn obeys_eq_spec() -> bool {
        true
    }

    open spec fn eq_spec(&self, other: &Self) -> bool {
        self@ == other@
    }
}

/// Whether an encoded trust can be read back: the key is the encoding of a public key
/// and the signature that of a signature of at most 255 bytes.
pub open spec fn trust_encodable(t: TrustView) -> bool {
    &&& is_public_key_encoding(t.issued_for)
    &&& is_signature_encoding(t.signature)
    &&& t.signature.len() <= 255
}

/// Round trip of the byte encoding: decoding the encoding of a trust gives the trust.
pub proof fn lemma_trust_round_trip(t: TrustView)
    requires
        trust_encodable(t),
    ensures
        trust_decoding(trust_encoding(t)) == Ok::<TrustView, TrustDecodeFailure>(t),
        trust_encoding(t).len() == 18 + t.issued_for.len() + t.signature.len(),
        33 <= t.issued_for.len() <= 34,
{
    lemma_auto_spec_u64_to_from_le_bytes();
    let arr = trust_encoding(t);
    let pk_end: int = 1 + t.issued_for.len() as int;
    let sig_end: int = pk_end + 1 + t.signature.len() as int;
    assert(arr[0] == t.issued_for.len() as u8);
    assert(arr.subrange(1, pk_end) =~= t.issued_for);
    assert(arr[pk_end] == t.signature.len() as u8);
    assert(arr.subrange(pk_end + 1, sig_end) =~= t.signature);
    assert(arr.subrange(sig_end, sig_end + 8) =~= spec_u64_to_le_bytes(t.expires_at));
    assert(arr.subrange(sig_end + 8, sig_end + 16) =~= spec_u64_to_le_bytes(t.issued_at));
    assert(trust_decoding(arr)->Ok_0 =~= t);
}

} // verus!
