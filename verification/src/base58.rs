//! Base58 text, computed by the `bs58` crate with its default alphabet. A text is held
//! as its bytes, which are ASCII.

use vstd::prelude::*;

verus! {

/// The base58 text of a byte string.
pub uninterp spec fn base58_text(bytes: Seq<u8>) -> Seq<u8>;

/// The bytes that a base58 text stands for, if it is base58 at all.
pub uninterp spec fn base58_bytes(text: Seq<u8>) -> Option<Seq<u8>>;

/// Whether a byte is an ASCII digit or letter.
pub open spec fn is_alphanumeric(b: u8) -> bool {
    ||| 48 <= b <= 57
    ||| 65 <= b <= 90
    ||| 97 <= b <= 122
}

/// Whether every byte of a text is an ASCII digit or letter.
pub open spec fn all_alphanumeric(text: Seq<u8>) -> bool {
    forall|i: int| 0 <= i < text.len() ==> is_alphanumeric(#[trigger] text[i])
}

/// The characters of an ASCII text.
pub open spec fn ascii_chars(text: Seq<u8>) -> Seq<char> {
    Seq::new(text.len(), |i: int| text[i] as char)
}

/// Calls `bs58::encode(..).into_vec()`. Trusted: the text is a function of the bytes
/// alone, decoding it gives the bytes back, and it is made of the digits and letters of
/// the alphabet of the crate.
#[verifier::external_body]
pub(crate) fn to_base58(bytes: &[u8]) -> (text: Vec<u8>)
    ensures
        text@ == base58_text(bytes@),
        base58_bytes(text@) == Some(bytes@),
        all_alphanumeric(text@),
{
    bs58::encode(bytes).into_vec()
}

/// Calls `bs58::decode(..).into_vec()`. Trusted: whether the text decodes, and to which
/// bytes, is a function of the text alone. A failure is handed out as the decoder's
/// message.
#[verifier::external_body]
pub(crate) fn from_base58(text: &[u8]) -> (out: Result<Vec<u8>, String>)
    ensures
        match out {
            Ok(bytes) => base58_bytes(text@) == Some(bytes@),
            Err(_) => base58_bytes(text@) is None,
        },
{
    bs58::decode(text).into_vec().map_err(|e| e.to_string())
}

/// Calls `String::from_utf8` on ASCII bytes. Trusted: the string holds the characters of
/// the bytes.
#[verifier::external_body]
pub(crate) fn ascii_string(text: Vec<u8>) -> (out: String)
    requires
        forall|i: int| 0 <= i < text@.len() ==> #[trigger] text@[i] < 128,
    ensures
        out@ == ascii_chars(text@),
{
    String::from_utf8(text).unwrap()
}

/// Calls `String::from_utf8_lossy` to show bytes in a message. Nothing is claimed of
/// the result.
#[verifier::external_body]
pub(crate) fn shown(text: &[u8]) -> (out: String) {
    String::from_utf8_lossy(text).into_owned()
}

/// The base58 text of a byte string as a string.
pub fn base58_string(bytes: &[u8]) -> (out: String)
    ensures
        out@ == ascii_chars(base58_text(bytes@)),
        base58_bytes(base58_text(bytes@)) == Some(bytes@),
        all_alphanumeric(base58_text(bytes@)),
{
    let text = to_base58(bytes);
    assert forall|i: int| 0 <= i < text@.len() implies #[trigger] text@[i] < 128 by {
        assert(is_alphanumeric(text@[i]));
    }
    ascii_string(text)
}

} // verus!
