//! A public key as a key of maps and sets.

use crate::keypair::error::DecodingError;
use crate::keypair::public_key::PublicKey;
use vstd::prelude::*;
use vstd::string::StringSliceAdditionalSpecFns;
use vstd::std_specs::cmp::PartialEqSpecImpl;

verus! {

/// Wrapper under which a public key is the key of the relations and roots of a storage.
/// It is the same key exactly when the encodings are the same bytes, and keys are
/// ordered and hashed by their encoding.
#[derive(Debug, PartialOrd, Ord, Hash)]
pub struct PublicKeyHashable(pub PublicKey);

impl View for PublicKeyHashable {
    type V = Seq<u8>;

    open spec fn view(&self) -> Seq<u8> {
        self.0@
    }
}

impl PublicKeyHashable {
    /// Wraps a public key.
    pub fn from(pk: PublicKey) -> (out: Self)
        ensures
            out@ == pk@,
            out.0 == pk,
    {
        Self(pk)
    }

    /// Unwraps the public key.
    pub fn into(self) -> (out: PublicKey)
        ensures
            out@ == self@,
            out == self.0,
    {
        self.0
    }

    /// The public key inside.
    pub fn as_ref(&self) -> (out: &PublicKey)
        ensures
            out@ == self@,
            *out == self.0,
    {
        &self.0
    }

    /// Reads a key from the base58 text of its encoding.
    pub fn from_str(s: &str) -> (out: Result<Self, DecodingError>)
        ensures
            out matches Ok(pk) ==> crate::base58::base58_bytes(s.spec_bytes()) == Some(pk@),
            out is Ok <==> (crate::base58::base58_bytes(s.spec_bytes()) matches Some(bytes)
                && crate::keypair::public_key::is_public_key_encoding(bytes)),
    {
        match PublicKey::from_base58(s) {
            Ok(pk) => Ok(PublicKeyHashable::from(pk)),
            Err(e) => {
                Err(e)
            },
        }
    }

    /// The base58 text of the encoding of the key.
    pub fn to_string(&self) -> (out: String)
        ensures
            out@ == crate::base58::ascii_chars(crate::base58::base58_text(self@)),
    {
        self.0.to_base58()
    }
}

impl Clone for PublicKeyHashable {
    fn clone(&self) -> (out: Self)
        ensures
            out@ == self@,
    {
        PublicKeyHashable(self.0.clone())
    }
}

impl PartialEq for PublicKeyHashable {
    fn eq(&self, other: &Self) -> (same: bool) {
        self.0 == other.0
    }
}

impl Eq for PublicKeyHashable {

}

impl PartialEqSpecImpl for PublicKeyHashable {
    open spec fn obeys_eq_spec() -> bool {
        true
    }

    open spec fn eq_spec(&self, other: &Self) -> bool {
        self@ == other@
    }
}

} // verus!
