//! Peer ids: the base58 texts under which the network knows a public key. They are
//! made and read by `libp2p_identity`.

use crate::keypair::key_pair::KeyFormat;
use std::str::FromStr;
use vstd::prelude::*;

verus! {

/// The peer id of a public key, given by the tag of its algorithm and its raw bytes.
pub uninterp spec fn peer_id_text(tag: u8, raw: Seq<u8>) -> Seq<char>;

/// The code and the digest of the multihash that a peer id holds, if the text is a
/// peer id at all.
pub uninterp spec fn peer_id_multihash(text: Seq<char>) -> Option<(u64, Seq<u8>)>;

/// The tag and the raw bytes of the public key that a protobuf encoding holds, if it
/// holds a key of a supported algorithm.
pub uninterp spec fn protobuf_key(bytes: Seq<u8>) -> Option<(u8, Seq<u8>)>;

/// The multihash code of a peer id that holds its public key itself.
pub const IDENTITY_CODE: u64 = 0;

/// Calls `PeerId::from_public_key` on the Ed25519 key of the given bytes, and
/// `to_base58`. Trusted: the peer id is a function of the key alone, and it holds the
/// key inline: it reads back as a multihash with the identity code whose digest is the
/// protobuf encoding of this key.
#[verifier::external_body]
pub(crate) fn ed25519_peer_id(public: &[u8]) -> (text: String)
    requires
        crate::keypair::ed25519::ed25519_key_valid(public@),
    ensures
        text@ == peer_id_text(KeyFormat::Ed25519.spec_tag(), public@),
        peer_id_multihash(text@) is Some,
        peer_id_multihash(text@).unwrap().0 == IDENTITY_CODE,
        protobuf_key(peer_id_multihash(text@).unwrap().1) == Some(
            (KeyFormat::Ed25519.spec_tag(), public@),
        ),
{
    let key = libp2p_identity::ed25519::PublicKey::try_from_bytes(public).unwrap();
    libp2p_identity::PeerId::from_public_key(&libp2p_identity::PublicKey::from(key)).to_base58()
}

/// Calls `PeerId::from_public_key` on the Secp256k1 key of the given compressed bytes,
/// and `to_base58`. Trusted: a compressed key that `libsecp256k1` accepts is accepted
/// here as well; the peer id is a function of the key alone, and it holds the key
/// inline: it reads back as a multihash with the identity code whose digest is the
/// protobuf encoding of this key.
#[verifier::external_body]
pub(crate) fn secp256k1_peer_id(public: &[u8]) -> (text: String)
    requires
        crate::keypair::secp256k1::secp256k1_key_valid(public@),
    ensures
        text@ == peer_id_text(KeyFormat::Secp256k1.spec_tag(), public@),
        peer_id_multihash(text@) is Some,
        peer_id_multihash(text@).unwrap().0 == IDENTITY_CODE,
        protobuf_key(peer_id_multihash(text@).unwrap().1) == Some(
            (KeyFormat::Secp256k1.spec_tag(), public@),
        ),
{
    let key = libp2p_identity::secp256k1::PublicKey::try_from_bytes(public).unwrap();
    libp2p_identity::PeerId::from_public_key(&libp2p_identity::PublicKey::from(key)).to_base58()
}

/// Calls `PeerId::from_str` and hands out code and digest of the multihash of the peer
/// id. Trusted: whether the text is a peer id, and which multihash it holds, is a
/// function of the text alone. A failure is handed out as the parser's message.
#[verifier::external_body]
pub(crate) fn parse_peer_id(text: &str) -> (out: Result<(u64, Vec<u8>), String>)
    ensures
        match out {
            Ok(hash) => peer_id_multihash(text@) == Some((hash.0, hash.1@)),
            Err(_) => peer_id_multihash(text@) is None,
        },
{
    let peer_id = libp2p_identity::PeerId::from_str(text).map_err(|e| format!("{:?}", e))?;
    let hash = peer_id.as_ref();
    Ok((hash.code(), hash.digest().to_vec()))
}

/// Calls `PublicKey::try_decode_protobuf`, `key_type` and `try_into_ed25519` or
/// `try_into_secp256k1`. Trusted: whether the bytes hold a key of one of the two
/// algorithms, and which, is a function of the bytes alone.
#[verifier::external_body]
pub(crate) fn decode_inlined_key(digest: &[u8]) -> (out: Option<(KeyFormat, Vec<u8>)>)
    ensures
        match out {
            Some(key) => protobuf_key(digest@) == Some((key.0.spec_tag(), key.1@)),
            None => protobuf_key(digest@) is None,
        },
{
    let key = libp2p_identity::PublicKey::try_decode_protobuf(digest).ok()?;
    match key.key_type() {
        libp2p_identity::KeyType::Ed25519 => key.try_into_ed25519().ok().map(
            |key| (KeyFormat::Ed25519, key.to_bytes().to_vec()),
        ),
        libp2p_identity::KeyType::Secp256k1 => key.try_into_secp256k1().ok().map(
            |key| (KeyFormat::Secp256k1, key.to_bytes().to_vec()),
        ),
        _ => None,
    }
}

} // verus!
