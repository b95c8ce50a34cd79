//! Key pairs, public keys and signatures behind a one-byte algorithm tag.

pub mod ed25519;
pub mod error;
pub mod key_pair;
pub mod peer_id;
pub mod public_key;
pub mod secp256k1;
pub mod signature;
