[package]
name = "trust-graph"
version = "0.4.0"
edition = "2021"
publish = false

[dependencies]
asn1_der = "*"
bs58 = "=0.5.1"
ed25519-dalek = { version = "=2.2.0", features = ["rand_core"] }
libp2p-identity = { version = "=0.2.14", features = ["peerid", "ed25519", "secp256k1"] }
libsecp256k1 = "=0.7.2"
log = "=0.4.34"
marine-rs-sdk = "=0.14.0"
marine-sqlite-connector = "=0.11.0"
nonempty = "=0.12.0"
rand = "=0.8.8"
serde = { version = "=1.0.229", features = ["derive"] }
serde_json = "=1.0.154"
sha2 = "=0.10.9"
thiserror = "=1.0.69"
zeroize = "=1.9.1"
