//! A weighted trust graph over signed trust and revocation statements.

pub mod base58;
pub mod bytes;
pub mod certificate;
pub mod chain;
pub mod digest;
pub mod keypair;
pub mod memory_storage;
pub mod messages;
pub mod model;
pub mod public_key_hashable;
pub mod revoke;
pub mod service;
pub mod text;
pub mod trust;
pub mod trust_graph;
pub mod trust_graph_storage;
pub mod trust_relation;

pub use crate::certificate::{Certificate, CertificateError};
pub use crate::keypair::key_pair::{KeyFormat, KeyPair};
pub use crate::keypair::public_key::PublicKey;
pub use crate::keypair::signature::Signature;
pub use crate::memory_storage::InMemoryStorage;
pub use crate::public_key_hashable::PublicKeyHashable;
pub use crate::revoke::{Revocation, RevokeError};
pub use crate::service::dto;
pub use crate::service::error::ServiceError;
pub use crate::service::misc::{CallParameters, SecurityTetraplet};
pub use crate::service::results;
pub use crate::service::service_api;
pub use crate::service::service_impl;
pub use crate::trust::{Trust, TrustError};
pub use crate::trust_graph::{
    get_weight_from_factor, TrustGraph, TrustGraphError, WeightFactor, MAX_WEIGHT_FACTOR,
};
pub use crate::trust_graph_storage::{Storage, StorageError};
pub use crate::trust_relation::{Auth, TrustRelation};
