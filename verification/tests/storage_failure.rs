use trust_graph::memory_storage::InMemoryStorageError;
use trust_graph::{
    Auth, KeyPair, PublicKeyHashable, Revocation, Storage, StorageError, TrustGraph,
    TrustGraphError, TrustRelation,
};

/// The failure of a storage that is out of reach.
#[derive(Debug)]
struct Unreachable;

impl StorageError for Unreachable {
    fn message(&self) -> String {
        "storage is out of reach".to_string()
    }
}

/// A storage whose every operation fails.
struct Broken;

impl Storage for Broken {
    type Error = Unreachable;

    fn get_relation(
        &self,
        _issued_for: &PublicKeyHashable,
        _issued_by: &PublicKeyHashable,
    ) -> Result<Option<TrustRelation>, Unreachable> {
        Err(Unreachable)
    }

    fn get_authorizations(&self, _issued_for: &PublicKeyHashable) -> Result<Vec<Auth>, Unreachable> {
        Err(Unreachable)
    }

    fn get_revocations(
        &self,
        _issued_for: &PublicKeyHashable,
    ) -> Result<Vec<Revocation>, Unreachable> {
        Err(Unreachable)
    }

    fn insert(&mut self, _node: TrustRelation) -> Result<(), Unreachable> {
        Err(Unreachable)
    }

    fn get_root_weight_factor(&self, _pk: &PublicKeyHashable) -> Result<Option<u32>, Unreachable> {
        Err(Unreachable)
    }

    fn set_root_weight_factor(
        &mut self,
        _pk: PublicKeyHashable,
        _weight_factor: u32,
    ) -> Result<(), Unreachable> {
        Err(Unreachable)
    }

    fn root_keys(&self) -> Result<Vec<PublicKeyHashable>, Unreachable> {
        Err(Unreachable)
    }

    fn revoke(&mut self, _revocation: Revocation) -> Result<(), Unreachable> {
        Err(Unreachable)
    }

    fn update_auth(&mut self, _auth: Auth, _cur_time: u64) -> Result<(), Unreachable> {
        Err(Unreachable)
    }

    fn remove_expired(&mut self, _current_time: u64) -> Result<(), Unreachable> {
        Err(Unreachable)
    }
}

fn carried(e: TrustGraphError) -> String {
    match e {
        TrustGraphError::InternalStorageError(message) => message,
        other => panic!("not a failure of the storage: {}", other.to_string()),
    }
}

#[test]
fn the_failure_in_memory_has_no_message() {
    assert_eq!(InMemoryStorageError.message(), "");
}

#[test]
fn a_failure_of_the_storage_is_handed_on_with_its_message() {
    let key = KeyPair::generate_ed25519().public();
    let mut tg = TrustGraph::new(Broken);
    assert_eq!(
        carried(tg.add_root_weight_factor(key.clone(), 1).unwrap_err()),
        "storage is out of reach"
    );
    assert_eq!(
        carried(tg.weight(&key, 10).unwrap_err()),
        "storage is out of reach"
    );
    assert_eq!(
        carried(tg.get_all_certs(&key, 10).unwrap_err()),
        "storage is out of reach"
    );
    let revocation = Revocation::create(&KeyPair::generate_ed25519(), key.clone(), 10).unwrap();
    let failure = tg.revoke(revocation).unwrap_err();
    assert_eq!(
        failure.to_string(),
        "Internal storage error: storage is out of reach"
    );
}
