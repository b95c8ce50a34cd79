use trust_graph::{
    Auth, InMemoryStorage, KeyPair, PublicKeyHashable, Revocation, Storage, Trust, TrustRelation,
};

fn stored(
    storage: &InMemoryStorage,
    subject: &KeyPair,
    issuer: &KeyPair,
) -> Option<TrustRelation> {
    storage
        .get_relation(
            &PublicKeyHashable::from(subject.public()),
            &PublicKeyHashable::from(issuer.public()),
        )
        .unwrap()
}

#[test]
fn test_auth_and_revoke_trust_node() {
    let kp = KeyPair::generate_ed25519();

    let now = 50u64;
    let past = 5u64;
    let future = 500u64;

    let mut trust_node = InMemoryStorage::new();

    let truster = KeyPair::generate_ed25519();

    let revoke = Revocation::create(&truster, kp.public(), now).unwrap();

    trust_node.revoke(revoke).unwrap();

    assert!(matches!(
        stored(&trust_node, &kp, &truster),
        Some(TrustRelation::Revocation(_))
    ));

    let old_trust = Trust::create(&truster, kp.public(), 60, past).unwrap();

    let old_auth = Auth {
        trust: old_trust,
        issued_by: truster.public(),
    };

    trust_node.update_auth(old_auth, now).unwrap();

    assert!(matches!(
        stored(&trust_node, &kp, &truster),
        Some(TrustRelation::Revocation(_))
    ));
    assert!(!matches!(
        stored(&trust_node, &kp, &truster),
        Some(TrustRelation::Auth(_))
    ));

    let trust = Trust::create(&truster, kp.public(), 60, future).unwrap();
    let auth = Auth {
        trust,
        issued_by: truster.public(),
    };

    trust_node.update_auth(auth, now).unwrap();

    assert!(matches!(
        stored(&trust_node, &kp, &truster),
        Some(TrustRelation::Auth(_))
    ));
    assert!(!matches!(
        stored(&trust_node, &kp, &truster),
        Some(TrustRelation::Revocation(_))
    ));
}

#[test]
fn storage_keeps_the_relation_with_the_greatest_timestamp() {
    let subject = KeyPair::generate_ed25519();
    let issuer = KeyPair::generate_ed25519();
    let mut storage = InMemoryStorage::new();
    let times = [10u64, 30, 20, 30, 5];
    for (n, t) in times.iter().enumerate() {
        if n % 2 == 0 {
            let trust = Trust::create(&issuer, subject.public(), 1000 + n as u64, *t).unwrap();
            storage
                .update_auth(
                    Auth {
                        trust,
                        issued_by: issuer.public(),
                    },
                    0,
                )
                .unwrap();
        } else {
            let revocation = Revocation::create(&issuer, subject.public(), *t).unwrap();
            storage.revoke(revocation).unwrap();
        }
        let greatest = times[..=n].iter().max().unwrap();
        assert_eq!(
            stored(&storage, &subject, &issuer).unwrap().issued_at(),
            *greatest
        );
    }
    // the first relation with the greatest timestamp stays: the revocation at 30
    assert!(matches!(
        stored(&storage, &subject, &issuer),
        Some(TrustRelation::Revocation(_))
    ));
    // an unconditional insert overwrites
    let trust = Trust::create(&issuer, subject.public(), 1000, 1).unwrap();
    storage
        .insert(TrustRelation::Auth(Auth {
            trust,
            issued_by: issuer.public(),
        }))
        .unwrap();
    assert_eq!(stored(&storage, &subject, &issuer).unwrap().issued_at(), 1);
}

#[test]
fn storage_sweeps_expired_authorizations_only() {
    let subject = KeyPair::generate_ed25519();
    let revoked = KeyPair::generate_ed25519();
    let issuer = KeyPair::generate_ed25519();
    let other = KeyPair::generate_ed25519();
    let mut storage = InMemoryStorage::new();
    for (kp, expires) in [(&issuer, 100u64), (&other, 101)] {
        let trust = Trust::create(kp, subject.public(), expires, 1).unwrap();
        storage
            .update_auth(
                Auth {
                    trust,
                    issued_by: kp.public(),
                },
                0,
            )
            .unwrap();
    }
    storage
        .revoke(Revocation::create(&issuer, revoked.public(), 1).unwrap())
        .unwrap();
    let subject_key = PublicKeyHashable::from(subject.public());
    assert_eq!(storage.get_authorizations(&subject_key).unwrap().len(), 2);

    storage.remove_expired(99).unwrap();
    assert_eq!(storage.get_authorizations(&subject_key).unwrap().len(), 2);

    // an authorization whose expiry is the current time is swept
    storage.remove_expired(100).unwrap();
    let left = storage.get_authorizations(&subject_key).unwrap();
    assert_eq!(left.len(), 1);
    assert_eq!(left[0].issued_by, other.public());
    assert_eq!(left[0].trust.expires_at, 101);

    storage.remove_expired(u64::MAX).unwrap();
    assert_eq!(storage.get_authorizations(&subject_key).unwrap().len(), 0);
    // revocations are not removed
    assert_eq!(
        storage
            .get_revocations(&PublicKeyHashable::from(revoked.public()))
            .unwrap()
            .len(),
        1
    );
}

#[test]
fn storage_roots() {
    let a = PublicKeyHashable::from(KeyPair::generate_ed25519().public());
    let b = PublicKeyHashable::from(KeyPair::generate_ed25519().public());
    let mut storage = InMemoryStorage::new();
    assert_eq!(storage.get_root_weight_factor(&a).unwrap(), None);
    storage.set_root_weight_factor(a.clone(), 3).unwrap();
    storage.set_root_weight_factor(b.clone(), 5).unwrap();
    storage.set_root_weight_factor(a.clone(), 4).unwrap();
    storage.set_root_weight_factor(a.clone(), 4).unwrap();
    assert_eq!(storage.get_root_weight_factor(&a).unwrap(), Some(4));
    assert_eq!(storage.get_root_weight_factor(&b).unwrap(), Some(5));
    let keys = storage.root_keys().unwrap();
    assert_eq!(keys.len(), 2);
    assert!(keys.contains(&a) && keys.contains(&b));
}
