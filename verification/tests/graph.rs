use trust_graph::{
    get_weight_from_factor, Certificate, InMemoryStorage, KeyPair, Revocation, Trust, TrustGraph,
    TrustGraphError, MAX_WEIGHT_FACTOR,
};

fn graph() -> TrustGraph<InMemoryStorage> {
    TrustGraph::new(InMemoryStorage::new())
}

fn trust(issuer: &KeyPair, subject: &KeyPair, issued_at: u64, expires_at: u64) -> Trust {
    Trust::create(issuer, subject.public(), expires_at, issued_at).unwrap()
}

/// A graph with the chain `keys[0] -> keys[1] -> ..` under the root `keys[0]`.
fn chain(len: usize, factor: u32) -> (TrustGraph<InMemoryStorage>, Vec<KeyPair>) {
    let keys: Vec<KeyPair> = (0..len).map(|_| KeyPair::generate_ed25519()).collect();
    let mut tg = graph();
    tg.add_root_weight_factor(keys[0].public(), factor).unwrap();
    tg.add_trust(&trust(&keys[0], &keys[0], 0, 1000), &keys[0].public(), 10)
        .unwrap();
    for i in 1..len {
        tg.add_trust(
            &trust(&keys[i - 1], &keys[i], 0, 1000),
            &keys[i - 1].public(),
            10,
        )
        .unwrap();
    }
    (tg, keys)
}

#[test]
fn weight_from_factor_is_a_power_of_two() {
    assert_eq!(MAX_WEIGHT_FACTOR, 16);
    assert_eq!(get_weight_from_factor(0), 65536);
    assert_eq!(get_weight_from_factor(1), 32768);
    assert_eq!(get_weight_from_factor(4), 4096);
    assert_eq!(get_weight_from_factor(15), 2);
    assert_eq!(get_weight_from_factor(16), 1);
    assert_eq!(get_weight_from_factor(17), 1);
    assert_eq!(get_weight_from_factor(u32::MAX), 1);
}

#[test]
fn weight_halves_with_every_trust_of_the_chain() {
    let (mut tg, keys) = chain(5, 3);
    for (i, kp) in keys.iter().enumerate() {
        // root factor 3 and `i` trusts after the root trust
        assert_eq!(tg.weight(&kp.public(), 10).unwrap(), 1 << (16 - 3 - i));
    }
    let stranger = KeyPair::generate_ed25519();
    assert_eq!(tg.weight(&stranger.public(), 10).unwrap(), 0);
    assert!(tg.get_all_certs(&stranger.public(), 10).unwrap().is_empty());
}

#[test]
fn add_trust_hands_on_the_weight() {
    let (mut tg, keys) = chain(2, 4);
    let next = KeyPair::generate_ed25519();
    // the self-signed trust of the root hands on the full weight of the root
    assert_eq!(
        tg.add_trust(&trust(&keys[0], &keys[0], 1, 1000), &keys[0].public(), 10)
            .unwrap(),
        4096
    );
    assert_eq!(
        tg.add_trust(&trust(&keys[0], &next, 1, 1000), &keys[0].public(), 10)
            .unwrap(),
        2048
    );
    assert_eq!(
        tg.add_trust(&trust(&keys[1], &next, 1, 1000), &keys[1].public(), 10)
            .unwrap(),
        1024
    );
    // the shorter chain decides the weight
    assert_eq!(tg.weight(&next.public(), 10).unwrap(), 2048);
    let certs = tg.get_all_certs(&next.public(), 10).unwrap();
    assert_eq!(certs.len(), 2);
    assert_eq!(certs[0].chain.len(), 2);
    assert_eq!(certs[1].chain.len(), 3);
    assert_eq!(tg.certificates_weight_factor(&certs).unwrap(), Some(5));

    // a trust of an issuer without weight is stored and hands on nothing
    let nobody = KeyPair::generate_ed25519();
    let friend = KeyPair::generate_ed25519();
    assert_eq!(
        tg.add_trust(&trust(&nobody, &friend, 1, 1000), &nobody.public(), 10)
            .unwrap(),
        0
    );
    assert_eq!(tg.weight(&friend.public(), 10).unwrap(), 0);
    // once the issuer has weight, so has the subject
    tg.add_trust(&trust(&keys[0], &nobody, 1, 1000), &keys[0].public(), 10)
        .unwrap();
    assert_eq!(tg.weight(&friend.public(), 10).unwrap(), 1024);
}

#[test]
fn add_trust_refuses_what_does_not_verify() {
    let (mut tg, keys) = chain(2, 4);
    let next = KeyPair::generate_ed25519();
    let expired = trust(&keys[1], &next, 1, 9);
    assert!(matches!(
        tg.add_trust(&expired, &keys[1].public(), 10),
        Err(TrustGraphError::TrustVerificationError(_))
    ));
    let good = trust(&keys[1], &next, 1, 1000);
    assert!(matches!(
        tg.add_trust(&good, &keys[0].public(), 10),
        Err(TrustGraphError::TrustVerificationError(_))
    ));
    let mut forged = good.clone();
    forged.expires_at += 1;
    assert!(matches!(
        tg.add_trust(&forged, &keys[1].public(), 10),
        Err(TrustGraphError::TrustVerificationError(_))
    ));
    // nothing was stored
    assert_eq!(tg.weight(&next.public(), 10).unwrap(), 0);
    assert_eq!(tg.add_trust(&good, &keys[1].public(), 10).unwrap(), 1024);
}

#[test]
fn certificates_are_added_from_the_root_on() {
    let root = KeyPair::generate_ed25519();
    let second = KeyPair::generate_ed25519();
    let third = KeyPair::generate_ed25519();
    let cert = Certificate::issue_root(&root, second.public(), 1000, 10).unwrap();
    let cert = Certificate::issue(&second, third.public(), &cert, 500, 10, 100).unwrap();

    let mut tg = graph();
    assert!(matches!(
        tg.add(&Certificate::new_unverified(vec![]), 100),
        Err(TrustGraphError::EmptyChain)
    ));
    tg.add_root_weight_factor(root.public(), 0).unwrap();
    tg.add(&cert, 100).unwrap();
    assert_eq!(tg.weight(&third.public(), 100).unwrap(), 1 << 14);
    assert_eq!(tg.get_all_certs(&third.public(), 100).unwrap()[0].chain, cert.chain);

    // the first trust that is refused ends the work; the trusts before it stay
    let mut tg = graph();
    tg.add_root_weight_factor(root.public(), 0).unwrap();
    assert!(matches!(
        tg.add(&cert, 501),
        Err(TrustGraphError::TrustVerificationError(_))
    ));
    assert_eq!(tg.weight(&second.public(), 501).unwrap(), 1 << 15);
    assert_eq!(tg.weight(&third.public(), 501).unwrap(), 0);
}

#[test]
fn certificates_weight_factor_is_the_least() {
    let (tg, keys) = chain(3, 7);
    assert_eq!(tg.certificates_weight_factor(&vec![]).unwrap(), None);
    let root_trust = trust(&keys[0], &keys[0], 0, 10);
    let other = trust(&keys[0], &keys[1], 0, 10);
    let cert = |n: usize| {
        let mut chain = vec![root_trust.clone()];
        chain.extend((1..n).map(|_| other.clone()));
        Certificate::new_unverified(chain)
    };
    assert_eq!(
        tg.certificates_weight_factor(&vec![cert(5), cert(2), cert(3)])
            .unwrap(),
        Some(8)
    );
    assert_eq!(
        tg.certificates_weight_factor(&vec![cert(1)]).unwrap(),
        Some(7)
    );
    assert!(matches!(
        tg.certificates_weight_factor(&vec![cert(2), Certificate::new_unverified(vec![])]),
        Err(TrustGraphError::EmptyChain)
    ));
    assert!(matches!(
        tg.certificates_weight_factor(&vec![cert(2), Certificate::new_unverified(vec![other.clone()])]),
        Err(TrustGraphError::NoRoot)
    ));
    // a weight factor does not run over
    let mut tg = tg;
    tg.add_root_weight_factor(keys[0].public(), u32::MAX - 1)
        .unwrap();
    assert_eq!(
        tg.certificates_weight_factor(&vec![cert(4)]).unwrap(),
        Some(u32::MAX)
    );
}

#[test]
fn revocation_by_an_issuer_on_the_path_cuts_the_path() {
    let (mut tg, keys) = chain(5, 0);
    let target = keys[4].public();
    assert_eq!(tg.weight(&target, 10).unwrap(), 1 << 12);

    // a wrongly signed revocation is refused
    let good = Revocation::create(&keys[2], target.clone(), 11).unwrap();
    let forged = Revocation::new(keys[2].public(), target.clone(), 12, good.signature.clone());
    assert!(matches!(
        tg.revoke(forged),
        Err(TrustGraphError::RevokeCheckError(_))
    ));
    assert_eq!(tg.weight(&target, 10).unwrap(), 1 << 12);

    tg.revoke(good).unwrap();
    assert_eq!(tg.weight(&target, 12).unwrap(), 0);
    assert_eq!(tg.get_revocations(&target).unwrap().len(), 1);
    // the keys before the target keep their weight
    assert_eq!(tg.weight(&keys[3].public(), 12).unwrap(), 1 << 13);

    // a path around the revoker restores the weight
    tg.add_trust(&trust(&keys[1], &keys[3], 12, 1000), &keys[1].public(), 12)
        .unwrap();
    assert_eq!(tg.weight(&target, 12).unwrap(), 1 << 13);
    let certs = tg.get_all_certs(&target, 12).unwrap();
    assert_eq!(certs.len(), 1);
    assert!(certs[0].chain.iter().all(|t| t.issued_for != keys[2].public()));
}

#[test]
fn revokers_of_an_issuer_count_for_what_comes_after_it() {
    // who revoked the first issuer of a path does not stop the path at that issuer
    let (mut tg, keys) = chain(3, 0);
    let outsider = KeyPair::generate_ed25519();
    tg.revoke(Revocation::create(&outsider, keys[1].public(), 11).unwrap())
        .unwrap();
    assert_eq!(tg.weight(&keys[2].public(), 12).unwrap(), 1 << 14);
}

#[test]
fn cycles_do_not_stop_the_search() {
    let (mut tg, keys) = chain(3, 0);
    // keys[2] trusts keys[1] and keys[0] back
    tg.add_trust(&trust(&keys[2], &keys[1], 1, 1000), &keys[2].public(), 10)
        .unwrap();
    tg.add_trust(&trust(&keys[2], &keys[0], 1, 1000), &keys[2].public(), 10)
        .unwrap();
    tg.add_trust(&trust(&keys[1], &keys[0], 1, 1000), &keys[1].public(), 10)
        .unwrap();
    for (i, kp) in keys.iter().enumerate() {
        assert_eq!(tg.weight(&kp.public(), 10).unwrap(), 1 << (16 - i));
    }
    assert_eq!(tg.get_all_certs(&keys[2].public(), 10).unwrap().len(), 1);
    assert!(tg.get_all_certs(&keys[0].public(), 10).unwrap().is_empty());
}

#[test]
fn certificates_through_an_issuer() {
    let (mut tg, keys) = chain(4, 0);
    let side = KeyPair::generate_ed25519();
    tg.add_trust(&trust(&keys[0], &side, 1, 1000), &keys[0].public(), 10)
        .unwrap();
    tg.add_trust(&trust(&side, &keys[3], 1, 1000), &side.public(), 10)
        .unwrap();
    let target = keys[3].public();
    assert_eq!(tg.get_all_certs(&target, 10).unwrap().len(), 2);
    assert_eq!(tg.weight(&target, 10).unwrap(), 1 << 14);
    let through_side = tg.get_all_certs_from(&target, &side.public(), 10).unwrap();
    assert_eq!(through_side.len(), 1);
    assert_eq!(through_side[0].chain.len(), 3);
    assert_eq!(tg.weight_from(&target, &side.public(), 10).unwrap(), 1 << 14);
    assert_eq!(
        tg.weight_from(&target, &keys[2].public(), 10).unwrap(),
        1 << 13
    );
    assert_eq!(
        tg.get_all_certs_from(&target, &keys[0].public(), 10)
            .unwrap()
            .len(),
        2
    );
    let stranger = KeyPair::generate_ed25519().public();
    assert_eq!(tg.weight_from(&target, &stranger, 10).unwrap(), 0);
}

#[test]
fn keys_of_both_algorithms_meet_in_one_graph() {
    let root = KeyPair::generate_secp256k1();
    let second = KeyPair::generate_ed25519();
    let third = KeyPair::generate_secp256k1();
    let mut tg = graph();
    tg.add_root_weight_factor(root.public(), 1).unwrap();
    tg.add_trust(&trust(&root, &root, 0, 1000), &root.public(), 10)
        .unwrap();
    tg.add_trust(&trust(&root, &second, 0, 1000), &root.public(), 10)
        .unwrap();
    tg.add_trust(&trust(&second, &third, 0, 1000), &second.public(), 10)
        .unwrap();
    assert_eq!(tg.weight(&third.public(), 10).unwrap(), 1 << 13);
    let certs = tg.get_all_certs(&third.public(), 10).unwrap();
    assert_eq!(certs.len(), 1);
    let cert = &certs[0];
    assert!(Certificate::verify(cert, &[root.public()], 10).is_ok());
    assert_eq!(Certificate::decode(&cert.encode()).unwrap().chain, cert.chain);
    assert_eq!(Certificate::from_str(&cert.to_string()).unwrap().chain, cert.chain);
    tg.revoke(Revocation::create(&second, third.public(), 11).unwrap())
        .unwrap();
    assert_eq!(tg.weight(&third.public(), 12).unwrap(), 0);
}
