use std::collections::HashMap;
use std::time::{SystemTime, UNIX_EPOCH};
use trust_graph::dto::{Certificate, Revocation, Trust};
use trust_graph::service_api;
use trust_graph::{
    CallParameters, InMemoryStorage, KeyPair, SecurityTetraplet, ServiceError, TrustGraph,
};

static HOST_ID: &str = "some_host_id";

type PeerId = String;

struct Auth {
    issuer: PeerId,
    trust: Trust,
}

/// The service around one graph in memory.
struct ServiceInterface {
    tg: TrustGraph<InMemoryStorage>,
}

impl ServiceInterface {
    fn new() -> Self {
        ServiceInterface {
            tg: TrustGraph::new(InMemoryStorage::new()),
        }
    }
}

fn current_time() -> u64 {
    SystemTime::now()
        .duration_since(UNIX_EPOCH)
        .unwrap()
        .as_secs()
}

fn get_correct_timestamp_cp(arg_number: usize) -> CallParameters {
    get_correct_timestamp_cp_with_host_id(arg_number, HOST_ID.to_string())
}

fn get_correct_timestamp_cp_with_host_id(arg_number: usize, host_id: String) -> CallParameters {
    let mut cp = CallParameters {
        host_id: host_id.clone(),
        ..CallParameters::default()
    };

    for _ in 0..arg_number {
        cp.tetraplets.push(vec![]);
    }

    cp.tetraplets.push(vec![SecurityTetraplet {
        peer_pk: host_id,
        service_id: "peer".to_string(),
        function_name: "timestamp_sec".to_string(),
        json_path: "".to_string(),
    }]);

    cp
}

fn set_root_peer_id(trust_graph: &mut ServiceInterface, peer_id: PeerId, max_chain_len: u32) {
    let result = service_api::set_root(
        &mut trust_graph.tg,
        &CallParameters::default(),
        peer_id,
        max_chain_len,
    );
    assert!(result.success, "{}", result.error);
}

fn add_root_with_trust(
    trust_graph: &mut ServiceInterface,
    issuer_kp: &KeyPair,
    issued_at_sec: u64,
    expires_at_sec: u64,
    max_chain_len: u32,
) -> Trust {
    set_root_peer_id(trust_graph, issuer_kp.get_peer_id(), max_chain_len);
    add_trust(
        trust_graph,
        issuer_kp,
        &issuer_kp.get_peer_id(),
        issued_at_sec,
        expires_at_sec,
    )
}

fn issue_trust(
    _trust_graph: &mut ServiceInterface,
    issuer_kp: &KeyPair,
    issued_for: &PeerId,
    issued_at_sec: u64,
    expires_at_sec: u64,
) -> Trust {
    let result = service_api::get_trust_bytes(issued_for.clone(), expires_at_sec, issued_at_sec);
    assert!(result.success, "{}", result.error);

    let trust_bytes = issuer_kp.sign(&result.result).unwrap().to_vec().to_vec();
    let issue_result = service_api::issue_trust(
        issued_for.clone(),
        expires_at_sec,
        issued_at_sec,
        trust_bytes,
    );
    assert!(issue_result.success, "{}", issue_result.error);

    issue_result.trust
}

fn issue_root_trust(
    trust_graph: &mut ServiceInterface,
    issuer_kp: &KeyPair,
    issued_at_sec: u64,
    expires_at_sec: u64,
) -> Trust {
    issue_trust(
        trust_graph,
        issuer_kp,
        &issuer_kp.get_peer_id(),
        issued_at_sec,
        expires_at_sec,
    )
}

fn add_trust(
    trust_graph: &mut ServiceInterface,
    issuer_kp: &KeyPair,
    issued_for: &PeerId,
    issued_at_sec: u64,
    expires_at_sec: u64,
) -> Trust {
    let trust = issue_trust(
        trust_graph,
        issuer_kp,
        issued_for,
        issued_at_sec,
        expires_at_sec,
    );
    let add_trust_result = service_api::add_trust(
        &mut trust_graph.tg,
        &get_correct_timestamp_cp(2),
        trust.clone(),
        issuer_kp.get_peer_id(),
        issued_at_sec,
    );

    assert!(add_trust_result.success, "{}", add_trust_result.error);

    trust
}

fn add_trust_checked(
    trust_graph: &mut ServiceInterface,
    trust: Trust,
    issuer_peer_id: PeerId,
    cur_time: u64,
) {
    let result = service_api::add_trust(
        &mut trust_graph.tg,
        &get_correct_timestamp_cp(2),
        trust,
        issuer_peer_id,
        cur_time,
    );
    assert!(result.success, "{}", result.error);
}

fn add_trusts(trust_graph: &mut ServiceInterface, trusts: &[Auth], cur_time: u64) {
    for auth in trusts.iter() {
        add_trust_checked(
            trust_graph,
            auth.trust.clone(),
            auth.issuer.clone(),
            cur_time,
        );
    }
}

fn revoke(
    trust_graph: &mut ServiceInterface,
    issuer_kp: &KeyPair,
    revoked_peer_id: &PeerId,
    revoked_at_sec: u64,
) -> Revocation {
    let result = service_api::get_revocation_bytes(revoked_peer_id.clone(), revoked_at_sec);
    assert!(result.success, "{}", result.error);

    let revoke_bytes = issuer_kp.sign(&result.result).unwrap().to_vec().to_vec();
    let issue_result = service_api::issue_revocation(
        issuer_kp.get_peer_id(),
        revoked_peer_id.clone(),
        revoked_at_sec,
        revoke_bytes,
    );
    assert!(issue_result.success, "{}", issue_result.error);

    let revoke_result = service_api::revoke(
        &mut trust_graph.tg,
        &get_correct_timestamp_cp(1),
        issue_result.revocation.clone(),
        revoked_at_sec,
    );

    assert!(revoke_result.success, "{}", revoke_result.error);

    issue_result.revocation
}

fn generate_trust_chain_with(
    trust_graph: &mut ServiceInterface,
    len: usize,
    // Map of index to keypair. These key pairs will be used in trust chains at the given indexes
    keys: HashMap<usize, KeyPair>,
    expires_at: u64,
    issued_at: u64,
) -> (Vec<KeyPair>, Vec<Auth>) {
    assert!(len > 2);

    let root_kp = KeyPair::generate_ed25519();
    let second_kp = KeyPair::generate_ed25519();

    let root_trust = issue_root_trust(trust_graph, &root_kp, issued_at, expires_at);
    let second_trust = issue_trust(
        trust_graph,
        &root_kp,
        &second_kp.get_peer_id(),
        issued_at,
        expires_at,
    );
    let mut chain = vec![
        Auth {
            issuer: root_kp.get_peer_id(),
            trust: root_trust,
        },
        Auth {
            issuer: root_kp.get_peer_id(),
            trust: second_trust,
        },
    ];

    let mut key_pairs = vec![root_kp, second_kp];

    for idx in 2..len {
        let kp = keys
            .get(&idx)
            .unwrap_or(&KeyPair::generate_ed25519())
            .clone();
        let previous_kp = &key_pairs[idx - 1];

        let trust = issue_trust(
            trust_graph,
            &previous_kp,
            &kp.get_peer_id(),
            issued_at,
            expires_at,
        );
        chain.push(Auth {
            issuer: previous_kp.get_peer_id(),
            trust,
        });
        key_pairs.push(kp);
    }

    (key_pairs, chain)
}

fn generate_trust_chain_with_len(
    trust_graph: &mut ServiceInterface,
    len: usize,
    keys: HashMap<usize, KeyPair>,
) -> (Vec<KeyPair>, Vec<Auth>) {
    let cur_time = current_time();
    let far_future = cur_time + 60;

    generate_trust_chain_with(trust_graph, len, keys, far_future, cur_time)
}

fn get_weight(trust_graph: &mut ServiceInterface, peer_id: PeerId, cur_time: u64) -> u32 {
    let result = service_api::get_weight(
        &mut trust_graph.tg,
        &get_correct_timestamp_cp(1),
        peer_id,
        cur_time,
    );
    assert!(result.success, "{}", result.error);
    result.weight
}

fn get_all_certs(
    trust_graph: &mut ServiceInterface,
    issued_for: PeerId,
    cur_time: u64,
) -> Vec<Certificate> {
    let result = service_api::get_all_certs(
        &mut trust_graph.tg,
        &get_correct_timestamp_cp(1),
        issued_for,
        cur_time,
    );
    assert!(result.success, "{}", result.error);
    result.certificates
}

#[test]
fn add_root_not_owner() {
    let mut trust_graph = ServiceInterface::new();
    let cp = CallParameters {
        init_peer_id: "other_peer_id".to_string(),
        service_creator_peer_id: "some_peer_id".to_string(),
        ..CallParameters::default()
    };

    let some_peer_id = KeyPair::generate_ed25519().get_peer_id();
    let result = service_api::set_root(&mut trust_graph.tg, &cp, some_peer_id.clone(), 0);
    assert!(!result.success);
    assert_eq!(result.error, ServiceError::NotOwner.to_string());
    // no mutation occurred
    assert_eq!(get_weight(&mut trust_graph, some_peer_id, 0), 0);
}

#[test]
fn add_root_owner() {
    let mut trust_graph = ServiceInterface::new();
    let peer_id = "some_peer_id".to_string();

    let cp = CallParameters {
        init_peer_id: peer_id.clone(),
        service_creator_peer_id: peer_id,
        ..CallParameters::default()
    };

    let some_peer_id = KeyPair::generate_ed25519().get_peer_id();
    let result = service_api::set_root(&mut trust_graph.tg, &cp, some_peer_id, 0);
    assert!(result.success, "{}", result.error);
}

#[test]
fn add_root_trust() {
    let mut trust_graph = ServiceInterface::new();

    let root_kp = KeyPair::generate_ed25519();
    let root_peer_id = root_kp.get_peer_id();
    let expires_at_sec = 9999u64;
    let issued_at_sec = 0u64;

    set_root_peer_id(&mut trust_graph, root_kp.get_peer_id(), 4u32);

    let result =
        service_api::get_trust_bytes(root_peer_id.clone(), expires_at_sec, issued_at_sec);
    assert!(result.success, "{}", result.error);
    let trust_bytes = root_kp.sign(&result.result).unwrap().to_vec().to_vec();

    let issue_result = service_api::issue_trust(
        root_peer_id.clone(),
        expires_at_sec,
        issued_at_sec,
        trust_bytes,
    );
    assert!(issue_result.success, "{}", issue_result.error);

    let verify_result = service_api::verify_trust(
        &get_correct_timestamp_cp(2),
        issue_result.trust.clone(),
        root_peer_id.clone(),
        100u64,
    );

    assert!(verify_result.success, "{}", verify_result.error);

    let add_trust_result = service_api::add_trust(
        &mut trust_graph.tg,
        &get_correct_timestamp_cp(2),
        issue_result.trust,
        root_peer_id.clone(),
        100u64,
    );

    assert!(add_trust_result.success, "{}", add_trust_result.error);
    assert_eq!(
        get_weight(&mut trust_graph, root_peer_id.clone(), 100u64),
        add_trust_result.weight
    );
    // the weight of a root with the factor 4 is 2^(16 - 4)
    assert_eq!(add_trust_result.weight, 4096);
    assert_eq!(get_weight(&mut trust_graph, root_peer_id, 100u64), 4096);
}

#[test]
fn test_expired_root_trust() {
    let mut trust_graph = ServiceInterface::new();

    let root_kp = KeyPair::generate_ed25519();
    let cur_time = 100u64;
    let root_expired_time = cur_time + 10000;
    add_root_with_trust(
        &mut trust_graph,
        &root_kp,
        cur_time,
        root_expired_time - 1,
        10,
    );

    let trust_kp = KeyPair::generate_ed25519();
    add_trust(
        &mut trust_graph,
        &root_kp,
        &trust_kp.get_peer_id(),
        cur_time,
        root_expired_time + 99999,
    );

    let root_weight = get_weight(&mut trust_graph, root_kp.get_peer_id(), cur_time);
    let trust_weight = get_weight(&mut trust_graph, trust_kp.get_peer_id(), cur_time);
    assert_eq!(root_weight / 2, trust_weight);

    let certs = get_all_certs(&mut trust_graph, trust_kp.get_peer_id(), cur_time);
    assert_eq!(certs.len(), 1);

    // get all certs after root expiration
    let certs = get_all_certs(&mut trust_graph, trust_kp.get_peer_id(), root_expired_time);
    assert_eq!(certs.len(), 0);

    // check garbage collector
    let certs = get_all_certs(&mut trust_graph, trust_kp.get_peer_id(), cur_time);
    assert_eq!(certs.len(), 0);
}

/// 1. peer `A` gives trusts to `B`
/// 2. weight of `B` is not 0
/// 3. peer `A` revokes `B`
/// 4. there is no path from `A` to `B`, weight of `A` is 0
#[test]
fn trust_direct_revoke_test() {
    let mut trust_graph = ServiceInterface::new();

    let peer_a_kp = KeyPair::generate_ed25519();
    let mut cur_time = 100u64;
    add_root_with_trust(&mut trust_graph, &peer_a_kp, cur_time, cur_time + 9999, 10);

    let peer_b_kp = KeyPair::generate_ed25519();
    add_trust(
        &mut trust_graph,
        &peer_a_kp,
        &peer_b_kp.get_peer_id(),
        cur_time,
        cur_time + 99999,
    );

    let weight = get_weight(&mut trust_graph, peer_b_kp.get_peer_id(), cur_time);
    assert_ne!(weight, 0u32);

    cur_time += 1;
    // A revokes B and cancels trust
    revoke(
        &mut trust_graph,
        &peer_a_kp,
        &peer_b_kp.get_peer_id(),
        cur_time,
    );

    let weight = get_weight(&mut trust_graph, peer_b_kp.get_peer_id(), cur_time);
    assert_eq!(weight, 0u32);
    assert_eq!(
        get_all_certs(&mut trust_graph, peer_b_kp.get_peer_id(), cur_time).len(),
        0
    );
}

/// There is chain of trusts [0] -> [1] -> [2] -> [3] -> [4]
/// 1. [1] revokes [4]
/// 2. there is no path from [0] to [4], weight of [4] is 0
/// 3. [0] gives trust to [2]
/// 4. now there is path [0] -> [2] -> [3] -> [4]
/// 5. weight of [4] is not 0
#[test]
fn indirect_revoke_test() {
    let mut trust_graph = ServiceInterface::new();

    let (key_pairs, trusts) = generate_trust_chain_with_len(&mut trust_graph, 5, HashMap::new());
    let mut cur_time = current_time();

    let root_peer_id = key_pairs[0].get_peer_id();
    set_root_peer_id(&mut trust_graph, root_peer_id, 10);
    add_trusts(&mut trust_graph, &trusts, cur_time);

    let target_peer_id = key_pairs[4].get_peer_id();
    let revoked_by = &key_pairs[1];
    let weight = get_weight(&mut trust_graph, target_peer_id.clone(), cur_time);
    assert_ne!(weight, 0u32);

    cur_time += 1;
    // [1] revokes [4]
    revoke(&mut trust_graph, &revoked_by, &target_peer_id, cur_time);

    // now there are no path from root to [4]
    let weight = get_weight(&mut trust_graph, target_peer_id.clone(), cur_time);
    assert_eq!(weight, 0u32);

    // [0] trusts [2]
    add_trust(
        &mut trust_graph,
        &key_pairs[0],
        &key_pairs[2].get_peer_id(),
        cur_time,
        cur_time + 99999,
    );
    // [2] trusts [4]
    add_trust(
        &mut trust_graph,
        &key_pairs[2],
        &target_peer_id,
        cur_time,
        cur_time + 99999,
    );

    // now we have [0] -> [2] -> [4] path
    let weight = get_weight(&mut trust_graph, target_peer_id, cur_time);
    assert_ne!(weight, 0u32);
}

#[test]
fn test_add_one_trust_to_cert_last() {
    let mut trust_graph = ServiceInterface::new();
    let (key_pairs, mut trusts) =
        generate_trust_chain_with_len(&mut trust_graph, 5, HashMap::new());
    let cur_time = current_time();

    let root_peer_id = key_pairs[0].get_peer_id();
    set_root_peer_id(&mut trust_graph, root_peer_id, 10);
    add_trusts(&mut trust_graph, &trusts, cur_time);

    let issued_by = key_pairs.last().unwrap().get_peer_id();
    let trust_kp = KeyPair::generate_ed25519();
    let issued_for = trust_kp.get_peer_id();
    let future = cur_time + 60;
    let trust = add_trust(
        &mut trust_graph,
        &key_pairs.last().unwrap(),
        &issued_for,
        cur_time,
        future,
    );
    trusts.push(Auth {
        issuer: issued_by.clone(),
        trust,
    });

    let previous_weight = get_weight(&mut trust_graph, issued_by, cur_time);
    assert_ne!(previous_weight, 0u32);

    let weight = get_weight(&mut trust_graph, issued_for.clone(), cur_time);
    assert_eq!(weight * 2, previous_weight);

    let certs = get_all_certs(&mut trust_graph, issued_for, cur_time);
    assert_eq!(certs.len(), 1);

    for (i, trust) in certs[0].chain.iter().enumerate() {
        assert_eq!(*trust, trusts[i].trust);
    }
}

#[test]
fn test_expired_trust() {
    let mut trust_graph = ServiceInterface::new();
    let (key_pairs, mut trusts) =
        generate_trust_chain_with_len(&mut trust_graph, 5, HashMap::new());
    let cur_time = current_time();

    let root1_peer_id = key_pairs[0].get_peer_id();
    set_root_peer_id(&mut trust_graph, root1_peer_id, 10);
    add_trusts(&mut trust_graph, &trusts, cur_time);

    let issued_by = key_pairs.last().unwrap().get_peer_id();
    let trust_kp = KeyPair::generate_ed25519();
    let issued_for = trust_kp.get_peer_id();
    let expired_time = cur_time + 60;

    let trust = add_trust(
        &mut trust_graph,
        &key_pairs.last().unwrap(),
        &issued_for,
        cur_time,
        expired_time,
    );
    trusts.push(Auth {
        issuer: issued_by,
        trust,
    });

    let certs = get_all_certs(&mut trust_graph, issued_for.clone(), cur_time);
    assert_eq!(certs.len(), 1);
    for (i, trust) in certs[0].chain.iter().enumerate() {
        assert_eq!(*trust, trusts[i].trust);
    }

    let certs = get_all_certs(&mut trust_graph, issued_for.clone(), expired_time);
    assert_eq!(certs.len(), 0);

    // check garbage collector
    let certs = get_all_certs(&mut trust_graph, issued_for, cur_time);
    assert_eq!(certs.len(), 0);
}

#[test]
fn test_get_one_cert() {
    let mut trust_graph = ServiceInterface::new();
    let (key_pairs, trusts) = generate_trust_chain_with_len(&mut trust_graph, 5, HashMap::new());

    let cur_time = current_time();
    let root_peer_id = key_pairs[0].get_peer_id();
    set_root_peer_id(&mut trust_graph, root_peer_id, 10);

    for auth in trusts.iter() {
        add_trust_checked(
            &mut trust_graph,
            auth.trust.clone(),
            auth.issuer.clone(),
            cur_time,
        );
    }

    let certs = service_api::get_all_certs(
        &mut trust_graph.tg,
        &get_correct_timestamp_cp(1),
        key_pairs.last().unwrap().get_peer_id(),
        cur_time,
    );
    assert!(certs.success, "{}", certs.error);
    let certs = certs.certificates;
    assert_eq!(certs.len(), 1);

    for (i, trust) in certs[0].chain.iter().enumerate() {
        assert_eq!(*trust, trusts[i].trust);
    }
}

#[test]
fn test_chain_from_root_to_another_root() {
    let mut trust_graph = ServiceInterface::new();
    let (kps, trusts) = generate_trust_chain_with_len(&mut trust_graph, 6, HashMap::new());
    let cur_time = current_time();
    let far_future = cur_time + 9999;

    // add first and last trusts as roots
    set_root_peer_id(&mut trust_graph, kps[0].get_peer_id(), 10);
    add_trusts(&mut trust_graph, &trusts, cur_time);
    add_root_with_trust(&mut trust_graph, &kps[5], cur_time, far_future, 10);

    let certs = get_all_certs(&mut trust_graph, kps[5].get_peer_id(), cur_time);
    // first with self-signed last trust, second - without
    assert_eq!(certs.len(), 2);
    assert_eq!(certs[0].chain.len(), 6);
    assert_eq!(certs[1].chain.len(), 7);
}

#[test]
fn test_revoke_gc() {
    let mut trust_graph = ServiceInterface::new();

    let root_kp = KeyPair::generate_ed25519();
    let cur_time = 100u64;
    add_root_with_trust(&mut trust_graph, &root_kp, cur_time, cur_time + 999, 10);

    let trust_kp = KeyPair::generate_ed25519();
    add_trust(
        &mut trust_graph,
        &root_kp,
        &trust_kp.get_peer_id(),
        cur_time,
        cur_time + 99999,
    );

    let weight = get_weight(&mut trust_graph, trust_kp.get_peer_id(), cur_time);
    assert_ne!(weight, 0u32);

    let revoked_time = cur_time + 1;
    revoke(
        &mut trust_graph,
        &root_kp,
        &trust_kp.get_peer_id(),
        revoked_time,
    );

    let weight = get_weight(&mut trust_graph, trust_kp.get_peer_id(), revoked_time);
    assert_eq!(weight, 0u32);

    // add trust issued earlier than last revoke
    add_trust(
        &mut trust_graph,
        &root_kp,
        &trust_kp.get_peer_id(),
        revoked_time - 10,
        cur_time + 99999,
    );

    let weight = get_weight(&mut trust_graph, trust_kp.get_peer_id(), revoked_time);
    assert_eq!(weight, 0u32);
}

#[test]
fn test_update_trust() {
    let mut trust_graph = ServiceInterface::new();

    let root_kp = KeyPair::generate_ed25519();
    let mut cur_time = 100u64;
    add_root_with_trust(&mut trust_graph, &root_kp, cur_time, cur_time + 999, 10);

    let trust_kp = KeyPair::generate_ed25519();
    let expires_at_sec = cur_time + 10;
    add_trust(
        &mut trust_graph,
        &root_kp,
        &trust_kp.get_peer_id(),
        cur_time,
        expires_at_sec,
    );

    let weight = get_weight(&mut trust_graph, trust_kp.get_peer_id(), cur_time);
    assert_ne!(weight, 0u32);

    cur_time = expires_at_sec - 1;
    let future_time = expires_at_sec + 10;
    // add trust that expires lately
    add_trust(
        &mut trust_graph,
        &root_kp,
        &trust_kp.get_peer_id(),
        cur_time,
        future_time + 99999,
    );

    // first trust should be replaced by second (and has already been expired)
    let weight = get_weight(&mut trust_graph, trust_kp.get_peer_id(), future_time);
    assert_ne!(weight, 0u32);
}

#[test]
fn add_self_signed_weight() {
    let mut trust_graph = ServiceInterface::new();

    let root_kp = KeyPair::generate_ed25519();
    let cur_time = 100;
    let far_future = cur_time + 99999;

    add_root_with_trust(&mut trust_graph, &root_kp, cur_time, far_future, 0u32);

    // issue trust from root to any other peer
    let other_peer_kp = KeyPair::generate_ed25519();
    add_trust(
        &mut trust_graph,
        &root_kp,
        &other_peer_kp.get_peer_id(),
        cur_time,
        far_future,
    );

    let weight_before = get_weight(&mut trust_graph, other_peer_kp.get_peer_id(), cur_time);

    // issue self-signed trust
    add_trust(
        &mut trust_graph,
        &other_peer_kp,
        &other_peer_kp.get_peer_id(),
        cur_time,
        far_future,
    );

    let weight_after = get_weight(&mut trust_graph, other_peer_kp.get_peer_id(), cur_time);
    assert_eq!(weight_after, weight_before);
}

#[test]
fn test_get_one_host_cert() {
    let mut trust_graph = ServiceInterface::new();
    let (key_pairs, trusts) = generate_trust_chain_with_len(&mut trust_graph, 5, HashMap::new());

    let cur_time = current_time();
    let root_peer_id = key_pairs[0].get_peer_id();
    set_root_peer_id(&mut trust_graph, root_peer_id, 10);

    for auth in trusts.iter() {
        add_trust_checked(
            &mut trust_graph,
            auth.trust.clone(),
            auth.issuer.clone(),
            cur_time,
        );
    }

    let cp = get_correct_timestamp_cp_with_host_id(0, key_pairs.last().unwrap().get_peer_id());
    let certs = service_api::get_host_certs(&mut trust_graph.tg, &cp, cur_time);

    assert!(certs.success, "{}", certs.error);
    let certs = certs.certificates;
    assert_eq!(certs.len(), 1);

    for (i, trust) in certs[0].chain.iter().enumerate() {
        assert_eq!(*trust, trusts[i].trust);
    }
}

#[test]
fn test_get_one_host_cert_from() {
    let mut trust_graph = ServiceInterface::new();
    let (key_pairs, trusts) = generate_trust_chain_with_len(&mut trust_graph, 5, HashMap::new());

    let cur_time = current_time();
    let root_peer_id = key_pairs[0].get_peer_id();
    set_root_peer_id(&mut trust_graph, root_peer_id, 10);

    for auth in trusts.iter() {
        add_trust_checked(
            &mut trust_graph,
            auth.trust.clone(),
            auth.issuer.clone(),
            cur_time,
        );
    }

    let cp = get_correct_timestamp_cp_with_host_id(1, key_pairs.last().unwrap().get_peer_id());
    let certs = service_api::get_host_certs_from(
        &mut trust_graph.tg,
        &cp,
        key_pairs[3].get_peer_id(),
        cur_time,
    );

    assert!(certs.success, "{}", certs.error);
    let certs = certs.certificates;
    assert_eq!(certs.len(), 1);
    assert_eq!(certs[0].chain.len(), 5);

    for (i, trust) in certs[0].chain.iter().enumerate() {
        assert_eq!(*trust, trusts[i].trust);
    }
}

#[test]
fn timestamps_must_come_from_the_host() {
    let mut trust_graph = ServiceInterface::new();
    let kp = KeyPair::generate_ed25519();
    set_root_peer_id(&mut trust_graph, kp.get_peer_id(), 1);
    let trust = issue_root_trust(&mut trust_graph, &kp, 10, 1000);

    // no tetraplet at the place of the timestamp
    for cp in [
        CallParameters::default(),
        get_correct_timestamp_cp(1),
        get_correct_timestamp_cp(3),
    ] {
        let result =
            service_api::add_trust(&mut trust_graph.tg, &cp, trust.clone(), kp.get_peer_id(), 10);
        assert!(!result.success);
        assert_eq!(result.weight, 0);
    }
    // a tetraplet of another peer, service or function
    for (peer, service, function) in [
        ("another_host", "peer", "timestamp_sec"),
        (HOST_ID, "op", "timestamp_sec"),
        (HOST_ID, "peer", "timestamp_ms"),
    ] {
        let mut cp = get_correct_timestamp_cp(2);
        cp.tetraplets[2][0] = SecurityTetraplet {
            peer_pk: peer.to_string(),
            service_id: service.to_string(),
            function_name: function.to_string(),
            json_path: String::new(),
        };
        let result =
            service_api::add_trust(&mut trust_graph.tg, &cp, trust.clone(), kp.get_peer_id(), 10);
        assert!(!result.success);
        assert!(result.error.starts_with("you should use host peer.timestamp_sec"));
    }
    // a trust that is issued later than the timestamp
    let result = service_api::add_trust(
        &mut trust_graph.tg,
        &get_correct_timestamp_cp(2),
        trust.clone(),
        kp.get_peer_id(),
        9,
    );
    assert!(!result.success);
    assert_eq!(
        result.error,
        "trust can't be issued later than the current timestamp"
    );
    // nothing was stored by the refused calls
    assert_eq!(get_all_certs(&mut trust_graph, kp.get_peer_id(), 10).len(), 0);
    let result = service_api::add_trust(
        &mut trust_graph.tg,
        &get_correct_timestamp_cp(2),
        trust,
        kp.get_peer_id(),
        10,
    );
    assert!(result.success);
    assert_eq!(result.weight, 1 << 15);
    assert_eq!(result.error, "");

    // a revocation that is made later than the timestamp
    let bytes = service_api::get_revocation_bytes(kp.get_peer_id(), 20);
    let signature = kp.sign(&bytes.result).unwrap().to_vec().to_vec();
    let revocation =
        service_api::issue_revocation(kp.get_peer_id(), kp.get_peer_id(), 20, signature)
            .revocation;
    let result = service_api::revoke(
        &mut trust_graph.tg,
        &get_correct_timestamp_cp(1),
        revocation.clone(),
        19,
    );
    assert!(!result.success);
    assert_eq!(
        result.error,
        "revoke can't be issued later than the current timestamp"
    );
    let result = service_api::revoke(
        &mut trust_graph.tg,
        &get_correct_timestamp_cp(0),
        revocation,
        20,
    );
    assert!(!result.success);
}

#[test]
fn certificates_are_inserted_in_both_forms() {
    let root = KeyPair::generate_ed25519();
    let second = KeyPair::generate_ed25519();
    let third = KeyPair::generate_ed25519();
    let cert = trust_graph::Certificate::issue_root(&root, second.public(), 1000, 10).unwrap();
    let cert =
        trust_graph::Certificate::issue(&second, third.public(), &cert, 500, 10, 100).unwrap();

    for raw in [true, false] {
        let mut trust_graph = ServiceInterface::new();
        set_root_peer_id(&mut trust_graph, root.get_peer_id(), 2);
        let result = if raw {
            service_api::insert_cert_raw(&mut trust_graph.tg, cert.to_string(), 100)
        } else {
            service_api::insert_cert(&mut trust_graph.tg, Certificate::from(&cert), 100)
        };
        assert!(result.success, "{}", result.error);
        assert_eq!(result.error, "");
        // factor 2 and two trusts after the root trust: 2^(16 - 4)
        assert_eq!(get_weight(&mut trust_graph, third.get_peer_id(), 100), 4096);
        let certs = get_all_certs(&mut trust_graph, third.get_peer_id(), 100);
        assert_eq!(certs, vec![Certificate::from(&cert)]);
        assert_eq!(certs[0].clone().try_into().unwrap().chain, cert.chain);

        let from = service_api::get_all_certs_from(
            &mut trust_graph.tg,
            &get_correct_timestamp_cp(2),
            third.get_peer_id(),
            second.get_peer_id(),
            100,
        );
        assert_eq!(from.certificates.len(), 1);
        let from = service_api::get_all_certs_from(
            &mut trust_graph.tg,
            &get_correct_timestamp_cp(2),
            third.get_peer_id(),
            KeyPair::generate_ed25519().get_peer_id(),
            100,
        );
        assert!(from.success);
        assert_eq!(from.certificates.len(), 0);
        let from = service_api::get_weight_from(
            &mut trust_graph.tg,
            &get_correct_timestamp_cp(2),
            third.get_peer_id(),
            second.get_peer_id(),
            100,
        );
        assert_eq!(from.weight, 4096);
        assert_eq!(from.peer_id, third.get_peer_id());

        // an expired certificate is refused
        let result = if raw {
            service_api::insert_cert_raw(&mut trust_graph.tg, cert.to_string(), 501)
        } else {
            service_api::insert_cert(&mut trust_graph.tg, Certificate::from(&cert), 501)
        };
        assert!(!result.success);
        assert!(result.error.starts_with("Trust verification error"));
    }
    let mut trust_graph = ServiceInterface::new();
    let result = service_api::insert_cert_raw(&mut trust_graph.tg, "11\n1111\n".to_string(), 0);
    assert!(!result.success);
    assert_eq!(result.error, "Chain is empty");
    let result = service_api::insert_cert_raw(&mut trust_graph.tg, "11".to_string(), 0);
    assert!(!result.success);
}

#[test]
fn revocations_are_exported() {
    let mut trust_graph = ServiceInterface::new();
    let a = KeyPair::generate_ed25519();
    let b = KeyPair::generate_ed25519();
    let c = KeyPair::generate_ed25519();
    let first = revoke(&mut trust_graph, &a, &c.get_peer_id(), 10);
    let second = revoke(&mut trust_graph, &b, &c.get_peer_id(), 11);
    revoke(&mut trust_graph, &a, &b.get_peer_id(), 12);
    let exported = service_api::export_revocations(&trust_graph.tg, c.get_peer_id());
    assert!(exported.success);
    assert_eq!(exported.revocations.len(), 2);
    assert!(exported.revocations.contains(&first));
    assert!(exported.revocations.contains(&second));
    assert_eq!(first.revoked_by, a.get_peer_id());
    assert_eq!(first.revoked_peer_id, c.get_peer_id());
    assert_eq!(first.sig_type, "ed25519");
    let exported = service_api::export_revocations(&trust_graph.tg, "no peer id".to_string());
    assert!(!exported.success);
    assert!(exported.revocations.is_empty());
}

#[test]
fn trusts_of_both_algorithms_cross_the_wire() {
    for secp in [false, true] {
        let kp = if secp {
            KeyPair::generate_secp256k1()
        } else {
            KeyPair::generate_ed25519()
        };
        let mut trust_graph = ServiceInterface::new();
        set_root_peer_id(&mut trust_graph, kp.get_peer_id(), 3);
        let trust = add_trust(&mut trust_graph, &kp, &kp.get_peer_id(), 10, 1000);
        assert_eq!(trust.sig_type, if secp { "secp256k1" } else { "ed25519" });
        assert_eq!(trust.issued_for, kp.get_peer_id());
        assert_eq!(get_weight(&mut trust_graph, kp.get_peer_id(), 10), 1 << 13);
        let back = trust.clone().try_into().unwrap();
        assert_eq!(back.issued_for, kp.public());
        assert_eq!(Trust::from(&back), trust);
        let mut unknown = trust.clone();
        unknown.sig_type = "rsa".to_string();
        assert!(unknown.try_into().is_err());
    }
}

#[test]
fn peer_ids_must_hold_a_key() {
    let result = service_api::get_trust_bytes("no peer id".to_string(), 1, 0);
    assert!(!result.success);
    assert!(result.result.is_empty());
    assert!(result
        .error
        .starts_with("public key extraction from peer id failed"));
    let result = service_api::get_trust_bytes(
        "QmYyQSo1c1Ym7orWxLYvCrM2EmxFTANf8wXmmE7DWjhx5N".to_string(),
        1,
        0,
    );
    assert!(!result.success);
    assert!(result.error.starts_with("public key is not inlined"));
    let result = service_api::issue_trust("no peer id".to_string(), 1, 0, vec![]);
    assert!(!result.success);
    assert_eq!(result.trust, Trust::default());
}
