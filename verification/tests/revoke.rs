use sha2::Digest;
use trust_graph::{KeyPair, Revocation};

#[test]
fn revoke_test_gen_revoke_and_validate_ed25519() {
    let revoker = KeyPair::generate_ed25519();
    let to_revoke = KeyPair::generate_ed25519();

    let duration = 100u64;

    let revoke = Revocation::create(&revoker, to_revoke.public(), duration).unwrap();

    assert_eq!(Revocation::verify(&revoke).is_ok(), true);
}

#[test]
fn revoke_test_validate_corrupted_revoke_ed25519() {
    let revoker = KeyPair::generate_ed25519();
    let to_revoke = KeyPair::generate_ed25519();

    let duration = 100u64;

    let revoke = Revocation::create(&revoker, to_revoke.public(), duration).unwrap();

    let duration2 = 95u64;
    let corrupted_revoke = Revocation::new(
        revoker.public(),
        to_revoke.public(),
        duration2,
        revoke.signature,
    );

    assert_eq!(Revocation::verify(&corrupted_revoke).is_ok(), false);
}

#[test]
fn revocation_is_signed_over_the_hash_of_subject_and_time() {
    let revoker = KeyPair::generate_ed25519();
    let subject = KeyPair::generate_ed25519().public();
    let mut bytes = subject.encode();
    bytes.extend_from_slice(&77u64.to_le_bytes());
    let expected = sha2::Sha256::digest(&bytes).to_vec();
    assert_eq!(Revocation::signature_bytes(&subject, 77), expected);
    let revocation = Revocation::create(&revoker, subject.clone(), 77).unwrap();
    assert!(revoker
        .public()
        .verify(&expected, &revocation.signature)
        .is_ok());
    assert_eq!(revocation.revoked_by, revoker.public());
    assert_eq!(revocation.pk, subject);
}
