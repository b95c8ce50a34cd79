use sha2::Digest;
use trust_graph::{KeyPair, Trust, TrustError};

#[test]
fn trust_test_gen_revoke_and_validate_ed25519() {
    let truster = KeyPair::generate_ed25519();
    let trusted = KeyPair::generate_ed25519();

    let current = 100u64;
    let duration = 1000u64;
    let issued_at = 10u64;

    let trust = Trust::create(&truster, trusted.public(), duration, issued_at).unwrap();

    assert_eq!(Trust::verify(&trust, &truster.public(), current).is_ok(), true);
}

#[test]
fn trust_test_validate_corrupted_revoke_ed25519() {
    let truster = KeyPair::generate_ed25519();
    let trusted = KeyPair::generate_ed25519();

    let current = 1000u64;
    let issued_at = 10u64;

    let trust = Trust::create(&truster, trusted.public(), current, issued_at).unwrap();

    let corrupted_duration = 1234u64;
    let corrupted_trust = Trust::new(
        trust.issued_for,
        trust.expires_at,
        corrupted_duration,
        trust.signature,
    );

    assert!(Trust::verify(&corrupted_trust, &truster.public(), current).is_err());
}

#[test]
fn test_encode_decode_ed25519() {
    let truster = KeyPair::generate_ed25519();
    let trusted = KeyPair::generate_ed25519();

    let current = 1000u64;
    let issued_at = 10u64;

    let trust = Trust::create(&truster, trusted.public(), current, issued_at).unwrap();

    let encoded = trust.encode();
    let decoded = Trust::decode(encoded.as_slice()).unwrap();

    assert_eq!(trust, decoded);
}

#[test]
fn trust_expired_is_reported_with_both_times() {
    let truster = KeyPair::generate_ed25519();
    let trust = Trust::create(&truster, truster.public(), 50, 10).unwrap();
    match Trust::verify(&trust, &truster.public(), 51) {
        Err(TrustError::Expired(expires_at, now)) => {
            assert_eq!(expires_at, 50);
            assert_eq!(now, 51);
        }
        other => panic!("unexpected outcome: {:?}", other),
    }
    assert!(Trust::verify(&trust, &truster.public(), 50).is_ok());
}

#[test]
fn trust_encoding_has_the_documented_layout() {
    let truster = KeyPair::generate_ed25519();
    let trusted = KeyPair::generate_ed25519();
    let trust = Trust::create(&truster, trusted.public(), 0x0102030405060708, 9).unwrap();
    let encoded = trust.encode();
    assert_eq!(encoded.len(), 1 + 33 + 1 + 65 + 8 + 8);
    assert_eq!(encoded[0], 33);
    assert_eq!(&encoded[1..34], trusted.public().encode().as_slice());
    assert_eq!(encoded[34], 65);
    assert_eq!(&encoded[35..100], trust.signature.encode().as_slice());
    assert_eq!(&encoded[100..108], &[8, 7, 6, 5, 4, 3, 2, 1]);
    assert_eq!(&encoded[108..116], &[9, 0, 0, 0, 0, 0, 0, 0]);
}

#[test]
fn trust_decode_reports_the_field_that_is_cut() {
    let truster = KeyPair::generate_ed25519();
    let trust = Trust::create(&truster, truster.public(), 1000, 10).unwrap();
    let encoded = trust.encode();
    let expect = |len: usize, field: &str| match Trust::decode(&encoded[..len]) {
        Err(TrustError::DecodeErrorInvalidSize(name)) => assert_eq!(name, field),
        other => panic!("unexpected outcome for {} bytes: {:?}", len, other),
    };
    expect(0, "public_key_len");
    expect(1, "public_key");
    expect(33, "public_key");
    expect(34, "signature_size");
    expect(35, "signature");
    expect(99, "signature");
    expect(100, "expiration");
    expect(107, "expiration");
    expect(108, "issued");
    expect(115, "issued");
    let mut longer = encoded.clone();
    longer.push(0);
    match Trust::decode(&longer) {
        Err(TrustError::DecodeErrorInvalidSize(name)) => assert_eq!(name, "issued"),
        other => panic!("unexpected outcome: {:?}", other),
    }
}

#[test]
fn trust_metadata_is_the_hash_of_key_and_times() {
    let kp = KeyPair::generate_ed25519();
    let pk = kp.public();
    let mut bytes = pk.encode();
    bytes.extend_from_slice(&1000u64.to_le_bytes());
    bytes.extend_from_slice(&10u64.to_le_bytes());
    let expected = sha2::Sha256::digest(&bytes).to_vec();
    assert_eq!(Trust::metadata_bytes(&pk, 1000, 10), expected);
    assert_ne!(Trust::metadata_bytes(&pk, 1000, 10), bytes);
}

#[test]
fn trust_verifies_until_it_expires_and_fails_for_any_change() {
    let issuer = KeyPair::generate_ed25519();
    let subject = KeyPair::generate_ed25519();
    let trust = Trust::create(&issuer, subject.public(), 1000, 10).unwrap();
    for now in [0u64, 10, 999, 1000] {
        assert!(Trust::verify(&trust, &issuer.public(), now).is_ok());
    }
    assert!(Trust::verify(&trust, &issuer.public(), 1001).is_err());
    assert!(Trust::verify(&trust, &subject.public(), 10).is_err());

    // a change of the subject, of the expiry or of the issue time
    let mut changed = trust.clone();
    changed.issued_for = issuer.public();
    assert!(Trust::verify(&changed, &issuer.public(), 10).is_err());
    let mut changed = trust.clone();
    changed.expires_at = 1001;
    assert!(Trust::verify(&changed, &issuer.public(), 10).is_err());
    let mut changed = trust.clone();
    changed.issued_at = 11;
    assert!(Trust::verify(&changed, &issuer.public(), 10).is_err());

    // a flip of any one bit of the signature
    let encoded = trust.signature.encode();
    for byte in 1..encoded.len() {
        for bit in 0..8 {
            let mut flipped = encoded.clone();
            flipped[byte] ^= 1 << bit;
            let mut changed = trust.clone();
            changed.signature = trust_graph::Signature::decode(flipped).unwrap();
            assert!(
                Trust::verify(&changed, &issuer.public(), 10).is_err(),
                "bit {} of byte {}",
                bit,
                byte
            );
        }
    }
}
