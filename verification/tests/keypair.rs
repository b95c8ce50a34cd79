use trust_graph::keypair::ed25519::{Keypair, SecretKey};
use trust_graph::keypair::error::VerificationError;
use trust_graph::keypair::secp256k1;
use trust_graph::keypair::error::DecodingError;
use trust_graph::{KeyFormat, KeyPair, PublicKey, Signature};

fn eq_keypairs(kp1: &Keypair, kp2: &Keypair) -> bool {
    kp1.public().encode() == kp2.public().encode()
        && kp1.secret().to_bytes() == kp2.secret().to_bytes()
}

#[test]
fn ed25519_keypair_encode_decode() {
    fn prop() -> bool {
        let kp1 = Keypair::generate();
        let mut kp1_enc = kp1.encode();
        let kp2 = Keypair::decode(&mut kp1_enc).unwrap();
        eq_keypairs(&kp1, &kp2) && kp1_enc.iter().all(|b| *b == 0)
    }
    for _ in 0..10 {
        assert!(prop());
    }
}

#[test]
fn ed25519_keypair_from_secret() {
    fn prop() -> bool {
        let kp1 = Keypair::generate();
        let mut sk = kp1.secret().to_bytes();
        let kp2 = Keypair::from_secret(SecretKey::from_bytes(&mut sk).unwrap());
        eq_keypairs(&kp1, &kp2) && sk == vec![0u8; 32]
    }
    for _ in 0..10 {
        assert!(prop());
    }
}

#[test]
fn ed25519_signature() {
    let kp = Keypair::generate();
    let pk = kp.public();

    let msg = "hello world".as_bytes();
    let sig = kp.sign(msg).unwrap();
    assert!(pk.verify(msg, &sig).is_ok());

    let mut invalid_sig = sig.clone();
    invalid_sig[3..6].copy_from_slice(&[10, 23, 42]);
    assert!(pk.verify(msg, &invalid_sig).is_err());

    let invalid_msg = "h3ll0 w0rld".as_bytes();
    assert!(pk.verify(invalid_msg, &sig).is_err());
}

#[test]
fn public_key_public_key_encode_decode_ed25519() {
    let kp = KeyPair::generate_ed25519();
    let pk = kp.public();
    let encoded_pk = pk.encode();
    assert_eq!(pk, PublicKey::decode(&encoded_pk).unwrap());
}

#[test]
fn public_key_public_key_encode_decode_secp256k1() {
    let kp = KeyPair::generate_secp256k1();
    let pk = kp.public();
    let encoded_pk = pk.encode();
    assert_eq!(pk, PublicKey::decode(&encoded_pk).unwrap());
}

#[test]
fn secp256k1_secret_from_bytes() {
    let sk1 = secp256k1::SecretKey::generate();
    let mut sk_bytes = vec![0; 32];
    sk_bytes.copy_from_slice(&sk1.to_bytes()[..]);
    let sk2 = secp256k1::SecretKey::from_bytes(&mut sk_bytes).unwrap();
    assert_eq!(sk1.to_bytes(), sk2.to_bytes());
    assert_eq!(sk_bytes, vec![0; 32]);
}

#[test]
fn public_key_peer_id_conversions() {
    let kp = KeyPair::generate_secp256k1();
    let fluence_pk = kp.public();
    let peer_id = fluence_pk.to_peer_id();
    let fluence_pk_converted = PublicKey::from_peer_id(&peer_id).unwrap();

    assert_eq!(fluence_pk, fluence_pk_converted);
}

#[test]
fn signature_signature_encode_decode() {
    let bytes: Vec<u8> = (0..10).collect();
    let ed25519_sig = Signature::Ed25519(trust_graph::keypair::ed25519::Signature(bytes.clone()));

    assert_eq!(
        Signature::decode(ed25519_sig.encode()).unwrap(),
        ed25519_sig
    );
    let secp256k1_sig = Signature::Secp256k1(secp256k1::Signature(bytes.clone()));
    assert_eq!(
        Signature::decode(secp256k1_sig.encode()).unwrap(),
        secp256k1_sig
    );
    assert_ne!(ed25519_sig, secp256k1_sig);
}

#[test]
fn public_key_encoding_is_tag_then_raw_key() {
    let kp = KeyPair::generate_ed25519();
    let pk = kp.public();
    let encoded = pk.encode();
    assert_eq!(encoded.len(), 33);
    assert_eq!(encoded[0], 0);
    assert_eq!(&encoded[1..], pk.to_vec().as_slice());
    assert_eq!(pk.get_key_format(), KeyFormat::Ed25519);
    assert_eq!(KeyFormat::Ed25519.tag(), 0);
}

#[test]
fn public_key_decode_rejects_without_panic() {
    assert!(matches!(
        PublicKey::decode(&[]),
        Err(DecodingError::InvalidLength)
    ));
    assert!(matches!(
        PublicKey::decode(&[1u8; 33]),
        Err(DecodingError::InvalidTypeByte)
    ));
    assert!(matches!(
        PublicKey::decode(&[3u8; 34]),
        Err(DecodingError::InvalidTypeByte)
    ));
    // after the tag, a compressed key starts with 2 or 3
    let mut bytes = [2u8; 34];
    bytes[1] = 5;
    assert!(matches!(
        PublicKey::decode(&bytes),
        Err(DecodingError::Secp256k1)
    ));
    assert!(matches!(
        PublicKey::decode(&[2u8; 5]),
        Err(DecodingError::Secp256k1)
    ));
    assert!(matches!(
        PublicKey::decode(&[2u8]),
        Err(DecodingError::Secp256k1)
    ));
    assert!(matches!(
        PublicKey::decode(&[0u8; 5]),
        Err(DecodingError::InvalidLength)
    ));
    assert!(matches!(
        PublicKey::decode(&[0u8; 34]),
        Err(DecodingError::InvalidLength)
    ));
    // some 32 bytes are no point of the curve
    let mut refused = 0;
    for first in 0u8..=255 {
        let mut bytes = vec![0u8; 33];
        bytes[1] = first;
        bytes[2] = 7;
        match PublicKey::decode(&bytes) {
            Ok(pk) => assert_eq!(pk.encode(), bytes),
            Err(DecodingError::Ed25519(_)) => refused += 1,
            Err(other) => panic!("unexpected error: {:?}", other),
        }
    }
    assert!(refused > 0);
}

#[test]
fn signature_decode_rejects_without_panic() {
    assert!(matches!(
        Signature::decode(vec![]),
        Err(DecodingError::InvalidLength)
    ));
    assert!(matches!(
        Signature::decode(vec![1, 2, 3]),
        Err(DecodingError::InvalidTypeByte)
    ));
    let sig = Signature::decode(vec![0]).unwrap();
    assert_eq!(sig.to_vec(), &[] as &[u8]);
    assert_eq!(sig.encode(), vec![0]);
}

#[test]
fn signature_from_bytes_and_raw_signature() {
    let sig = Signature::from_bytes(KeyFormat::Ed25519, vec![9, 8, 7]);
    assert_eq!(sig.encode(), vec![0, 9, 8, 7]);
    let raw = sig.get_raw_signature();
    assert_eq!(raw.bytes, vec![9, 8, 7]);
    assert_eq!(raw.sig_type, KeyFormat::Ed25519);
    assert_eq!(sig.get_signature_type(), KeyFormat::Ed25519);
}

#[test]
fn key_format_names_and_tags() {
    assert_eq!(KeyFormat::from_str("ed25519").unwrap(), KeyFormat::Ed25519);
    assert_eq!(
        KeyFormat::from_str("secp256k1").unwrap(),
        KeyFormat::Secp256k1
    );
    assert!(KeyFormat::from_str("rsa").is_err());
    assert!(KeyFormat::from_str("").is_err());
    assert_eq!(KeyFormat::try_from(0).unwrap(), KeyFormat::Ed25519);
    assert!(matches!(
        KeyFormat::try_from(1),
        Err(DecodingError::InvalidTypeByte)
    ));
    assert_eq!(KeyFormat::try_from(2).unwrap(), KeyFormat::Secp256k1);
    assert!(matches!(
        KeyFormat::try_from(3),
        Err(DecodingError::InvalidTypeByte)
    ));
    assert_eq!(KeyFormat::Ed25519.name(), "ed25519");
    assert_eq!(KeyFormat::Secp256k1.name(), "secp256k1");
    assert_eq!(KeyFormat::Secp256k1.tag(), 2);
    assert_eq!(trust_graph::keypair::key_pair::ED25519_TAG, 0);
    assert_eq!(trust_graph::keypair::key_pair::RSA_TAG, 1);
    assert_eq!(trust_graph::keypair::key_pair::SECP256K1_TAG, 2);
}

#[test]
fn key_pair_sign_and_verify() {
    let kp = KeyPair::generate(KeyFormat::Ed25519);
    let other = KeyPair::generate_ed25519();
    let msg = b"a message";
    let sig = kp.sign(msg).unwrap();
    assert_eq!(sig.to_vec().len(), 64);
    assert_ne!(sig.to_vec(), msg.as_slice());
    assert!(KeyPair::verify(&kp.public(), msg, &sig).is_ok());
    assert!(KeyPair::verify(&other.public(), msg, &sig).is_err());
    assert!(KeyPair::verify(&kp.public(), b"another message", &sig).is_err());
    // signing is deterministic
    assert_eq!(kp.sign(msg).unwrap(), sig);
    assert_eq!(kp.key_format(), KeyFormat::Ed25519);
}

#[test]
fn key_pair_bytes_round_trip() {
    let kp = KeyPair::generate_ed25519();
    let bytes = kp.to_vec();
    assert_eq!(bytes.len(), 64);
    assert_eq!(&bytes[..32], kp.secret().as_slice());
    assert_eq!(&bytes[32..], kp.public().to_vec().as_slice());
    assert_ne!(&bytes[..32], &bytes[32..]);
    let back = KeyPair::from_vec(bytes.clone(), KeyFormat::Ed25519).unwrap();
    assert_eq!(back.public(), kp.public());
    assert_eq!(back.secret(), kp.secret());

    let from_secret = KeyPair::from_secret_key(kp.secret(), KeyFormat::Ed25519).unwrap();
    assert_eq!(from_secret.public(), kp.public());

    assert!(matches!(
        KeyPair::from_vec(vec![0u8; 63], KeyFormat::Ed25519),
        Err(DecodingError::InvalidLength)
    ));
    assert!(matches!(
        KeyPair::from_secret_key(vec![0u8; 31], KeyFormat::Ed25519),
        Err(DecodingError::InvalidLength)
    ));
    // a public half that does not belong to the secret half
    let mut mismatched = bytes.clone();
    let other = KeyPair::generate_ed25519();
    mismatched[32..].copy_from_slice(&other.public().to_vec());
    assert!(matches!(
        KeyPair::from_vec(mismatched, KeyFormat::Ed25519),
        Err(DecodingError::Ed25519(_))
    ));
}

#[test]
fn public_key_base58_round_trip() {
    let pk = KeyPair::generate_ed25519().public();
    let text = pk.to_base58();
    assert_ne!(text.as_bytes(), pk.encode().as_slice());
    assert!(text.bytes().all(|b| b.is_ascii_alphanumeric()));
    assert_eq!(PublicKey::from_base58(&text).unwrap(), pk);
    assert!(matches!(
        PublicKey::from_base58("not base58 !"),
        Err(DecodingError::Base58DecodeError(_))
    ));
    assert!(matches!(
        PublicKey::from_base58("11"),
        Err(DecodingError::InvalidLength)
    ));
}

#[test]
fn peer_id_of_a_key_is_the_inlined_key() {
    let kp = KeyPair::generate_ed25519();
    let peer_id = kp.get_peer_id();
    assert_eq!(peer_id, kp.public().to_peer_id());
    assert!(peer_id.starts_with("12D3KooW"));
    assert!(PublicKey::from_peer_id("no peer id").is_err());
    // a peer id that holds the hash of a key holds no key
    assert!(PublicKey::from_peer_id("QmYyQSo1c1Ym7orWxLYvCrM2EmxFTANf8wXmmE7DWjhx5N").is_err());
}

#[test]
fn secp256k1_keys_and_signatures() {
    let kp = KeyPair::generate(KeyFormat::Secp256k1);
    assert_eq!(kp.key_format(), KeyFormat::Secp256k1);
    let pk = kp.public();
    let encoded = pk.encode();
    assert_eq!(encoded.len(), 34);
    assert_eq!(encoded[0], 2);
    assert!(encoded[1] == 2 || encoded[1] == 3);
    assert_eq!(&encoded[1..], pk.to_vec().as_slice());
    assert_ne!(pk.to_vec(), kp.secret());
    assert_eq!(pk.get_key_format(), KeyFormat::Secp256k1);

    let msg = b"a message";
    let sig = kp.sign(msg).unwrap();
    assert_eq!(sig.get_signature_type(), KeyFormat::Secp256k1);
    assert_eq!(sig.encode()[0], 2);
    // a DER-encoded signature starts with a sequence
    assert_eq!(sig.to_vec()[0], 0x30);
    assert!(pk.verify(msg, &sig).is_ok());
    assert_eq!(kp.sign(msg).unwrap(), sig);
    // the cryptographic check decides, not the form of the signature
    assert!(matches!(
        pk.verify(b"another message", &sig),
        Err(VerificationError::Secp256k1(_, _, _))
    ));
    let other = KeyPair::generate_secp256k1();
    assert!(other.public().verify(msg, &sig).is_err());
    assert!(pk.verify(msg, &other.sign(msg).unwrap()).is_err());
    let broken = Signature::from_bytes(KeyFormat::Secp256k1, vec![1, 2, 3]);
    assert!(pk.verify(msg, &broken).is_err());

    // key and signature must be of the same algorithm
    let ed = KeyPair::generate_ed25519();
    assert!(matches!(
        ed.public().verify(msg, &sig),
        Err(VerificationError::AlgorithmMismatch(_, _))
    ));
    assert!(matches!(
        pk.verify(msg, &ed.sign(msg).unwrap()),
        Err(VerificationError::AlgorithmMismatch(_, _))
    ));
    let relabelled = Signature::from_bytes(KeyFormat::Ed25519, sig.to_vec().to_vec());
    assert!(pk.verify(msg, &relabelled).is_err());
    assert_ne!(pk, ed.public());

    // the pair is its secret
    let bytes = kp.to_vec();
    assert_eq!(bytes, kp.secret());
    let back = KeyPair::from_vec(bytes.clone(), KeyFormat::Secp256k1).unwrap();
    assert_eq!(back.public(), pk);
    let back = KeyPair::from_secret_key(bytes, KeyFormat::Secp256k1).unwrap();
    assert_eq!(back.public(), pk);
    assert!(matches!(
        KeyPair::from_vec(vec![0u8; 32], KeyFormat::Secp256k1),
        Err(DecodingError::Secp256k1)
    ));
    assert!(matches!(
        KeyPair::from_vec(vec![0xffu8; 32], KeyFormat::Secp256k1),
        Err(DecodingError::Secp256k1)
    ));
    assert!(matches!(
        KeyPair::from_secret_key(vec![1u8; 31], KeyFormat::Secp256k1),
        Err(DecodingError::Secp256k1)
    ));

    // base58 and peer id
    assert_eq!(PublicKey::from_base58(&pk.to_base58()).unwrap(), pk);
    let peer_id = kp.get_peer_id();
    assert!(peer_id.starts_with("16Uiu2HA"));
    assert_eq!(PublicKey::from_peer_id(&peer_id).unwrap(), pk);
}

#[test]
fn secp256k1_raw_keys() {
    let pair = secp256k1::Keypair::generate();
    let public = pair.public().clone();
    let secret = pair.secret().clone();
    assert_eq!(public.encode().len(), 33);
    let full = public.encode_uncompressed();
    assert_eq!(full.len(), 65);
    assert_eq!(full[0], 4);
    assert_eq!(&full[1..33], &public.encode()[1..]);
    assert_eq!(
        secp256k1::PublicKey::decode(&public.encode())
            .unwrap()
            .encode(),
        public.encode()
    );
    assert!(secp256k1::PublicKey::decode(&full).is_err());
    assert!(secp256k1::PublicKey::decode(&[]).is_err());

    let digest = [7u8; 32];
    let sig = secret.sign_hashed(&digest).unwrap();
    assert!(public.verify_hashed(&digest, &sig).is_ok());
    assert!(public.verify_hashed(&[8u8; 32], &sig).is_err());
    assert!(public.verify_hashed(&[7u8; 31], &sig).is_err());
    assert!(secret.sign_hashed(&[7u8; 31]).is_err());
    assert!(secret.sign_hashed(&[7u8; 33]).is_err());
    // a message is signed as its SHA-256 digest
    let msg = b"hello world";
    let sig = secret.sign(msg).unwrap();
    assert!(public.verify(msg, &sig).is_ok());
    assert!(public.verify_hashed(msg, &sig).is_err());
    let same = secp256k1::Keypair::from_secret(secret.clone());
    assert_eq!(same.public().encode(), public.encode());
}

#[test]
fn secp256k1_secret_from_der() {
    let pair = secp256k1::Keypair::generate();
    let secret = pair.secret().to_bytes();
    // a sequence of the version and the octet string of the secret
    let mut der = vec![0x30, 0x25, 0x02, 0x01, 0x01, 0x04, 0x20];
    der.extend_from_slice(&secret);
    let mut input = der.clone();
    let key = secp256k1::SecretKey::from_der(&mut input).unwrap();
    assert_eq!(key.to_bytes(), secret);
    assert_eq!(input, vec![0u8; der.len()]);

    let mut input = der.clone();
    let kp = KeyPair::secp256k1_from_der(&mut input).unwrap();
    assert_eq!(kp.secret(), secret);
    assert_eq!(kp.public().to_vec(), pair.public().encode());
    assert_eq!(input, vec![0u8; der.len()]);

    // no sequence, no second element, no octet string, no valid secret
    for broken in [
        vec![],
        secret.clone(),
        vec![0x30, 0x03, 0x02, 0x01, 0x01],
        vec![0x30, 0x06, 0x02, 0x01, 0x01, 0x02, 0x01, 0x07],
        {
            let mut zero = vec![0x30, 0x25, 0x02, 0x01, 0x01, 0x04, 0x20];
            zero.extend_from_slice(&[0u8; 32]);
            zero
        },
        der[..der.len() - 1].to_vec(),
    ] {
        let mut input = broken.clone();
        assert!(matches!(
            secp256k1::SecretKey::from_der(&mut input),
            Err(DecodingError::Secp256k1)
        ));
        assert_eq!(input, broken);
    }
}

#[test]
fn keys_are_ordered_and_hashed_by_their_encoding() {
    use_keys_in_sets();
}

fn use_keys_in_sets() {
    let mut keys: Vec<trust_graph::PublicKeyHashable> = Vec::new();
    for n in 0..16 {
        let kp = if n % 2 == 0 {
            KeyPair::generate_ed25519()
        } else {
            KeyPair::generate_secp256k1()
        };
        keys.push(trust_graph::PublicKeyHashable::from(kp.public()));
    }
    let mut by_order = keys.clone();
    by_order.sort();
    let mut by_encoding = keys.clone();
    by_encoding.sort_by_key(|k| k.as_ref().encode());
    assert_eq!(by_order, by_encoding);

    let hashed: std::collections::HashSet<trust_graph::PublicKeyHashable> =
        keys.iter().cloned().chain(keys.iter().cloned()).collect();
    assert_eq!(hashed.len(), keys.len());
    for key in &keys {
        assert!(hashed.contains(key));
        let text = key.to_string();
        assert_eq!(&trust_graph::PublicKeyHashable::from_str(&text).unwrap(), key);
    }
}
