use std::time::{SystemTime, UNIX_EPOCH};
use trust_graph::{Certificate, CertificateError, KeyPair, Trust, TrustError};

fn current_time() -> u64 {
    SystemTime::now()
        .duration_since(UNIX_EPOCH)
        .unwrap()
        .as_secs()
}

fn one_second() -> u64 {
    1
}

fn one_minute() -> u64 {
    60
}

fn one_year() -> u64 {
    31_557_600
}

fn generate_root_cert() -> (KeyPair, KeyPair, Certificate) {
    let root_kp = KeyPair::generate_ed25519();
    let second_kp = KeyPair::generate_ed25519();

    let cur_time = current_time();

    (
        root_kp.clone(),
        second_kp.clone(),
        Certificate::issue_root(
            &root_kp,
            second_kp.public(),
            cur_time.checked_add(one_year()).unwrap(),
            cur_time,
        )
        .unwrap(),
    )
}

fn string_encoding_decoding() {
    let (_root_kp, second_kp, cert) = generate_root_cert();

    let cur_time = current_time();

    let third_kp = KeyPair::generate_ed25519();

    let new_cert = Certificate::issue(
        &second_kp,
        third_kp.public(),
        &cert,
        cur_time.checked_add(one_second()).unwrap(),
        cur_time,
        cur_time,
    )
    .unwrap();

    let serialized = new_cert.to_string();
    let deserialized = Certificate::from_str(&serialized);

    assert!(deserialized.is_ok());
    let after_cert = deserialized.unwrap();
    assert_eq!(&new_cert.chain[0], &after_cert.chain[0]);
    assert_eq!(&new_cert.chain, &after_cert.chain);
}

#[test]
fn test_string_encoding_decoding() {
    string_encoding_decoding();
}

#[test]
fn test_string_encoding_decoding_ed25519() {
    string_encoding_decoding();
}

fn serialization_deserialization() {
    let (_root_kp, second_kp, cert) = generate_root_cert();

    let cur_time = current_time();

    let third_kp = KeyPair::generate_ed25519();

    let new_cert = Certificate::issue(
        &second_kp,
        third_kp.public(),
        &cert,
        cur_time.checked_add(one_second()).unwrap(),
        cur_time,
        cur_time,
    )
    .unwrap();

    let serialized = new_cert.encode();
    let deserialized = Certificate::decode(serialized.as_slice());

    assert!(deserialized.is_ok());
    let after_cert = deserialized.unwrap();
    assert_eq!(&new_cert.chain[0], &after_cert.chain[0]);
    assert_eq!(&new_cert.chain, &after_cert.chain);
}

#[test]
fn test_serialization_deserialization() {
    serialization_deserialization();
}

#[test]
fn test_serialization_deserialization_ed25519() {
    serialization_deserialization();
}

fn small_chain() {
    let bad_cert = Certificate { chain: Vec::new() };

    let check = Certificate::verify(&bad_cert, &[], current_time());
    assert!(check.is_err());
}

#[test]
fn test_small_chain() {
    small_chain();
}

#[test]
fn test_small_chain_ed25519() {
    small_chain();
}

fn issue_cert() {
    let (root_kp, second_kp, cert) = generate_root_cert();
    let trusted_roots = [root_kp.public()];

    // we don't need nanos for serialization, etc
    let cur_time = current_time();

    let third_kp = KeyPair::generate_ed25519();

    let new_cert = Certificate::issue(
        &second_kp,
        third_kp.public(),
        &cert,
        cur_time.checked_add(one_year()).unwrap(),
        cur_time,
        cur_time,
    );
    assert_eq!(new_cert.is_ok(), true);
    let new_cert = new_cert.unwrap();

    println!("cert is\n{}", new_cert.to_string());

    assert_eq!(new_cert.chain.len(), 3);
    assert_eq!(new_cert.chain[0].issued_for, root_kp.public());
    assert_eq!(new_cert.chain[1].issued_for, second_kp.public());
    assert_eq!(new_cert.chain[2].issued_for, third_kp.public());
    assert!(Certificate::verify(&new_cert, &trusted_roots, cur_time).is_ok());
}

#[test]
fn test_issue_cert() {
    issue_cert();
}

#[test]
fn test_issue_cert_ed25519() {
    issue_cert();
}

fn cert_expiration() {
    let (root_kp, second_kp, cert) = generate_root_cert();
    let trusted_roots = [root_kp.public()];
    let cur_time = current_time();

    let third_kp = KeyPair::generate_ed25519();

    let new_cert = Certificate::issue(
        &second_kp,
        third_kp.public(),
        &cert,
        cur_time.checked_sub(one_second()).unwrap(),
        cur_time.checked_sub(one_minute()).unwrap(),
        cur_time,
    )
    .unwrap();

    assert!(Certificate::verify(&new_cert, &trusted_roots, cur_time).is_err());
}

#[test]
fn test_cert_expiration() {
    cert_expiration();
}

#[test]
fn test_cert_expiration_ed25519() {
    cert_expiration();
}

fn issue_in_chain_tail() {
    let (root_kp, second_kp, cert) = generate_root_cert();
    let trusted_roots = [root_kp.public()];
    let cur_time = current_time();

    let third_kp = KeyPair::generate_ed25519();
    let fourth_kp = KeyPair::generate_ed25519();

    let new_cert = Certificate::issue(
        &second_kp,
        third_kp.public(),
        &cert,
        cur_time.checked_add(one_second()).unwrap(),
        cur_time,
        cur_time,
    )
    .unwrap();
    let new_cert = Certificate::issue(
        &third_kp,
        fourth_kp.public(),
        &new_cert,
        cur_time.checked_add(one_second()).unwrap(),
        cur_time,
        cur_time,
    );

    assert_eq!(new_cert.is_ok(), true);
    let new_cert = new_cert.unwrap();

    assert_eq!(new_cert.chain.len(), 4);
    assert_eq!(new_cert.chain[0].issued_for, root_kp.public());
    assert_eq!(new_cert.chain[1].issued_for, second_kp.public());
    assert_eq!(new_cert.chain[2].issued_for, third_kp.public());
    assert_eq!(new_cert.chain[3].issued_for, fourth_kp.public());
    assert!(Certificate::verify(&new_cert, &trusted_roots, cur_time).is_ok());
}

#[test]
fn test_issue_in_chain_tail() {
    issue_in_chain_tail();
}

#[test]
fn test_issue_in_chain_tail_ed25519() {
    issue_in_chain_tail();
}

fn issue_in_chain_body() {
    let (root_kp, second_kp, cert) = generate_root_cert();
    let trusted_roots = [root_kp.public()];
    let cur_time = current_time();

    let third_kp = KeyPair::generate_ed25519();
    let fourth_kp = KeyPair::generate_ed25519();

    let new_cert = Certificate::issue(
        &second_kp,
        third_kp.public(),
        &cert,
        cur_time.checked_add(one_second()).unwrap(),
        cur_time,
        cur_time,
    )
    .unwrap();
    let new_cert = Certificate::issue(
        &second_kp,
        fourth_kp.public(),
        &new_cert,
        cur_time.checked_add(one_second()).unwrap(),
        cur_time,
        cur_time,
    );

    assert_eq!(new_cert.is_ok(), true);
    let new_cert = new_cert.unwrap();

    assert_eq!(new_cert.chain.len(), 3);
    assert_eq!(new_cert.chain[0].issued_for, root_kp.public());
    assert_eq!(new_cert.chain[1].issued_for, second_kp.public());
    assert_eq!(new_cert.chain[2].issued_for, fourth_kp.public());
    assert!(Certificate::verify(&new_cert, &trusted_roots, cur_time).is_ok());
}

#[test]
fn test_issue_in_chain_body() {
    issue_in_chain_body();
}

#[test]
fn test_issue_in_chain_body_ed25519() {
    issue_in_chain_body();
}

fn no_cert_in_chain() {
    let (_root_kp, _second_kp, cert) = generate_root_cert();
    let cur_time = current_time();

    let bad_kp = KeyPair::generate_ed25519();
    let new_cert_bad = Certificate::issue(
        &bad_kp,
        bad_kp.public(),
        &cert,
        cur_time.checked_add(one_second()).unwrap(),
        cur_time,
        cur_time,
    );
    assert_eq!(new_cert_bad.is_err(), true);
}

#[test]
fn test_no_cert_in_chain() {
    no_cert_in_chain();
}

#[test]
fn test_no_cert_in_chain_ed25519() {
    no_cert_in_chain();
}

#[test]
fn certificate_test_no_trusted_root_in_chain() {
    let (_root_kp, second_kp, cert) = generate_root_cert();
    let cur_time = current_time();

    let trusted_roots = [second_kp.public()];
    assert!(Certificate::verify(&cert, &trusted_roots, cur_time).is_err());
    assert!(Certificate::verify(&cert, &[], cur_time).is_err());
}

#[test]
fn certificate_test_forged_cert() {
    let (root_kp, _second_kp, cert) = generate_root_cert();
    let cur_time = current_time();
    let trusted_roots = [root_kp.public()];

    // forged cert
    let mut bad_chain = cert.chain;
    bad_chain.remove(0);
    let bad_cert = Certificate { chain: bad_chain };

    assert!(Certificate::verify(&bad_cert, &trusted_roots, cur_time).is_err());
}

#[test]
fn certificate_test_generate_root_cert() {
    let (root_kp, second_kp, cert) = generate_root_cert();
    let cur_time = current_time();

    let trusted_roots = [root_kp.public()];

    assert_eq!(cert.chain.len(), 2);
    assert_eq!(cert.chain[0].issued_for, root_kp.public());
    assert_eq!(cert.chain[1].issued_for, second_kp.public());
    assert!(Certificate::verify(&cert, &trusted_roots, cur_time).is_ok());
}

#[test]
fn certificate_verify_names_the_failure() {
    let root = KeyPair::generate_ed25519();
    let second = KeyPair::generate_ed25519();
    let third = KeyPair::generate_ed25519();
    let cert = Certificate::issue_root(&root, second.public(), 1000, 10).unwrap();
    let cert = Certificate::issue(&second, third.public(), &cert, 500, 10, 100).unwrap();
    let roots = [root.public()];

    assert!(Certificate::verify(&cert, &roots, 500).is_ok());
    assert!(matches!(
        Certificate::verify(&Certificate::new_unverified(vec![]), &roots, 0),
        Err(CertificateError::CertificateLengthError)
    ));
    assert!(matches!(
        Certificate::verify(&cert, &[second.public()], 100),
        Err(CertificateError::NoTrustedRoot)
    ));
    // the last trust has expired at 501, the second at 1001; the last is verified first
    assert!(matches!(
        Certificate::verify(&cert, &roots, 501),
        Err(CertificateError::VerificationError(
            2,
            TrustError::Expired(500, 501)
        ))
    ));
    assert!(matches!(
        Certificate::verify(&cert, &roots, 1001),
        Err(CertificateError::VerificationError(
            2,
            TrustError::Expired(500, 1001)
        ))
    ));
    let two = Certificate::new_unverified(cert.chain[..2].to_vec());
    assert!(matches!(
        Certificate::verify(&two, &roots, 1001),
        Err(CertificateError::VerificationError(
            1,
            TrustError::Expired(1000, 1001)
        ))
    ));
    // a chain whose first trust is not self-signed
    let headless = Certificate::new_unverified(cert.chain[1..].to_vec());
    assert!(matches!(
        Certificate::verify(&headless, &[second.public()], 100),
        Err(CertificateError::MalformedRoot(TrustError::SignatureError(
            _
        )))
    ));
    // a chain of the root trust alone is valid
    let alone = Certificate::new_unverified(cert.chain[..1].to_vec());
    assert!(Certificate::verify(&alone, &roots, u64::MAX).is_ok());
}

#[test]
fn certificate_issue_names_the_failure() {
    let root = KeyPair::generate_ed25519();
    let second = KeyPair::generate_ed25519();
    let third = KeyPair::generate_ed25519();
    let cert = Certificate::issue_root(&root, second.public(), 1000, 10).unwrap();

    assert!(matches!(
        Certificate::issue(&second, third.public(), &cert, 9, 10, 100),
        Err(CertificateError::ExpirationError {
            expires_at: 9,
            issued_at: 10
        })
    ));
    assert!(matches!(
        Certificate::issue(&third, third.public(), &cert, 500, 10, 100),
        Err(CertificateError::KeyInCertificateError)
    ));
    assert!(matches!(
        Certificate::issue(&second, third.public(), &cert, 5000, 10, 1001),
        Err(CertificateError::VerificationError(1, _))
    ));
    assert!(matches!(
        Certificate::issue(
            &second,
            third.public(),
            &Certificate::new_unverified(vec![]),
            500,
            10,
            100
        ),
        Err(CertificateError::CertificateLengthError)
    ));
    // the root may issue as well: the chain is cut after the root trust
    let by_root = Certificate::issue(&root, third.public(), &cert, 500, 10, 100).unwrap();
    assert_eq!(by_root.chain.len(), 2);
    assert_eq!(by_root.chain[0], cert.chain[0]);
    assert_eq!(by_root.chain[1].issued_for, third.public());
    assert_eq!(by_root.chain[1].expires_at, 500);
    assert_eq!(by_root.chain[1].issued_at, 10);

    // a trust made elsewhere is taken as it is
    let trust = Trust::create(&second, third.public(), 700, 20).unwrap();
    let with_trust =
        Certificate::issue_with_trust(second.public(), trust.clone(), &cert, 100).unwrap();
    assert_eq!(with_trust.chain.len(), 3);
    assert_eq!(with_trust.chain[2], trust);

    let from_root = Certificate::new_from_root_trust(
        cert.chain[0].clone(),
        cert.chain[1].clone(),
        100,
    )
    .unwrap();
    assert_eq!(from_root.chain, cert.chain);
    assert!(matches!(
        Certificate::new_from_root_trust(cert.chain[1].clone(), cert.chain[0].clone(), 100),
        Err(CertificateError::MalformedRoot(_))
    ));
    assert!(matches!(
        Certificate::new_from_root_trust(cert.chain[0].clone(), cert.chain[1].clone(), 1001),
        Err(CertificateError::VerificationError(1, _))
    ));
}

#[test]
fn certificate_bytes_have_the_documented_layout() {
    let root = KeyPair::generate_ed25519();
    let second = KeyPair::generate_ed25519();
    let cert = Certificate::issue_root(&root, second.public(), 1000, 10).unwrap();
    let bytes = cert.encode();
    assert_eq!(&bytes[..6], &[0, 0, 0, 0, 0, 0]);
    assert_eq!(bytes[6], 2);
    let first = cert.chain[0].encode();
    let second_trust = cert.chain[1].encode();
    assert_eq!(bytes[7] as usize, first.len());
    assert_eq!(&bytes[8..8 + first.len()], first.as_slice());
    assert_eq!(bytes[8 + first.len()] as usize, second_trust.len());
    assert_eq!(&bytes[9 + first.len()..], second_trust.as_slice());

    // every cut of the bytes is refused without a panic
    for len in 0..bytes.len() {
        assert!(Certificate::decode(&bytes[..len]).is_err());
    }
    assert!(matches!(
        Certificate::decode(&bytes[..6]),
        Err(CertificateError::CertificateLengthError)
    ));
    assert!(matches!(
        Certificate::decode(&bytes[..bytes.len() - 1]),
        Err(CertificateError::CertificateLengthError)
    ));
    // fewer than two trusts are refused
    let mut one = bytes.clone();
    one[6] = 1;
    assert!(matches!(
        Certificate::decode(&one),
        Err(CertificateError::CertificateLengthError)
    ));
    // a trust that does not decode
    let mut broken = bytes.clone();
    broken[9] = 7;
    assert!(matches!(
        Certificate::decode(&broken),
        Err(CertificateError::DecodeError(_))
    ));
}

#[test]
fn certificate_text_has_the_documented_layout() {
    let root = KeyPair::generate_ed25519();
    let second = KeyPair::generate_ed25519();
    let cert = Certificate::issue_root(&root, second.public(), 1000, 10).unwrap();
    let text = cert.to_string();
    let lines: Vec<&str> = text.lines().collect();
    assert_eq!(lines.len(), 2 + 4 * 2);
    assert_eq!(lines[0], "11");
    assert_eq!(lines[1], "1111");
    assert_eq!(lines[2], root.public().to_base58());
    assert_eq!(lines[4], u64::MAX.to_string());
    assert_eq!(lines[5], "10");
    assert_eq!(lines[6], second.public().to_base58());
    assert_eq!(lines[8], "1000");
    assert_eq!(lines[9], "10");
    assert!(text.ends_with('\n'));
    assert_eq!(cert.chain[1].to_string(), lines[6..10].join("\n"));

    // line ends with carriage returns are read as well
    let crlf = text.replace('\n', "\r\n");
    assert_eq!(Certificate::from_str(&crlf).unwrap().chain, cert.chain);
    // the head lines are not looked at
    let other_head = text.replacen("11\n1111\n", "x\ny\n", 1);
    assert_eq!(Certificate::from_str(&other_head).unwrap().chain, cert.chain);

    assert!(matches!(
        Certificate::from_str(""),
        Err(CertificateError::IncorrectCertificateFormat(_))
    ));
    assert!(matches!(
        Certificate::from_str("11"),
        Err(CertificateError::IncorrectCertificateFormat(_))
    ));
    assert!(matches!(
        Certificate::from_str(&lines[..9].join("\n")),
        Err(CertificateError::IncorrectCertificateFormat(_))
    ));
    assert_eq!(Certificate::from_str("11\n1111\n").unwrap().chain.len(), 0);
    let mut broken: Vec<String> = lines.iter().map(|l| l.to_string()).collect();
    broken[8] = "12x".to_string();
    assert!(matches!(
        Certificate::from_str(&broken.join("\n")),
        Err(CertificateError::DecodeTrustError(
            6,
            TrustError::ParseError(_, _)
        ))
    ));
    broken[3] = "0OIl".to_string();
    assert!(matches!(
        Certificate::from_str(&broken.join("\n")),
        Err(CertificateError::DecodeTrustError(
            2,
            TrustError::Base58DecodeError(_, _, _)
        ))
    ));
}

#[test]
fn trust_from_strings() {
    let issuer = KeyPair::generate_ed25519();
    let trust = Trust::create(&issuer, issuer.public(), 77, 7).unwrap();
    let pk = issuer.public().to_base58();
    let sig = bs58::encode(trust.signature.encode()).into_string();
    assert_eq!(
        Trust::convert_from_strings(&pk, &sig, "77", "7").unwrap(),
        trust
    );
    assert_eq!(
        Trust::convert_from_strings(&pk, &sig, "+77", "007").unwrap(),
        trust
    );
    assert_eq!(
        Trust::convert_from_strings(&pk, &sig, "18446744073709551615", "0")
            .unwrap()
            .expires_at,
        u64::MAX
    );
    for bad in ["", "+", "-1", "1 ", "18446744073709551616", "1e3"] {
        match Trust::convert_from_strings(&pk, &sig, bad, "7") {
            Err(TrustError::ParseError(field, text)) => {
                assert_eq!(field, "expires_at");
                assert_eq!(text, bad);
            }
            other => panic!("unexpected outcome for {:?}: {:?}", bad, other),
        }
    }
    assert!(matches!(
        Trust::convert_from_strings(&pk, &sig, "77", "x"),
        Err(TrustError::ParseError(_, _))
    ));
    assert!(matches!(
        Trust::convert_from_strings("11", &sig, "77", "7"),
        Err(TrustError::DecodePublicKeyError(_, _))
    ));
    assert!(matches!(
        Trust::convert_from_strings(&pk, "", "77", "7"),
        Err(TrustError::DecodeSignatureError(_, _))
    ));
    assert!(matches!(
        Trust::convert_from_strings(&pk, "0", "77", "7"),
        Err(TrustError::Base58DecodeError(_, _, _))
    ));
}
