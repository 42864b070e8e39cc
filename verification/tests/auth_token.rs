use pubky_auth::crypto::Keypair;
use pubky_auth::timestamp::{Timestamp, TIMESTAMP_WINDOW};
use pubky_auth::token::{AuthToken, AuthVerifier, Error};

#[test]
fn sign_verify() {
    let signer = Keypair::random();
    let audience = Keypair::random().public_key();
    let scopes = vec!["*:*".to_string()];

    let mut verifier = AuthVerifier::new(audience.clone());

    let token = AuthToken::new(&signer, &audience, scopes.clone());

    verifier.verify(&token.serialize().unwrap()).unwrap();

    assert_eq!(token.scopes, scopes)
}

#[test]
fn expired() {
    let signer = Keypair::random();
    let audience = Keypair::random().public_key();
    let scopes = vec!["*:*".to_string()];

    let mut verifier = AuthVerifier::new(audience.clone());

    let timestamp = Timestamp::now().sub_micros(TIMESTAMP_WINDOW);

    let signable = AuthToken::signable(&audience, &timestamp, &scopes);
    let signature = signer.sign(&signable);

    let token = AuthToken {
        version: 0,
        subject: signer.public_key(),
        audience,
        timestamp,
        signature,
        scopes,
    };

    let serialized = token.serialize().unwrap();

    // Let the clock move strictly past the tolerated window before checking.
    while Timestamp::now().into_inner() <= timestamp.into_inner() + TIMESTAMP_WINDOW {}

    let result = verifier.verify(&serialized);

    assert_eq!(result, Err(Error::Expired));
}

fn fixed_setup() -> (Keypair, pubky_auth::crypto::PublicKey, Timestamp) {
    let signer = Keypair::from_secret_key(&vec![7u8; 32]);
    let audience = Keypair::from_secret_key(&vec![9u8; 32]).public_key();
    let ts = Timestamp::from_micros(1_700_000_010_000_000);
    (signer, audience, ts)
}

#[test]
fn round_trip_preserves_fields() {
    let (signer, audience, ts) = fixed_setup();
    let scopes = vec!["*:*".to_string()];
    let token = AuthToken::new_at(&signer, &audience, scopes.clone(), ts);
    let bytes = token.serialize().unwrap();
    let mut verifier = AuthVerifier::new(audience.clone());
    let got = verifier.verify_at(&bytes, ts).unwrap();
    assert_eq!(got, token);
    assert_eq!(got.scopes, vec!["*:*".to_string()]);
}

#[test]
fn unicode_scope_round_trips() {
    let (signer, audience, ts) = fixed_setup();
    let scopes = vec!["pub/β-notes:read".to_string(), String::new()];
    let token = AuthToken::new_at(&signer, &audience, scopes.clone(), ts);
    let bytes = token.serialize().unwrap();
    let mut verifier = AuthVerifier::new(audience.clone());
    let got = verifier.verify_at(&bytes, ts).unwrap();
    assert_eq!(got.scopes, scopes);
}

#[test]
fn freshness_boundaries() {
    let (signer, audience, ts) = fixed_setup();
    let token = AuthToken::new_at(&signer, &audience, vec!["*:*".to_string()], ts);
    let bytes = token.serialize().unwrap();

    // Timestamp 44 s in the past of the checking instant: accepted.
    let mut v1 = AuthVerifier::new(audience.clone());
    assert!(v1.verify_at(&bytes, ts.add_micros(44_000_000)).is_ok());

    // 46 s in the past: expired.
    let mut v2 = AuthVerifier::new(audience.clone());
    assert_eq!(v2.verify_at(&bytes, ts.add_micros(46_000_000)), Err(Error::Expired));

    // 44 s in the future: accepted.
    let mut v3 = AuthVerifier::new(audience.clone());
    assert!(v3.verify_at(&bytes, ts.sub_micros(44_000_000)).is_ok());

    // 46 s in the future: rejected as ahead of the clock.
    let mut v4 = AuthVerifier::new(audience.clone());
    assert_eq!(
        v4.verify_at(&bytes, ts.sub_micros(46_000_000)),
        Err(Error::TooFarInTheFuture)
    );

    // The boundary itself is tolerated: exactly 45 s either way.
    let mut v5 = AuthVerifier::new(audience.clone());
    assert!(v5.verify_at(&bytes, ts.add_micros(45_000_000)).is_ok());
    assert!(v5.verify_at(&bytes, ts.sub_micros(45_000_000)).is_ok());
}

#[test]
fn audience_mismatch() {
    let (signer, audience, ts) = fixed_setup();
    let other = Keypair::from_secret_key(&vec![11u8; 32]).public_key();
    let token = AuthToken::new_at(&signer, &audience, vec!["*:*".to_string()], ts);
    let bytes = token.serialize().unwrap();
    let mut verifier = AuthVerifier::new(other.clone());
    match verifier.verify_at(&bytes, ts) {
        Err(Error::InvalidAudience(expected, got)) => {
            assert_eq!(expected, other);
            assert_eq!(got, audience);
        }
        r => panic!("expected InvalidAudience, got {:?}", r),
    }
}

#[test]
fn tamper_detection() {
    let (signer, audience, ts) = fixed_setup();
    let token = AuthToken::new_at(&signer, &audience, vec!["*:*".to_string()], ts);
    let bytes = token.serialize().unwrap();

    // A bit flipped in the signature (bytes 73..137).
    let mut t1 = bytes.clone();
    t1[100] ^= 0x01;
    let mut v1 = AuthVerifier::new(audience.clone());
    assert_eq!(v1.verify_at(&t1, ts), Err(Error::InvalidSignature));

    // A bit flipped in the subject (bytes 41..73).
    let mut t2 = bytes.clone();
    t2[50] ^= 0x01;
    let mut v2 = AuthVerifier::new(audience.clone());
    assert_eq!(v2.verify_at(&t2, ts), Err(Error::InvalidSignature));

    // A bit flipped in a scope character: the last byte is the last scope
    // byte, and the flip keeps it ASCII.
    let mut t3 = bytes.clone();
    let last = t3.len() - 1;
    t3[last] ^= 0x01;
    let mut v3 = AuthVerifier::new(audience.clone());
    assert_eq!(v3.verify_at(&t3, ts), Err(Error::InvalidSignature));

    // A bit flipped in the audience (bytes 1..33) is caught by the
    // audience comparison, which runs before the signature check.
    let mut t4 = bytes.clone();
    t4[10] ^= 0x01;
    let mut v4 = AuthVerifier::new(audience.clone());
    assert!(matches!(
        v4.verify_at(&t4, ts),
        Err(Error::InvalidAudience(_, _))
    ));
}

#[test]
fn unknown_version_rejected() {
    let (signer, audience, ts) = fixed_setup();
    let token = AuthToken::new_at(&signer, &audience, vec!["*:*".to_string()], ts);
    let mut bytes = token.serialize().unwrap();
    bytes[0] = 1;
    let mut verifier = AuthVerifier::new(audience.clone());
    assert_eq!(verifier.verify_at(&bytes, ts), Err(Error::UnknownVersion));
}

#[test]
fn malformed_bytes_rejected() {
    let (signer, audience, ts) = fixed_setup();
    let mut verifier = AuthVerifier::new(audience.clone());

    // Empty input.
    assert_eq!(verifier.verify_at(&[], ts), Err(Error::Decode));

    // Truncated token.
    let token = AuthToken::new_at(&signer, &audience, vec!["*:*".to_string()], ts);
    let bytes = token.serialize().unwrap();
    assert_eq!(verifier.verify_at(&bytes[..bytes.len() - 1], ts), Err(Error::Decode));

    // Trailing garbage.
    let mut longer = bytes.clone();
    longer.push(0);
    assert_eq!(verifier.verify_at(&longer, ts), Err(Error::Decode));

    // A non-minimal length encoding for the scope count.
    let mut padded = bytes.clone();
    assert_eq!(padded[137], 1);
    padded[137] = 0x81;
    padded.insert(138, 0x00);
    assert_eq!(verifier.verify_at(&padded, ts), Err(Error::Decode));
}

#[test]
fn token_path_accepts_repeat() {
    // The token path records ids but does not reject a repeated one.
    let (signer, audience, ts) = fixed_setup();
    let token = AuthToken::new_at(&signer, &audience, vec!["*:*".to_string()], ts);
    let bytes = token.serialize().unwrap();
    let mut verifier = AuthVerifier::new(audience.clone());
    assert!(verifier.verify_at(&bytes, ts).is_ok());
    assert!(verifier.verify_at(&bytes, ts).is_ok());
}

#[test]
fn token_id_layout() {
    let (signer, audience, ts) = fixed_setup();
    let token = AuthToken::new_at(&signer, &audience, vec!["*:*".to_string()], ts);
    let id = token.id();
    assert_eq!(id.len(), 40);
    assert_eq!(&id[0..32], signer.public_key().as_bytes().as_slice());
    assert_eq!(&id[32..40], &ts.to_bytes()[..]);
}

#[test]
fn derived_public_key_matches_reference() {
    let keypair = Keypair::from_secret_key(&vec![7u8; 32]);
    let reference = ed25519_dalek::SigningKey::from_bytes(&[7u8; 32])
        .verifying_key()
        .to_bytes();
    assert_eq!(keypair.public_key().as_bytes().as_slice(), &reference[..]);
}

#[test]
fn timestamp_encoding_is_big_endian() {
    let ts = Timestamp::from_micros(0x0102_0304_0506_0708);
    assert_eq!(ts.to_bytes(), vec![1, 2, 3, 4, 5, 6, 7, 8]);
}

#[test]
fn random_keypairs_differ() {
    let a = Keypair::random();
    let b = Keypair::random();
    assert_ne!(a.public_key().as_bytes(), b.public_key().as_bytes());
}
