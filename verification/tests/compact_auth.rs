use pubky_auth::compact::{AuthnSignature, AuthnSignatureError, AuthnVerifier};
use pubky_auth::crypto::Keypair;
use pubky_auth::replay::{CacheKey, ReplayCache};
use pubky_auth::timestamp::Timestamp;

fn fixed_setup() -> (Keypair, pubky_auth::crypto::PublicKey, Timestamp) {
    let signer = Keypair::from_secret_key(&vec![21u8; 32]);
    let audience = Keypair::from_secret_key(&vec![23u8; 32]).public_key();
    // An instant in the middle of its 30-second bucket.
    let ts = Timestamp::from_micros(1_700_000_010_000_000 + 15_000_000);
    (signer, audience, ts)
}

#[test]
fn compact_sign_verify() {
    let signer = Keypair::random();
    let audience = Keypair::random().public_key();
    let credential = AuthnSignature::generate(&signer, &audience);
    let mut verifier = AuthnVerifier::new(audience);
    assert!(verifier.verify(credential.as_bytes(), &signer.public_key()).is_ok());
}

#[test]
fn payload_is_signature_then_hash() {
    let (signer, audience, ts) = fixed_setup();
    let content = b"hello world";
    let token_hash = pubky_auth::crypto::hash(content);
    let credential = AuthnSignature::build_at(&signer, &audience, &token_hash, ts);
    let bytes = credential.as_bytes();
    assert_eq!(bytes.len(), 96);
    assert_eq!(&bytes[64..96], blake3::hash(content).as_bytes());
}

#[test]
fn replay_rejected() {
    let (signer, audience, ts) = fixed_setup();
    let token_hash = vec![5u8; 32];
    let credential = AuthnSignature::build_at(&signer, &audience, &token_hash, ts);
    let mut verifier = AuthnVerifier::new(audience.clone());
    let signer_pk = signer.public_key();
    assert!(verifier.verify_at_time(credential.as_bytes(), &signer_pk, ts).is_ok());
    assert_eq!(
        verifier.verify_at_time(credential.as_bytes(), &signer_pk, ts),
        Err(AuthnSignatureError::AlreadyUsed)
    );
}

#[test]
fn clock_skew_tolerated() {
    let (signer, audience, ts) = fixed_setup();
    let token_hash = vec![5u8; 32];
    let credential = AuthnSignature::build_at(&signer, &audience, &token_hash, ts);
    let signer_pk = signer.public_key();

    let mut early = AuthnVerifier::new(audience.clone());
    assert!(early
        .verify_at_time(credential.as_bytes(), &signer_pk, ts.sub_micros(29_000_000))
        .is_ok());

    let mut late = AuthnVerifier::new(audience.clone());
    assert!(late
        .verify_at_time(credential.as_bytes(), &signer_pk, ts.add_micros(29_000_000))
        .is_ok());

    let mut too_late = AuthnVerifier::new(audience.clone());
    assert_eq!(
        too_late.verify_at_time(credential.as_bytes(), &signer_pk, ts.add_micros(61_000_000)),
        Err(AuthnSignatureError::InvalidSignature)
    );
}

#[test]
fn wrong_length_rejected() {
    let (_, audience, ts) = fixed_setup();
    let signer = Keypair::from_secret_key(&vec![21u8; 32]);
    let mut verifier = AuthnVerifier::new(audience);
    let result = verifier.verify_at_time(&[0u8; 50], &signer.public_key(), ts);
    assert_eq!(result, Err(AuthnSignatureError::InvalidLength(50)));
}

#[test]
fn wrong_signer_rejected() {
    let (signer, audience, ts) = fixed_setup();
    let other = Keypair::from_secret_key(&vec![42u8; 32]);
    let token_hash = vec![5u8; 32];
    let credential = AuthnSignature::build_at(&signer, &audience, &token_hash, ts);
    let mut verifier = AuthnVerifier::new(audience);
    assert_eq!(
        verifier.verify_at_time(credential.as_bytes(), &other.public_key(), ts),
        Err(AuthnSignatureError::InvalidSignature)
    );
}

#[test]
fn garbage_collection_evicts_old_buckets() {
    let (signer, audience, ts) = fixed_setup();
    let token_hash = vec![5u8; 32];
    let credential = AuthnSignature::build_at(&signer, &audience, &token_hash, ts);
    let signer_pk = signer.public_key();
    let mut verifier = AuthnVerifier::new(audience.clone());

    // Accepted and recorded.
    assert!(verifier.verify_at_time(credential.as_bytes(), &signer_pk, ts).is_ok());

    // One bucket later the entry is still cached: the past candidate
    // bucket revalidates the signature and the replay is caught.
    assert_eq!(
        verifier.verify_at_time(credential.as_bytes(), &signer_pk, ts.add_micros(30_000_000)),
        Err(AuthnSignatureError::AlreadyUsed)
    );

    // Three buckets later the entry has been evicted, and no candidate
    // bucket matches the old signature any more.
    assert_eq!(
        verifier.verify_at_time(credential.as_bytes(), &signer_pk, ts.add_micros(95_000_000)),
        Err(AuthnSignatureError::InvalidSignature)
    );
}

#[test]
fn no_insert_is_lost() {
    // Several distinct credentials all verify, and each is individually
    // remembered: a second pass reports every one as already used.
    let (_, audience, ts) = fixed_setup();
    let mut verifier = AuthnVerifier::new(audience.clone());
    let mut credentials = Vec::new();
    for seed_byte in 1u8..5u8 {
        let signer = Keypair::from_secret_key(&vec![seed_byte; 32]);
        let token_hash = vec![seed_byte; 32];
        let credential = AuthnSignature::build_at(&signer, &audience, &token_hash, ts);
        credentials.push((signer.public_key(), credential));
    }
    for (pk, credential) in &credentials {
        assert!(verifier.verify_at_time(credential.as_bytes(), pk, ts).is_ok());
    }
    for (pk, credential) in &credentials {
        assert_eq!(
            verifier.verify_at_time(credential.as_bytes(), pk, ts),
            Err(AuthnSignatureError::AlreadyUsed)
        );
    }
}

#[test]
fn cache_prefix_eviction() {
    let key = |w0: u64, tag: u64| CacheKey { w0, w1: tag, w2: 0, w3: 0, w4: 0 };
    let mut cache = ReplayCache::new();
    cache.insert(key(7, 1));
    cache.insert(key(8, 2));
    cache.insert(key(9, 3));
    cache.insert(key(8, 1));
    // Evict everything strictly below bucket 8.
    cache.evict_below(8);
    assert!(!cache.contains(&key(7, 1)));
    assert!(cache.contains(&key(8, 1)));
    assert!(cache.contains(&key(8, 2)));
    assert!(cache.contains(&key(9, 3)));
}
