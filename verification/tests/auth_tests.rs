use proxy_token::auth::ecdsa_sign;
use proxy_token::auth::ecdsa_verify;
use proxy_token::auth::ecdsa_verify_at;
use proxy_token::auth::ed25519_sign;
use proxy_token::auth::ed25519_verify;
use proxy_token::auth::ed25519_verify_at;
use proxy_token::auth::EcdsaSigningKey;
use proxy_token::auth::Ed25519SigningKey;
use proxy_token::crypto::sha3_256;
use proxy_token::VerifyError;
use proxy_token::PERMITTED_DRIFT;

fn now_seconds() -> u64 {
    std::time::SystemTime::now()
        .duration_since(std::time::UNIX_EPOCH)
        .unwrap()
        .as_millis() as u64
        / 1000
}

#[test]
fn test_ed25519_token() {
    let secret_key = [7u8; 32];
    let signing_key = Ed25519SigningKey { bytes: secret_key.to_vec() };
    let agent = "alice".to_string();
    let expire_at = now_seconds() + 3600;
    let signed = ed25519_sign(&signing_key, expire_at, agent.clone());
    let token = ed25519_verify(&vec![signing_key.verifying_key()], &signed).unwrap();
    assert_eq!(token.0, expire_at);
    assert_eq!(token.1, agent);
}

#[test]
fn test_secp256k1_token() {
    let signing_key = EcdsaSigningKey { bytes: [1u8; 32].to_vec() };
    let agent = "alice".to_string();
    let expire_at = now_seconds() + 3600;
    let signed = ecdsa_sign(&signing_key, expire_at, agent.clone()).unwrap();
    let token = ecdsa_verify(&vec![signing_key.verifying_key().unwrap()], &signed).unwrap();
    assert_eq!(token.0, expire_at);
    assert_eq!(token.1, agent);
}

#[test]
fn expiry_boundary_inclusive() {
    let key = Ed25519SigningKey { bytes: [9u8; 32].to_vec() };
    let keys = vec![key.verifying_key()];
    let now: u64 = 1_000_000;

    // expire_at = now - PERMITTED_DRIFT still verifies.
    let at_edge = ed25519_sign(&key, now - PERMITTED_DRIFT, "alice".to_string());
    assert!(ed25519_verify_at(&keys, &at_edge, now).is_ok());

    // expire_at = now - PERMITTED_DRIFT - 1 is expired.
    let stale = ed25519_sign(&key, now - PERMITTED_DRIFT - 1, "alice".to_string());
    assert_eq!(ed25519_verify_at(&keys, &stale, now), Err(VerifyError::Expired));
}

#[test]
fn expiry_boundary_inclusive_ecdsa() {
    let key = EcdsaSigningKey { bytes: [2u8; 32].to_vec() };
    let keys = vec![key.verifying_key().unwrap()];
    let now: u64 = 1_000_000;
    let at_edge = ecdsa_sign(&key, now - PERMITTED_DRIFT, "bob".to_string()).unwrap();
    assert!(ecdsa_verify_at(&keys, &at_edge, now).is_ok());
    let stale = ecdsa_sign(&key, now - PERMITTED_DRIFT - 1, "bob".to_string()).unwrap();
    assert_eq!(ecdsa_verify_at(&keys, &stale, now), Err(VerifyError::Expired));
}

#[test]
fn key_rotation_set() {
    let old_key = Ed25519SigningKey { bytes: [3u8; 32].to_vec() };
    let new_key = Ed25519SigningKey { bytes: [4u8; 32].to_vec() };
    let rotation = vec![old_key.verifying_key(), new_key.verifying_key()];
    let now: u64 = 1_000_000;

    let by_old = ed25519_sign(&old_key, now + 60, "alice".to_string());
    let by_new = ed25519_sign(&new_key, now + 60, "alice".to_string());
    assert!(ed25519_verify_at(&rotation, &by_old, now).is_ok());
    assert!(ed25519_verify_at(&rotation, &by_new, now).is_ok());

    // Removing the old key invalidates tokens signed only by it.
    let reduced = vec![new_key.verifying_key()];
    assert_eq!(
        ed25519_verify_at(&reduced, &by_old, now),
        Err(VerifyError::BadSignature)
    );
    assert!(ed25519_verify_at(&reduced, &by_new, now).is_ok());
}

#[test]
fn tamper_detection_every_bit() {
    let key = Ed25519SigningKey { bytes: [5u8; 32].to_vec() };
    let keys = vec![key.verifying_key()];
    // At now = 0 no expiry value can be stale, so every bit flip must be
    // caught by the structure or the signature check.
    let now: u64 = 0;
    let later: u64 = 1_000_000;
    let signed = ed25519_sign(&key, later + 60, "alice".to_string());
    assert!(ed25519_verify_at(&keys, &signed, now).is_ok());
    assert!(ed25519_verify_at(&keys, &signed, later).is_ok());
    for byte in 0..signed.len() {
        for bit in 0..8 {
            let mut tampered = signed.clone();
            tampered[byte] ^= 1u8 << bit;
            let r = ed25519_verify_at(&keys, &tampered, now);
            assert!(
                matches!(r, Err(VerifyError::Malformed) | Err(VerifyError::BadSignature)),
                "bit flip at byte {} bit {} was not rejected",
                byte,
                bit
            );
            // A flip that lowers the expiry field may instead surface as
            // Expired once the clock has moved past it; it must still fail.
            assert!(ed25519_verify_at(&keys, &tampered, later).is_err());
        }
    }
}

#[test]
fn malformed_bytes_reported_as_malformed() {
    let key = Ed25519SigningKey { bytes: [6u8; 32].to_vec() };
    let keys = vec![key.verifying_key()];
    assert_eq!(
        ed25519_verify_at(&keys, &[1, 2, 3], 0),
        Err(VerifyError::Malformed)
    );
}

#[test]
fn sha3_256_known_digest() {
    // SHA3-256 of the empty input.
    let expected: [u8; 32] = [
        0xa7, 0xff, 0xc6, 0xf8, 0xbf, 0x1e, 0xd7, 0x66, 0x51, 0xc1, 0x47, 0x56, 0xa0, 0x61,
        0xd6, 0x62, 0xf5, 0x80, 0xff, 0x4d, 0xe4, 0x3b, 0x49, 0xfa, 0x82, 0xd8, 0x0a, 0x4b,
        0x80, 0xf8, 0x43, 0x4a,
    ];
    assert_eq!(sha3_256(&[]), expected);
}

#[test]
fn ecdsa_sign_rejects_invalid_scalar() {
    // The zero scalar is not a valid secp256k1 secret key.
    let key = EcdsaSigningKey { bytes: [0u8; 32].to_vec() };
    assert!(ecdsa_sign(&key, 1000, "alice".to_string()).is_err());
    assert!(key.verifying_key().is_none());
}

#[test]
fn ecdsa_wrong_key_bad_signature() {
    let key = EcdsaSigningKey { bytes: [2u8; 32].to_vec() };
    let other = EcdsaSigningKey { bytes: [3u8; 32].to_vec() };
    let now: u64 = 1_000_000;
    let signed = ecdsa_sign(&key, now + 60, "alice".to_string()).unwrap();
    let wrong_keys = vec![other.verifying_key().unwrap()];
    assert_eq!(
        ecdsa_verify_at(&wrong_keys, &signed, now),
        Err(VerifyError::BadSignature)
    );
}

#[test]
fn ecdsa_sign_deterministic() {
    // Equal (key, expire_at, agent) give the same verdict and, on success,
    // byte-identical tokens.
    let key = EcdsaSigningKey { bytes: [4u8; 32].to_vec() };
    let a = ecdsa_sign(&key, 1234, "alice".to_string()).unwrap();
    let b = ecdsa_sign(&key, 1234, "alice".to_string()).unwrap();
    assert_eq!(a, b);
}

#[test]
fn ed25519_sign_deterministic() {
    let key = Ed25519SigningKey { bytes: [4u8; 32].to_vec() };
    let a = ed25519_sign(&key, 1234, "alice".to_string());
    let b = ed25519_sign(&key, 1234, "alice".to_string());
    assert_eq!(a, b);
}
