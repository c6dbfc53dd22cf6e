use spaceone::encryption::AesEncryptor;
use spaceone::security::SecurityError;
use spaceone::signing::{RaucSigner, RaucVerifier, SignatureAlgorithm, SigningKey};

#[test]
fn test_encrypt_decrypt_roundtrip() {
    let mut encryptor = AesEncryptor::new_random();
    let plaintext = b"Hello Mars from SpaceOne!";

    let encrypted = encryptor.encrypt(plaintext).unwrap();
    let decrypted = encryptor.decrypt(&encrypted).unwrap();

    assert_eq!(decrypted, plaintext.to_vec());
}

#[test]
fn test_encryption_overhead() {
    let mut encryptor = AesEncryptor::new_random();
    let plaintext = vec![0u8; 1024];

    let encrypted = encryptor.encrypt(&plaintext).unwrap();
    assert_eq!(encrypted.total_size(), 1024 + 12 + 16);
}

#[test]
fn test_key_derivation() {
    let key1 = AesEncryptor::derive_key("mars2030", b"salt1");
    let key2 = AesEncryptor::derive_key("mars2030", b"salt1");
    let key3 = AesEncryptor::derive_key("mars2030", b"salt2");

    assert_eq!(key1, key2);
    assert_ne!(key1, key3);
}

#[test]
fn test_wrong_key_fails() {
    let mut enc1 = AesEncryptor::new_random();
    let enc2 = AesEncryptor::new_random();

    let encrypted = enc1.encrypt(b"secret").unwrap();
    let result = enc2.decrypt(&encrypted);

    assert!(result.is_err());
}

#[test]
fn fixed_key_roundtrip_and_counters() {
    let key = [7u8; 32];
    let mut enc = AesEncryptor::from_key(&key, 4);
    assert_eq!(enc.get_version(), 4);
    assert_eq!(enc.get_encrypt_count(), 0);
    let e = enc.encrypt(b"abc").unwrap();
    assert_eq!(enc.get_encrypt_count(), 1);
    assert_eq!(e.key_version, 4);
    assert_eq!(e.nonce.len(), 12);
    assert_eq!(e.tag.len(), 16);
    assert_ne!(e.ciphertext, b"abc".to_vec());
    let other = AesEncryptor::from_key(&key, 5);
    assert_eq!(other.decrypt(&e).unwrap(), b"abc".to_vec());
}

#[test]
fn tampered_ciphertext_is_rejected() {
    let mut enc = AesEncryptor::from_key(&[1u8; 32], 1);
    let mut e = enc.encrypt(b"payload").unwrap();
    e.ciphertext[0] ^= 1;
    assert!(matches!(enc.decrypt(&e), Err(SecurityError::DecryptionFailed(_))));
}

#[test]
fn test_sign_and_verify() {
    let mut signer = RaucSigner::new();
    let key = SigningKey::generate(SignatureAlgorithm::Ed25519, "spaceone".into());
    signer.add_key(key);

    let data = b"RAUC bundle content for Mars rover";
    let signature = signer.sign_bundle(data, None).unwrap();

    assert!(signer.verify_bundle(data, &signature).unwrap());
}

#[test]
fn test_tampered_data_fails() {
    let mut signer = RaucSigner::new();
    let key = SigningKey::generate(SignatureAlgorithm::Ed25519, "spaceone".into());
    signer.add_key(key);

    let data = b"original data";
    let signature = signer.sign_bundle(data, None).unwrap();

    let tampered = b"tampered data";
    assert!(signer.verify_bundle(tampered, &signature).is_err());
}

#[test]
fn test_rauc_verifier() {
    let mut signer = RaucSigner::new();
    let key = SigningKey::generate(SignatureAlgorithm::Ed25519, "nasa".into());
    let pub_key = key.public_key.clone();
    let kid = key.key_id.clone();
    signer.add_key(key);

    let mut verifier = RaucVerifier::new();
    verifier.add_trusted_key(kid.clone(), pub_key);

    let data = b"verified bundle";
    let sig = signer.sign_bundle(data, None).unwrap();
    assert!(verifier.verify(data, &sig));
}

#[test]
fn signing_without_a_key_fails() {
    let signer = RaucSigner::new();
    assert!(matches!(signer.sign_bundle(b"x", None), Err(SecurityError::InvalidKey(_))));
}

#[test]
fn untrusted_key_is_refused() {
    let mut signer = RaucSigner::new();
    signer.add_key(SigningKey::generate(SignatureAlgorithm::ECDSAP256, "esa".into()));
    let sig = signer.sign_bundle(b"data", None).unwrap();
    let verifier = RaucVerifier::new();
    assert!(!verifier.verify(b"data", &sig));
}

#[test]
fn key_identifier_comes_from_public_key() {
    let key = SigningKey::from_private_at(SignatureAlgorithm::Ed25519, "o".into(), vec![0u8; 32], 0);
    assert!(key.key_id.starts_with("key-"));
    assert_eq!(key.key_id.len(), 4 + 16);
    assert_eq!(key.public_key.len(), 32);
    assert_eq!(key.expires_at, 365 * 24 * 3600 * 1000);
    assert!(!key.is_expired_at(key.expires_at));
    assert!(key.is_expired_at(key.expires_at + 1));
}
