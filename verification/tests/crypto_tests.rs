use base64::Engine;
use proxy_core::crypto::CryptoManager;
use proxy_core::ProxyError;

#[test]
fn test_encrypt_decrypt() {
    let key = CryptoManager::generate_key();
    let crypto = CryptoManager::new(&key).unwrap();

    let original_data = b"Hello, World!";
    let encrypted = crypto.encrypt(original_data).unwrap();
    let decrypted = crypto.decrypt(&encrypted).unwrap();

    assert_eq!(original_data, decrypted.as_slice());
}

#[test]
fn test_key_generation() {
    let key1 = CryptoManager::generate_key();
    let key2 = CryptoManager::generate_key();

    assert_ne!(key1, key2);
    assert_eq!(key1.len(), 44);
}

#[test]
fn empty_plaintext_round_trips() {
    let key = CryptoManager::generate_key();
    let crypto = CryptoManager::new(&key).unwrap();
    let encrypted = crypto.encrypt(b"").unwrap();
    assert_eq!(encrypted.len(), 28);
    let decrypted = crypto.decrypt(&encrypted).unwrap();
    assert!(decrypted.is_empty());
}

#[test]
fn encrypting_twice_differs() {
    let key = CryptoManager::generate_key();
    let crypto = CryptoManager::new(&key).unwrap();
    let a = crypto.encrypt(b"same plaintext").unwrap();
    let b = crypto.encrypt(b"same plaintext").unwrap();
    assert_ne!(a, b);
}

#[test]
fn decrypting_with_other_key_fails() {
    let c1 = CryptoManager::new(&CryptoManager::generate_key()).unwrap();
    let c2 = CryptoManager::new(&CryptoManager::generate_key()).unwrap();
    let wire = c1.encrypt(b"confidential bytes").unwrap();
    assert_eq!(c2.decrypt(&wire), Err(ProxyError::CryptoError));
}

#[test]
fn any_single_bit_flip_fails_authentication() {
    let key = CryptoManager::generate_key();
    let crypto = CryptoManager::new(&key).unwrap();
    let wire = crypto.encrypt(b"Hello, World!").unwrap();
    for byte in 0..wire.len() {
        for bit in 0..8 {
            let mut tampered = wire.clone();
            tampered[byte] ^= 1u8 << bit;
            assert_eq!(crypto.decrypt(&tampered), Err(ProxyError::CryptoError));
        }
    }
}

#[test]
fn truncated_unit_is_rejected() {
    let key = CryptoManager::generate_key();
    let crypto = CryptoManager::new(&key).unwrap();
    assert_eq!(crypto.decrypt(&[0u8; 11]), Err(ProxyError::CryptoError));
    assert_eq!(crypto.decrypt(&[]), Err(ProxyError::CryptoError));
}

#[test]
fn bad_keys_are_rejected() {
    assert_eq!(
        CryptoManager::new("not base64 at all!").err(),
        Some(ProxyError::CryptoError)
    );
    let short = base64::engine::general_purpose::STANDARD.encode([7u8; 16]);
    assert_eq!(CryptoManager::new(&short).err(), Some(ProxyError::CryptoError));
}

#[test]
fn generated_key_decodes_to_32_bytes() {
    let key = CryptoManager::generate_key();
    let raw = base64::engine::general_purpose::STANDARD
        .decode(&key)
        .unwrap();
    assert_eq!(raw.len(), 32);
}
