use pier_core::crypto::{decrypt, encrypt, encrypt_with_nonce, CryptoError};

#[test]
fn test_encrypt_decrypt_roundtrip() {
    let key = [0x42u8; 32];
    let plaintext = b"Hello, Pier Terminal!";

    let encrypted = encrypt(&key, plaintext).unwrap();
    assert_ne!(&encrypted[..], &plaintext[..]);

    let decrypted = decrypt(&key, &encrypted).unwrap();
    assert_eq!(&decrypted[..], &plaintext[..]);
}

#[test]
fn test_decrypt_invalid() {
    let key = [0x42u8; 32];
    let result = decrypt(&key, b"short");
    assert!(result.is_err());
}

#[test]
fn ciphertext_is_28_bytes_longer() {
    let key = [7u8; 32];
    for len in [0usize, 1, 15, 16, 17, 100] {
        let plaintext = vec![0xabu8; len];
        let sealed = encrypt(&key, &plaintext).unwrap();
        assert_eq!(sealed.len(), len + 28);
        assert_eq!(decrypt(&key, &sealed).unwrap(), plaintext);
    }
}

#[test]
fn short_ciphertext_is_reported_as_too_short() {
    let key = [1u8; 32];
    assert_eq!(decrypt(&key, &[]), Err(CryptoError::CiphertextTooShort));
    assert_eq!(decrypt(&key, &[0u8; 11]), Err(CryptoError::CiphertextTooShort));
}

#[test]
fn nonce_without_tag_fails_to_decrypt() {
    let key = [1u8; 32];
    assert_eq!(decrypt(&key, &[0u8; 12]), Err(CryptoError::DecryptionFailed));
    assert_eq!(decrypt(&key, &[0u8; 27]), Err(CryptoError::DecryptionFailed));
}

#[test]
fn tampered_message_fails_to_decrypt() {
    let key = [9u8; 32];
    let mut sealed = encrypt(&key, b"secret").unwrap();
    let last = sealed.len() - 1;
    sealed[last] ^= 1;
    assert_eq!(decrypt(&key, &sealed), Err(CryptoError::DecryptionFailed));
}

#[test]
fn wrong_key_fails_to_decrypt() {
    let sealed = encrypt(&[1u8; 32], b"secret").unwrap();
    assert_eq!(decrypt(&[2u8; 32], &sealed), Err(CryptoError::DecryptionFailed));
}

#[test]
fn message_starts_with_the_nonce() {
    let key = [3u8; 32];
    let nonce = [5u8; 12];
    let sealed = encrypt_with_nonce(&key, nonce, b"abc").unwrap();
    assert_eq!(&sealed[..12], &nonce[..]);
    assert_eq!(sealed.len(), 3 + 28);
    assert_ne!(&sealed[12..15], b"abc");
    assert_eq!(decrypt(&key, &sealed).unwrap(), b"abc".to_vec());
    // Sealing is a function of key, nonce and plaintext.
    assert_eq!(encrypt_with_nonce(&key, nonce, b"abc").unwrap(), sealed);
}

#[test]
fn two_encryptions_use_different_nonces() {
    let key = [3u8; 32];
    let a = encrypt(&key, b"abc").unwrap();
    let b = encrypt(&key, b"abc").unwrap();
    assert_ne!(&a[..12], &b[..12]);
}

#[test]
fn error_messages() {
    assert_eq!(CryptoError::RngFailed.message(), "RNG failed");
    assert_eq!(CryptoError::EncryptionFailed.message(), "Encryption failed");
    assert_eq!(CryptoError::CiphertextTooShort.message(), "Ciphertext too short");
    assert_eq!(CryptoError::DecryptionFailed.message(), "Decryption failed");
}
