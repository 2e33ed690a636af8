use aes_gcm::aead::Aead;
use aes_gcm::KeyInit;
use base64::Engine;
use vault_core::encryption::{decrypt_data, encrypt_data, hash_password, verify_password};

/// The encryption key exactly as the library derives it: PBKDF2-HMAC-SHA-256
/// over the fixed application salt at 10,000 iterations.
fn derive_key_independently(passphrase: &str) -> [u8; 32] {
    let mut key = [0u8; 32];
    pbkdf2::pbkdf2_hmac::<sha2::Sha256>(
        passphrase.as_bytes(),
        b"encryption_salt",
        10_000,
        &mut key,
    );
    key
}

#[test]
fn test_password_hashing() {
    let password = "test_password_123";
    let hash = hash_password(password).unwrap();

    assert!(hash.len() > password.len());

    let hash2 = hash_password(password).unwrap();
    assert!(verify_password(password, &hash).unwrap());
    assert!(verify_password(password, &hash2).unwrap());
}

#[test]
fn test_password_verification() {
    let password = "correct_password";
    let wrong_password = "wrong_password";
    let hash = hash_password(password).unwrap();

    assert!(verify_password(password, &hash).unwrap());
    assert!(!verify_password(wrong_password, &hash).unwrap());
}

#[test]
fn test_encryption_decryption() {
    let data = "Sensitive data to encrypt";
    let password = "encryption_password";

    let encrypted = encrypt_data(data, password).unwrap();
    assert_ne!(encrypted, data);

    let decrypted = decrypt_data(&encrypted, password).unwrap();
    assert_eq!(decrypted, data);
}

#[test]
fn test_encryption_wrong_password() {
    let data = "Sensitive data";
    let password = "correct_password";
    let wrong_password = "wrong_password";

    let encrypted = encrypt_data(data, password).unwrap();

    assert!(decrypt_data(&encrypted, wrong_password).is_err());
}

#[test]
fn two_hashes_differ_but_both_verify() {
    let password = "repeat_me";
    let first = hash_password(password).unwrap();
    let second = hash_password(password).unwrap();
    assert_ne!(first, second);
    assert!(verify_password(password, &first).unwrap());
    assert!(verify_password(password, &second).unwrap());
}

#[test]
fn hash_record_decodes_to_64_bytes() {
    let record = hash_password("Secr3t!").unwrap();
    let decoded = base64::engine::general_purpose::STANDARD
        .decode(&record)
        .unwrap();
    assert_eq!(decoded.len(), 64);
    assert!(verify_password("Secr3t!", &record).unwrap());
    assert!(!verify_password("wrong", &record).unwrap());
}

#[test]
fn salts_are_fresh_per_hash() {
    let first = hash_password("same input").unwrap();
    let second = hash_password("same input").unwrap();
    let bytes1 = base64::engine::general_purpose::STANDARD
        .decode(&first)
        .unwrap();
    let bytes2 = base64::engine::general_purpose::STANDARD
        .decode(&second)
        .unwrap();
    assert_ne!(&bytes1[0..32], &bytes2[0..32]);
}

#[test]
fn verify_rejects_malformed_record() {
    assert!(verify_password("anything", "not-a-valid-record").is_err());
    // Valid base64, but too short once decoded.
    let short = base64::engine::general_purpose::STANDARD.encode([1u8; 10]);
    assert!(verify_password("anything", &short).is_err());
    assert!(verify_password("anything", "").is_err());
}

#[test]
fn decrypt_rejects_malformed_record() {
    assert!(decrypt_data("not-a-valid-record", "key").is_err());
    // Valid base64, but shorter than a nonce once decoded.
    let short = base64::engine::general_purpose::STANDARD.encode([7u8; 4]);
    assert!(decrypt_data(&short, "key").is_err());
}

#[test]
fn empty_password_hashes_and_verifies() {
    let record = hash_password("").unwrap();
    assert!(verify_password("", &record).unwrap());
    assert!(!verify_password("x", &record).unwrap());
}

#[test]
fn empty_plaintext_round_trips() {
    let record = encrypt_data("", "some passphrase").unwrap();
    let decoded = base64::engine::general_purpose::STANDARD
        .decode(&record)
        .unwrap();
    // An empty plaintext still yields a 12-byte nonce and a 16-byte tag.
    assert_eq!(decoded.len(), 28);
    assert_eq!(decrypt_data(&record, "some passphrase").unwrap(), "");
}

#[test]
fn encrypt_decrypt_customer_record() {
    let plaintext = "customer:Jane Doe,balance:120.50";
    let record = encrypt_data(plaintext, "vault-key-2024").unwrap();
    assert_eq!(decrypt_data(&record, "vault-key-2024").unwrap(), plaintext);
    assert!(decrypt_data(&record, "vault-key-2025").is_err());
}

#[test]
fn tampering_with_any_byte_is_detected() {
    let record = encrypt_data("short secret", "tamper-key").unwrap();
    let decoded = base64::engine::general_purpose::STANDARD
        .decode(&record)
        .unwrap();
    for i in 0..decoded.len() {
        let mut corrupted = decoded.clone();
        corrupted[i] ^= 0x01;
        let corrupted_record =
            base64::engine::general_purpose::STANDARD.encode(&corrupted);
        assert!(decrypt_data(&corrupted_record, "tamper-key").is_err());
    }
}

#[test]
fn ciphertext_record_layout() {
    let plaintext = "0123456789";
    let record = encrypt_data(plaintext, "layout-key").unwrap();
    let decoded = base64::engine::general_purpose::STANDARD
        .decode(&record)
        .unwrap();
    // nonce (12) + ciphertext (plaintext length) + tag (16)
    assert_eq!(decoded.len(), 12 + plaintext.len() + 16);
    // The ciphertext body must not be the plaintext itself.
    assert_ne!(&decoded[12..12 + plaintext.len()], plaintext.as_bytes());
}

#[test]
fn nonces_are_fresh_per_encryption() {
    let first = encrypt_data("same text", "same key").unwrap();
    let second = encrypt_data("same text", "same key").unwrap();
    assert_ne!(first, second);
    let bytes1 = base64::engine::general_purpose::STANDARD
        .decode(&first)
        .unwrap();
    let bytes2 = base64::engine::general_purpose::STANDARD
        .decode(&second)
        .unwrap();
    assert_ne!(&bytes1[0..12], &bytes2[0..12]);
}

#[test]
fn record_opens_under_independently_derived_key() {
    let record = encrypt_data("cross-checked text", "shared-passphrase").unwrap();
    let decoded = base64::engine::general_purpose::STANDARD
        .decode(&record)
        .unwrap();
    let key = derive_key_independently("shared-passphrase");
    let cipher = aes_gcm::Aes256Gcm::new(aes_gcm::Key::<aes_gcm::Aes256Gcm>::from_slice(&key));
    let nonce = aes_gcm::Nonce::from_slice(&decoded[0..12]);
    let plaintext = cipher.decrypt(nonce, &decoded[12..]).unwrap();
    assert_eq!(plaintext, b"cross-checked text");
}

#[test]
fn sealed_non_text_bytes_give_the_text_error() {
    // Seal bytes that are not valid UTF-8 under the key the library derives,
    // in a record of the library's layout: decryption authenticates but must
    // fail on the text conversion rather than return garbage.
    let key = derive_key_independently("binary-key");
    let cipher = aes_gcm::Aes256Gcm::new(aes_gcm::Key::<aes_gcm::Aes256Gcm>::from_slice(&key));
    let nonce_bytes = [9u8; 12];
    let nonce = aes_gcm::Nonce::from_slice(&nonce_bytes);
    let sealed = cipher.encrypt(nonce, &[0xFFu8, 0xFE, 0x80][..]).unwrap();
    let mut combined = nonce_bytes.to_vec();
    combined.extend_from_slice(&sealed);
    let record = base64::engine::general_purpose::STANDARD.encode(&combined);
    let outcome = decrypt_data(&record, "binary-key");
    assert!(outcome.is_err());
    assert!(outcome.unwrap_err().contains("text"));
}

#[test]
fn non_ascii_text_round_trips() {
    let plaintext = "árvíztűrő tükörfúrógép — 密码 🗝";
    let record = encrypt_data(plaintext, "unicode-key").unwrap();
    assert_eq!(decrypt_data(&record, "unicode-key").unwrap(), plaintext);
}
