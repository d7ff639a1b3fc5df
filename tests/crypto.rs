use rust_ssh_sftp::crypto::{check_master_password, CryptoError, CryptoManager};

const SALT: &str = "c2FsdHNhbHRzYWx0c2FsdA";

#[test]
fn test_encrypt_decrypt() {
    let manager = CryptoManager::new("test_password_123", SALT).unwrap();

    let plaintext = "my_secret_password";
    let encrypted = manager.encrypt(plaintext).unwrap();

    assert_ne!(encrypted, plaintext);

    let decrypted = manager.decrypt(&encrypted).unwrap();
    assert_eq!(decrypted, plaintext);
}

#[test]
fn test_wrong_password() {
    let manager1 = CryptoManager::new("password1", SALT).unwrap();
    let encrypted = manager1.encrypt("secret").unwrap();

    let manager2 = CryptoManager::new("password2", SALT).unwrap();
    let result = manager2.decrypt(&encrypted);

    assert!(result.is_err());
}

#[test]
fn test_multiple_encryptions() {
    let manager = CryptoManager::new("test_password", SALT).unwrap();

    let plaintext = "test_data";
    let encrypted1 = manager.encrypt(plaintext).unwrap();
    let encrypted2 = manager.encrypt(plaintext).unwrap();

    assert_ne!(encrypted1, encrypted2);

    assert_eq!(manager.decrypt(&encrypted1).unwrap(), plaintext);
    assert_eq!(manager.decrypt(&encrypted2).unwrap(), plaintext);
}

fn fixed_manager() -> CryptoManager {
    let digest: Vec<u8> = (0u8..40).collect();
    CryptoManager::from_digest(&digest).unwrap()
}

#[test]
fn same_nonce_gives_same_text_and_round_trips() {
    let m = fixed_manager();
    let nonce = [7u8; 12];
    let a = m.encrypt_with_nonce("héllo", nonce).unwrap();
    let b = m.encrypt_with_nonce("héllo", nonce).unwrap();
    assert_eq!(a, b);
    assert_ne!(a, "héllo");
    assert_eq!(m.decrypt(&a).unwrap(), "héllo");
    // 12 nonce bytes, 6 plaintext bytes and a 16-byte tag: 34 bytes, 48 base64 characters.
    assert_eq!(a.len(), 48);
}

#[test]
fn short_hash_is_refused() {
    assert!(matches!(CryptoManager::from_digest(&[1u8; 31]), Err(CryptoError::KeyDerivation)));
    assert!(CryptoManager::from_digest(&[1u8; 32]).is_ok());
}

#[test]
fn invalid_salt_is_refused() {
    assert!(matches!(CryptoManager::new("pw", "a!"), Err(CryptoError::KeyDerivation)));
}

#[test]
fn decrypt_errors() {
    let m = fixed_manager();
    assert_eq!(m.decrypt("***"), Err(CryptoError::InvalidBase64));
    assert_eq!(m.decrypt("AAAA"), Err(CryptoError::TooShort));
    assert_eq!(m.decrypt_bytes(&[0u8; 11]), Err(CryptoError::TooShort));
    assert_eq!(m.decrypt_bytes(&[0u8; 40]), Err(CryptoError::Decryption));
}

#[test]
fn master_password_checks() {
    assert_eq!(check_master_password("", None), Err(CryptoError::EmptyPassword));
    assert_eq!(check_master_password("", Some("")), Err(CryptoError::EmptyPassword));
    assert_eq!(check_master_password("pw", None), Ok(()));
    assert_eq!(check_master_password("pw", Some("pw")), Ok(()));
    assert_eq!(check_master_password("pw", Some("px")), Err(CryptoError::PasswordMismatch));
}

#[test]
fn encrypt_then_decrypt_round_trips() {
    let m = fixed_manager();
    for text in ["", "a", "pässwörd", "长密码"] {
        let e = m.encrypt(text).unwrap();
        assert_eq!(m.decrypt(&e).unwrap(), text);
    }
}
