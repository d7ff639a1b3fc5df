use rust_ssh_sftp::config::{AppConfig, AuthMethod, ConfigError, SavedConnection};
use rust_ssh_sftp::crypto::{CryptoError, CryptoManager};

#[test]
fn test_saved_connection_creation() {
    let conn = SavedConnection::new_password(
        "test".to_string(),
        "example.com".to_string(),
        22,
        "user".to_string(),
    );

    assert_eq!(conn.name, "test");
    assert_eq!(conn.auth_type, "password");
}

#[test]
fn test_app_config_operations() {
    let mut config = AppConfig::default();

    let conn = SavedConnection::new_password(
        "test".to_string(),
        "example.com".to_string(),
        22,
        "user".to_string(),
    );

    config.add_connection(conn);
    assert_eq!(config.connections.len(), 1);
    assert!(config.get_connection("test").is_some());
}

fn password_conn(name: &str) -> SavedConnection {
    SavedConnection::new_password(name.to_string(), "h".to_string(), 22, "u".to_string())
}

#[test]
fn first_added_connection_becomes_default() {
    let mut config = AppConfig::default();
    config.add_connection(password_conn("beta"));
    config.add_connection(password_conn("alpha"));
    assert_eq!(config.default_connection.as_deref(), Some("beta"));
    assert_eq!(config.get_default_connection().unwrap().name, "beta");
}

#[test]
fn connections_are_listed_in_name_order() {
    let mut config = AppConfig::default();
    for name in ["delta", "alpha", "charlie", "bravo"] {
        config.add_connection(password_conn(name));
    }
    let names: Vec<&str> = config.list_connections().iter().map(|c| c.name.as_str()).collect();
    assert_eq!(names, vec!["alpha", "bravo", "charlie", "delta"]);
}

#[test]
fn adding_an_existing_name_replaces_it() {
    let mut config = AppConfig::default();
    config.add_connection(password_conn("srv"));
    let replacement =
        SavedConnection::new_password("srv".to_string(), "other".to_string(), 2222, "root".to_string());
    config.add_connection(replacement);
    assert_eq!(config.connections.len(), 1);
    let c = config.get_connection("srv").unwrap();
    assert_eq!(c.host, "other");
    assert_eq!(c.port, 2222);
}

#[test]
fn removing_the_default_clears_it() {
    let mut config = AppConfig::default();
    config.add_connection(password_conn("a"));
    config.add_connection(password_conn("b"));
    assert!(config.remove_connection("a").is_ok());
    assert_eq!(config.connections.len(), 1);
    assert!(config.default_connection.is_none());
    assert!(config.get_connection("a").is_none());
    assert!(config.get_connection("b").is_some());
}

#[test]
fn removing_an_unknown_name_fails() {
    let mut config = AppConfig::default();
    config.add_connection(password_conn("a"));
    match config.remove_connection("zzz") {
        Err(ConfigError::UnknownConnection(n)) => assert_eq!(n, "zzz"),
        _ => panic!("expected an unknown-connection error"),
    }
    assert_eq!(config.connections.len(), 1);
}

#[test]
fn set_default_requires_a_saved_name() {
    let mut config = AppConfig::default();
    config.add_connection(password_conn("a"));
    config.add_connection(password_conn("b"));
    assert!(config.set_default("b").is_ok());
    assert_eq!(config.default_connection.as_deref(), Some("b"));
    assert!(matches!(config.set_default("c"), Err(ConfigError::UnknownConnection(_))));
    assert_eq!(config.default_connection.as_deref(), Some("b"));
}

#[test]
fn saved_password_depends_on_auth_type() {
    let plain = password_conn("a");
    assert!(!plain.has_saved_password());
    let with_pw = SavedConnection::new_password_with_encrypted(
        "a".to_string(),
        "h".to_string(),
        22,
        "u".to_string(),
        "ENC".to_string(),
    );
    assert!(with_pw.has_saved_password());
    let key = SavedConnection::new_publickey(
        "k".to_string(),
        "h".to_string(),
        22,
        "u".to_string(),
        "/id".to_string(),
        None,
    );
    assert_eq!(key.auth_type, "publickey");
    assert!(!key.has_saved_password());
    let key_pp = SavedConnection::new_publickey_with_encrypted(
        "k".to_string(),
        "h".to_string(),
        22,
        "u".to_string(),
        "/id".to_string(),
        Some("/id.pub".to_string()),
        "ENC".to_string(),
    );
    assert!(key_pp.has_saved_password());
    let mut odd = password_conn("x");
    odd.auth_type = "kerberos".to_string();
    odd.encrypted_password = Some("ENC".to_string());
    assert!(!odd.has_saved_password());
}

#[test]
fn to_ssh_config_password_and_key() {
    let conn = password_conn("a");
    assert!(matches!(conn.to_ssh_config(None, None), Err(ConfigError::MissingPassword)));
    let cfg = conn.to_ssh_config(Some("pw".to_string()), None).unwrap();
    assert_eq!(cfg.host, "h");
    assert_eq!(cfg.port, 22);
    assert_eq!(cfg.username, "u");
    assert!(matches!(cfg.auth, AuthMethod::Password(ref p) if p == "pw"));

    let key = SavedConnection::new_publickey(
        "k".to_string(),
        "h".to_string(),
        22,
        "u".to_string(),
        "/id".to_string(),
        Some("/id.pub".to_string()),
    );
    let cfg = key.to_ssh_config(None, Some("pp".to_string())).unwrap();
    match cfg.auth {
        AuthMethod::PublicKey { public_key, private_key, passphrase } => {
            assert_eq!(public_key.as_deref(), Some("/id.pub"));
            assert_eq!(private_key, "/id");
            assert_eq!(passphrase.as_deref(), Some("pp"));
        }
        _ => panic!("expected public-key authentication"),
    }

    let mut broken = key.clone();
    broken.private_key_path = None;
    assert!(matches!(broken.to_ssh_config(None, None), Err(ConfigError::MissingPrivateKey)));

    let mut odd = password_conn("x");
    odd.auth_type = "kerberos".to_string();
    match odd.to_ssh_config(Some("pw".to_string()), None) {
        Err(ConfigError::UnknownAuthType(t)) => assert_eq!(t, "kerberos"),
        _ => panic!("expected an unknown-auth-type error"),
    }
}

#[test]
fn to_ssh_config_with_decryption_uses_saved_secrets() {
    let digest: Vec<u8> = (0u8..32).collect();
    let crypto = CryptoManager::from_digest(&digest).unwrap();
    let other = CryptoManager::from_digest(&[9u8; 32]).unwrap();
    let secret = crypto.encrypt_with_nonce("secret", [1u8; 12]).unwrap();
    let conn = SavedConnection::new_password_with_encrypted(
        "a".to_string(),
        "h".to_string(),
        22,
        "u".to_string(),
        secret,
    );
    let cfg = conn.to_ssh_config_with_decryption(&crypto, None, None).unwrap();
    assert_eq!(cfg.host, "h");
    assert!(matches!(cfg.auth, AuthMethod::Password(ref p) if p == "secret"));

    let cfg = conn.to_ssh_config_with_decryption(&crypto, Some("typed".to_string()), None).unwrap();
    assert!(matches!(cfg.auth, AuthMethod::Password(ref p) if p == "typed"));

    assert!(matches!(
        conn.to_ssh_config_with_decryption(&other, None, None),
        Err(ConfigError::DecryptionFailed(CryptoError::Decryption))
    ));

    let bare = password_conn("b");
    assert!(matches!(
        bare.to_ssh_config_with_decryption(&crypto, None, None),
        Err(ConfigError::NoSavedPassword)
    ));

    let mut garbled = conn.clone();
    garbled.encrypted_password = Some("***".to_string());
    assert!(matches!(
        garbled.to_ssh_config_with_decryption(&crypto, None, None),
        Err(ConfigError::DecryptionFailed(CryptoError::InvalidBase64))
    ));

    let phrase = crypto.encrypt_with_nonce("phrase", [2u8; 12]).unwrap();
    let key = SavedConnection::new_publickey_with_encrypted(
        "k".to_string(),
        "h".to_string(),
        22,
        "u".to_string(),
        "/id".to_string(),
        None,
        phrase,
    );
    match key.to_ssh_config_with_decryption(&crypto, None, None).unwrap().auth {
        AuthMethod::PublicKey { passphrase, private_key, .. } => {
            assert_eq!(passphrase.as_deref(), Some("phrase"));
            assert_eq!(private_key, "/id");
        }
        _ => panic!("expected public-key authentication"),
    }
    let plain_key = SavedConnection::new_publickey(
        "k".to_string(),
        "h".to_string(),
        22,
        "u".to_string(),
        "/id".to_string(),
        None,
    );
    match plain_key.to_ssh_config_with_decryption(&crypto, None, None).unwrap().auth {
        AuthMethod::PublicKey { passphrase, .. } => assert!(passphrase.is_none()),
        _ => panic!("expected public-key authentication"),
    }
}

#[test]
fn test_ssh_config_creation() {
    let config = rust_ssh_sftp::config::SshConfig {
        host: "example.com".to_string(),
        port: 22,
        username: "user".to_string(),
        auth: AuthMethod::Password("password".to_string()),
    };

    assert_eq!(config.host, "example.com");
    assert_eq!(config.port, 22);
}
