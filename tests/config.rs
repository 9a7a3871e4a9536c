use tauri_plugin_libsql::config::{Config, Libsql};
use tauri_plugin_libsql::models::{Cipher, EncryptionConfig, PingRequest};

#[test]
fn ping_echoes_value() {
    let l = Libsql(Config::default());
    assert_eq!(l.ping(PingRequest { value: Some("hi".to_string()) }).unwrap().value, Some("hi".to_string()));
    assert_eq!(l.ping(PingRequest { value: None }).unwrap().value, None);
}

#[test]
fn base_path_falls_back_to_current_dir_then_dot() {
    let l = Libsql(Config::default());
    assert_eq!(l.base_path(Some("/home/u".to_string())), "/home/u");
    assert_eq!(l.base_path(None), ".");
    let c = Libsql(Config { base_path: Some("/data/app".to_string()), encryption: None });
    assert_eq!(c.base_path(Some("/home/u".to_string())), "/data/app");
}

#[test]
fn default_encryption_applies_unless_overridden() {
    let l = Libsql(Config {
        base_path: None,
        encryption: Some(EncryptionConfig { cipher: Cipher::Aes256Cbc, key: vec![1, 2] }),
    });
    assert!(l.encrypted());
    assert_eq!(l.encryption().unwrap().key, vec![1, 2]);
    assert_eq!(l.load_encryption(None).unwrap().key, vec![1, 2]);
    let own = EncryptionConfig { cipher: Cipher::Aes256Cbc, key: vec![9] };
    assert_eq!(l.load_encryption(Some(own)).unwrap().key, vec![9]);
    let plain = Libsql(Config::default());
    assert!(!plain.encrypted());
    assert!(plain.encryption().is_none());
    assert!(plain.load_encryption(None).is_none());
}
