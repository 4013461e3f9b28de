use ipet::error::AppError;
use ipet::secret::MachineKey;

fn key(byte: u8) -> MachineKey {
    MachineKey::from_bytes(vec![byte; 32], "/tmp/ipet-test/secret.key".to_string()).unwrap()
}

#[test]
fn same_key_bytes_open_each_others_envelopes() {
    let k1 = key(7);
    let k2 = key(7);
    let cipher = k1.encrypt("hello").unwrap();
    let plain = k2.decrypt(&cipher).unwrap().unwrap();
    assert_eq!(plain, "hello");
}

#[test]
fn round_trips_unicode_and_long_values() {
    let key = key(11);
    let long = "x".repeat(4096);
    for sample in ["", "sk-1234567890ABCDEF", "包含中文与 emoji 🎉 的密钥", long.as_str()] {
        let env = key.encrypt(sample).unwrap();
        assert!(env.starts_with("enc:v1:"));
        let back = key.decrypt(&env).unwrap().unwrap();
        assert_eq!(back, sample);
    }
}

#[test]
fn encryption_uses_fresh_nonce_each_call() {
    let key = key(3);
    let a = key.encrypt("same input").unwrap();
    let b = key.encrypt("same input").unwrap();
    assert_ne!(a, b, "envelopes must differ for the same plaintext");
}

#[test]
fn decrypt_passthrough_for_legacy_plaintext() {
    let key = key(5);
    assert!(key.decrypt("plain api key").unwrap().is_none());
    assert_eq!(key.decrypt_or_passthrough("plain api key").unwrap(), "plain api key");
}

#[test]
fn malformed_envelope_errors() {
    let key = key(9);
    assert!(key.decrypt("enc:v1:").is_err());
    assert!(key.decrypt("enc:v1:not-base64::also-not").is_err());
}

#[test]
fn malformed_envelope_messages() {
    let key = key(9);
    match key.decrypt("enc:v1:") {
        Err(AppError::Config(m)) => assert_eq!(m, "加密信封格式无效"),
        other => panic!("unexpected {other:?}"),
    }
    match key.decrypt("enc:v1:AAAA:AAAA") {
        Err(AppError::Config(m)) => assert_eq!(m, "nonce 长度异常"),
        other => panic!("unexpected {other:?}"),
    }
}

#[test]
fn wrong_key_cannot_open_envelope() {
    let env = key(1).encrypt("secret").unwrap();
    match key(2).decrypt(&env) {
        Err(AppError::Config(m)) => assert!(m.starts_with("解密失败")),
        other => panic!("unexpected {other:?}"),
    }
}

#[test]
fn same_nonce_gives_same_envelope() {
    let key = key(4);
    let nonce = vec![0u8; 12];
    let a = key.encrypt_with_nonce(&nonce, "abc").unwrap();
    let b = key.encrypt_with_nonce(&nonce, "abc").unwrap();
    assert_eq!(a, b);
    assert!(a.starts_with("enc:v1:AAAAAAAAAAAAAAAA:"));
    assert_eq!(key.decrypt(&a).unwrap().as_deref(), Some("abc"));
}

#[test]
fn key_of_wrong_size_is_refused() {
    match MachineKey::from_bytes(vec![0u8; 31], "/tmp/k".to_string()) {
        Err(AppError::Config(m)) => assert_eq!(m, "secret.key 大小异常：期望 32 字节，得到 31"),
        Err(other) => panic!("unexpected {other:?}"),
        Ok(_) => panic!("31-byte key accepted"),
    }
    let k = key(0);
    assert_eq!(k.path(), "/tmp/ipet-test/secret.key");
}

#[test]
fn encrypted_storage_round_trips_api_key() {
    let key = key(21);
    let stored = key.seal_api_key(Some("sk-roundtrip-encrypted".into())).unwrap().unwrap();
    assert!(!stored.contains("sk-roundtrip-encrypted"), "plaintext leaked: {stored}");
    assert!(stored.contains("enc:v1:"), "envelope marker missing: {stored}");
    let back = key.open_api_key(Some(stored));
    assert_eq!(back.as_deref(), Some("sk-roundtrip-encrypted"));
}

#[test]
fn encrypted_storage_passes_through_legacy_plaintext() {
    let key = key(22);
    let loaded = key.open_api_key(Some("sk-legacy".into()));
    assert_eq!(loaded.as_deref(), Some("sk-legacy"), "legacy plaintext key must still load");
    let stored = key.seal_api_key(loaded).unwrap().unwrap();
    assert!(stored.contains("enc:v1:"), "save did not upgrade to encrypted form");
    assert!(!stored.contains("sk-legacy"));
}

#[test]
fn blank_and_sealed_keys_are_stored_as_they_are() {
    let key = key(23);
    assert_eq!(key.seal_api_key(Some("   ".into())).unwrap().as_deref(), Some("   "));
    assert!(key.seal_api_key(None).unwrap().is_none());
    let env = key.encrypt("x").unwrap();
    assert_eq!(key.seal_api_key(Some(env.clone())).unwrap().as_deref(), Some(env.as_str()));
    assert!(key.open_api_key(Some("enc:v1:broken".into())).is_none());
    assert!(key.open_api_key(None).is_none());
}
