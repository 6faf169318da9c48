use horizon_atlas::compression::{CompressionError, Compressor, DeltaCompressor};
use horizon_atlas::config::{CipherSuite, CryptoConfig, KeyDerivationConfig};
use horizon_atlas::crypto::{
    cleanup_expired_keys, CryptoManager, EncryptedData, EncryptedDataFields, EncryptionKey, FieldEntry, FieldValue,
    KeyRotation, RecordError, RecordField, SessionCrypto,
};
use horizon_atlas::encryption::{EncryptionError, EncryptionManager};
use horizon_atlas::errors::AtlasError;
use horizon_atlas::scalar::Scalar;
use std::collections::HashMap;

#[test]
fn compression_is_undone() {
    let compressor = Compressor::new(true, 16);
    let data = vec![7u8; 1000];
    let packed = compressor.compress(&data).unwrap();
    assert!(packed.len() < data.len());
    assert_eq!(&packed[..4], &1000u32.to_le_bytes());
    assert_eq!(compressor.decompress(&packed).unwrap(), data);
}

#[test]
fn short_and_disabled_data_is_left_alone() {
    let compressor = Compressor::new(true, 16);
    let short = vec![1u8, 2, 3, 0, 5];
    assert_eq!(compressor.compress(&short).unwrap(), short);
    let disabled = Compressor::new(false, 0);
    let data = vec![9u8; 100];
    assert_eq!(disabled.compress(&data).unwrap(), data);
    assert_eq!(disabled.decompress(&data).unwrap(), data);
    assert_eq!(compressor.decompress(&[1, 2]).unwrap(), vec![1, 2]);
    assert_eq!(compressor.decompress(&[1, 0, 0, 0, 9]).unwrap(), vec![1, 0, 0, 0, 9]);
}

#[test]
fn short_data_that_looks_like_a_block_is_not_given_back() {
    let compressor = Compressor::new(true, 16);
    let data = vec![200u8, 0, 0, 0, 1];
    assert_eq!(compressor.compress(&data).unwrap(), data);
    assert_ne!(compressor.decompress(&data).ok(), Some(data));
}

#[test]
fn damaged_blocks_are_refused() {
    let compressor = Compressor::new(true, 16);
    let mut packed = compressor.compress(&vec![7u8; 1000]).unwrap();
    packed.truncate(5);
    let error = compressor.decompress(&packed).unwrap_err();
    assert!(matches!(error, CompressionError::Decompression(_)));
    assert!(error.message().starts_with("Decompression failed: "));
}

#[test]
fn long_lengths_are_read_back() {
    let compressor = Compressor::new(true, 16);
    let mut seed = 1u32;
    let mut mixed: Vec<u8> = Vec::new();
    for _ in 0..300_000 {
        seed = seed.wrapping_mul(1_664_525).wrapping_add(1_013_904_223);
        mixed.push((seed >> 24) as u8);
    }
    for data in [mixed, vec![255u8; 2_000_000], vec![0u8; 16]] {
        let packed = compressor.compress(&data).unwrap();
        assert_eq!(&packed[..4], &(data.len() as u32).to_le_bytes());
        assert_eq!(compressor.decompress(&packed).unwrap(), data);
    }
    let empty = Compressor::new(true, 0);
    let packed = empty.compress(&[]).unwrap();
    assert_eq!(empty.decompress(&packed).unwrap(), Vec::<u8>::new());
}

#[test]
fn lengths_out_of_range_are_refused() {
    let compressor = Compressor::new(true, 16);
    let refused = CompressionError::Decompression("length out of range".to_string());
    let mut literals = vec![100u8, 0, 0, 0, 0xf0];
    literals.resize(5 + 16_843_009, 255);
    literals.push(1);
    assert_eq!(compressor.decompress(&literals).unwrap_err(), refused);
    let mut matched = vec![100u8, 0, 0, 0, 0x1f, 7, 1, 0];
    matched.resize(8 + 16_843_009, 255);
    matched.push(1);
    assert_eq!(compressor.decompress(&matched).unwrap_err(), refused);
    let delta = DeltaCompressor::new(true, 16);
    let mut state = vec![1u8, 2];
    assert_eq!(delta.apply_delta(&mut state, &literals).unwrap_err(), refused);
    assert_eq!(state, vec![1, 2]);
}

#[test]
fn ratios_tell_how_well_data_compresses() {
    let key = |value: f32| Scalar::from_bits(f64::from(value).to_bits());
    let ratio = |compressed: usize, original: usize| key(compressed as f32 / original as f32);
    let compressor = Compressor::new(true, 16);
    let data = vec![7u8; 1000];
    let packed = compressor.compress(&data).unwrap();
    assert_eq!(compressor.estimate_compression_ratio(&data, ratio), key(packed.len() as f32 / 1000.0));
    assert_eq!(compressor.estimate_compression_ratio(&[1, 2, 3], ratio), key(1.0));
    assert_eq!(Compressor::new(false, 0).estimate_compression_ratio(&data, ratio), key(1.0));
}

#[test]
fn deltas_reproduce_states_that_do_not_shrink() {
    for enabled in [false, true] {
        let deltas = DeltaCompressor::new(enabled, 32);
        let old = vec![1u8, 2, 3, 4, 5];
        for new in [vec![1u8, 9, 3, 4, 5], vec![1, 2, 3, 4, 5, 6, 7], vec![0; 200], vec![1, 2, 3, 4, 5]] {
            let delta = deltas.create_delta(&old, &new).unwrap();
            let mut state = old.clone();
            assert_eq!(deltas.apply_delta(&mut state, &delta), Ok(()));
            assert_eq!(state, new);
        }
    }
}

#[test]
fn deltas_to_shorter_states_keep_the_rest() {
    let deltas = DeltaCompressor::new(true, 32);
    let delta = deltas.create_delta(&[1, 2, 3, 4, 5], &[9, 8]).unwrap();
    let mut state = vec![1u8, 2, 3, 4, 5];
    deltas.apply_delta(&mut state, &delta).unwrap();
    assert_eq!(state, vec![9, 8, 3, 4, 5]);
}

#[test]
fn deltas_are_encoded_number_by_number() {
    let deltas = DeltaCompressor::new(false, 0);
    let delta = deltas.create_delta(&[1, 2], &[1, 7]).unwrap();
    let mut expected = 1u64.to_le_bytes().to_vec();
    expected.extend_from_slice(&1u64.to_le_bytes());
    expected.push(7);
    assert_eq!(delta, expected);
    assert_eq!(deltas.create_delta(&[1], &[1]).unwrap(), vec![0u8; 8]);
}

#[test]
fn unreadable_deltas_leave_the_state_alone() {
    let deltas = DeltaCompressor::new(false, 0);
    let mut state = vec![1u8, 2, 3];
    let error = deltas.apply_delta(&mut state, &[1, 2]).unwrap_err();
    assert!(matches!(error, CompressionError::Deserialization(_)));
    assert!(error.message().starts_with("Delta deserialization failed: "));
    let mut far = 1u64.to_le_bytes().to_vec();
    far.extend_from_slice(&u64::MAX.to_le_bytes());
    far.push(7);
    let error = deltas.apply_delta(&mut state, &far).unwrap_err();
    assert_eq!(error, CompressionError::PositionOutOfRange(usize::MAX));
    assert_eq!(error.message(), format!("Delta position out of range: {}", usize::MAX));
    assert_eq!(state, vec![1, 2, 3]);
    assert_eq!(CompressionError::Serialization("x".to_string()).message(), "Delta serialization failed: x");
    let mut trailing = vec![0u8; 8];
    trailing.push(5);
    assert_eq!(deltas.apply_delta(&mut state, &trailing), Ok(()));
    assert_eq!(state, vec![1, 2, 3]);
}

#[test]
fn changes_extend_a_state_with_zeros() {
    let deltas = DeltaCompressor::new(false, 0);
    let mut state = vec![1u8];
    deltas.apply_changes(&mut state, &vec![(3, 9), (0, 4)]);
    assert_eq!(state, vec![4, 0, 0, 9]);
}

#[test]
fn encryption_is_undone() {
    let manager = EncryptionManager::new(true, "correct horse").unwrap();
    for data in [&b""[..], &b"hello"[..], &[0u8; 300][..]] {
        let secret = manager.encrypt(data).unwrap();
        assert_eq!(secret.len(), data.len() + 28);
        assert_ne!(&secret[12..12 + data.len()], if data.is_empty() { &b"x"[..] } else { data });
        assert_eq!(manager.decrypt(&secret).unwrap(), data);
    }
    let again = EncryptionManager::new(true, "correct horse").unwrap();
    let secret = manager.encrypt(b"hello").unwrap();
    assert_eq!(again.decrypt(&secret).unwrap(), b"hello");
}

#[test]
fn keys_come_from_the_password() {
    let manager = EncryptionManager::new(true, "password").unwrap();
    assert_eq!(manager.key.len(), 32);
    assert_ne!(manager.key, vec![0u8; 32]);
    let other = EncryptionManager::new(true, "passwore").unwrap();
    assert_ne!(manager.key, other.key);
    let secret = manager.encrypt(b"data").unwrap();
    assert_eq!(other.decrypt(&secret).unwrap_err(), EncryptionError::Decryption);
    assert_eq!(EncryptionManager::new(false, "password").unwrap().key, vec![0u8; 32]);
}

#[test]
fn encryption_with_a_given_nonce_is_reproducible() {
    let manager = EncryptionManager::new(true, "password").unwrap();
    let nonce = [3u8; 12];
    let a = manager.encrypt_with_nonce(b"data", &nonce).unwrap();
    let b = manager.encrypt_with_nonce(b"data", &nonce).unwrap();
    assert_eq!(a, b);
    assert_eq!(&a[..12], &nonce);
    assert_eq!(manager.decrypt(&a).unwrap(), b"data");
}

#[test]
fn disabled_encryption_leaves_data_alone() {
    let manager = EncryptionManager::new(false, "password").unwrap();
    assert_eq!(manager.encrypt(b"data").unwrap(), b"data");
    assert_eq!(manager.decrypt(b"data").unwrap(), b"data");
}

#[test]
fn damaged_data_is_refused() {
    let manager = EncryptionManager::new(true, "password").unwrap();
    assert_eq!(manager.decrypt(&[0u8; 27]).unwrap_err(), EncryptionError::TooShort);
    let mut secret = manager.encrypt(b"data").unwrap();
    secret[13] ^= 1;
    let error = manager.decrypt(&secret).unwrap_err();
    assert_eq!(error, EncryptionError::Decryption);
    assert_eq!(error.message(), "Decryption failed: Unspecified");
    assert_eq!(EncryptionError::TooShort.message(), "Encrypted data too short");
    assert_eq!(EncryptionError::NonceGeneration.message(), "Failed to generate nonce: Unspecified");
    assert_eq!(EncryptionError::Encryption.message(), "Encryption failed: Unspecified");
}

#[test]
fn text_encryption_is_undone() {
    for enabled in [true, false] {
        let manager = EncryptionManager::new(enabled, "password").unwrap();
        for text in ["", "hello", "añb→c"] {
            let secret = manager.encrypt_string(text).unwrap();
            assert!(secret.chars().all(|c| c.is_ascii_alphanumeric() || c == '+' || c == '/' || c == '='));
            assert_eq!(manager.decrypt_string(&secret).unwrap(), text);
        }
    }
    let plain = EncryptionManager::new(false, "").unwrap();
    assert_eq!(plain.encrypt_string("hello").unwrap(), "aGVsbG8=");
}

#[test]
fn damaged_text_is_refused() {
    let plain = EncryptionManager::new(false, "").unwrap();
    let error = plain.decrypt_string("***").unwrap_err();
    assert!(matches!(error, EncryptionError::Base64(_)));
    assert!(error.message().starts_with("Base64 decode error: "));
    let error = plain.decrypt_string("/w==").unwrap_err();
    assert!(matches!(error, EncryptionError::Utf8(_)));
    assert!(error.message().starts_with("UTF-8 decode error: "));
    let enabled = EncryptionManager::new(true, "p").unwrap();
    assert_eq!(enabled.decrypt_string("aGVsbG8=").unwrap_err(), EncryptionError::TooShort);
}

fn config(enabled: bool, suite: CipherSuite) -> CryptoConfig {
    CryptoConfig {
        enabled,
        cipher_suite: suite,
        key_rotation_interval: 4000,
        key_derivation: KeyDerivationConfig { iterations: 10 },
    }
}

const SECOND: i64 = 1_000_000_000;

fn crypto_text(error: AtlasError) -> String {
    match error {
        AtlasError::Crypto(text) => text,
        _ => panic!("not a cryptographic error"),
    }
}

fn parse_record(bytes: &[u8]) -> EncryptedData {
    let key_id = u32::from_le_bytes(bytes[0..4].try_into().unwrap());
    let nonce_len = u64::from_le_bytes(bytes[4..12].try_into().unwrap()) as usize;
    let nonce = bytes[12..12 + nonce_len].to_vec();
    let rest = &bytes[12 + nonce_len..];
    let len = u64::from_le_bytes(rest[0..8].try_into().unwrap()) as usize;
    assert_eq!(rest.len(), 8 + len);
    EncryptedData { key_id, nonce, ciphertext: rest[8..].to_vec() }
}

#[test]
fn records_are_decrypted_with_the_key_they_name() {
    for suite in [CipherSuite::Aes256Gcm, CipherSuite::ChaCha20Poly1305] {
        let manager = CryptoManager::new(config(true, suite), 0).unwrap();
        assert!(manager.is_encryption_enabled());
        assert_eq!(manager.get_current_key_id(), 1);
        let bytes = manager.encrypt(b"plain text").unwrap();
        let record = parse_record(&bytes);
        assert_eq!(record.key_id, 1);
        assert_eq!(record.nonce.len(), 12);
        assert_eq!(record.ciphertext.len(), 26);
        assert_eq!(manager.decrypt(&bytes, Ok(record), SECOND).unwrap(), b"plain text");
    }
}

#[test]
fn records_of_known_keys_and_nonces() {
    let manager = CryptoManager::with_key(config(true, CipherSuite::Aes256Gcm), vec![5u8; 32], 0);
    let a = manager.encrypt_with_nonce(b"data", vec![1u8; 12]).unwrap();
    let b = manager.encrypt_with_nonce(b"data", vec![1u8; 12]).unwrap();
    assert_eq!(a, b);
    let record = manager.seal_record(b"data", vec![1u8; 12]).unwrap();
    assert_eq!(parse_record(&a).ciphertext, record.ciphertext);
    assert_eq!(manager.open_record(&record, 0).unwrap(), b"data");
    let other = CryptoManager::with_key(config(true, CipherSuite::ChaCha20Poly1305), vec![5u8; 32], 0);
    assert_ne!(other.seal_record(b"data", vec![1u8; 12]).unwrap().ciphertext, record.ciphertext);
}

#[test]
fn records_that_cannot_be_decrypted() {
    let manager = CryptoManager::with_key(config(true, CipherSuite::Aes256Gcm), vec![5u8; 32], 0);
    let record = || manager.seal_record(b"data", vec![1u8; 12]).unwrap();
    let mut unknown = record();
    unknown.key_id = 77;
    assert_eq!(crypto_text(manager.open_record(&unknown, 0).unwrap_err()), "Unknown key ID: 77");
    assert_eq!(crypto_text(manager.open_record(&record(), 4 * SECOND + 1).unwrap_err()), "Key has expired");
    assert!(manager.open_record(&record(), 4 * SECOND).is_ok());
    let mut short = record();
    short.nonce.pop();
    assert_eq!(crypto_text(manager.open_record(&short, 0).unwrap_err()), "Invalid nonce length");
    let mut damaged = record();
    damaged.ciphertext[0] ^= 1;
    assert_eq!(crypto_text(manager.open_record(&damaged, 0).unwrap_err()), "Decryption failed");
    let unread = manager.decrypt(b"x", Err("no record".to_string()), 0).unwrap_err();
    assert_eq!(crypto_text(unread), "Failed to deserialize encrypted data: no record");
}

#[test]
fn disabled_managers_leave_data_alone() {
    let manager = CryptoManager::new(config(false, CipherSuite::Aes256Gcm), 0).unwrap();
    assert_eq!(manager.current_key.suite, CipherSuite::ChaCha20Poly1305);
    assert_eq!((manager.current_key.created_at, manager.current_key.expires_at), (0, 86_400 * SECOND));
    assert!(!manager.is_encryption_enabled());
    assert_eq!(manager.get_current_key_id(), 0);
    assert!(manager.get_key_info(0).is_empty());
    assert_eq!(manager.encrypt(b"data").unwrap(), b"data");
    assert_eq!(manager.decrypt(b"data", Err("unread".to_string()), 0).unwrap(), b"data");
}

#[test]
fn keys_rotate_in_the_last_quarter_of_their_time() {
    let mut manager = CryptoManager::new(config(true, CipherSuite::Aes256Gcm), 0).unwrap();
    let mut rotation = KeyRotation::new();
    assert!(!manager.should_rotate(3 * SECOND));
    assert!(manager.should_rotate(3 * SECOND + 1));
    assert!(matches!(rotation.tick(&mut manager, 3 * SECOND), Ok(false)));
    let old = manager.encrypt(b"old").unwrap();
    assert!(matches!(rotation.tick(&mut manager, 3 * SECOND + 1), Ok(true)));
    assert_eq!(manager.get_current_key_id(), 2);
    assert_eq!(rotation.next_key_id, 3);
    assert!(manager.config.enabled);
    assert_eq!(manager.current_key.suite, CipherSuite::Aes256Gcm);
    assert_eq!(manager.current_key.created_at, 3 * SECOND + 1);
    assert_eq!(manager.current_key.expires_at, 7 * SECOND + 1);
    assert!(manager.key_history.contains_key(&1) && manager.key_history.contains_key(&2));
    assert_eq!(manager.decrypt(&old, Ok(parse_record(&old)), 4 * SECOND).unwrap(), b"old");
    let mut info = manager.get_key_info(5 * SECOND);
    info.sort_by_key(|key| key.id);
    assert_eq!(info.len(), 2);
    assert!(!info[0].is_current && info[0].is_expired && info[0].expires_at == 4 * SECOND);
    assert!(info[1].is_current && !info[1].is_expired && info[1].created_at == 3 * SECOND + 1);
}

#[test]
fn keys_are_forgotten_after_their_grace() {
    let mut manager = CryptoManager::new(config(true, CipherSuite::Aes256Gcm), 0).unwrap();
    manager.install_key(2, vec![2u8; 32], 304 * SECOND);
    assert_eq!(manager.get_key_info(304 * SECOND).len(), 2);
    manager.install_key(3, vec![3u8; 32], 304 * SECOND + 1);
    let mut ids: Vec<u32> = manager.get_key_info(304 * SECOND + 1).iter().map(|key| key.id).collect();
    ids.sort();
    assert_eq!(ids, vec![2, 3]);
    let mut history = HashMap::new();
    history.insert(9, EncryptionKey::new(9, vec![0u8; 32], CipherSuite::Aes256Gcm, 1000, 0));
    cleanup_expired_keys(&mut history, 301 * SECOND);
    assert_eq!(history.len(), 1);
    cleanup_expired_keys(&mut history, 301 * SECOND + 1);
    assert!(history.is_empty());
}

#[test]
fn keys_derived_from_passwords() {
    let manager = CryptoManager::new(config(true, CipherSuite::Aes256Gcm), 0).unwrap();
    let a = manager.derive_key_from_password("password", b"salt").unwrap();
    let b = manager.derive_key_from_password("password", b"salt").unwrap();
    assert_eq!(a, b);
    assert_eq!(a.len(), 32);
    assert_ne!(a, manager.derive_key_from_password("password", b"pepper").unwrap());
    assert_ne!(a, manager.derive_key_from_password("other", b"salt").unwrap());
    let mut none = config(true, CipherSuite::Aes256Gcm);
    none.key_derivation.iterations = 0;
    let manager = CryptoManager::new(none, 0).unwrap();
    let error = manager.derive_key_from_password("password", b"salt").unwrap_err();
    assert_eq!(crypto_text(error), "Invalid iteration count");
    let mut single = config(true, CipherSuite::Aes256Gcm);
    single.key_derivation.iterations = 1;
    let manager = CryptoManager::new(single, 0).unwrap();
    let key = manager.derive_key_from_password("password", b"salt").unwrap();
    assert_eq!(&key[..4], &[0x12, 0x0f, 0xb6, 0xcf]);
}

#[test]
fn salts_are_random() {
    let manager = CryptoManager::new(config(true, CipherSuite::Aes256Gcm), 0).unwrap();
    let a = manager.generate_salt().unwrap();
    let b = manager.generate_salt().unwrap();
    assert_eq!(a.len(), 32);
    assert_ne!(a, b);
}

#[test]
fn record_fields_come_once_each() {
    assert_eq!(RecordField::from_name("key_id"), Some(RecordField::KeyId));
    assert_eq!(RecordField::from_name("nonce"), Some(RecordField::Nonce));
    assert_eq!(RecordField::from_name("ciphertext"), Some(RecordField::Ciphertext));
    assert_eq!(RecordField::from_name("other"), None);
    let mut fields = EncryptedDataFields::new();
    assert_eq!(fields.check(RecordField::Nonce), Ok(()));
    fields.nonce = Some(vec![1]);
    assert_eq!(fields.check(RecordField::Nonce), Err("nonce"));
    assert_eq!(fields.check(RecordField::KeyId), Ok(()));
    fields.key_id = Some(4);
    assert_eq!(fields.check(RecordField::KeyId), Err("key_id"));
    fields.ciphertext = Some(vec![2]);
    assert_eq!(fields.check(RecordField::Ciphertext), Err("ciphertext"));
    let record = fields.finish().unwrap();
    assert_eq!((record.key_id, record.nonce, record.ciphertext), (4, vec![1], vec![2]));
}

#[test]
fn missing_record_fields_are_named_in_order() {
    let mut fields = EncryptedDataFields::new();
    assert_eq!(EncryptedDataFields::new().finish().unwrap_err(), "key_id");
    fields.key_id = Some(1);
    let with_nonce = EncryptedDataFields { key_id: Some(1), nonce: Some(vec![]), ciphertext: None };
    assert_eq!(fields.finish().unwrap_err(), "nonce");
    assert_eq!(with_nonce.finish().unwrap_err(), "ciphertext");
}

#[test]
fn records_are_read_from_their_fields() {
    let record = EncryptedData { key_id: 7, nonce: vec![1, 2], ciphertext: vec![3] };
    let written = record.serialize();
    let names: Vec<&str> = written.iter().map(|entry| entry.name.as_str()).collect();
    assert_eq!(names, vec!["key_id", "nonce", "ciphertext"]);
    let read = EncryptedData::deserialize(record.serialize()).unwrap();
    assert_eq!((read.key_id, read.nonce, read.ciphertext), (7, vec![1, 2], vec![3]));
    let mut turned = record.serialize();
    turned.reverse();
    assert_eq!(EncryptedData::deserialize(turned).unwrap().ciphertext, vec![3]);
    let entry = |name: &str, value: FieldValue| FieldEntry { name: name.to_string(), value };
    let refused = |entries: Vec<FieldEntry>| EncryptedData::deserialize(entries).unwrap_err();
    let mut twice = record.serialize();
    twice.push(entry("nonce", FieldValue::Bytes(vec![])));
    assert_eq!(refused(twice), RecordError::DuplicateField(RecordField::Nonce));
    let mut more = record.serialize();
    more.push(entry("tag", FieldValue::Other));
    assert_eq!(refused(more), RecordError::UnknownField("tag".to_string()));
    let mut fewer = record.serialize();
    fewer.remove(1);
    assert_eq!(refused(fewer), RecordError::MissingField(RecordField::Nonce));
    assert_eq!(refused(vec![]), RecordError::MissingField(RecordField::KeyId));
    let wrong = vec![entry("key_id", FieldValue::Bytes(vec![]))];
    assert_eq!(refused(wrong), RecordError::InvalidType(RecordField::KeyId));
}

#[test]
fn sessions_encrypt_with_their_own_keys() {
    let mut sessions = SessionCrypto::new();
    sessions.create_session("a".to_string(), CipherSuite::Aes256Gcm, 0).unwrap();
    sessions.create_session("b".to_string(), CipherSuite::ChaCha20Poly1305, 0).unwrap();
    for id in ["a", "b"] {
        let secret = sessions.encrypt_for_session(id, b"hello", 1).unwrap();
        assert_eq!(secret.len(), 5 + 28);
        assert_eq!(sessions.decrypt_for_session(id, &secret, 2).unwrap(), b"hello");
    }
    let secret = sessions.encrypt_for_session("a", b"hello", 1).unwrap();
    let error = sessions.decrypt_for_session("b", &secret, 2).unwrap_err();
    assert_eq!(crypto_text(error), "Session decryption failed");
}

#[test]
fn sessions_that_do_not_exist() {
    let mut sessions = SessionCrypto::new();
    let error = sessions.encrypt_for_session("a", b"x", 0).unwrap_err();
    assert_eq!(crypto_text(error), "Session not found");
    let error = sessions.decrypt_for_session("a", &[0u8; 11], 0).unwrap_err();
    assert_eq!(crypto_text(error), "Invalid encrypted data length");
    let error = sessions.decrypt_for_session("a", &[0u8; 12], 0).unwrap_err();
    assert_eq!(crypto_text(error), "Session not found");
    sessions.insert_session("a".to_string(), vec![1u8; 32], CipherSuite::Aes256Gcm, 0);
    let known = sessions.encrypt_with_nonce("a", b"x", vec![2u8; 12], 5).unwrap();
    assert_eq!(&known[..12], &[2u8; 12]);
    assert_eq!(sessions.session_keys.get("a").unwrap().last_used, 5);
    sessions.remove_session("a");
    assert!(sessions.encrypt_for_session("a", b"x", 0).is_err());
}

#[test]
fn sessions_that_are_not_used_are_closed() {
    let mut sessions = SessionCrypto::new();
    sessions.insert_session("old".to_string(), vec![1u8; 32], CipherSuite::Aes256Gcm, 0);
    sessions.insert_session("new".to_string(), vec![1u8; 32], CipherSuite::Aes256Gcm, 50);
    sessions.cleanup_expired_sessions(100, 99);
    assert_eq!(sessions.session_keys.len(), 2);
    sessions.cleanup_expired_sessions(100, 100);
    assert_eq!(sessions.session_keys.len(), 1);
    assert!(sessions.session_keys.contains_key("new"));
}
