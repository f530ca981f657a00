use base64::Engine;
use parser_api::crypto::{
    decrypt, encrypt, encrypt_under, encrypt_with_nonce, encryption_key, log_empty_secret_once,
};

const SECRET: &str = "";

#[test]
fn round_trip() {
    let plain = b"abc123-private-key";
    let enc = encrypt(plain, SECRET, true).expect("encrypt");
    assert_ne!(enc, String::from_utf8_lossy(plain));
    assert!(
        !enc.contains("private-key"),
        "ciphertext must not contain plaintext"
    );
    assert_eq!(decrypt(&enc, SECRET, true).expect("decrypt"), plain);
}

#[test]
fn random_nonce_produces_distinct_blobs() {
    let a = encrypt(b"same", SECRET, true).unwrap();
    let b = encrypt(b"same", SECRET, true).unwrap();
    assert_ne!(a, b, "fresh nonce must yield distinct ciphertexts");
    assert_eq!(
        decrypt(&a, SECRET, true).unwrap(),
        decrypt(&b, SECRET, true).unwrap()
    );
}

#[test]
fn tamper_detected() {
    let b64 = base64::engine::general_purpose::STANDARD;
    let enc = encrypt(b"value", SECRET, true).unwrap();
    let mut bytes = b64.decode(&enc).unwrap();
    let idx = bytes.len() / 2;
    bytes[idx] ^= 0x01;
    let corrupted = b64.encode(&bytes);
    let err = decrypt(&corrupted, SECRET, true);
    assert!(err.is_err(), "tampered blob must fail auth");
    assert!(err
        .unwrap_err()
        .starts_with("AES-GCM decrypt failed (secret mismatch or corrupt blob): "));
}

#[test]
fn key_is_the_digest_of_the_secret() {
    let key = encryption_key("abc", false).unwrap();
    assert_eq!(key.len(), 32);
    assert_eq!(&key[..4], &[0xba, 0x78, 0x16, 0xbf]);
    assert!(encryption_key("", true).is_ok());
}

#[test]
fn release_builds_need_a_secret() {
    let err = encryption_key("", false).unwrap_err();
    assert!(err.starts_with("e621_key_encryption_secret is empty; "));
    assert!(err.ends_with("set a strong secret in config.toml"));
    assert_eq!(encrypt(b"x", "", false).unwrap_err(), err);
}

#[test]
fn another_secret_does_not_decrypt() {
    let enc = encrypt(b"x", "one", false).unwrap();
    assert!(decrypt(&enc, "two", false).is_err());
    assert_eq!(decrypt(&enc, "one", false).unwrap(), b"x");
}

#[test]
fn broken_texts_are_refused() {
    assert!(decrypt("***", "s", false)
        .unwrap_err()
        .starts_with("invalid base64 ciphertext: "));
    assert_eq!(decrypt("AAAA", "s", false).unwrap_err(), "ciphertext blob too short");
}

#[test]
fn empty_secret_is_warned_about_once() {
    let mut warned = false;
    assert!(log_empty_secret_once(&mut warned));
    assert!(!log_empty_secret_once(&mut warned));
}

#[test]
fn a_nonce_is_needed_and_stands_in_front() {
    let nonce = vec![7u8; 12];
    let text = encrypt_under(b"x", Some(nonce.clone()), "s", false).unwrap();
    assert_eq!(encrypt_with_nonce(b"x", &nonce, "s", false).unwrap(), text);
    let blob = base64::engine::general_purpose::STANDARD.decode(&text).unwrap();
    assert_eq!(&blob[..12], nonce.as_slice());
    assert_eq!(blob.len(), 12 + 1 + 16);
    assert_eq!(encrypt_under(b"x", None, "s", false).unwrap_err(), "no random nonce available");
    assert_eq!(
        encrypt_under(b"x", None, "", false).unwrap_err(),
        encryption_key("", false).unwrap_err()
    );
    let other = encrypt_with_nonce(b"x", &vec![8u8; 12], "s", false).unwrap();
    assert_ne!(other, text);
}

#[test]
fn every_changed_byte_is_refused() {
    let b64 = base64::engine::general_purpose::STANDARD;
    let text = encrypt(b"value", "s", false).unwrap();
    let blob = b64.decode(&text).unwrap();
    for i in 0..blob.len() {
        let mut changed = blob.clone();
        changed[i] ^= 0x80;
        assert!(decrypt(&b64.encode(&changed), "s", false).is_err());
    }
    let mut other_nonce = blob.clone();
    other_nonce[..12].fill(9);
    assert!(decrypt(&b64.encode(&other_nonce), "s", false).is_err());
    assert_eq!(decrypt(&b64.encode(&blob), "s", false).unwrap(), b"value");
}
