//! Sealing and opening of snapshots.

use infisical::crypto::{
    associated_data, decrypted, derive_key, derived, encrypted, open, open_with, read_parts, seal,
    seal_with, CryptoError, Envelope,
};
use infisical::primitives::{AeadFailure, KdfFailure};

const SECRET: &str = "st.abc123.def456";

#[test]
fn round_trips() {
    let envelope = seal(b"the-plaintext", SECRET).expect("seal");
    let opened = open(&envelope, SECRET).expect("open");
    assert_eq!(opened, b"the-plaintext");
}

#[test]
fn plaintext_does_not_appear_in_the_envelope() {
    // The whole point: nothing readable should survive onto disk.
    let envelope = seal(b"hunter2-super-secret", SECRET).expect("seal");
    let mut fields = serde_json::Map::new();
    fields.insert("version".to_string(), serde_json::Value::from(envelope.version));
    fields.insert("kdf".to_string(), serde_json::Value::from(envelope.kdf));
    fields.insert("cipher".to_string(), serde_json::Value::from(envelope.cipher));
    fields.insert("salt".to_string(), serde_json::Value::from(envelope.salt));
    fields.insert("nonce".to_string(), serde_json::Value::from(envelope.nonce));
    fields.insert("ciphertext".to_string(), serde_json::Value::from(envelope.ciphertext));
    let encoded = serde_json::to_string(&serde_json::Value::Object(fields)).unwrap();
    assert!(!encoded.contains("hunter2"));
    assert!(!encoded.contains(SECRET));
}

#[test]
fn a_different_client_secret_cannot_decrypt() {
    // This is what makes credential rotation safe: the old snapshot simply
    // stops opening, so it is discarded rather than trusted.
    let envelope = seal(b"payload", SECRET).expect("seal");
    assert!(open(&envelope, "st.rotated.newvalue").is_err());
}

#[test]
fn tampering_with_the_ciphertext_is_detected() {
    let mut envelope = seal(b"payload", SECRET).expect("seal");
    let mut raw = data_encoding::BASE64.decode(envelope.ciphertext.as_bytes()).unwrap();
    raw[0] ^= 0xff;
    envelope.ciphertext = data_encoding::BASE64.encode(&raw);
    assert!(open(&envelope, SECRET).is_err());
}

#[test]
fn tampering_with_the_header_is_detected() {
    // The salt is authenticated as associated data, so swapping it must fail
    // rather than silently derive a different key.
    let mut envelope = seal(b"payload", SECRET).expect("seal");
    let mut salt = data_encoding::BASE64.decode(envelope.salt.as_bytes()).unwrap();
    salt[0] ^= 0xff;
    envelope.salt = data_encoding::BASE64.encode(&salt);
    assert!(open(&envelope, SECRET).is_err());
}

#[test]
fn each_write_uses_a_fresh_salt_and_nonce() {
    let a = seal(b"payload", SECRET).expect("seal");
    let b = seal(b"payload", SECRET).expect("seal");
    assert_ne!(a.salt, b.salt);
    assert_ne!(a.nonce, b.nonce);
    assert_ne!(
        a.ciphertext, b.ciphertext,
        "identical ciphertexts would leak equality"
    );
}

fn sealed(plaintext: &[u8]) -> Envelope {
    seal(plaintext, SECRET).expect("seal")
}

#[test]
fn envelope_has_the_expected_form() {
    let envelope = sealed(b"payload");
    assert_eq!(envelope.version, 1);
    assert_eq!(envelope.kdf, "hkdf-sha256");
    assert_eq!(envelope.cipher, "aes-256-gcm");
    assert_eq!(data_encoding::BASE64.decode(envelope.salt.as_bytes()).unwrap().len(), 32);
    assert_eq!(data_encoding::BASE64.decode(envelope.nonce.as_bytes()).unwrap().len(), 12);
    let ciphertext = data_encoding::BASE64.decode(envelope.ciphertext.as_bytes()).unwrap();
    assert_eq!(ciphertext.len(), "payload".len() + 16);
}

#[test]
fn empty_plaintext_round_trips() {
    assert_eq!(open(&sealed(b""), SECRET).expect("open"), b"");
}

#[test]
fn header_is_the_associated_data() {
    let envelope = Envelope {
        version: 1,
        kdf: "k".to_string(),
        cipher: "c".to_string(),
        salt: "s".to_string(),
        nonce: "n".to_string(),
        ciphertext: "x".to_string(),
    };
    assert_eq!(associated_data(&envelope), b"1|k|c|s|n");
}

#[test]
fn headers_that_differ_have_other_associated_data() {
    let a = sealed(b"payload");
    let b = sealed(b"payload");
    assert_ne!(associated_data(&a), associated_data(&b));
    let mut c = sealed(b"payload");
    c.version = 11;
    let before = associated_data(&c);
    c.version = 1;
    assert_ne!(associated_data(&c), before);
}

#[test]
fn other_version_is_refused() {
    let mut envelope = sealed(b"payload");
    envelope.version = 2;
    let error = open(&envelope, SECRET).unwrap_err();
    assert!(matches!(error, CryptoError::Version { version: 2 }));
    assert_eq!(error.message(), "snapshot envelope version 2 is not supported (expected 1)");
}

#[test]
fn other_algorithms_are_refused() {
    let mut envelope = sealed(b"payload");
    envelope.kdf = "scrypt".to_string();
    assert_eq!(
        open(&envelope, SECRET).unwrap_err().message(),
        "snapshot uses unsupported algorithms (scrypt / aes-256-gcm)"
    );
    let mut envelope = sealed(b"payload");
    envelope.cipher = "rot13".to_string();
    assert_eq!(
        open(&envelope, SECRET).unwrap_err().message(),
        "snapshot uses unsupported algorithms (hkdf-sha256 / rot13)"
    );
}

#[test]
fn fields_that_are_not_base64_are_refused() {
    let mut envelope = sealed(b"payload");
    envelope.salt = "!".to_string();
    let error = open(&envelope, SECRET).unwrap_err();
    assert!(matches!(error, CryptoError::SaltEncoding { .. }));
    assert!(error.message().starts_with("snapshot salt is not valid base64: "));

    let mut envelope = sealed(b"payload");
    envelope.nonce = "!".to_string();
    let error = open(&envelope, SECRET).unwrap_err();
    assert!(matches!(error, CryptoError::NonceEncoding { .. }));
    assert!(error.message().starts_with("snapshot nonce is not valid base64: "));

    let mut envelope = sealed(b"payload");
    envelope.ciphertext = "!".to_string();
    let error = open(&envelope, SECRET).unwrap_err();
    assert!(matches!(error, CryptoError::CiphertextEncoding { .. }));
    assert!(error.message().starts_with("snapshot ciphertext is not valid base64: "));
}

#[test]
fn nonce_of_another_length_is_refused() {
    let mut envelope = sealed(b"payload");
    envelope.nonce = data_encoding::BASE64.encode(&[0u8; 11]);
    let error = open(&envelope, SECRET).unwrap_err();
    assert!(matches!(error, CryptoError::NonceLength));
    assert_eq!(error.message(), "snapshot nonce has the wrong length");
}

#[test]
fn tampered_envelope_says_what_may_have_happened() {
    let mut envelope = sealed(b"payload");
    envelope.ciphertext = String::new();
    let error = open(&envelope, SECRET).unwrap_err();
    assert!(matches!(error, CryptoError::Decrypt));
    assert_eq!(
        error.message(),
        "could not decrypt the snapshot -- it was written under a different Infisical client \
         secret, or the file has been tampered with"
    );
}

#[test]
fn key_depends_on_secret_and_salt() {
    let salt = vec![7u8; 32];
    let key = derive_key(SECRET, &salt).expect("derive");
    assert_eq!(key.len(), 32);
    assert_ne!(key, vec![0u8; 32]);
    assert_eq!(key, derive_key(SECRET, &salt).expect("derive"));
    assert_ne!(key, derive_key("other", &salt).expect("derive"));
    assert_ne!(key, derive_key(SECRET, &vec![8u8; 32]).expect("derive"));
}

#[test]
fn sealing_is_determined_by_key_salt_and_nonce() {
    let key = vec![1u8; 32];
    let salt = vec![2u8; 32];
    let nonce = vec![3u8; 12];
    let one = seal_with(b"payload", &key, &salt, &nonce).expect("seal");
    let two = seal_with(b"payload", &key, &salt, &nonce).expect("seal");
    assert_eq!(one.ciphertext, two.ciphertext);
    let parts = read_parts(&one).expect("parts");
    assert_eq!(parts.salt, salt);
    assert_eq!(parts.nonce, [3u8; 12]);
    assert_eq!(open_with(&one, parts, &key).expect("open"), b"payload");
}

#[test]
fn key_of_another_length_is_refused() {
    let salt = vec![2u8; 32];
    let nonce = vec![3u8; 12];
    let short = vec![1u8; 31];
    assert!(matches!(
        seal_with(b"payload", &short, &salt, &nonce),
        Err(CryptoError::EncryptionKey)
    ));
    let envelope = sealed(b"payload");
    let parts = read_parts(&envelope).expect("parts");
    assert!(matches!(open_with(&envelope, parts, &short), Err(CryptoError::DecryptionKey)));
}

#[test]
fn outcomes_are_told_apart() {
    assert_eq!(derived(Ok(()), vec![1, 2]).expect("key"), vec![1, 2]);
    assert!(matches!(derived(Err(KdfFailure::Expand), vec![]), Err(CryptoError::ExpandKey)));
    assert!(matches!(derived(Err(KdfFailure::Fill), vec![]), Err(CryptoError::DeriveKey)));
    assert_eq!(decrypted(Ok(vec![5])).expect("plaintext"), vec![5]);
    assert!(matches!(decrypted(Err(AeadFailure::Key)), Err(CryptoError::DecryptionKey)));
    assert!(matches!(decrypted(Err(AeadFailure::Operation)), Err(CryptoError::Decrypt)));
    let done = encrypted(Ok(()), sealed(b"x"), vec![0, 1, 2]).expect("envelope");
    assert_eq!(done.ciphertext, "AAEC");
    assert!(matches!(
        encrypted(Err(AeadFailure::Key), sealed(b"x"), vec![]),
        Err(CryptoError::EncryptionKey)
    ));
    assert!(matches!(
        encrypted(Err(AeadFailure::Operation), sealed(b"x"), vec![]),
        Err(CryptoError::Encrypt)
    ));
}

#[test]
fn every_error_has_its_words() {
    let words = |error: CryptoError| error.message();
    assert_eq!(words(CryptoError::GenerateSalt), "failed to generate a snapshot salt");
    assert_eq!(words(CryptoError::GenerateNonce), "failed to generate a snapshot nonce");
    assert_eq!(words(CryptoError::ExpandKey), "failed to expand the snapshot encryption key");
    assert_eq!(words(CryptoError::DeriveKey), "failed to derive the snapshot encryption key");
    assert_eq!(words(CryptoError::EncryptionKey), "failed to build the snapshot encryption key");
    assert_eq!(words(CryptoError::DecryptionKey), "failed to build the snapshot decryption key");
    assert_eq!(words(CryptoError::Encrypt), "failed to encrypt the snapshot");
}
