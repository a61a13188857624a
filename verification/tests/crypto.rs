use hips::encrypters::Ring;
use hips::{Encrypted, Encrypter, Error, Secret};

fn secret(name: &str, value: &str) -> Secret {
    Secret { name: name.to_string(), secret: value.to_string() }
}

#[test]
fn round_trip_ascii() {
    let ring = Ring::new("hunter2".to_string());
    let enc = ring.encrypt(secret("db", "p4ssw0rd")).unwrap();
    let dec = ring.decrypt(enc).unwrap();
    assert_eq!(dec.name, "db");
    assert_eq!(dec.secret, "p4ssw0rd");
}

#[test]
fn round_trip_unicode() {
    let ring = Ring::new("pass\u{30c9}word".to_string());
    let enc = ring.encrypt(secret("gr\u{fc}n", "\u{1f511} cl\u{e9}")).unwrap();
    let dec = ring.decrypt(enc).unwrap();
    assert_eq!(dec.name, "gr\u{fc}n");
    assert_eq!(dec.secret, "\u{1f511} cl\u{e9}");
}

#[test]
fn round_trip_empty_plaintext() {
    let ring = Ring::new("pw".to_string());
    let enc = ring.encrypt(secret("empty", "")).unwrap();
    let dec = ring.decrypt(enc).unwrap();
    assert_eq!(dec.secret, "");
}

#[test]
fn wrong_password_fails_closed() {
    let ring1 = Ring::new("password-one".to_string());
    let ring2 = Ring::new("password-two".to_string());
    let enc = ring1.encrypt(secret("n", "s")).unwrap();
    match ring2.decrypt(enc) {
        Err(Error::AuthenticationFailure) => {},
        other => panic!("expected AuthenticationFailure, got {:?}", other),
    }
}

#[test]
fn tampered_secret_field_fails() {
    let ring = Ring::new("pw".to_string());
    let enc = ring.encrypt(secret("n", "payload")).unwrap();
    let stored = enc.secret().clone();
    // Replace the first character by another base64 character: one of the
    // nonce's bits changes, so the tag must no longer verify.
    let mut chars: Vec<char> = stored.chars().collect();
    chars[0] = if chars[0] == 'A' { 'B' } else { 'A' };
    let tampered: String = chars.into_iter().collect();
    assert_ne!(tampered, stored);
    let rebuilt = Encrypted::new("n".to_string(), tampered, enc.salt().clone());
    assert!(ring.decrypt(rebuilt).is_err());
}

#[test]
fn tampered_salt_field_fails() {
    let ring = Ring::new("pw".to_string());
    let enc = ring.encrypt(secret("n", "payload")).unwrap();
    let stored = enc.salt().clone();
    let mut chars: Vec<char> = stored.chars().collect();
    chars[0] = if chars[0] == 'A' { 'B' } else { 'A' };
    let tampered: String = chars.into_iter().collect();
    let rebuilt = Encrypted::new("n".to_string(), enc.secret().clone(), tampered);
    assert!(ring.decrypt(rebuilt).is_err());
}

#[test]
fn every_secret_bit_flip_fails() {
    // Flip each character of the packed field in turn; no variant may
    // decrypt successfully.
    let ring = Ring::new("pw".to_string());
    let enc = ring.encrypt(secret("n", "x")).unwrap();
    let stored = enc.secret().clone();
    for i in 0..stored.len() {
        let mut chars: Vec<char> = stored.chars().collect();
        chars[i] = if chars[i] == 'A' { 'B' } else { 'A' };
        let tampered: String = chars.into_iter().collect();
        let rebuilt = Encrypted::new("n".to_string(), tampered, enc.salt().clone());
        assert!(ring.decrypt(rebuilt).is_err(), "flip at {} decrypted", i);
    }
}

#[test]
fn non_base64_secret_is_decoding_error() {
    let ring = Ring::new("pw".to_string());
    let rebuilt = Encrypted::new("n".to_string(), "*!*".to_string(), "AAAA".to_string());
    match ring.decrypt(rebuilt) {
        Err(Error::DecodingError) => {},
        other => panic!("expected DecodingError, got {:?}", other),
    }
}

#[test]
fn non_base64_salt_is_decoding_error() {
    let ring = Ring::new("pw".to_string());
    let enc = ring.encrypt(secret("n", "x")).unwrap();
    let rebuilt = Encrypted::new("n".to_string(), enc.secret().clone(), "*!*".to_string());
    match ring.decrypt(rebuilt) {
        Err(Error::DecodingError) => {},
        other => panic!("expected DecodingError, got {:?}", other),
    }
}

#[test]
fn short_packed_field_is_authentication_failure() {
    // Valid base64, but fewer bytes than one nonce and one tag.
    let ring = Ring::new("pw".to_string());
    let rebuilt = Encrypted::new("n".to_string(), "AAAA".to_string(), "AAAA".to_string());
    match ring.decrypt(rebuilt) {
        Err(Error::AuthenticationFailure) => {},
        other => panic!("expected AuthenticationFailure, got {:?}", other),
    }
}

#[test]
fn packed_field_is_base64_of_nonce_tag_ciphertext() {
    // 12-byte nonce, 16-byte tag, then ciphertext as long as the plaintext's
    // UTF-8 form.
    let ring = Ring::new("pw".to_string());
    let plaintext = "five!";
    let enc = ring.encrypt(secret("n", plaintext)).unwrap();
    let packed = base64::decode(enc.secret()).expect("packed field must be base64");
    assert_eq!(packed.len(), 12 + 16 + plaintext.len());
    let salt = base64::decode(enc.salt()).expect("salt field must be base64");
    assert_eq!(salt.len(), 32);
}

#[test]
fn fresh_salt_and_nonce_every_call() {
    let ring = Ring::new("pw".to_string());
    let enc1 = ring.encrypt(secret("n", "same")).unwrap();
    let enc2 = ring.encrypt(secret("n", "same")).unwrap();
    assert_ne!(enc1.secret(), enc2.secret());
    assert_ne!(enc1.salt(), enc2.salt());
}

#[test]
fn name_is_kept_through_both_directions() {
    let ring = Ring::new("pw".to_string());
    let enc = ring.encrypt(secret("the-name", "v")).unwrap();
    assert_eq!(enc.name(), "the-name");
    let dec = ring.decrypt(enc).unwrap();
    assert_eq!(dec.name, "the-name");
}
