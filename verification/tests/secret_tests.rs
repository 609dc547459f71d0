use baker::secret::{Crypto, CryptoError, SecretKey};

fn fixed_crypto() -> Crypto {
    Crypto::new(vec![1u8; 32])
}

#[test]
fn encrypt_decrypt_round_trip() {
    let key = vec![1u8; 32];
    let crypto = Crypto::new(key);
    let plain = "secret-text";
    let enc = crypto.encrypt(plain).unwrap();
    let dec = crypto.decrypt(&enc).unwrap();
    assert_eq!(dec, plain);
}

#[test]
fn round_trip_handles_empty_and_unicode() {
    let crypto = fixed_crypto();
    for plain in ["", "a", "spaces and\nnewlines", "caf\u{e9} \u{1F600}"] {
        let enc = crypto.encrypt(plain).unwrap();
        assert_eq!(crypto.decrypt(&enc).unwrap(), plain);
    }
}

fn flip_hex_char(field: &str) -> String {
    let mut chars: Vec<char> = field.chars().collect();
    chars[0] = if chars[0] == 'a' { 'b' } else { 'a' };
    chars.into_iter().collect()
}

#[test]
fn envelope_has_three_hex_fields_of_the_right_sizes() {
    let crypto = fixed_crypto();
    let plain = "attack at dawn";
    let enc = crypto.encrypt(plain).unwrap();
    let parts: Vec<&str> = enc.split('\\').collect();
    assert_eq!(parts.len(), 3);
    for p in &parts {
        assert!(p.chars().all(|c| c.is_ascii_hexdigit()));
    }
    assert_eq!(parts[0].len(), 32);
    assert_eq!(parts[1].len(), 32);
    assert_eq!(parts[2].len(), 2 * plain.len());
}

#[test]
fn tampered_tag_or_ciphertext_fails_closed() {
    let crypto = fixed_crypto();
    let enc = crypto.encrypt("attack at dawn").unwrap();
    let parts: Vec<&str> = enc.split('\\').collect();
    assert_eq!(parts.len(), 3);

    let bad_tag = format!("{}\\{}\\{}", parts[0], flip_hex_char(parts[1]), parts[2]);
    assert!(matches!(crypto.decrypt(&bad_tag), Err(CryptoError::AuthFailure)));

    let bad_body = format!("{}\\{}\\{}", parts[0], parts[1], flip_hex_char(parts[2]));
    assert!(matches!(crypto.decrypt(&bad_body), Err(CryptoError::AuthFailure)));
}

#[test]
fn malformed_envelope_is_structural_not_auth() {
    let crypto = fixed_crypto();
    // fewer than three fields
    assert!(matches!(crypto.decrypt("deadbeef"), Err(CryptoError::Corrupted)));
    assert!(matches!(crypto.decrypt("aa\\bb"), Err(CryptoError::Corrupted)));
    // more than three fields
    assert!(matches!(crypto.decrypt("aa\\bb\\cc\\dd"), Err(CryptoError::Corrupted)));
    // non-hex content
    assert!(matches!(crypto.decrypt("zz\\bb\\cc"), Err(CryptoError::Corrupted)));
    // hex, but nonce and tag of the wrong size
    assert!(matches!(crypto.decrypt("aa\\bb\\cc"), Err(CryptoError::Corrupted)));
    // well-formed sizes but a forged tag: an authentication failure instead
    let nonce = "00".repeat(16);
    let tag = "00".repeat(16);
    let forged = format!("{}\\{}\\{}", nonce, tag, "aabb");
    assert!(matches!(crypto.decrypt(&forged), Err(CryptoError::AuthFailure)));
}

#[test]
fn error_messages_distinguish_failures() {
    let crypto = fixed_crypto();
    let corrupted = crypto.decrypt("not an envelope").unwrap_err();
    assert_eq!(corrupted.message().as_str(), "Encryption is corrupted");
    let nonce = "00".repeat(16);
    let tag = "00".repeat(16);
    let forged = format!("{}\\{}\\{}", nonce, tag, "aabb");
    let auth = crypto.decrypt(&forged).unwrap_err();
    assert_eq!(auth.message().as_str(), "decrypt error");
}

#[test]
fn wrong_key_length_is_rejected() {
    let crypto = Crypto::new(vec![1u8; 16]);
    assert!(matches!(crypto.encrypt("x"), Err(CryptoError::InitFailure)));
    let good = fixed_crypto().encrypt("x").unwrap();
    assert!(matches!(crypto.decrypt(&good), Err(CryptoError::InitFailure)));
}

#[test]
fn wrong_key_fails_authentication() {
    let enc = fixed_crypto().encrypt("payload").unwrap();
    let other = Crypto::new(vec![2u8; 32]);
    assert!(matches!(other.decrypt(&enc), Err(CryptoError::AuthFailure)));
}

#[test]
fn generate_derives_sha256_hex_key() {
    let hex = SecretKey::generate("abc");
    assert_eq!(
        hex.as_str(),
        "ba7816bf8f01cfea414140de5dae2223b00361a396177a9cb410ff61f20015ad"
    );
    assert_eq!(hex.len(), 64);
}
