use chacha20poly1305::aead::{Aead, KeyInit};
use chacha20poly1305::{ChaCha20Poly1305, Key, Nonce};
use sealed_posts::cipher::{decrypt_data, derive_key, encrypt_data, seal_field, FieldError};

fn parts(field: &str) -> Vec<String> {
    field.split(':').map(|p| p.to_string()).collect()
}

fn is_lower_hex(s: &str) -> bool {
    s.chars().all(|c| c.is_ascii_digit() || ('a'..='f').contains(&c))
}

#[test]
fn round_trip_ascii_text() {
    let field = encrypt_data("hello", "correct-horse").unwrap();
    assert_eq!(decrypt_data(&field, "correct-horse").unwrap(), "hello");
}

#[test]
fn round_trip_empty_text() {
    let field = encrypt_data("", "pw").unwrap();
    assert_eq!(decrypt_data(&field, "pw").unwrap(), "");
}

#[test]
fn round_trip_non_ascii_text() {
    let text = "héllo wörld ✓ 日本";
    let field = encrypt_data(text, "pässwörd").unwrap();
    assert_eq!(decrypt_data(&field, "pässwörd").unwrap(), text);
}

#[test]
fn stored_field_is_three_hex_parts() {
    let field = encrypt_data("hello", "pw").unwrap();
    let p = parts(&field);
    assert_eq!(p.len(), 3);
    assert_eq!(p[0].len(), 32);
    assert_eq!(p[1].len(), 24);
    assert_eq!(p[2].len(), 2 * (5 + 16));
    assert!(p.iter().all(|x| is_lower_hex(x)));
}

#[test]
fn same_text_encrypts_differently() {
    let a = encrypt_data("same text", "pw").unwrap();
    let b = encrypt_data("same text", "pw").unwrap();
    assert_ne!(a, b);
    let (pa, pb) = (parts(&a), parts(&b));
    assert_ne!(pa[0], pb[0]);
    assert_ne!(pa[1], pb[1]);
}

#[test]
fn flipped_ciphertext_bit_fails_authentication() {
    let field = encrypt_data("attack at dawn", "pw").unwrap();
    let p = parts(&field);
    let mut sealed = hex::decode(&p[2]).unwrap();
    sealed[0] ^= 0x01;
    let tampered = format!("{}:{}:{}", p[0], p[1], hex::encode(&sealed));
    assert_eq!(decrypt_data(&tampered, "pw"), Err(FieldError::AuthenticationFailure));
}

#[test]
fn flipped_tag_bit_fails_authentication() {
    let field = encrypt_data("attack at dawn", "pw").unwrap();
    let p = parts(&field);
    let mut sealed = hex::decode(&p[2]).unwrap();
    let last = sealed.len() - 1;
    sealed[last] ^= 0x80;
    let tampered = format!("{}:{}:{}", p[0], p[1], hex::encode(&sealed));
    assert_eq!(decrypt_data(&tampered, "pw"), Err(FieldError::AuthenticationFailure));
}

#[test]
fn wrong_passwords_fail_authentication() {
    let field = encrypt_data("secret", "right").unwrap();
    for wrong in ["wrong", "Right"] {
        assert_eq!(decrypt_data(&field, wrong), Err(FieldError::AuthenticationFailure));
    }
}

#[test]
fn malformed_fields_are_rejected() {
    let salt = "00".repeat(16);
    let nonce = "00".repeat(12);
    let cases = vec![
        String::new(),
        "abc".to_string(),
        format!("{}:{}", salt, nonce),
        format!("{}:{}:00:00", salt, nonce),
        format!("zz{}:{}:00", &salt[2..], nonce),
        format!("{}:{}:0", salt, nonce),
        format!("{}:{}:00", "00".repeat(15), nonce),
        format!("{}:{}:00", salt, "00".repeat(13)),
        format!("{}:{}:é0", salt, nonce),
    ];
    for c in cases {
        assert_eq!(decrypt_data(&c, "pw"), Err(FieldError::MalformedField), "{}", c);
    }
}

#[test]
fn uppercase_hex_is_accepted() {
    let field = encrypt_data("case", "pw").unwrap();
    let upper = field.to_uppercase();
    assert_eq!(decrypt_data(&upper, "pw").unwrap(), "case");
}

#[test]
fn non_utf8_plaintext_is_rejected() {
    let salt = [7u8; 16];
    let nonce = [9u8; 12];
    let key = derive_key("pw", &salt);
    let cipher = ChaCha20Poly1305::new(Key::from_slice(&key));
    let sealed = cipher.encrypt(Nonce::from_slice(&nonce), &[0xffu8, 0xfe][..]).unwrap();
    let field = format!("{}:{}:{}", hex::encode(salt), hex::encode(nonce), hex::encode(sealed));
    assert_eq!(decrypt_data(&field, "pw"), Err(FieldError::InvalidPlaintextEncoding));
}

#[test]
fn derive_key_depends_on_password_and_salt() {
    let a = derive_key("pw", &[1u8; 16]);
    assert_eq!(a, derive_key("pw", &[1u8; 16]));
    assert_ne!(a, derive_key("pw", &[2u8; 16]));
    assert_ne!(a, derive_key("px", &[1u8; 16]));
    assert_ne!(a, [0u8; 32]);
}

#[test]
fn stored_hello_has_one_hundred_characters() {
    let field = encrypt_data("hello", "correct-horse").unwrap();
    assert_eq!(field.len(), 100);
    assert_eq!(field.matches(':').count(), 2);
}

#[test]
fn seal_field_gives_the_exact_stored_form() {
    let salt = [0x01u8; 16];
    let nonce: [u8; 12] = [0, 1, 2, 3, 4, 5, 6, 7, 8, 9, 10, 0xab];
    let field = seal_field("héllo", "pw", &salt, &nonce).unwrap();
    let key = derive_key("pw", &salt);
    let cipher = ChaCha20Poly1305::new(Key::from_slice(&key));
    let sealed = cipher.encrypt(Nonce::from_slice(&nonce), "héllo".as_bytes()).unwrap();
    assert_eq!(sealed.len(), "héllo".len() + 16);
    let expected = format!(
        "{}:{}:{}",
        "01".repeat(16),
        "000102030405060708090aab",
        hex::encode(&sealed)
    );
    assert_eq!(field, expected);
    assert_eq!(field.len(), 58 + 2 * ("héllo".len() + 16));
    assert_eq!(decrypt_data(&field, "pw").unwrap(), "héllo");
}
