use scada_core::code_decode::{
    decoded_to_text, decrypt_string, encrypt_string, opened_to_text, sealed_to_text, BASE64_ERROR, DECRYPT_ERROR,
    ENCRYPT_ERROR, UTF8_ERROR,
};

#[test]
fn config_round_trip() {
    let text = "db_user = \"root\"\ndb_password = \"пароль\"\ndb_address = \"127.0.0.1\"\ndb_port = 3306\n";
    let stored = encrypt_string(text).unwrap();
    assert_ne!(stored, text);
    assert_eq!(decrypt_string(&stored).unwrap(), text);
}

#[test]
fn encryption_is_deterministic_with_the_fixed_nonce() {
    assert_eq!(encrypt_string("abc").unwrap(), encrypt_string("abc").unwrap());
    // 3 bytes of text and a 16 byte tag: 19 bytes, 28 Base64 characters
    assert_eq!(encrypt_string("abc").unwrap().len(), 28);
}

#[test]
fn bad_base64_is_reported() {
    let e = decrypt_string("not base64!").unwrap_err();
    assert!(e.starts_with(BASE64_ERROR));
}

#[test]
fn tampered_ciphertext_is_reported() {
    let e = decrypt_string("AAAAAAAAAAAAAAAAAAAAAAAA").unwrap_err();
    assert!(e.starts_with(DECRYPT_ERROR));
    assert!(!UTF8_ERROR.is_empty());
}

#[test]
fn stages_on_given_results() {
    assert_eq!(sealed_to_text(Ok(vec![1, 2, 3])).unwrap(), "AQID");
    assert!(sealed_to_text(Err(chacha20poly1305::aead::Error)).unwrap_err().starts_with(ENCRYPT_ERROR));
    assert_eq!(opened_to_text(Ok("привіт".as_bytes().to_vec())).unwrap(), "привіт");
    assert!(opened_to_text(Ok(vec![0xff, 0xfe])).unwrap_err().starts_with(UTF8_ERROR));
    assert!(opened_to_text(Err(chacha20poly1305::aead::Error)).unwrap_err().starts_with(DECRYPT_ERROR));
    assert!(decoded_to_text(Err(base64::DecodeError::InvalidByte(0, b'!'))).unwrap_err().starts_with(BASE64_ERROR));
    assert!(decoded_to_text(Ok(vec![0u8; 20])).unwrap_err().starts_with(DECRYPT_ERROR));
}

#[test]
fn base64_length_is_four_per_three_bytes() {
    // only the tag: 16 bytes, 6 groups of 4 characters
    assert_eq!(encrypt_string("").unwrap().len(), 24);
    // 20 text bytes and the tag: 36 bytes, 48 characters
    assert_eq!(encrypt_string("01234567890123456789").unwrap().len(), 48);
    // padding of a last group of one and of two bytes
    assert_eq!(sealed_to_text(Ok(vec![0xfb])).unwrap(), "+w==");
    assert_eq!(sealed_to_text(Ok(vec![0xfb, 0xff])).unwrap(), "+/8=");
    assert_eq!(sealed_to_text(Ok(vec![b'M', b'a', b'n'])).unwrap(), "TWFu");
}
