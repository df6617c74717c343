//! Encryption of the database configuration file: ChaCha20-Poly1305 with
//! a fixed key and nonce, stored as standard Base64 text.
use vstd::prelude::*;
use vstd::string::StringExecFns;
use vstd::utf8::{decode_utf8, encode_utf8, valid_utf8};
use chacha20poly1305::aead::{Aead, KeyInit};
use chacha20poly1305::{ChaCha20Poly1305, Key, Nonce};
use base64::engine::general_purpose;
use base64::Engine;

verus! {

/// The key must be exactly 32 bytes.
/// (the ASCII text `14)d_d34xd_f3sg!fxcv_dawe_fzxce_`)
pub const SECRET_KEY: [u8; 32] = [
    0x31, 0x34, 0x29, 0x64, 0x5f, 0x64, 0x33, 0x34, 0x78, 0x64, 0x5f, 0x66, 0x33, 0x73, 0x67, 0x21, 0x66, 0x78, 0x63, 0x76, 0x5f, 0x64, 0x61, 0x77, 0x65, 0x5f, 0x66, 0x7a, 0x78, 0x63, 0x65, 0x5f,
];

/// The nonce must be exactly 12 bytes.
/// (the ASCII text `WfC234FeZr)N`)
pub const NONCE_BYTES: [u8; 12] = [0x57, 0x66, 0x43, 0x32, 0x33, 0x34, 0x46, 0x65, 0x5a, 0x72, 0x29, 0x4e];

#[verifier::external_type_specification]
#[verifier::external_body]
pub struct ExAeadError(chacha20poly1305::aead::Error);

#[verifier::external_type_specification]
#[verifier::external_body]
pub struct ExDecodeError(base64::DecodeError);

#[verifier::external_type_specification]
#[verifier::external_body]
pub struct ExFromUtf8Error(std::string::FromUtf8Error);

/// What ChaCha20-Poly1305 encryption with `key` and `nonce` makes of
/// `plaintext`: the ciphertext followed by its 16-byte tag.
pub uninterp spec fn chacha20poly1305_seal(key: Seq<u8>, nonce: Seq<u8>, plaintext: Seq<u8>) -> Seq<u8>;

/// What ChaCha20-Poly1305 decryption with `key` and `nonce` makes of
/// `ciphertext`: `None` when the tag does not authenticate it.
pub uninterp spec fn chacha20poly1305_open(key: Seq<u8>, nonce: Seq<u8>, ciphertext: Seq<u8>) -> Option<Seq<u8>>;

/// The character of a 6-bit value in the standard Base64 alphabet
/// `A`-`Z`, `a`-`z`, `0`-`9`, `+`, `/`.
pub open spec fn base64_digit(v: int) -> char {
    if v < 26 {
        (65 + v) as char
    } else if v < 52 {
        (71 + v) as char
    } else if v < 62 {
        (v - 4) as char
    } else if v == 62 {
        '+'
    } else {
        '/'
    }
}

/// Standard Base64 (with `=` padding) of `bytes`: each group of three
/// bytes becomes four characters of six bits each; a last group of one
/// or two bytes is padded to four characters with `=`.
pub open spec fn base64_standard_encode(bytes: Seq<u8>) -> Seq<char>
    decreases bytes.len(),
{
    if bytes.len() == 0 {
        Seq::empty()
    } else if bytes.len() == 1 {
        let b0 = bytes[0] as int;
        seq![base64_digit(b0 / 4), base64_digit((b0 % 4) * 16), '=', '=']
    } else if bytes.len() == 2 {
        let b0 = bytes[0] as int;
        let b1 = bytes[1] as int;
        seq![base64_digit(b0 / 4), base64_digit((b0 % 4) * 16 + b1 / 16), base64_digit((b1 % 16) * 4), '=']
    } else {
        let b0 = bytes[0] as int;
        let b1 = bytes[1] as int;
        let b2 = bytes[2] as int;
        seq![
            base64_digit(b0 / 4),
            base64_digit((b0 % 4) * 16 + b1 / 16),
            base64_digit((b1 % 16) * 4 + b2 / 64),
            base64_digit(b2 % 64),
        ] + base64_standard_encode(bytes.subrange(3, bytes.len() as int))
    }
}

/// Standard Base64 of `n` bytes is `4 * ceil(n / 3)` characters long.
pub proof fn lemma_base64_length(bytes: Seq<u8>)
    ensures
        base64_standard_encode(bytes).len() == 4 * ((bytes.len() + 2) / 3),
    decreases bytes.len(),
{
    if bytes.len() >= 3 {
        lemma_base64_length(bytes.subrange(3, bytes.len() as int));
    }
}

/// Decoding of standard Base64 text: `None` when the text is not valid.
pub uninterp spec fn base64_standard_decode(text: Seq<char>) -> Option<Seq<u8>>;

/// Largest plaintext ChaCha20-Poly1305 encrypts: fewer than `u32::MAX` blocks of 64 bytes.
pub open spec fn within_block_limit(len: nat) -> bool {
    len / 64 < u32::MAX as nat
}

/// `chacha20poly1305::ChaCha20Poly1305::encrypt` with the key and nonce
/// given. Claimed: it fails exactly on a plaintext of `u32::MAX` blocks or
/// more; otherwise it returns the sealed text, 16 bytes longer than the
/// plaintext, which decryption with the same key and nonce opens back
/// into the plaintext.
#[verifier::external_body]
fn aead_encrypt(key: &[u8], nonce: &[u8], plaintext: &[u8]) -> (r: Result<Vec<u8>, chacha20poly1305::aead::Error>)
    requires
        key@.len() == 32,
        nonce@.len() == 12,
    ensures
        (r is Ok <==> within_block_limit(plaintext@.len())),
        (r matches Ok(c) ==> {
            &&& c@ == chacha20poly1305_seal(key@, nonce@, plaintext@)
            &&& c@.len() == plaintext@.len() + 16
            &&& chacha20poly1305_open(key@, nonce@, c@) == Some(plaintext@)
        }),
{
    let cipher = ChaCha20Poly1305::new(Key::from_slice(key));
    cipher.encrypt(Nonce::from_slice(nonce), plaintext)
}

/// `chacha20poly1305::ChaCha20Poly1305::decrypt` with the key and nonce
/// given. Claimed: its result is `chacha20poly1305_open` of the ciphertext.
#[verifier::external_body]
fn aead_decrypt(key: &[u8], nonce: &[u8], ciphertext: &[u8]) -> (r: Result<Vec<u8>, chacha20poly1305::aead::Error>)
    requires
        key@.len() == 32,
        nonce@.len() == 12,
    ensures
        match r {
            Ok(p) => chacha20poly1305_open(key@, nonce@, ciphertext@) == Some(p@),
            Err(_) => chacha20poly1305_open(key@, nonce@, ciphertext@) is None,
        },
{
    let cipher = ChaCha20Poly1305::new(Key::from_slice(key));
    cipher.decrypt(Nonce::from_slice(nonce), ciphertext)
}

/// The `Debug` text of an `aead::Error`. Nothing is claimed of it.
#[verifier::external_body]
fn aead_error_text(e: &chacha20poly1305::aead::Error) -> String {
    format!("{:?}", e)
}

/// `base64::engine::general_purpose::STANDARD.encode`. Claimed: the result
/// is the standard Base64 text of the bytes, which decoding turns back
/// into the bytes.
#[verifier::external_body]
fn base64_encode(bytes: &[u8]) -> (r: String)
    requires
        bytes@.len() <= usize::MAX / 2,
    ensures
        r@ == base64_standard_encode(bytes@),
        base64_standard_decode(r@) == Some(bytes@),
{
    general_purpose::STANDARD.encode(bytes)
}

/// `base64::engine::general_purpose::STANDARD.decode`. Claimed: its result
/// is `base64_standard_decode` of the text.
#[verifier::external_body]
fn base64_decode(text: &str) -> (r: Result<Vec<u8>, base64::DecodeError>)
    ensures
        match r {
            Ok(v) => base64_standard_decode(text@) == Some(v@),
            Err(_) => base64_standard_decode(text@) is None,
        },
{
    general_purpose::STANDARD.decode(text)
}

/// The `Debug` text of a `base64::DecodeError`. Nothing is claimed of it.
#[verifier::external_body]
fn decode_error_text(e: &base64::DecodeError) -> String {
    format!("{:?}", e)
}

/// `String::from_utf8`. Claimed, as std documents: it fails exactly on
/// bytes that are not UTF-8, and otherwise holds the decoded text.
#[verifier::external_body]
fn string_from_utf8(bytes: Vec<u8>) -> (r: Result<String, std::string::FromUtf8Error>)
    ensures
        match r {
            Ok(s) => valid_utf8(bytes@) && s@ == decode_utf8(bytes@),
            Err(_) => !valid_utf8(bytes@),
        },
{
    String::from_utf8(bytes)
}

/// The `Debug` text of a `FromUtf8Error`. Nothing is claimed of it.
#[verifier::external_body]
fn utf8_error_text(e: &std::string::FromUtf8Error) -> String {
    format!("{:?}", e)
}

/// The stored form of a configuration text.
pub open spec fn encrypted_config(plaintext: Seq<char>) -> Seq<char> {
    base64_standard_encode(chacha20poly1305_seal(SECRET_KEY@, NONCE_BYTES@, encode_utf8(plaintext)))
}

/// The configuration text a stored form holds, if it holds one.
pub open spec fn decrypted_config(stored: Seq<char>) -> Option<Seq<char>> {
    match base64_standard_decode(stored) {
        None => None,
        Some(v) => match chacha20poly1305_open(SECRET_KEY@, NONCE_BYTES@, v) {
            None => None,
            Some(p) => if valid_utf8(p) {
                Some(decode_utf8(p))
            } else {
                None
            },
        },
    }
}

/// The stored text does not decode as Base64.
pub open spec fn fails_base64(stored: Seq<char>) -> bool {
    base64_standard_decode(stored) is None
}

/// The stored text decodes, but its tag does not authenticate it.
pub open spec fn fails_decryption(stored: Seq<char>) -> bool {
    base64_standard_decode(stored) matches Some(v) && chacha20poly1305_open(SECRET_KEY@, NONCE_BYTES@, v) is None
}

/// The message of an encryption failure.
pub const ENCRYPT_ERROR: &'static str = "Помилка шифрування: ";

/// The message of a stored text that is not Base64.
pub const BASE64_ERROR: &'static str = "Невалідний Base64: ";

/// The message of a stored text that does not authenticate.
pub const DECRYPT_ERROR: &'static str = "Помилка дешифрування (ключ або дані пошкоджено): ";

/// The message of a decrypted text that is not UTF-8.
pub const UTF8_ERROR: &'static str = "Помилка конвертації в UTF-8 рядок: ";

/// The stored text of a sealed configuration: its Base64 form; or the
/// message of the encryption failure.
pub fn sealed_to_text(sealed: Result<Vec<u8>, chacha20poly1305::aead::Error>) -> (r: Result<String, String>)
    requires
        sealed matches Ok(c) ==> c@.len() <= usize::MAX / 2,
    ensures
        match sealed {
            Ok(c) => r matches Ok(s) && s@ == base64_standard_encode(c@) && base64_standard_decode(s@) == Some(c@)
                && s@.len() == 4 * ((c@.len() + 2) / 3),
            Err(_) => r matches Err(msg) && msg@.subrange(0, ENCRYPT_ERROR@.len() as int) == ENCRYPT_ERROR@,
        },
{
    match sealed {
        Ok(ciphertext) => {
            proof {
                lemma_base64_length(ciphertext@);
            }
            Ok(base64_encode(ciphertext.as_slice()))
        },
        Err(e) => {
            let msg = String::from_str(ENCRYPT_ERROR).concat(aead_error_text(&e).as_str());
            Err(msg)
        },
    }
}

/// Encrypts a text and returns it as Base64: the 16-byte tag makes the
/// sealed bytes 16 longer than the UTF-8 text, and Base64 makes four
/// characters of each three bytes. Decrypting the result gives the text back.
pub fn encrypt_string(plaintext: &str) -> (r: Result<String, String>)
    requires
        encode_utf8(plaintext@).len() <= usize::MAX / 4,
    ensures
        (r is Ok <==> within_block_limit(encode_utf8(plaintext@).len())),
        (r matches Ok(s) ==> s@ == encrypted_config(plaintext@)),
        (r matches Ok(s) ==> s@.len() == 4 * ((encode_utf8(plaintext@).len() + 18) / 3)),
        (r matches Ok(s) ==> decrypted_config(s@) == Some(plaintext@)),
        (r matches Err(msg) ==> msg@.subrange(0, ENCRYPT_ERROR@.len() as int) == ENCRYPT_ERROR@),
{
    let key_bytes = SECRET_KEY;
    let nonce_bytes = NONCE_BYTES;
    let key: &[u8] = key_bytes.as_slice();
    let nonce: &[u8] = nonce_bytes.as_slice();
    proof {
        vstd::utf8::encode_utf8_decode_utf8(plaintext@);
        vstd::utf8::encode_utf8_valid_utf8(plaintext@);
    }
    sealed_to_text(aead_encrypt(key, nonce, plaintext.as_bytes()))
}

/// The text of decrypted bytes, if they are UTF-8; else the message of
/// the failure, which is also given when decryption failed.
pub fn opened_to_text(opened: Result<Vec<u8>, chacha20poly1305::aead::Error>) -> (r: Result<String, String>)
    ensures
        match opened {
            Ok(p) => {
                &&& (r is Ok <==> valid_utf8(p@))
                &&& (r matches Ok(s) ==> s@ == decode_utf8(p@))
                &&& (r matches Err(msg) ==> msg@.subrange(0, UTF8_ERROR@.len() as int) == UTF8_ERROR@)
            },
            Err(_) => r matches Err(msg) && msg@.subrange(0, DECRYPT_ERROR@.len() as int) == DECRYPT_ERROR@,
        },
{
    match opened {
        Ok(bytes) => match string_from_utf8(bytes) {
            Ok(s) => Ok(s),
            Err(e) => Err(String::from_str(UTF8_ERROR).concat(utf8_error_text(&e).as_str())),
        },
        Err(e) => Err(String::from_str(DECRYPT_ERROR).concat(aead_error_text(&e).as_str())),
    }
}

/// Decrypts Base64-decoded bytes of a stored configuration into its text;
/// or gives the message of the failure.
pub fn decoded_to_text(decoded: Result<Vec<u8>, base64::DecodeError>) -> (r: Result<String, String>)
    ensures
        match decoded {
            Err(_) => r matches Err(msg) && msg@.subrange(0, BASE64_ERROR@.len() as int) == BASE64_ERROR@,
            Ok(v) => match chacha20poly1305_open(SECRET_KEY@, NONCE_BYTES@, v@) {
                None => r matches Err(msg) && msg@.subrange(0, DECRYPT_ERROR@.len() as int) == DECRYPT_ERROR@,
                Some(p) => {
                    &&& (r is Ok <==> valid_utf8(p))
                    &&& (r matches Ok(s) ==> s@ == decode_utf8(p))
                    &&& (r matches Err(msg) ==> msg@.subrange(0, UTF8_ERROR@.len() as int) == UTF8_ERROR@)
                },
            },
        },
{
    let key_bytes = SECRET_KEY;
    let nonce_bytes = NONCE_BYTES;
    let key: &[u8] = key_bytes.as_slice();
    let nonce: &[u8] = nonce_bytes.as_slice();
    match decoded {
        Ok(encrypted_bytes) => opened_to_text(aead_decrypt(key, nonce, encrypted_bytes.as_slice())),
        Err(e) => Err(String::from_str(BASE64_ERROR).concat(decode_error_text(&e).as_str())),
    }
}

/// Decodes a Base64 text, decrypts it and returns the plain text.
pub fn decrypt_string(base64_ciphertext: &str) -> (r: Result<String, String>)
    ensures
        (r is Ok <==> decrypted_config(base64_ciphertext@) is Some),
        (r matches Ok(s) ==> decrypted_config(base64_ciphertext@) == Some(s@)),
        (r matches Err(msg) ==> fails_base64(base64_ciphertext@) ==> msg@.subrange(0, BASE64_ERROR@.len() as int) == BASE64_ERROR@),
        (r matches Err(msg) ==> fails_decryption(base64_ciphertext@) ==> msg@.subrange(0, DECRYPT_ERROR@.len() as int) == DECRYPT_ERROR@),
        (r matches Err(msg) ==> !fails_base64(base64_ciphertext@) && !fails_decryption(base64_ciphertext@) ==> msg@.subrange(0, UTF8_ERROR@.len() as int) == UTF8_ERROR@),
{
    decoded_to_text(base64_decode(base64_ciphertext))
}

} // verus!
