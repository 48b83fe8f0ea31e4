use req_enc_dec::crypto::{finish_decrypt, AESCipher, CipherConstructor, CipherProvider, DESCipher, XorCipher, XorConstructor};

const SECRET_DIGEST_HEX: &str = "2bb80d537b1da3e38bd30361aa855686bde0eacd7162fef6a25fe97bf527a25b";

fn secret_digest() -> Vec<u8> {
    hex::decode(SECRET_DIGEST_HEX).unwrap()
}

fn salt_iv(n: usize) -> Vec<u8> {
    let mut iv = b"salt".to_vec();
    iv.resize(n, 0);
    iv
}

#[test]
fn aes_encrypt_known_vector() {
    let c = AESCipher::new(secret_digest(), salt_iv(16));
    assert_eq!(c.encrypt("hello"), "c2FsdAAAAAAAAAAAAAAAAGsTomGnz8Em8au7hgICekQ=");
}

#[test]
fn aes_decrypt_known_vector() {
    let c = AESCipher::new(secret_digest(), salt_iv(16));
    assert_eq!(c.decrypt("c2FsdAAAAAAAAAAAAAAAAGsTomGnz8Em8au7hgICekQ="), "hello");
}

#[test]
fn aes_round_trip_unicode() {
    let c = AESCipher::new(secret_digest(), salt_iv(16));
    for p in ["", "a", "exactly sixteen!", "héllo wörld ✓ 漢字", "{\"nested\": [1, 2]}"] {
        let e = c.encrypt(p);
        assert_ne!(e, p);
        assert_eq!(c.decrypt(&e), p);
    }
}

#[test]
fn aes_wrong_key_length_passes_through() {
    let c = AESCipher::new(vec![1u8; 16], salt_iv(16));
    assert_eq!(c.encrypt("hello"), "hello");
    let c = AESCipher::new(secret_digest(), salt_iv(8));
    assert_eq!(c.encrypt("hello"), "hello");
}

#[test]
fn aes_decrypt_fallbacks() {
    let c = AESCipher::new(secret_digest(), salt_iv(16));
    assert_eq!(c.decrypt("not-base64"), "not-base64");
    // valid base64, shorter than an IV
    assert_eq!(c.decrypt("YWJj"), "YWJj");
    // an IV and a body that is not a whole block
    assert_eq!(c.decrypt("c2FsdAAAAAAAAAAAAAAAAGsT"), "c2FsdAAAAAAAAAAAAAAAAGsT");
}

#[test]
fn aes_decrypt_with_other_key_never_returns_plaintext() {
    let a = AESCipher::new(secret_digest(), salt_iv(16));
    let b = AESCipher::new(vec![7u8; 32], salt_iv(16));
    let e = a.encrypt("hello");
    assert_ne!(b.decrypt(&e), "hello");
}

#[test]
fn des_round_trip_where_offered() {
    let c = DESCipher::new(secret_digest()[..8].to_vec(), salt_iv(8));
    let e = c.encrypt("hello");
    if e != "hello" {
        assert_eq!(c.decrypt(&e), "hello");
    }
    assert_eq!(c.decrypt("not-base64"), "not-base64");
}

#[test]
fn xor_encrypt_known_vector() {
    let c = XorCipher::new(secret_digest(), salt_iv(8));
    assert_eq!(c.encrypt("hello"), "c2FsdAAAAABD3WE/FA==");
    assert_eq!(c.decrypt("c2FsdAAAAABD3WE/FA=="), "hello");
}

#[test]
fn xor_empty_plaintext() {
    let c = XorCipher::new(secret_digest(), b"abcdefgh".to_vec());
    assert_eq!(c.encrypt(""), "YWJjZGVmZ2g=");
    assert_eq!(c.decrypt("YWJjZGVmZ2g="), "");
}

#[test]
fn xor_round_trip_and_fallbacks() {
    let c = XorCipher::new(vec![0x5a, 0x01, 0xff], salt_iv(8));
    for p in ["", "x", "longer than the key", "ünïcödé"] {
        assert_eq!(c.decrypt(&c.encrypt(p)), p);
    }
    let empty_key = XorCipher::new(vec![], salt_iv(8));
    assert_eq!(empty_key.encrypt("hello"), "hello");
    assert_eq!(c.decrypt("not-base64"), "not-base64");
}

#[test]
fn provider_dispatches_to_its_cipher() {
    let p = CipherProvider::Custom(XorCipher::new(secret_digest(), salt_iv(8)));
    assert_eq!(p.encrypt("hello"), "c2FsdAAAAABD3WE/FA==");
    let p = CipherProvider::<XorCipher>::Aes(AESCipher::new(secret_digest(), salt_iv(16)));
    assert_eq!(p.decrypt("c2FsdAAAAAAAAAAAAAAAAGsTomGnz8Em8au7hgICekQ="), "hello");
}

#[test]
fn aes_decrypt_takes_iv_from_input() {
    let a = AESCipher::new(secret_digest(), salt_iv(16));
    let b = AESCipher::new(secret_digest(), vec![0xabu8; 16]);
    assert_eq!(a.decrypt(&b.encrypt("other iv")), "other iv");
}

#[test]
fn xor_constructor_uses_key_and_own_iv() {
    let ctor = XorConstructor { iv: salt_iv(8) };
    let c = ctor.construct(secret_digest());
    assert_eq!(c.key, secret_digest());
    assert_eq!(c.encrypt("hello"), "c2FsdAAAAABD3WE/FA==");
}

#[test]
fn finish_decrypt_cases() {
    assert_eq!(finish_decrypt(Some(b"hi \xc3\xa9".to_vec()), "orig"), "hi é");
    assert_eq!(finish_decrypt(Some(vec![0xff, 0xfe]), "orig"), "orig");
    assert_eq!(finish_decrypt(Some(vec![]), "orig"), "");
    assert_eq!(finish_decrypt(None, "orig"), "orig");
}

#[test]
fn aes_decrypt_to_invalid_utf8_passes_through() {
    let c = AESCipher::new(secret_digest(), salt_iv(16));
    let ct = "c2FsdAAAAAAAAAAAAAAAAJ2X0rfiQ4Rnxi62XOkqMcI=";
    assert_eq!(c.decrypt(ct), ct);
}

#[test]
fn aes_wrong_key_length_decrypt_passes_through() {
    let c = AESCipher::new(vec![1u8; 16], salt_iv(16));
    let ct = "c2FsdAAAAAAAAAAAAAAAAGsTomGnz8Em8au7hgICekQ=";
    assert_eq!(c.decrypt(ct), ct);
}
