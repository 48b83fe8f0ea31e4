use std::sync::Arc;
use req_enc_dec::document::Value;
use req_enc_dec::crypto::{CipherProvider, XorConstructor};
use req_enc_dec::middleware::{Config, ConfigError, EncryptionPlugin, UrlConfig};

type Plugin = EncryptionPlugin<XorConstructor>;

fn config(algo: Option<&str>, key: Option<&[u8]>, salt: Option<&[u8]>) -> Config {
    Config {
        algo: algo.map(|a| a.to_string()),
        key: key.map(|k| k.to_vec()),
        salt: salt.map(|s| s.to_vec()),
        url_configs: vec![(
            "/login".to_string(),
            UrlConfig {
                decrypt_fields: vec!["password".to_string()],
                encrypt_fields: vec!["token".to_string(), "user.ssn".to_string()],
            },
        )],
    }
}

fn body(k: &str, v: &str) -> Value {
    Value::Object(vec![(k.to_string(), Value::Str(v.to_string()))])
}

fn field<'a>(v: &'a Value, k: &str) -> &'a str {
    match v {
        Value::Object(es) => match &es.iter().find(|(n, _)| n == k).unwrap().1 {
            Value::Str(t) => t,
            _ => panic!("not a string"),
        },
        _ => panic!("not an object"),
    }
}

#[test]
fn default_algorithm_is_aes() {
    let mut p = Plugin::new(config(None, Some(b"secret"), Some(b"salt")));
    assert_eq!(p.encrypt("hello"), "c2FsdAAAAAAAAAAAAAAAAGsTomGnz8Em8au7hgICekQ=");
    assert_eq!(p.decrypt("c2FsdAAAAAAAAAAAAAAAAGsTomGnz8Em8au7hgICekQ="), "hello");
}

#[test]
fn cache_key_is_algorithm_and_key_digest() {
    let mut p = Plugin::new(config(Some("AES"), Some(b"secret"), Some(b"salt")));
    assert!(p.get_cipher().is_ok());
    assert_eq!(p.cipher_cache.len(), 1);
    assert_eq!(
        p.cipher_cache[0].0,
        "AES_2bb80d537b1da3e38bd30361aa855686bde0eacd7162fef6a25fe97bf527a25b"
    );
}

#[test]
fn same_configuration_gives_same_instance() {
    let mut p = Plugin::new(config(Some("AES"), Some(b"secret"), Some(b"salt")));
    let a = p.get_cipher().unwrap();
    let b = p.get_cipher().unwrap();
    assert!(Arc::ptr_eq(&a, &b));
    assert_eq!(p.cipher_cache.len(), 1);
    assert_eq!(a.encrypt("same"), b.encrypt("same"));
}

#[test]
fn unsupported_algorithm_is_an_error() {
    let mut p = Plugin::new(config(Some("RC4-unknown"), Some(b"secret"), Some(b"salt")));
    match p.get_cipher() {
        Err(ConfigError::UnsupportedAlgorithm(a)) => assert_eq!(a, "RC4-unknown"),
        _ => panic!("expected an unsupported algorithm"),
    }
    assert_eq!(p.cipher_cache.len(), 0);
    match p.process_nested(body("a", "x"), &vec!["a".to_string()], "encrypt") {
        Err(ConfigError::UnsupportedAlgorithm(a)) => assert_eq!(a, "RC4-unknown"),
        _ => panic!("expected an unsupported algorithm"),
    }
}

#[test]
fn missing_key_and_salt_are_errors() {
    let mut p = Plugin::new(config(None, None, Some(b"salt")));
    assert!(matches!(p.get_cipher(), Err(ConfigError::MissingKey)));
    let mut p = Plugin::new(config(None, Some(b"secret"), None));
    assert!(matches!(p.get_cipher(), Err(ConfigError::MissingSalt)));
    assert_eq!(p.encrypt("hello"), "hello");
}

#[test]
fn fallback_idempotence() {
    let mut p = Plugin::new(config(None, Some(b"secret"), Some(b"salt")));
    assert_eq!(p.decrypt("not-base64"), "not-base64");
    let e = p.encrypt("");
    assert_ne!(e, "");
    assert_eq!(p.decrypt(&e), "");
}

#[test]
fn registered_cipher_replaces_builtin() {
    let mut p = Plugin::new(config(Some("XOR"), Some(b"secret"), Some(b"salt")));
    assert!(matches!(p.get_cipher(), Err(ConfigError::UnsupportedAlgorithm(_))));
    p.register_cipher("XOR", XorConstructor { iv: b"salt\0\0\0\0".to_vec() });
    assert_eq!(p.encrypt("hello"), "c2FsdAAAAABD3WE/FA==");
    assert_eq!(p.decrypt("c2FsdAAAAABD3WE/FA=="), "hello");
}

#[test]
fn custom_constructor_needs_no_salt_and_gets_full_digest() {
    let mut p = Plugin::new(config(Some("AES"), Some(b"secret"), None));
    p.register_cipher("AES", XorConstructor { iv: b"abcdefgh".to_vec() });
    let c = p.get_cipher().unwrap();
    match &*c {
        CipherProvider::Custom(x) => {
            assert_eq!(hex::encode(&x.key), "2bb80d537b1da3e38bd30361aa855686bde0eacd7162fef6a25fe97bf527a25b");
            assert_eq!(x.iv, b"abcdefgh".to_vec());
        },
        _ => panic!("built-in construction used"),
    }
    assert_eq!(p.encrypt(""), "YWJjZGVmZ2g=");
}

#[test]
fn unsupported_algorithm_is_not_memoized() {
    let mut p = Plugin::new(config(Some("RC4-unknown"), Some(b"secret"), Some(b"salt")));
    assert!(p.get_cipher().is_err());
    assert!(p.get_cipher().is_err());
    assert_eq!(p.cipher_cache.len(), 0);
}

#[test]
fn salt_is_padded_and_truncated() {
    let mut p = Plugin::new(config(None, Some(b"secret"), Some(b"0123456789abcdefXYZ")));
    let e = p.encrypt("hi");
    let raw = base64::Engine::decode(&base64::engine::general_purpose::STANDARD, &e).unwrap();
    assert_eq!(&raw[..16], b"0123456789abcdef");
    assert_eq!(raw.len(), 32);
}

#[test]
fn hooks_process_configured_routes() {
    let mut p = Plugin::new(config(None, Some(b"secret"), Some(b"salt")));
    let out = p.after_request("/login", body("token", "hello")).unwrap();
    assert_eq!(field(&out, "token"), "c2FsdAAAAAAAAAAAAAAAAGsTomGnz8Em8au7hgICekQ=");
    let inb = p
        .before_request("/login", body("password", "c2FsdAAAAAAAAAAAAAAAAGsTomGnz8Em8au7hgICekQ="))
        .unwrap();
    assert_eq!(field(&inb, "password"), "hello");
    let other = p.after_request("/other", body("token", "hello")).unwrap();
    assert_eq!(field(&other, "token"), "hello");
}

#[test]
fn unconfigured_route_needs_no_cipher() {
    let mut p = Plugin::new(config(Some("RC4-unknown"), Some(b"secret"), Some(b"salt")));
    let out = p.before_request("/other", body("password", "x")).unwrap();
    assert_eq!(field(&out, "password"), "x");
}
