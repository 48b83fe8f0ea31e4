use req_enc_dec::crypto::{Action, AESCipher, CipherProvider, XorCipher};
use req_enc_dec::document::{process_paths, split_path, Value};

fn s(t: &str) -> Value {
    Value::Str(t.to_string())
}

fn obj(entries: Vec<(&str, Value)>) -> Value {
    Value::Object(entries.into_iter().map(|(k, v)| (k.to_string(), v)).collect())
}

fn get<'a>(v: &'a Value, k: &str) -> &'a Value {
    match v {
        Value::Object(es) => &es.iter().find(|(n, _)| n == k).unwrap().1,
        _ => panic!("not an object"),
    }
}

fn text(v: &Value) -> &str {
    match v {
        Value::Str(t) => t,
        _ => panic!("not a string"),
    }
}

fn xor() -> CipherProvider<XorCipher> {
    CipherProvider::Custom(XorCipher::new(vec![3, 1, 4, 1, 5, 9, 2, 6], b"ivivivIV".to_vec()))
}

fn aes() -> CipherProvider<XorCipher> {
    CipherProvider::Aes(AESCipher::new(vec![9u8; 32], vec![1u8; 16]))
}

fn paths(p: &[&str]) -> Vec<String> {
    p.iter().map(|x| x.to_string()).collect()
}

#[test]
fn split_path_segments() {
    assert_eq!(split_path("user.ssn"), vec!["user".to_string(), "ssn".to_string()]);
    assert_eq!(split_path("a"), vec!["a".to_string()]);
    assert_eq!(split_path("a..b"), vec!["a".to_string(), String::new(), "b".to_string()]);
    assert_eq!(split_path(""), Vec::<String>::new());
}

#[test]
fn path_isolation() {
    let c = aes();
    let doc = obj(vec![("a", obj(vec![("b", s("secret")), ("c", s("public"))]))]);
    let out = process_paths(doc, &paths(&["a.b"]), &c, Action::Encrypt);
    let a = get(&out, "a");
    assert_eq!(text(get(a, "c")), "public");
    let b = text(get(a, "b"));
    assert_ne!(b, "secret");
    assert_eq!(c.decrypt(b), "secret");
}

#[test]
fn list_semantics() {
    let c = aes();
    let doc = obj(vec![("tags", Value::List(vec![s("x"), s("y")]))]);
    let out = process_paths(doc, &paths(&["tags"]), &c, Action::Encrypt);
    match get(&out, "tags") {
        Value::List(items) => {
            assert_eq!(items.len(), 2);
            assert_eq!(text(&items[0]), c.encrypt("x"));
            assert_eq!(text(&items[1]), c.encrypt("y"));
            assert_eq!(c.decrypt(text(&items[0])), "x");
            assert_eq!(c.decrypt(text(&items[1])), "y");
        },
        _ => panic!("tags is not a list"),
    }
}

#[test]
fn repeated_path_over_list() {
    let c = xor();
    let doc = obj(vec![(
        "items",
        Value::List(vec![obj(vec![("v", s("s1"))]), obj(vec![("v", s("s2"))])]),
    )]);
    let out = process_paths(doc, &paths(&["items.v"]), &c, Action::Encrypt);
    match get(&out, "items") {
        Value::List(items) => {
            assert_eq!(text(get(&items[0], "v")), c.encrypt("s1"));
            assert_eq!(text(get(&items[1], "v")), c.encrypt("s2"));
            assert_eq!(c.decrypt(text(get(&items[1], "v"))), "s2");
        },
        _ => panic!("items is not a list"),
    }
}

#[test]
fn missing_field_is_a_no_op() {
    let c = xor();
    let doc = obj(vec![("a", Value::Number("1".to_string()))]);
    let out = process_paths(doc, &paths(&["a.b.c", "zz", ""]), &c, Action::Encrypt);
    match get(&out, "a") {
        Value::Number(n) => assert_eq!(n, "1"),
        _ => panic!("a changed"),
    }
}

#[test]
fn scalars_are_stringified() {
    let c = xor();
    let doc = obj(vec![
        ("n", Value::Number("42".to_string())),
        ("t", Value::Bool(true)),
        ("z", Value::Null),
    ]);
    let out = process_paths(doc, &paths(&["n", "t", "z"]), &c, Action::Encrypt);
    assert_eq!(c.decrypt(text(get(&out, "n"))), "42");
    assert_eq!(c.decrypt(text(get(&out, "t"))), "True");
    assert_eq!(c.decrypt(text(get(&out, "z"))), "None");
}

#[test]
fn encrypt_then_decrypt_document() {
    let c = aes();
    let doc = obj(vec![("user", obj(vec![("ssn", s("123-45-6789")), ("name", s("Ann"))]))]);
    let enc = process_paths(doc, &paths(&["user.ssn"]), &c, Action::Encrypt);
    let dec = process_paths(enc, &paths(&["user.ssn"]), &c, Action::Decrypt);
    let user = get(&dec, "user");
    assert_eq!(text(get(user, "ssn")), "123-45-6789");
    assert_eq!(text(get(user, "name")), "Ann");
}

#[test]
fn containers_at_the_end_of_a_path_are_stringified() {
    let c = xor();
    let inner = obj(vec![("k", s("v")), ("n", Value::Number("2".to_string())), ("q", s("it's"))]);
    let doc = obj(vec![
        ("m", inner),
        ("l", Value::List(vec![s("a"), Value::List(vec![s("b"), Value::Null, Value::Bool(false)])])),
    ]);
    let out = process_paths(doc, &paths(&["m", "l"]), &c, Action::Encrypt);
    assert_eq!(c.decrypt(text(get(&out, "m"))), "{'k': 'v', 'n': 2, 'q': 'it\\'s'}");
    match get(&out, "l") {
        Value::List(items) => {
            assert_eq!(items.len(), 2);
            assert_eq!(c.decrypt(text(&items[0])), "a");
            assert_eq!(c.decrypt(text(&items[1])), "['b', None, False]");
        },
        _ => panic!("l is not a list"),
    }
}

#[test]
fn decrypting_plain_field_leaves_it() {
    let c = aes();
    let doc = obj(vec![("a", s("plain"))]);
    let out = process_paths(doc, &paths(&["a"]), &c, Action::Decrypt);
    assert_eq!(text(get(&out, "a")), "plain");
}

#[test]
fn list_decrypts_back() {
    let c = aes();
    let doc = obj(vec![("tags", Value::List(vec![s("x"), s("y")]))]);
    let enc = process_paths(doc, &paths(&["tags"]), &c, Action::Encrypt);
    let dec = process_paths(enc, &paths(&["tags"]), &c, Action::Decrypt);
    match get(&dec, "tags") {
        Value::List(items) => {
            assert_eq!(text(&items[0]), "x");
            assert_eq!(text(&items[1]), "y");
        },
        _ => panic!("tags is not a list"),
    }
}
