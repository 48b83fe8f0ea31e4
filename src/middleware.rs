//! The plugin: derives a cipher from its configuration, caches it, and
//! applies it to the configured fields of inbound and outbound documents.
use vstd::prelude::*;
use vstd::string::StringExecFns;
use std::sync::Arc;
use crate::codec::{sha256_of, hex_text, sha256, hex_encode};
use crate::crypto::{AESCipher, Action, CipherConstructor, CipherProvider, CustomCipher, DESCipher};
use crate::document::{Json, Value, process_paths, process_ok, string_views};

verus! {

/// Field selection of one route.
pub struct UrlConfig {
    pub decrypt_fields: Vec<String>,
    pub encrypt_fields: Vec<String>,
}

/// The plugin's configuration, fixed once the plugin is made.
pub struct Config {
    /// The cipher family's name; "AES" where absent.
    pub algo: Option<String>,
    /// Raw key material, hashed before use.
    pub key: Option<Vec<u8>>,
    /// Source of the IV, padded with zeros or cut to the block size.
    pub salt: Option<Vec<u8>>,
    /// Field selection by exact route path.
    pub url_configs: Vec<(String, UrlConfig)>,
}

/// A built-in cipher construction.
#[derive(Clone, Copy, PartialEq, Eq, Structural, Debug)]
pub enum CipherFamily {
    Aes,
    Des,
}

/// A defect of the configuration; the one failure that is not absorbed.
#[derive(Debug)]
pub enum ConfigError {
    MissingKey,
    MissingSalt,
    UnsupportedAlgorithm(String),
}

/// The last index whose key is `k`.
pub open spec fn last_match(ks: Seq<Seq<char>>, k: Seq<char>) -> Option<int>
    decreases ks.len(),
{
    if ks.len() == 0 {
        None
    } else if ks.last() == k {
        Some(ks.len() - 1)
    } else {
        last_match(ks.drop_last(), k)
    }
}

pub open spec fn keys_of<T>(s: Seq<(String, T)>) -> Seq<Seq<char>> {
    s.map_values(|e: (String, T)| e.0@)
}

proof fn lemma_last_match_push(ks: Seq<Seq<char>>, x: Seq<char>, k: Seq<char>)
    ensures
        last_match(ks, k) is Some ==> last_match(ks.push(x), k) is Some,
{
    assert(ks.push(x).drop_last() =~= ks);
}

fn find_last<T>(entries: &Vec<(String, T)>, k: &String) -> (r: Option<usize>)
    ensures
        r matches Some(i) ==> last_match(keys_of(entries@), k@) == Some(i as int) && i < entries@.len(),
        r is None ==> last_match(keys_of(entries@), k@) is None,
{
    let ghost ks = keys_of(entries@);
    let mut i: usize = entries.len();
    assert(ks.subrange(0, i as int) =~= ks);
    while i > 0
        invariant
            i <= entries@.len(),
            ks == keys_of(entries@),
            last_match(ks, k@) == last_match(ks.subrange(0, i as int), k@),
        decreases i,
    {
        let ghost pre = ks.subrange(0, i as int);
        assert(pre.drop_last() =~= ks.subrange(0, i - 1));
        if entries[i - 1].0 == *k {
            return Some(i - 1);
        }
        i = i - 1;
    }
    None
}

/// A family's name under the built-in dispatch.
pub open spec fn builtin_family(algo: Seq<char>) -> Option<CipherFamily> {
    if algo == "AES"@ {
        Some(CipherFamily::Aes)
    } else if algo == "DES"@ {
        Some(CipherFamily::Des)
    } else {
        None
    }
}

/// Key length that a family takes from the digest (at most).
pub open spec fn family_key_len(f: CipherFamily) -> nat {
    match f {
        CipherFamily::Aes => 32,
        CipherFamily::Des => 8,
    }
}

/// IV length of a family.
pub open spec fn family_iv_len(f: CipherFamily) -> nat {
    match f {
        CipherFamily::Aes => 16,
        CipherFamily::Des => 8,
    }
}

/// The first `n` bytes of `b`, or all of it where it is shorter.
pub open spec fn take_prefix(b: Seq<u8>, n: nat) -> Seq<u8> {
    if b.len() > n { b.subrange(0, n as int) } else { b }
}

/// `salt` copied into `n` zero bytes: cut where longer, zero-padded where shorter.
pub open spec fn fit_iv(salt: Seq<u8>, n: nat) -> Seq<u8> {
    Seq::new(n, |i: int| if i < salt.len() { salt[i] } else { 0u8 })
}

/// The cache slot of an algorithm and raw key: `algo ++ "_" ++ hex(SHA-256(key))`.
pub open spec fn cache_key_of(algo: Seq<char>, key: Seq<u8>) -> Seq<char> {
    algo + "_"@ + hex_text(sha256_of(key))
}

/// Whether `c` is the cipher of family `f` built from a key digest and a salt.
pub open spec fn built_from<C>(c: CipherProvider<C>, f: CipherFamily, digest: Seq<u8>, salt: Seq<u8>) -> bool {
    let key = take_prefix(digest, family_key_len(f));
    let iv = fit_iv(salt, family_iv_len(f));
    match (f, c) {
        (CipherFamily::Aes, CipherProvider::Aes(a)) => a.key@ == key && a.iv@ == iv,
        (CipherFamily::Des, CipherProvider::Des(d)) => d.key@ == key && d.iv@ == iv,
        _ => false,
    }
}

fn take_prefix_exec(b: &Vec<u8>, n: usize) -> (r: Vec<u8>)
    ensures
        r@ == take_prefix(b@, n as nat),
{
    let m = if b.len() > n { n } else { b.len() };
    let mut r: Vec<u8> = Vec::new();
    let mut i: usize = 0;
    while i < m
        invariant
            m <= b@.len(),
            i <= m,
            r@ =~= b@.subrange(0, i as int),
        decreases m - i,
    {
        r.push(b[i]);
        i = i + 1;
    }
    assert(b@.subrange(0, b@.len() as int) =~= b@);
    r
}

fn fit_iv_exec(salt: &Vec<u8>, n: usize) -> (r: Vec<u8>)
    ensures
        r@ == fit_iv(salt@, n as nat),
{
    let mut r: Vec<u8> = Vec::new();
    let mut i: usize = 0;
    while i < n
        invariant
            i <= n,
            r@ =~= fit_iv(salt@, n as nat).subrange(0, i as int),
        decreases n - i,
    {
        if i < salt.len() {
            r.push(salt[i]);
        } else {
            r.push(0u8);
        }
        i = i + 1;
    }
    assert(fit_iv(salt@, n as nat).subrange(0, n as int) =~= fit_iv(salt@, n as nat));
    r
}

fn build_cipher<C>(f: CipherFamily, digest: &Vec<u8>, salt: &Vec<u8>) -> (r: CipherProvider<C>)
    ensures
        built_from(r, f, digest@, salt@),
{
    match f {
        CipherFamily::Aes => CipherProvider::Aes(
            AESCipher::new(take_prefix_exec(digest, 32), fit_iv_exec(salt, 16)),
        ),
        CipherFamily::Des => CipherProvider::Des(
            DESCipher::new(take_prefix_exec(digest, 8), fit_iv_exec(salt, 8)),
        ),
    }
}

/// Relies on std's `Arc::clone`: a second pointer to the same value.
#[verifier::external_body]
fn share<T>(c: &Arc<T>) -> (r: Arc<T>)
    ensures
        r == *c,
{
    Arc::clone(c)
}

/// The action that an action name selects: "encrypt" encrypts, any other name decrypts.
pub open spec fn action_of(name: Seq<char>) -> Action {
    if name == "encrypt"@ {
        Action::Encrypt
    } else {
        Action::Decrypt
    }
}

/// Encrypts and decrypts the configured fields of documents with the cipher
/// that its configuration selects. Ciphers are built once per algorithm and
/// key digest and kept for the life of the plugin; share a plugin between
/// threads behind a lock.
pub struct EncryptionPlugin<K: CipherConstructor> {
    pub config: Config,
    /// Constructed ciphers by cache key, in order of construction.
    pub cipher_cache: Vec<(String, Arc<CipherProvider<K::Cipher>>)>,
    /// Algorithm names bound to host constructors; the latest binding wins.
    pub custom_ciphers: Vec<(String, K)>,
}

/// What one call of `get_cipher` does, from the plugin before to the plugin
/// after and its result. A configuration defect leaves the plugin as it was.
pub open spec fn get_cipher_post<K: CipherConstructor>(
    old: EncryptionPlugin<K>,
    new: EncryptionPlugin<K>,
    r: Result<Arc<CipherProvider<K::Cipher>>, ConfigError>,
) -> bool {
    match old.config.key {
        None => r matches Err(ConfigError::MissingKey) && new == old,
        Some(key) => {
            let k = cache_key_of(old.algo_spec(), key@);
            match old.cached(k) {
                Some(c) => r matches Ok(a) && *a == c && new == old,
                None => match last_match(keys_of(old.custom_ciphers@), old.algo_spec()) {
                    Some(i) => r matches Ok(a) && {
                        &&& sha256_of(key@).len() == 32
                        &&& *a matches CipherProvider::Custom(x) && old.custom_ciphers@[i].1.builds(sha256_of(key@), x)
                        &&& new.config == old.config
                        &&& new.custom_ciphers == old.custom_ciphers
                        &&& new.cipher_cache@ == old.cipher_cache@.push((new.cipher_cache@.last().0, a))
                        &&& new.cipher_cache@.last().0@ == k
                    },
                    None => match builtin_family(old.algo_spec()) {
                        None => r matches Err(ConfigError::UnsupportedAlgorithm(a)) && a@ == old.algo_spec()
                            && new == old,
                        Some(f) => match old.config.salt {
                            None => r matches Err(ConfigError::MissingSalt) && new == old,
                            Some(salt) => r matches Ok(a) && {
                                &&& sha256_of(key@).len() == 32
                                &&& built_from(*a, f, sha256_of(key@), salt@)
                                &&& new.config == old.config
                                &&& new.custom_ciphers == old.custom_ciphers
                                &&& new.cipher_cache@ == old.cipher_cache@.push((new.cipher_cache@.last().0, a))
                                &&& new.cipher_cache@.last().0@ == k
                            },
                        },
                    },
                },
            }
        },
    }
}

impl<K: CipherConstructor> EncryptionPlugin<K> {
    /// A plugin with an empty cache and no custom bindings.
    pub fn new(config: Config) -> (r: Self)
        ensures
            r.config == config,
            r.cipher_cache@.len() == 0,
            r.custom_ciphers@.len() == 0,
            r.well_formed(),
    {
        EncryptionPlugin { config, cipher_cache: Vec::new(), custom_ciphers: Vec::new() }
    }

    /// The configured algorithm name, "AES" by default.
    pub open spec fn algo_spec(&self) -> Seq<char> {
        match self.config.algo {
            Some(a) => a@,
            None => "AES"@,
        }
    }

    /// Every cached cipher sits under the cache key of this plugin's own
    /// algorithm and key; with no key configured nothing is cached; and a
    /// cipher is cached only for an algorithm name that is bound or built in.
    pub open spec fn well_formed(&self) -> bool {
        &&& self.cipher_cache@.len() > 0 ==> (last_match(keys_of(self.custom_ciphers@), self.algo_spec()) is Some
            || builtin_family(self.algo_spec()) is Some)
        &&& match self.config.key {
            None => self.cipher_cache@.len() == 0,
            Some(key) => forall|i: int|
                0 <= i < self.cipher_cache@.len() ==> (#[trigger] self.cipher_cache@[i]).0@ == cache_key_of(
                    self.algo_spec(),
                    key@,
                ),
        }
    }

    /// The cipher cached under a cache key.
    pub open spec fn cached(&self, k: Seq<char>) -> Option<CipherProvider<K::Cipher>> {
        match last_match(keys_of(self.cipher_cache@), k) {
            Some(i) => Some(*self.cipher_cache@[i].1),
            None => None,
        }
    }

    /// Binds an algorithm name to a host constructor; later calls of
    /// `get_cipher` with that name call it in place of the built-ins.
    pub fn register_cipher(&mut self, algo_name: &str, cipher_class: K)
        ensures
            final(self).config == old(self).config,
            final(self).cipher_cache == old(self).cipher_cache,
            final(self).custom_ciphers@.len() == old(self).custom_ciphers@.len() + 1,
            final(self).custom_ciphers@.drop_last() == old(self).custom_ciphers@,
            final(self).custom_ciphers@.last().0@ == algo_name@,
            final(self).custom_ciphers@.last().1 == cipher_class,
            old(self).well_formed() ==> final(self).well_formed(),
    {
        self.custom_ciphers.push((String::from_str(algo_name), cipher_class));
        assert(self.custom_ciphers@.drop_last() =~= old(self).custom_ciphers@);
        assert(keys_of(self.custom_ciphers@) =~= keys_of(old(self).custom_ciphers@).push(self.custom_ciphers@.last().0@));
        proof {
            lemma_last_match_push(
                keys_of(old(self).custom_ciphers@),
                self.custom_ciphers@.last().0@,
                self.algo_spec(),
            );
        }
    }

    /// The cipher of the configuration: from the cache where its key is
    /// there, else built, cached and returned. Fails only on a configuration
    /// defect: no key, no salt, or an algorithm name that nothing is bound to.
    pub fn get_cipher(&mut self) -> (r: Result<Arc<CipherProvider<K::Cipher>>, ConfigError>)
        ensures
            get_cipher_post(*old(self), *final(self), r),
            old(self).well_formed() ==> final(self).well_formed(),
    {
        let algo: String = match &self.config.algo {
            Some(a) => a.clone(),
            None => String::from_str("AES"),
        };
        let key = match &self.config.key {
            Some(k) => k,
            None => return Err(ConfigError::MissingKey),
        };
        let digest = sha256(key.as_slice());
        let hex = hex_encode(digest.as_slice());
        let mut ck = algo.clone();
        ck.append("_");
        ck.append(hex.as_str());
        assert(ck@ == cache_key_of(self.algo_spec(), key@));
        match find_last(&self.cipher_cache, &ck) {
            Some(i) => return Ok(share(&self.cipher_cache[i].1)),
            None => {},
        }
        if let Some(i) = find_last(&self.custom_ciphers, &algo) {
            let inst = self.custom_ciphers[i].1.construct(digest);
            let c = Arc::new(CipherProvider::Custom(inst));
            let ghost before = self.cipher_cache@;
            self.cipher_cache.push((ck, share(&c)));
            assert(self.cipher_cache@ =~= before.push((self.cipher_cache@.last().0, c)));
            return Ok(c);
        }
        let family = if algo == String::from_str("AES") {
            CipherFamily::Aes
        } else if algo == String::from_str("DES") {
            CipherFamily::Des
        } else {
            return Err(ConfigError::UnsupportedAlgorithm(algo));
        };
        let salt = match &self.config.salt {
            Some(s) => s,
            None => return Err(ConfigError::MissingSalt),
        };
        let c = Arc::new(build_cipher(family, &digest, salt));
        let ghost before = self.cipher_cache@;
        self.cipher_cache.push((ck, share(&c)));
        assert(self.cipher_cache@ =~= before.push((self.cipher_cache@.last().0, c)));
        Ok(c)
    }
}

/// Field paths configured for a route: its decrypt fields on the way in, its
/// encrypt fields on the way out; none for a route that is not configured.
pub open spec fn route_fields(cfg: Config, path: Seq<char>, inbound: bool) -> Seq<Seq<char>> {
    match last_match(keys_of(cfg.url_configs@), path) {
        Some(i) => if inbound {
            string_views(cfg.url_configs@[i].1.decrypt_fields@)
        } else {
            string_views(cfg.url_configs@[i].1.encrypt_fields@)
        },
        None => Seq::empty(),
    }
}

/// What `process_nested` returns for the result of `get_cipher`.
pub open spec fn processed<C: CustomCipher>(
    res: Result<Arc<CipherProvider<C>>, ConfigError>,
    data: Json,
    paths: Seq<Seq<char>>,
    act: Action,
    r: Result<Value, ConfigError>,
) -> bool {
    match res {
        Ok(c) => r matches Ok(v) && process_ok(data, v.model(), paths, *c, act),
        Err(ConfigError::MissingKey) => r matches Err(ConfigError::MissingKey),
        Err(ConfigError::MissingSalt) => r matches Err(ConfigError::MissingSalt),
        Err(ConfigError::UnsupportedAlgorithm(a)) => r matches Err(ConfigError::UnsupportedAlgorithm(b)) && b@ == a@,
    }
}

fn clone_fields(v: &Vec<String>) -> (r: Vec<String>)
    ensures
        string_views(r@) == string_views(v@),
{
    let mut r: Vec<String> = Vec::new();
    let mut i: usize = 0;
    while i < v.len()
        invariant
            i <= v@.len(),
            string_views(r@) =~= string_views(v@).subrange(0, i as int),
        decreases v@.len() - i,
    {
        let ghost prev = r@;
        r.push(v[i].clone());
        assert(string_views(r@) =~= string_views(prev).push(v@[i as int]@));
        i = i + 1;
    }
    assert(string_views(v@).subrange(0, v@.len() as int) =~= string_views(v@));
    r
}

impl<K: CipherConstructor> EncryptionPlugin<K> {
    /// Encrypts a text with the configured cipher; where no cipher can be
    /// had, the text comes back unchanged.
    pub fn encrypt(&mut self, plaintext: &str) -> (r: String)
        ensures
            old(self).well_formed() ==> final(self).well_formed(),
            exists|res: Result<Arc<CipherProvider<K::Cipher>>, ConfigError>|
                get_cipher_post(*old(self), *final(self), res) && match res {
                    Ok(c) => c.encrypts_to(plaintext@, r@),
                    Err(_) => r@ == plaintext@,
                },
    {
        let res = self.get_cipher();
        match res {
            Ok(c) => c.encrypt(plaintext),
            Err(_) => plaintext.to_owned(),
        }
    }

    /// Decrypts a text with the configured cipher; where no cipher can be
    /// had, the text comes back unchanged.
    pub fn decrypt(&mut self, ciphertext: &str) -> (r: String)
        ensures
            old(self).well_formed() ==> final(self).well_formed(),
            exists|res: Result<Arc<CipherProvider<K::Cipher>>, ConfigError>|
                get_cipher_post(*old(self), *final(self), res) && match res {
                    Ok(c) => c.decrypts_to(ciphertext@, r@),
                    Err(_) => r@ == ciphertext@,
                },
    {
        let res = self.get_cipher();
        match res {
            Ok(c) => c.decrypt(ciphertext),
            Err(_) => ciphertext.to_owned(),
        }
    }

    /// Applies each dotted path of `fields` in turn to `data`, encrypting
    /// where `action` is "encrypt" and decrypting otherwise. Fails only where
    /// the configuration yields no cipher.
    pub fn process_nested(&mut self, data: Value, fields: &Vec<String>, action: &str) -> (r: Result<Value, ConfigError>)
        ensures
            old(self).well_formed() ==> final(self).well_formed(),
            exists|res: Result<Arc<CipherProvider<K::Cipher>>, ConfigError>|
                get_cipher_post(*old(self), *final(self), res) && processed(
                    res,
                    data.model(),
                    string_views(fields@),
                    action_of(action@),
                    r,
                ),
    {
        let act = if String::from_str(action) == String::from_str("encrypt") {
            Action::Encrypt
        } else {
            Action::Decrypt
        };
        let res = self.get_cipher();
        let ghost g = res;
        match res {
            Ok(c) => {
                let r = Ok(process_paths(data, fields, &*c, act));
                assert(processed(g, data.model(), string_views(fields@), act, r));
                r
            },
            Err(e) => {
                let r = Err(e);
                assert(processed(g, data.model(), string_views(fields@), act, r));
                r
            },
        }
    }

    fn hook(&mut self, path: &str, body: Value, inbound: bool) -> (r: Result<Value, ConfigError>)
        ensures
            old(self).well_formed() ==> final(self).well_formed(),
            route_fields(old(self).config, path@, inbound).len() == 0 ==> (r matches Ok(v) && v == body
                && *final(self) == *old(self)),
            route_fields(old(self).config, path@, inbound).len() > 0 ==> exists|
                res: Result<Arc<CipherProvider<K::Cipher>>, ConfigError>,
            |
                get_cipher_post(*old(self), *final(self), res) && processed(
                    res,
                    body.model(),
                    route_fields(old(self).config, path@, inbound),
                    if inbound { Action::Decrypt } else { Action::Encrypt },
                    r,
                ),
    {
        let route = String::from_str(path);
        let fields = match find_last(&self.config.url_configs, &route) {
            Some(i) => if inbound {
                clone_fields(&self.config.url_configs[i].1.decrypt_fields)
            } else {
                clone_fields(&self.config.url_configs[i].1.encrypt_fields)
            },
            None => Vec::new(),
        };
        assert(string_views(fields@) == route_fields(self.config, path@, inbound));
        if fields.len() == 0 {
            return Ok(body);
        }
        if inbound {
            proof {
                reveal_strlit("decrypt");
                reveal_strlit("encrypt");
            }
            assert("decrypt"@[0] == 'd');
            assert("encrypt"@[0] == 'e');
            assert("decrypt"@ != "encrypt"@);
            self.process_nested(body, &fields, "decrypt")
        } else {
            self.process_nested(body, &fields, "encrypt")
        }
    }

    /// Before a request is handled: decrypts the route's decrypt fields in
    /// its body. A route without them gets its body back untouched.
    pub fn before_request(&mut self, path: &str, body: Value) -> (r: Result<Value, ConfigError>)
        ensures
            old(self).well_formed() ==> final(self).well_formed(),
            route_fields(old(self).config, path@, true).len() == 0 ==> (r matches Ok(v) && v == body
                && *final(self) == *old(self)),
            route_fields(old(self).config, path@, true).len() > 0 ==> exists|
                res: Result<Arc<CipherProvider<K::Cipher>>, ConfigError>,
            |
                get_cipher_post(*old(self), *final(self), res) && processed(
                    res,
                    body.model(),
                    route_fields(old(self).config, path@, true),
                    Action::Decrypt,
                    r,
                ),
    {
        self.hook(path, body, true)
    }

    /// After a response is produced: encrypts the route's encrypt fields in
    /// its body. A route without them gets its body back untouched.
    pub fn after_request(&mut self, path: &str, body: Value) -> (r: Result<Value, ConfigError>)
        ensures
            old(self).well_formed() ==> final(self).well_formed(),
            route_fields(old(self).config, path@, false).len() == 0 ==> (r matches Ok(v) && v == body
                && *final(self) == *old(self)),
            route_fields(old(self).config, path@, false).len() > 0 ==> exists|
                res: Result<Arc<CipherProvider<K::Cipher>>, ConfigError>,
            |
                get_cipher_post(*old(self), *final(self), res) && processed(
                    res,
                    body.model(),
                    route_fields(old(self).config, path@, false),
                    Action::Encrypt,
                    r,
                ),
    {
        self.hook(path, body, false)
    }
}

/// Asking twice for the cipher of one configuration gives the same cipher
/// the second time, from the cache, and leaves the plugin as it was.
pub proof fn lemma_get_cipher_cached<K: CipherConstructor>(
    s0: EncryptionPlugin<K>,
    s1: EncryptionPlugin<K>,
    s2: EncryptionPlugin<K>,
    r1: Result<Arc<CipherProvider<K::Cipher>>, ConfigError>,
    r2: Result<Arc<CipherProvider<K::Cipher>>, ConfigError>,
)
    requires
        get_cipher_post(s0, s1, r1),
        get_cipher_post(s1, s2, r2),
        r1 is Ok,
    ensures
        r2 is Ok,
        *r2->Ok_0 == *r1->Ok_0,
        s2 == s1,
{
    let key = s0.config.key->Some_0;
    let k = cache_key_of(s0.algo_spec(), key@);
    assert(s1.config == s0.config);
    if s0.cached(k) is None {
        let ks = keys_of(s1.cipher_cache@);
        assert(ks.drop_last() =~= keys_of(s0.cipher_cache@));
        assert(ks.last() == k);
        assert(s1.cached(k) == Some(*r1->Ok_0));
    }
}

/// An algorithm name that is neither bound to a constructor nor built in
/// always fails with `UnsupportedAlgorithm`, and nothing is cached for it.
pub proof fn lemma_unsupported_algorithm<K: CipherConstructor>(
    s0: EncryptionPlugin<K>,
    s1: EncryptionPlugin<K>,
    r: Result<Arc<CipherProvider<K::Cipher>>, ConfigError>,
)
    requires
        s0.well_formed(),
        s0.config.key is Some,
        last_match(keys_of(s0.custom_ciphers@), s0.algo_spec()) is None,
        builtin_family(s0.algo_spec()) is None,
        get_cipher_post(s0, s1, r),
    ensures
        r matches Err(ConfigError::UnsupportedAlgorithm(a)) && a@ == s0.algo_spec(),
        s1 == s0,
{
    let k = cache_key_of(s0.algo_spec(), s0.config.key->Some_0@);
    assert(s0.cipher_cache@.len() == 0);
    assert(keys_of(s0.cipher_cache@) =~= Seq::<Seq<char>>::empty());
    assert(s0.cached(k) is None);
}

} // verus!
