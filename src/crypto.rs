//! String ciphers. Each one writes `base64(IV || ciphertext)` and reads it
//! back; any failure along the way hands the input back unchanged.
use vstd::prelude::*;
use vstd::utf8::{decode_utf8, encode_utf8, valid_utf8};
use vstd::slice::slice_subrange;
use crate::codec::{
    BlockAlgo, key_len, iv_len, opt_bytes, base64_of, is_base64_char, cbc_encrypt_of, MAX_CIPHER_INPUT,
    cbc_decrypt_of, base64_encode, base64_decode, cbc_encrypt, cbc_decrypt, utf8_to_string,
};

verus! {

broadcast use {vstd::utf8::encode_utf8_valid_utf8, vstd::utf8::encode_utf8_decode_utf8};

/// Length of the IV that the keystream XOR cipher writes in front of its output.
pub const XOR_IV_LEN: usize = 8;

/// Whether `r` is a possible result of encrypting `p` with a block cipher:
/// the plaintext passed through, or, where the key and IV have the mode's
/// lengths and OpenSSL succeeds, `base64(iv || ciphertext)`.
pub open spec fn block_encrypt_ok(a: BlockAlgo, key: Seq<u8>, iv: Seq<u8>, p: Seq<char>, r: Seq<char>) -> bool {
    ||| r == p
    ||| {
        &&& key.len() == key_len(a)
        &&& iv.len() == iv_len(a)
        &&& encode_utf8(p).len() <= MAX_CIPHER_INPUT
        &&& r == base64_of(iv + cbc_encrypt_of(a, key, iv, encode_utf8(p)))
    }
}

/// What decryption returns once OpenSSL has answered: the text that the
/// decrypted bytes encode where they are valid UTF-8, else the ciphertext.
pub open spec fn finish_spec(decrypted: Option<Seq<u8>>, c: Seq<char>) -> Seq<char> {
    match decrypted {
        Some(p) => if valid_utf8(p) { decode_utf8(p) } else { c },
        None => c,
    }
}

/// Whether decoded bytes `d` reach OpenSSL: the key has the mode's length,
/// `d` holds an IV, and the rest fits one OpenSSL call.
pub open spec fn block_decrypt_fits(a: BlockAlgo, key: Seq<u8>, d: Seq<u8>) -> bool {
    &&& key.len() == key_len(a)
    &&& d.len() >= iv_len(a)
    &&& d.len() - iv_len(a) <= MAX_CIPHER_INPUT
}

/// What OpenSSL gives for decoded bytes `d` when it succeeds: the front of `d`
/// is the IV, the rest the ciphertext.
pub open spec fn block_plain(a: BlockAlgo, key: Seq<u8>, d: Seq<u8>) -> Seq<u8> {
    cbc_decrypt_of(a, key, d.subrange(0, iv_len(a) as int), d.subrange(iv_len(a) as int, d.len() as int))
}

/// Whether `r` is a possible result of decrypting `c` with a block cipher.
/// Text with a character outside base64, or a length that is not a multiple
/// of four, or that no bytes encode to, comes
/// back unchanged; so do bytes that do not reach OpenSSL. Otherwise the
/// result is `finish_spec` of OpenSSL's answer, success or failure.
pub open spec fn block_decrypt_ok(a: BlockAlgo, key: Seq<u8>, c: Seq<char>, r: Seq<char>) -> bool {
    &&& (exists|i: int| 0 <= i < c.len() && !is_base64_char(#[trigger] c[i])) ==> r == c
    &&& c.len() % 4 != 0 ==> r == c
    &&& r != c ==> exists|d: Seq<u8>| #[trigger] base64_of(d) == c
    &&& forall|d: Seq<u8>|
        #[trigger] base64_of(d) == c ==> if block_decrypt_fits(a, key, d) {
            r == finish_spec(None, c) || r == finish_spec(Some(block_plain(a, key, d)), c)
        } else {
            r == c
        }
}

/// What a block cipher writes for `p` under `iv` when OpenSSL succeeds.
pub open spec fn block_framed(a: BlockAlgo, key: Seq<u8>, iv: Seq<u8>, p: Seq<char>) -> Seq<char> {
    base64_of(iv + cbc_encrypt_of(a, key, iv, encode_utf8(p)))
}

fn key_length(a: BlockAlgo) -> (r: usize)
    ensures
        r == key_len(a),
{
    match a {
        BlockAlgo::Aes256Cbc => 32,
        BlockAlgo::DesCbc => 8,
    }
}

fn iv_length(a: BlockAlgo) -> (r: usize)
    ensures
        r == iv_len(a),
{
    match a {
        BlockAlgo::Aes256Cbc => 16,
        BlockAlgo::DesCbc => 8,
    }
}

/// Frames an IV and a ciphertext as `base64(iv || c)`.
fn frame(iv: &Vec<u8>, c: Vec<u8>) -> (r: String)
    ensures
        r@ == base64_of(iv@ + c@),
{
    let mut out = iv.clone();
    let mut c = c;
    assert(out@ =~= iv@);
    out.append(&mut c);
    base64_encode(out.as_slice())
}

fn block_encrypt(a: BlockAlgo, key: &Vec<u8>, iv: &Vec<u8>, plaintext: &str) -> (r: String)
    ensures
        block_encrypt_ok(a, key@, iv@, plaintext@, r@),
{
    let data = plaintext.as_bytes();
    if key.len() != key_length(a) || iv.len() != iv_length(a) || data.len() > MAX_CIPHER_INPUT {
        return plaintext.to_owned();
    }
    match cbc_encrypt(a, key.as_slice(), iv.as_slice(), data) {
        Some(c) => frame(iv, c),
        None => plaintext.to_owned(),
    }
}

/// The last step of decryption, after OpenSSL: valid UTF-8 becomes the
/// text it encodes; anything else hands the ciphertext back.
pub fn finish_decrypt(decrypted: Option<Vec<u8>>, ciphertext: &str) -> (r: String)
    ensures
        r@ == finish_spec(opt_bytes(decrypted), ciphertext@),
        (decrypted matches Some(p) && valid_utf8(p@)) ==> r@ == decode_utf8(decrypted->Some_0@),
        !(decrypted matches Some(p) && valid_utf8(p@)) ==> r@ == ciphertext@,
{
    match decrypted {
        Some(p) => match utf8_to_string(p) {
            Some(s) => s,
            None => ciphertext.to_owned(),
        },
        None => ciphertext.to_owned(),
    }
}

fn block_decrypt(a: BlockAlgo, key: &Vec<u8>, ciphertext: &str) -> (r: String)
    ensures
        block_decrypt_ok(a, key@, ciphertext@, r@),
        forall|iv: Seq<u8>, p: Seq<char>|
            key@.len() == key_len(a) && iv.len() == iv_len(a) && #[trigger] block_framed(a, key@, iv, p)
                == ciphertext@ ==> r@ == p || r@ == ciphertext@,
{
    let decoded = base64_decode(ciphertext);
    let ghost dv = opt_bytes(decoded);
    let r = match decoded {
        None => ciphertext.to_owned(),
        Some(d) => {
            assert(base64_of(d@) == ciphertext@);
            let n = iv_length(a);
            if key.len() != key_length(a) || d.len() < n || d.len() - n > MAX_CIPHER_INPUT {
                ciphertext.to_owned()
            } else {
                let iv = slice_subrange(d.as_slice(), 0, n);
                let body = slice_subrange(d.as_slice(), n, d.len());
                let out = cbc_decrypt(a, key.as_slice(), iv, body);
                assert(out is Some ==> opt_bytes(out) == Some(block_plain(a, key@, d@)));
                finish_decrypt(out, ciphertext)
            }
        },
    };
    assert forall|d: Seq<u8>| #[trigger] base64_of(d) == ciphertext@ implies if block_decrypt_fits(a, key@, d) {
        r@ == finish_spec(None, ciphertext@) || r@ == finish_spec(Some(block_plain(a, key@, d)), ciphertext@)
    } else {
        r@ == ciphertext@
    } by {
        assert(dv == Some(d));
    }
    assert forall|iv: Seq<u8>, p: Seq<char>|
        key@.len() == key_len(a) && iv.len() == iv_len(a) && #[trigger] block_framed(a, key@, iv, p)
            == ciphertext@ implies r@ == p || r@ == ciphertext@ by {
        let c = cbc_encrypt_of(a, key@, iv, encode_utf8(p));
        assert(base64_of(iv + c) == ciphertext@);
        assert(dv == Some(iv + c));
        assert((iv + c).subrange(0, iv_len(a) as int) =~= iv);
        assert((iv + c).subrange(iv_len(a) as int, (iv + c).len() as int) =~= c);
    }
    r
}

/// AES-256-CBC with PKCS#7 padding. Works with a 32-byte key and a 16-byte IV;
/// with other lengths both directions pass their input through.
pub struct AESCipher {
    pub key: Vec<u8>,
    pub iv: Vec<u8>,
}

impl AESCipher {
    pub fn new(key: Vec<u8>, iv: Vec<u8>) -> (r: Self)
        ensures
            r.key@ == key@,
            r.iv@ == iv@,
    {
        AESCipher { key, iv }
    }

    pub open spec fn encrypts_to(&self, p: Seq<char>, r: Seq<char>) -> bool {
        block_encrypt_ok(BlockAlgo::Aes256Cbc, self.key@, self.iv@, p, r)
    }

    /// A possible decryption, which gives back any text that this key
    /// encrypted, under any IV, unless it passes its input through.
    pub open spec fn decrypts_to(&self, c: Seq<char>, r: Seq<char>) -> bool {
        &&& block_decrypt_ok(BlockAlgo::Aes256Cbc, self.key@, c, r)
        &&& forall|iv: Seq<u8>, p: Seq<char>|
            self.key@.len() == 32 && iv.len() == 16 && #[trigger] block_framed(BlockAlgo::Aes256Cbc, self.key@, iv, p) == c
                ==> r == p || r == c
    }

    /// Encrypts a text to `base64(IV || ciphertext)`, or returns it unchanged on failure.
    pub fn encrypt(&self, plaintext: &str) -> (r: String)
        ensures
            self.encrypts_to(plaintext@, r@),
    {
        block_encrypt(BlockAlgo::Aes256Cbc, &self.key, &self.iv, plaintext)
    }

    /// Decrypts `base64(IV || ciphertext)`, taking the IV from the input, or
    /// returns the input unchanged on failure. A text that this key encrypted,
    /// under any IV of the right length, comes back as it was or passes through.
    pub fn decrypt(&self, ciphertext: &str) -> (r: String)
        ensures
            self.decrypts_to(ciphertext@, r@),
    {
        block_decrypt(BlockAlgo::Aes256Cbc, &self.key, ciphertext)
    }
}

/// DES-CBC with PKCS#7 padding, a genuine DES (not AES under another name).
/// Deprecated: do not choose it for new configurations. Works with an 8-byte
/// key and an 8-byte IV; with other lengths both directions pass their input
/// through, as they do where the OpenSSL build no longer offers DES.
pub struct DESCipher {
    pub key: Vec<u8>,
    pub iv: Vec<u8>,
}

impl DESCipher {
    pub fn new(key: Vec<u8>, iv: Vec<u8>) -> (r: Self)
        ensures
            r.key@ == key@,
            r.iv@ == iv@,
    {
        DESCipher { key, iv }
    }

    pub open spec fn encrypts_to(&self, p: Seq<char>, r: Seq<char>) -> bool {
        block_encrypt_ok(BlockAlgo::DesCbc, self.key@, self.iv@, p, r)
    }

    /// A possible decryption, which gives back any text that this key
    /// encrypted, under any IV, unless it passes its input through.
    pub open spec fn decrypts_to(&self, c: Seq<char>, r: Seq<char>) -> bool {
        &&& block_decrypt_ok(BlockAlgo::DesCbc, self.key@, c, r)
        &&& forall|iv: Seq<u8>, p: Seq<char>|
            self.key@.len() == 8 && iv.len() == 8 && #[trigger] block_framed(BlockAlgo::DesCbc, self.key@, iv, p) == c
                ==> r == p || r == c
    }

    /// Encrypts a text to `base64(IV || ciphertext)`, or returns it unchanged on failure.
    pub fn encrypt(&self, plaintext: &str) -> (r: String)
        ensures
            self.encrypts_to(plaintext@, r@),
    {
        block_encrypt(BlockAlgo::DesCbc, &self.key, &self.iv, plaintext)
    }

    /// Decrypts `base64(IV || ciphertext)`, taking the IV from the input, or
    /// returns the input unchanged on failure. A text that this key encrypted,
    /// under any IV of the right length, comes back as it was or passes through.
    pub fn decrypt(&self, ciphertext: &str) -> (r: String)
        ensures
            self.decrypts_to(ciphertext@, r@),
    {
        block_decrypt(BlockAlgo::DesCbc, &self.key, ciphertext)
    }
}

/// The keystream XOR bytes of `data`: byte `i` is `data[i] ^ key[i % key.len()]`.
pub open spec fn xor_stream(data: Seq<u8>, key: Seq<u8>) -> Seq<u8> {
    Seq::new(data.len(), |i: int| data[i] ^ key[i % (key.len() as int)])
}

proof fn lemma_xor_stream_involution(data: Seq<u8>, key: Seq<u8>)
    requires
        key.len() > 0,
    ensures
        xor_stream(xor_stream(data, key), key) == data,
{
    assert forall|i: int| 0 <= i < data.len() implies #[trigger] xor_stream(xor_stream(data, key), key)[i]
        == data[i] by {
        let a = data[i];
        let b = key[i % (key.len() as int)];
        assert((a ^ b) ^ b == a) by (bit_vector);
    }
    assert(xor_stream(xor_stream(data, key), key) =~= data);
}

fn xor_bytes(data: &[u8], key: &[u8]) -> (r: Vec<u8>)
    requires
        key@.len() > 0,
    ensures
        r@ == xor_stream(data@, key@),
{
    let mut out: Vec<u8> = Vec::new();
    let mut i: usize = 0;
    while i < data.len()
        invariant
            i <= data@.len(),
            key@.len() > 0,
            out@ =~= xor_stream(data@, key@).subrange(0, i as int),
        decreases data@.len() - i,
    {
        out.push(data[i] ^ key[i % key.len()]);
        i = i + 1;
    }
    assert(out@ =~= xor_stream(data@, key@));
    out
}

/// Keystream XOR with the key, repeated. INSECURE: offered only as a cipher
/// that needs no cryptographic library, never chosen by default. Works with a
/// non-empty key and an 8-byte IV; otherwise both directions pass their input
/// through.
pub struct XorCipher {
    pub key: Vec<u8>,
    pub iv: Vec<u8>,
}

impl XorCipher {
    pub fn new(key: Vec<u8>, iv: Vec<u8>) -> (r: Self)
        ensures
            r.key@ == key@,
            r.iv@ == iv@,
    {
        XorCipher { key, iv }
    }

    pub open spec fn well_formed(&self) -> bool {
        self.key@.len() > 0 && self.iv@.len() == XOR_IV_LEN
    }

    pub open spec fn encrypt_spec(&self, p: Seq<char>) -> Seq<char> {
        if self.well_formed() {
            base64_of(self.iv@ + xor_stream(encode_utf8(p), self.key@))
        } else {
            p
        }
    }

    pub open spec fn decrypt_spec(&self, c: Seq<char>) -> Seq<char> {
        if exists|d: Seq<u8>| base64_of(d) == c {
            let d = choose|d: Seq<u8>| base64_of(d) == c;
            if self.key@.len() == 0 || d.len() < XOR_IV_LEN {
                c
            } else {
                let p = xor_stream(d.subrange(XOR_IV_LEN as int, d.len() as int), self.key@);
                if valid_utf8(p) { decode_utf8(p) } else { c }
            }
        } else {
            c
        }
    }

    /// Encrypts a text to `base64(IV || keystream XOR)`, or returns it
    /// unchanged where the key is empty or the IV is not 8 bytes.
    pub fn encrypt(&self, plaintext: &str) -> (r: String)
        ensures
            r@ == self.encrypt_spec(plaintext@),
    {
        if self.key.len() == 0 || self.iv.len() != XOR_IV_LEN {
            return plaintext.to_owned();
        }
        let c = xor_bytes(plaintext.as_bytes(), self.key.as_slice());
        frame(&self.iv, c)
    }

    /// Decrypts `base64(IV || keystream XOR)`, or returns the input unchanged
    /// on failure. Whatever this cipher encrypted comes back as it was.
    pub fn decrypt(&self, ciphertext: &str) -> (r: String)
        ensures
            r@ == self.decrypt_spec(ciphertext@),
            (exists|i: int| 0 <= i < ciphertext@.len() && !is_base64_char(#[trigger] ciphertext@[i])) ==> r@ == ciphertext@,
            ciphertext@.len() % 4 != 0 ==> r@ == ciphertext@,
            forall|p: Seq<char>|
                self.well_formed() && #[trigger] self.encrypt_spec(p) == ciphertext@ ==> r@ == p,
    {
        let decoded = base64_decode(ciphertext);
        let ghost dv = opt_bytes(decoded);
        let r = match decoded {
            None => ciphertext.to_owned(),
            Some(d) => {
                assert(base64_of(d@) == ciphertext@);
                let ghost ch = choose|e: Seq<u8>| base64_of(e) == ciphertext@;
                assert(dv == Some(ch));
                if self.key.len() == 0 || d.len() < XOR_IV_LEN {
                    ciphertext.to_owned()
                } else {
                    let body = slice_subrange(d.as_slice(), XOR_IV_LEN, d.len());
                    let p = xor_bytes(body, self.key.as_slice());
                    match utf8_to_string(p) {
                        Some(s) => s,
                        None => ciphertext.to_owned(),
                    }
                }
            },
        };
        assert forall|p: Seq<char>|
            self.well_formed() && #[trigger] self.encrypt_spec(p) == ciphertext@ implies r@ == p by {
            let c = xor_stream(encode_utf8(p), self.key@);
            assert(base64_of(self.iv@ + c) == ciphertext@);
            assert(dv == Some(self.iv@ + c));
            assert((self.iv@ + c).subrange(XOR_IV_LEN as int, (self.iv@ + c).len() as int) =~= c);
            lemma_xor_stream_involution(encode_utf8(p), self.key@);
        }
        r
    }
}

/// Whether a field is encrypted or decrypted.
#[derive(Clone, Copy, PartialEq, Eq, Structural, Debug)]
pub enum Action {
    Encrypt,
    Decrypt,
}

/// A cipher that the host supplies. `encrypts_to` and `decrypts_to` say
/// which results an implementation may give; like the built-in ciphers it
/// should hand its input back rather than fail.
pub trait CustomCipher: Sized {
    spec fn encrypts_to(&self, p: Seq<char>, r: Seq<char>) -> bool;

    spec fn decrypts_to(&self, c: Seq<char>, r: Seq<char>) -> bool;

    fn encrypt(&self, plaintext: &str) -> (r: String)
        ensures
            self.encrypts_to(plaintext@, r@),
    ;

    fn decrypt(&self, ciphertext: &str) -> (r: String)
        ensures
            self.decrypts_to(ciphertext@, r@),
    ;
}

/// A constructor that the host binds to an algorithm name: it builds a
/// cipher from the 32-byte SHA-256 digest of the configured key.
pub trait CipherConstructor: Sized {
    type Cipher: CustomCipher;

    spec fn builds(&self, key: Seq<u8>, c: Self::Cipher) -> bool;

    fn construct(&self, key: Vec<u8>) -> (r: Self::Cipher)
        ensures
            self.builds(key@, r),
    ;
}

impl CustomCipher for XorCipher {
    open spec fn encrypts_to(&self, p: Seq<char>, r: Seq<char>) -> bool {
        r == self.encrypt_spec(p)
    }

    open spec fn decrypts_to(&self, c: Seq<char>, r: Seq<char>) -> bool {
        &&& r == self.decrypt_spec(c)
        &&& (exists|i: int| 0 <= i < c.len() && !is_base64_char(#[trigger] c[i])) ==> r == c
        &&& c.len() % 4 != 0 ==> r == c
    }

    fn encrypt(&self, plaintext: &str) -> (r: String) {
        XorCipher::encrypt(self, plaintext)
    }

    fn decrypt(&self, ciphertext: &str) -> (r: String) {
        XorCipher::decrypt(self, ciphertext)
    }
}

/// Builds keystream XOR ciphers with a fixed IV from the key digest.
pub struct XorConstructor {
    pub iv: Vec<u8>,
}

impl CipherConstructor for XorConstructor {
    type Cipher = XorCipher;

    open spec fn builds(&self, key: Seq<u8>, c: XorCipher) -> bool {
        c.key@ == key && c.iv@ == self.iv@
    }

    fn construct(&self, key: Vec<u8>) -> (r: XorCipher) {
        XorCipher::new(key, self.iv.clone())
    }
}

/// Decrypting what a built-in cipher encrypted gives the plaintext back,
/// unless one of the two steps passed its input through (a failure inside
/// OpenSSL, or a key or IV of the wrong length).
pub proof fn lemma_builtin_round_trip<C: CustomCipher>(c: CipherProvider<C>, p: Seq<char>, e: Seq<char>, d: Seq<char>)
    requires
        !(c is Custom),
        c.encrypts_to(p, e),
        c.decrypts_to(e, d),
    ensures
        d == p || e == p || d == e,
{
    match c {
        CipherProvider::Aes(x) => {
            if e != p {
                assert(block_framed(BlockAlgo::Aes256Cbc, x.key@, x.iv@, p) == e);
            }
        },
        CipherProvider::Des(x) => {
            if e != p {
                assert(block_framed(BlockAlgo::DesCbc, x.key@, x.iv@, p) == e);
            }
        },
        CipherProvider::Custom(_) => {},
    }
}

/// A constructed cipher: a built-in one, or one that the host supplied.
pub enum CipherProvider<C> {
    Aes(AESCipher),
    Des(DESCipher),
    Custom(C),
}

impl<C: CustomCipher> CipherProvider<C> {
    pub open spec fn encrypts_to(&self, p: Seq<char>, r: Seq<char>) -> bool {
        match self {
            CipherProvider::Aes(c) => c.encrypts_to(p, r),
            CipherProvider::Des(c) => c.encrypts_to(p, r),
            CipherProvider::Custom(c) => c.encrypts_to(p, r),
        }
    }

    pub open spec fn decrypts_to(&self, c: Seq<char>, r: Seq<char>) -> bool {
        match self {
            CipherProvider::Aes(x) => x.decrypts_to(c, r),
            CipherProvider::Des(x) => x.decrypts_to(c, r),
            CipherProvider::Custom(x) => x.decrypts_to(c, r),
        }
    }

    pub open spec fn applies_to(&self, act: Action, s: Seq<char>, r: Seq<char>) -> bool {
        match act {
            Action::Encrypt => self.encrypts_to(s, r),
            Action::Decrypt => self.decrypts_to(s, r),
        }
    }

    pub fn encrypt(&self, plaintext: &str) -> (r: String)
        ensures
            self.encrypts_to(plaintext@, r@),
    {
        match self {
            CipherProvider::Aes(c) => c.encrypt(plaintext),
            CipherProvider::Des(c) => c.encrypt(plaintext),
            CipherProvider::Custom(c) => c.encrypt(plaintext),
        }
    }

    pub fn decrypt(&self, ciphertext: &str) -> (r: String)
        ensures
            self.decrypts_to(ciphertext@, r@),
    {
        match self {
            CipherProvider::Aes(c) => c.decrypt(ciphertext),
            CipherProvider::Des(c) => c.decrypt(ciphertext),
            CipherProvider::Custom(c) => c.decrypt(ciphertext),
        }
    }

    pub fn apply(&self, act: Action, s: &str) -> (r: String)
        ensures
            self.applies_to(act, s@, r@),
    {
        match act {
            Action::Encrypt => self.encrypt(s),
            Action::Decrypt => self.decrypt(s),
        }
    }
}

} // verus!
