//! Byte and text encodings used by the ciphers, and the calls into the
//! outside crates that compute them.
use vstd::prelude::*;
use vstd::utf8::{decode_utf8, valid_utf8};
use vstd::string::{StrSliceExecFns, StringExecFns};

verus! {

/// The block cipher modes offered by OpenSSL that the library uses.
#[derive(Clone, Copy, PartialEq, Eq, Structural, Debug)]
pub enum BlockAlgo {
    /// AES with a 256-bit key in CBC mode.
    Aes256Cbc,
    /// Single DES in CBC mode (legacy, weak).
    DesCbc,
}

/// Key length in bytes that the mode requires.
pub open spec fn key_len(a: BlockAlgo) -> nat {
    match a {
        BlockAlgo::Aes256Cbc => 32,
        BlockAlgo::DesCbc => 8,
    }
}

/// IV (and block) length in bytes of the mode.
pub open spec fn iv_len(a: BlockAlgo) -> nat {
    match a {
        BlockAlgo::Aes256Cbc => 16,
        BlockAlgo::DesCbc => 8,
    }
}

pub open spec fn opt_bytes(r: Option<Vec<u8>>) -> Option<Seq<u8>> {
    match r {
        Some(v) => Some(v@),
        None => None,
    }
}

/// A character of the standard base64 alphabet, or the padding `=`.
pub open spec fn is_base64_char(ch: char) -> bool {
    ('A' <= ch && ch <= 'Z') || ('a' <= ch && ch <= 'z') || ('0' <= ch && ch <= '9') || ch == '+' || ch
        == '/' || ch == '='
}

/// Standard base64 (with padding) of a byte string.
pub uninterp spec fn base64_of(b: Seq<u8>) -> Seq<char>;

/// SHA-256 digest of a byte string.
pub uninterp spec fn sha256_of(b: Seq<u8>) -> Seq<u8>;

/// The bytes that padded CBC encryption under a mode, key and IV gives when it succeeds.
pub uninterp spec fn cbc_encrypt_of(a: BlockAlgo, key: Seq<u8>, iv: Seq<u8>, data: Seq<u8>) -> Seq<u8>;

/// The bytes that padded CBC decryption under a mode, key and IV gives when it succeeds.
pub uninterp spec fn cbc_decrypt_of(a: BlockAlgo, key: Seq<u8>, iv: Seq<u8>, data: Seq<u8>) -> Seq<u8>;

/// Largest input that one OpenSSL update takes.
pub const MAX_CIPHER_INPUT: usize = 0x7fff_ffff;

/// Lower-case hexadecimal digit of a value below 16.
pub open spec fn hex_digit(n: u8) -> char {
    seq!['0', '1', '2', '3', '4', '5', '6', '7', '8', '9', 'a', 'b', 'c', 'd', 'e', 'f'][(n % 16) as int]
}

/// Lower-case hexadecimal text of a byte string, two digits per byte.
pub open spec fn hex_text(b: Seq<u8>) -> Seq<char>
    decreases b.len(),
{
    if b.len() == 0 {
        seq![]
    } else {
        hex_text(b.drop_last()) + seq![hex_digit(b.last() / 16), hex_digit(b.last() % 16)]
    }
}

/// Relies on base64's `STANDARD.encode`: the padded standard encoding of the bytes.
#[verifier::external_body]
pub(crate) fn base64_encode(b: &[u8]) -> (r: String)
    ensures
        r@ == base64_of(b@),
        r@.len() == 4 * ((b@.len() + 2) / 3),
{
    base64::Engine::encode(&base64::engine::general_purpose::STANDARD, b)
}

/// Relies on base64's `STANDARD.decode`, whose configuration requires canonical
/// padding (so a length that is a multiple of four) and rejects trailing
/// bits and bytes outside the alphabet: it
/// succeeds exactly on the encodings of byte strings, and gives back the
/// bytes that were encoded.
#[verifier::external_body]
pub(crate) fn base64_decode(s: &str) -> (r: Option<Vec<u8>>)
    ensures
        r matches Some(b) ==> base64_of(b@) == s@,
        r is Some ==> forall|i: int| 0 <= i < s@.len() ==> is_base64_char(#[trigger] s@[i]),
        r is Some ==> s@.len() % 4 == 0,
        forall|b: Seq<u8>| base64_of(b) == s@ ==> opt_bytes(r) == Some(b),
{
    base64::Engine::decode(&base64::engine::general_purpose::STANDARD, s.as_bytes()).ok()
}

/// Relies on sha2's `Sha256::digest`: a 32-byte digest of the input.
#[verifier::external_body]
pub(crate) fn sha256(b: &[u8]) -> (r: Vec<u8>)
    ensures
        r@ == sha256_of(b@),
        r@.len() == 32,
{
    <sha2::Sha256 as sha2::Digest>::digest(b).to_vec()
}

/// Lower-case hexadecimal text of a byte string, two digits per byte.
pub fn hex_encode(b: &[u8]) -> (r: String)
    ensures
        r@ == hex_text(b@),
{
    let digits = "0123456789abcdef";
    proof {
        reveal_strlit("0123456789abcdef");
    }
    assert(digits@ =~= seq!['0', '1', '2', '3', '4', '5', '6', '7', '8', '9', 'a', 'b', 'c', 'd', 'e', 'f']);
    let mut r = String::new();
    let mut i: usize = 0;
    assert(b@.subrange(0, 0) =~= Seq::<u8>::empty());
    while i < b.len()
        invariant
            i <= b@.len(),
            digits@ == seq!['0', '1', '2', '3', '4', '5', '6', '7', '8', '9', 'a', 'b', 'c', 'd', 'e', 'f'],
            r@ == hex_text(b@.subrange(0, i as int)),
        decreases b@.len() - i,
    {
        let x = b[i];
        let hi = (x / 16) as usize;
        let lo = (x % 16) as usize;
        r.append(digits.substring_char(hi, hi + 1));
        r.append(digits.substring_char(lo, lo + 1));
        let ghost cur = b@.subrange(0, i as int + 1);
        assert(cur.drop_last() =~= b@.subrange(0, i as int));
        assert(cur.last() == x);
        assert(hex_digit(x / 16) == digits@[hi as int]);
        assert(hex_digit(x % 16) == digits@[lo as int]);
        assert(r@ =~= hex_text(cur));
        i = i + 1;
    }
    assert(b@.subrange(0, b@.len() as int) =~= b@);
    r
}

/// Relies on std's `String::from_utf8`: it succeeds exactly on valid UTF-8,
/// and the text is what the bytes encode.
#[verifier::external_body]
pub(crate) fn utf8_to_string(b: Vec<u8>) -> (r: Option<String>)
    ensures
        r.is_some() == valid_utf8(b@),
        r matches Some(s) ==> s@ == decode_utf8(b@),
{
    String::from_utf8(b).ok()
}

/// Relies on openssl's `symm::encrypt`: one-shot padded CBC encryption.
/// It may fail (a mode missing from the OpenSSL build or configuration), so
/// only the bytes of a success are named.
#[verifier::external_body]
pub(crate) fn cbc_encrypt(a: BlockAlgo, key: &[u8], iv: &[u8], data: &[u8]) -> (r: Option<Vec<u8>>)
    requires
        key@.len() == key_len(a),
        iv@.len() == iv_len(a),
        data@.len() <= MAX_CIPHER_INPUT,
    ensures
        r matches Some(c) ==> c@ == cbc_encrypt_of(a, key@, iv@, data@),
{
    let t = match a {
        BlockAlgo::Aes256Cbc => openssl::symm::Cipher::aes_256_cbc(),
        BlockAlgo::DesCbc => openssl::symm::Cipher::des_cbc(),
    };
    openssl::symm::encrypt(t, key, Some(iv), data).ok()
}

/// Relies on openssl's `symm::decrypt`: one-shot padded CBC decryption,
/// which, where it succeeds, inverts `symm::encrypt` under the same mode, key
/// and IV. It may fail, so only the bytes of a success are named.
#[verifier::external_body]
pub(crate) fn cbc_decrypt(a: BlockAlgo, key: &[u8], iv: &[u8], data: &[u8]) -> (r: Option<Vec<u8>>)
    requires
        key@.len() == key_len(a),
        iv@.len() == iv_len(a),
        data@.len() <= MAX_CIPHER_INPUT,
    ensures
        r matches Some(p) ==> p@ == cbc_decrypt_of(a, key@, iv@, data@),
        r matches Some(p) ==> forall|q: Seq<u8>| cbc_encrypt_of(a, key@, iv@, q) == data@ ==> p@ == q,
{
    let t = match a {
        BlockAlgo::Aes256Cbc => openssl::symm::Cipher::aes_256_cbc(),
        BlockAlgo::DesCbc => openssl::symm::Cipher::des_cbc(),
    };
    openssl::symm::decrypt(t, key, Some(iv), data).ok()
}

} // verus!
