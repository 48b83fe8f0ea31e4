//! Selective field encryption for nested documents.
//!
//! A cipher (AES-256-CBC, DES-CBC, or one the host supplies through
//! `CipherConstructor`, such as the insecure keystream XOR) turns a string
//! into `base64(IV || ciphertext)` and back, passing its input through
//! unchanged on any failure. A plugin derives the cipher from its
//! configuration, caches it, and walks dotted field paths through documents to
//! encrypt or decrypt the values it finds.

pub mod codec;
pub mod crypto;
pub mod document;
pub mod middleware;
