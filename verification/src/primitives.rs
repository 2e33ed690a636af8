//! Trusted boundary around outside crates and unspecified parts of std.
//!
//! Each function here is an `external_body` wrapper whose body makes one call
//! into an outside crate or std; its contract is what the rest of the
//! library relies on. Results that are deterministic functions of the
//! arguments but have no short description (a key derivation, a base64
//! encoding, an AEAD sealing, a Unicode character property) are given
//! uninterpreted names, and the wrappers' contracts speak of those names.

use vstd::prelude::*;

use aes_gcm::aead::{Aead, AeadCore, KeyInit, OsRng};
use aes_gcm::{Aes256Gcm, Key, Nonce};
use base64::engine::general_purpose;
use base64::Engine;
use pbkdf2::pbkdf2_hmac;
use rand::RngCore;
use sha2::Sha256;

verus! {

/// The 32-byte key that PBKDF2 with HMAC-SHA-256 derives from a password and
/// a salt at the given iteration count.
pub uninterp spec fn pbkdf2_sha256(password: Seq<u8>, salt: Seq<u8>, iterations: u32) -> Seq<u8>;

/// The padded, standard-alphabet base64 text that encodes a byte sequence.
pub uninterp spec fn base64_encoding_of(bytes: Seq<u8>) -> Seq<char>;

/// The bytes that a text decodes to as base64, or `None` when the text is
/// not valid base64.
pub uninterp spec fn base64_decoding_of(text: Seq<char>) -> Option<Seq<u8>>;

/// The sealed payload (ciphertext with its 16-byte authentication tag
/// appended) that AES-256-GCM produces from a key, a nonce and a plaintext.
pub uninterp spec fn aes256_gcm_seal(key: Seq<u8>, nonce: Seq<u8>, plaintext: Seq<u8>) -> Seq<u8>;

/// The plaintext that AES-256-GCM recovers from a key, a nonce and a sealed
/// payload, or `None` when the authentication tag does not check out.
pub uninterp spec fn aes256_gcm_open(key: Seq<u8>, nonce: Seq<u8>, sealed: Seq<u8>) -> Option<Seq<u8>>;

/// Relies on `rand::thread_rng` and `RngCore::fill_bytes`: fills a buffer of
/// the requested length from a cryptographically secure source. Nothing is
/// assumed of the values themselves.
#[verifier::external_body]
pub(crate) fn random_bytes(len: usize) -> (r: Vec<u8>)
    ensures
        r@.len() == len,
{
    let mut buf = vec![0u8; len];
    rand::thread_rng().fill_bytes(&mut buf);
    buf
}

/// Relies on `aes_gcm::Aes256Gcm::generate_nonce` with the operating
/// system's randomness source: returns a fresh 12-byte nonce. Nothing is
/// assumed of the values themselves.
#[verifier::external_body]
pub(crate) fn fresh_nonce() -> (r: Vec<u8>)
    ensures
        r@.len() == 12,
{
    let nonce = Aes256Gcm::generate_nonce(&mut OsRng);
    nonce.to_vec()
}

/// Relies on `pbkdf2::pbkdf2_hmac` with SHA-256: deterministically
/// stretches (password, salt, iterations) into a 32-byte key.
#[verifier::external_body]
pub(crate) fn derive_key(password: &[u8], salt: &[u8], iterations: u32) -> (r: Vec<u8>)
    ensures
        r@ == pbkdf2_sha256(password@, salt@, iterations),
        r@.len() == 32,
{
    let mut key = [0u8; 32];
    pbkdf2_hmac::<Sha256>(password, salt, iterations, &mut key);
    key.to_vec()
}

/// Relies on `base64::engine::general_purpose::STANDARD.encode`: padded,
/// standard-alphabet base64; decoding the result with the same engine
/// returns exactly the input bytes. The length bound keeps the engine's
/// output-size computation from overflowing.
#[verifier::external_body]
pub(crate) fn base64_encode(bytes: &[u8]) -> (r: String)
    requires
        bytes@.len() <= usize::MAX / 4,
    ensures
        r@ == base64_encoding_of(bytes@),
        base64_decoding_of(r@) == Some(bytes@),
{
    general_purpose::STANDARD.encode(bytes)
}

/// Relies on `base64::engine::general_purpose::STANDARD.decode`: returns
/// the decoded bytes, or `None` when the text is not valid base64.
#[verifier::external_body]
pub(crate) fn base64_decode(text: &str) -> (r: Option<Vec<u8>>)
    ensures
        match r {
            Some(v) => base64_decoding_of(text@) == Some(v@),
            None => base64_decoding_of(text@) is None,
        },
{
    general_purpose::STANDARD.decode(text).ok()
}

/// Relies on `aes_gcm::Aes256Gcm` (AES-256-GCM with a 16-byte postfix tag):
/// seals the plaintext under (key, nonce). The scheme accepts plaintexts of
/// up to 2^36 bytes, so failure means the plaintext was longer than that;
/// opening the result under the same key and nonce returns the plaintext.
#[verifier::external_body]
pub(crate) fn aes_gcm_encrypt(key: &[u8], nonce: &[u8], plaintext: &[u8]) -> (r: Option<Vec<u8>>)
    requires
        key@.len() == 32,
        nonce@.len() == 12,
    ensures
        match r {
            Some(c) => {
                &&& c@ == aes256_gcm_seal(key@, nonce@, plaintext@)
                &&& c@.len() == plaintext@.len() + 16
                &&& aes256_gcm_open(key@, nonce@, c@) == Some(plaintext@)
            },
            None => plaintext@.len() > 0x10_0000_0000,
        },
{
    let cipher = Aes256Gcm::new(Key::<Aes256Gcm>::from_slice(key));
    cipher.encrypt(Nonce::from_slice(nonce), plaintext).ok()
}

/// Relies on `aes_gcm::Aes256Gcm`: opens a sealed payload, failing whenever
/// the authentication tag does not match (a wrong key, a wrong nonce, or any
/// change to the payload).
#[verifier::external_body]
pub(crate) fn aes_gcm_decrypt(key: &[u8], nonce: &[u8], sealed: &[u8]) -> (r: Option<Vec<u8>>)
    requires
        key@.len() == 32,
        nonce@.len() == 12,
    ensures
        match r {
            Some(v) => aes256_gcm_open(key@, nonce@, sealed@) == Some(v@),
            None => aes256_gcm_open(key@, nonce@, sealed@) is None,
        },
{
    let cipher = Aes256Gcm::new(Key::<Aes256Gcm>::from_slice(key));
    cipher.decrypt(Nonce::from_slice(nonce), sealed).ok()
}

/// Whether a character has the Unicode white-space property.
pub uninterp spec fn whitespace_char(c: char) -> bool;

/// Relies on std's `char::is_whitespace`: the Unicode white-space property
/// of the character, a function of the character alone.
#[verifier::external_body]
pub(crate) fn char_is_whitespace(c: char) -> (r: bool)
    ensures
        r == whitespace_char(c),
{
    c.is_whitespace()
}

/// Relies on std's `String::from_utf8`: succeeds exactly on valid UTF-8 and
/// returns the string those bytes encode.
#[verifier::external_body]
pub(crate) fn bytes_to_string(bytes: Vec<u8>) -> (r: Option<String>)
    ensures
        match r {
            Some(s) => vstd::utf8::valid_utf8(bytes@) && vstd::utf8::encode_utf8(s@) == bytes@,
            None => !vstd::utf8::valid_utf8(bytes@),
        },
{
    String::from_utf8(bytes).ok()
}

} // verus!
