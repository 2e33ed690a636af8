//! Password hashing and authenticated encryption.
//!
//! A credential record is base64(salt ‖ derived hash): 32 random salt bytes
//! followed by the 32-byte PBKDF2-HMAC-SHA-256 hash of the password at a high
//! iteration count. A ciphertext record is base64(nonce ‖ sealed payload):
//! 12 random nonce bytes followed by the AES-256-GCM ciphertext and its
//! 16-byte authentication tag, under a key derived from the passphrase with
//! a fixed application salt at a lower iteration count.
//!
//! Empty passwords and empty plaintexts are accepted: hashing the empty
//! password yields a record it verifies against, and encrypting the empty
//! string yields a record that decrypts back to it.

use vstd::prelude::*;

use crate::primitives::{
    aes256_gcm_open, aes256_gcm_seal, aes_gcm_decrypt, aes_gcm_encrypt, base64_decode,
    base64_decoding_of, base64_encode, base64_encoding_of, bytes_to_string, derive_key,
    fresh_nonce, pbkdf2_sha256, random_bytes,
};
use vstd::utf8::{decode_utf8, encode_utf8, valid_utf8};

verus! {

/// Length in bytes of the random salt of a credential record.
pub const SALT_LENGTH: usize = 32;

/// Length in bytes of the derived hash of a credential record.
pub const HASH_LENGTH: usize = 32;

/// PBKDF2 iteration count for credential hashing: high, to resist offline
/// brute force against stored records.
pub const CREDENTIAL_ITERATIONS: u32 = 100_000;

/// Length in bytes of the AES-256-GCM nonce of a ciphertext record.
pub const NONCE_LENGTH: usize = 12;

/// Length in bytes of the AES-256-GCM authentication tag.
pub const TAG_LENGTH: usize = 16;

/// PBKDF2 iteration count for deriving the encryption key from a
/// passphrase: lower than the credential count, for per-operation use.
pub const KEY_ITERATIONS: u32 = 10_000;

/// The fixed, non-secret salt under which every encryption key is derived.
/// A known limitation carried over deliberately: it is shared by all
/// passphrases, so rainbow-table resistance rests on the iteration cost
/// alone. (The bytes spell "encryption_salt" in ASCII.)
pub open spec fn encryption_salt() -> Seq<u8> {
    seq![
        101u8, 110u8, 99u8, 114u8, 121u8, 112u8, 116u8, 105u8, 111u8, 110u8, 95u8, 115u8, 97u8,
        108u8, 116u8,
    ]
}

fn encryption_salt_bytes() -> (r: Vec<u8>)
    ensures
        r@ == encryption_salt(),
{
    let mut v: Vec<u8> = Vec::new();
    v.push(101);
    v.push(110);
    v.push(99);
    v.push(114);
    v.push(121);
    v.push(112);
    v.push(116);
    v.push(105);
    v.push(111);
    v.push(110);
    v.push(95);
    v.push(115);
    v.push(97);
    v.push(108);
    v.push(116);
    proof {
        assert(v@ =~= encryption_salt());
    }
    v
}

/// The derived hash stored in a credential record for a password and a salt.
pub open spec fn credential_hash_of(password: Seq<char>, salt: Seq<u8>) -> Seq<u8> {
    pbkdf2_sha256(encode_utf8(password), salt, CREDENTIAL_ITERATIONS)
}

/// The symmetric key derived from a passphrase for encryption and
/// decryption: deterministic per passphrase.
pub open spec fn encryption_key_of(passphrase: Seq<char>) -> Seq<u8> {
    pbkdf2_sha256(encode_utf8(passphrase), encryption_salt(), KEY_ITERATIONS)
}

/// What it means for `record` to be a credential record of `password` with
/// the given salt: the salt has its fixed length, the derived hash has its
/// fixed length, and the record is the base64 encoding of salt ‖ hash.
pub open spec fn credential_record_for(password: Seq<char>, salt: Seq<u8>, record: Seq<char>) -> bool {
    &&& salt.len() == SALT_LENGTH
    &&& credential_hash_of(password, salt).len() == HASH_LENGTH
    &&& record == base64_encoding_of(salt + credential_hash_of(password, salt))
    &&& base64_decoding_of(record) == Some(salt + credential_hash_of(password, salt))
}

/// A credential record of `password` under some salt: what `hash_password`
/// returns.
pub open spec fn valid_credential_record(password: Seq<char>, record: Seq<char>) -> bool {
    exists|salt: Seq<u8>| #[trigger] credential_record_for(password, salt, record)
}

/// The outcome of verifying `password` against `record`: `None` when the
/// record is malformed (not base64, or shorter than salt ‖ hash when
/// decoded), otherwise whether the hash recomputed from the password and the
/// embedded salt equals the stored hash.
pub open spec fn verify_outcome(password: Seq<char>, record: Seq<char>) -> Option<bool> {
    match base64_decoding_of(record) {
        Some(decoded) => if decoded.len() >= SALT_LENGTH + HASH_LENGTH {
            Some(credential_hash_of(password, decoded.subrange(0, SALT_LENGTH as int))
                == decoded.subrange(SALT_LENGTH as int, (SALT_LENGTH + HASH_LENGTH) as int))
        } else {
            None
        },
        None => None,
    }
}

/// What it means for `record` to be a ciphertext record of `plaintext` under
/// `passphrase` with the given nonce: the record is the base64 encoding of
/// nonce ‖ sealed payload, the payload carries its 16-byte tag, and opening
/// it under the same key and nonce returns the plaintext bytes.
pub open spec fn encrypted_record_for(
    plaintext: Seq<char>,
    passphrase: Seq<char>,
    nonce: Seq<u8>,
    record: Seq<char>,
) -> bool {
    let key = encryption_key_of(passphrase);
    let content = encode_utf8(plaintext);
    let sealed = aes256_gcm_seal(key, nonce, content);
    &&& nonce.len() == NONCE_LENGTH
    &&& sealed.len() == content.len() + TAG_LENGTH
    &&& aes256_gcm_open(key, nonce, sealed) == Some(content)
    &&& record == base64_encoding_of(nonce + sealed)
    &&& base64_decoding_of(record) == Some(nonce + sealed)
}

/// A ciphertext record of `plaintext` under `passphrase` and some nonce:
/// what `encrypt_data` returns.
pub open spec fn valid_encrypted_record(
    plaintext: Seq<char>,
    passphrase: Seq<char>,
    record: Seq<char>,
) -> bool {
    exists|nonce: Seq<u8>| #[trigger] encrypted_record_for(plaintext, passphrase, nonce, record)
}

/// The outcome of decrypting `record` under `passphrase`: `None` when the
/// record is malformed (not base64, or shorter than a nonce when decoded),
/// when the authentication check fails (wrong passphrase or tampering), or
/// when the recovered bytes are not valid text; otherwise the recovered
/// text.
pub open spec fn decrypt_outcome(record: Seq<char>, passphrase: Seq<char>) -> Option<Seq<char>> {
    match base64_decoding_of(record) {
        Some(decoded) => if decoded.len() < NONCE_LENGTH {
            None
        } else {
            match aes256_gcm_open(
                encryption_key_of(passphrase),
                decoded.subrange(0, NONCE_LENGTH as int),
                decoded.subrange(NONCE_LENGTH as int, decoded.len() as int),
            ) {
                Some(content) => if valid_utf8(content) {
                    Some(decode_utf8(content))
                } else {
                    None
                },
                None => None,
            }
        },
        None => None,
    }
}

/// A plaintext too long to encrypt: beyond the AES-GCM length bound, or so
/// long that base64-encoding nonce ‖ payload ‖ tag could overflow the
/// encoder's size computation.
pub open spec fn oversized_plaintext(content_len: nat) -> bool {
    ||| content_len > 0x10_0000_0000
    ||| content_len + NONCE_LENGTH + TAG_LENGTH > usize::MAX as nat / 4
}

/// Compares two equal-length byte slices in constant time: the running time
/// does not depend on the position of the first differing byte, so the
/// comparison of a recomputed credential hash against a stored one leaks no
/// timing information.
pub fn constant_time_eq(a: &[u8], b: &[u8]) -> (r: bool)
    requires
        a@.len() == b@.len(),
    ensures
        r == (a@ == b@),
{
    let mut diff: u8 = 0;
    let mut i: usize = 0;
    while i < a.len()
        invariant
            a@.len() == b@.len(),
            i <= a@.len(),
            (diff == 0) <==> (forall|j: int| 0 <= j < i ==> a@[j] == b@[j]),
        decreases a@.len() - i,
    {
        let x = a[i];
        let y = b[i];
        let d = x ^ y;
        proof {
            assert((x ^ y) == 0 <==> x == y) by (bit_vector);
            assert((diff | d) == 0 <==> diff == 0 && d == 0) by (bit_vector);
        }
        diff = diff | d;
        i = i + 1;
    }
    if diff == 0 {
        proof {
            assert(a@ =~= b@);
        }
        true
    } else {
        false
    }
}

/// Hashes a password into a self-contained credential record: a fresh
/// 32-byte random salt, the password's derived hash under that salt, and
/// the two together base64-encoded. Always succeeds; two calls return
/// different records (fresh salts), and each verifies against the password.
pub fn hash_password(password: &str) -> (r: Result<String, String>)
    ensures
        r is Ok,
        r matches Ok(record) ==> valid_credential_record(password@, record@),
{
    let salt = random_bytes(SALT_LENGTH);
    let hash = derive_key(password.as_bytes(), salt.as_slice(), CREDENTIAL_ITERATIONS);
    let mut combined: Vec<u8> = Vec::new();
    combined.extend_from_slice(salt.as_slice());
    combined.extend_from_slice(hash.as_slice());
    let record = base64_encode(combined.as_slice());
    proof {
        assert(combined@ =~= salt@ + credential_hash_of(password@, salt@));
        assert(credential_record_for(password@, salt@, record@));
        assert(valid_credential_record(password@, record@));
    }
    Ok(record)
}

/// Verifies a password against a credential record: decodes the record,
/// rejects it as malformed when it is not base64 or decodes to fewer than 64
/// bytes, recomputes the derived hash from the password and the embedded
/// salt, and compares it to the stored hash in constant time. A mismatched
/// password returns `Ok(false)`, never an error.
pub fn verify_password(password: &str, hash: &str) -> (r: Result<bool, String>)
    ensures
        match r {
            Ok(b) => verify_outcome(password@, hash@) == Some(b),
            Err(_) => verify_outcome(password@, hash@) is None,
        },
{
    let decoded = match base64_decode(hash) {
        Some(v) => v,
        None => {
            return Err("invalid hash record: not valid base64".to_owned());
        },
    };
    if decoded.len() < SALT_LENGTH + HASH_LENGTH {
        return Err("invalid hash record: decoded data too short".to_owned());
    }
    let salt = vstd::slice::slice_subrange(decoded.as_slice(), 0, SALT_LENGTH);
    let stored = vstd::slice::slice_subrange(decoded.as_slice(), SALT_LENGTH, SALT_LENGTH + HASH_LENGTH);
    let computed = derive_key(password.as_bytes(), salt, CREDENTIAL_ITERATIONS);
    let same = constant_time_eq(computed.as_slice(), stored);
    Ok(same)
}

/// Encrypts a text under a passphrase into a self-contained ciphertext
/// record: the key is derived from the passphrase with the fixed
/// application salt, a fresh 12-byte nonce is drawn, the text is sealed
/// under AES-256-GCM, and nonce ‖ sealed payload is base64-encoded. Fails
/// only on plaintexts beyond the scheme's length bounds.
pub fn encrypt_data(data: &str, password: &str) -> (r: Result<String, String>)
    ensures
        match r {
            Ok(record) => valid_encrypted_record(data@, password@, record@),
            Err(_) => oversized_plaintext(encode_utf8(data@).len()),
        },
{
    let content = data.as_bytes();
    proof {
        assert(usize::MAX / 4 >= NONCE_LENGTH + TAG_LENGTH);
    }
    if content.len() as u64 > 0x10_0000_0000u64
        || content.len() > usize::MAX / 4 - (NONCE_LENGTH + TAG_LENGTH) {
        return Err("data too large to encrypt".to_owned());
    }
    let salt = encryption_salt_bytes();
    let key = derive_key(password.as_bytes(), salt.as_slice(), KEY_ITERATIONS);
    let nonce = fresh_nonce();
    let sealed = match aes_gcm_encrypt(key.as_slice(), nonce.as_slice(), content) {
        Some(c) => c,
        None => {
            return Err("encryption failed".to_owned());
        },
    };
    let mut combined: Vec<u8> = Vec::new();
    combined.extend_from_slice(nonce.as_slice());
    combined.extend_from_slice(sealed.as_slice());
    let record = base64_encode(combined.as_slice());
    proof {
        assert(combined@ =~= nonce@ + sealed@);
        assert(encrypted_record_for(data@, password@, nonce@, record@));
        assert(valid_encrypted_record(data@, password@, record@));
    }
    Ok(record)
}

/// Decrypts a ciphertext record under a passphrase: decodes the record,
/// rejects it as malformed when it is not base64 or decodes to fewer than 12
/// bytes, re-derives the key exactly as encryption does, and opens the
/// sealed payload. A failed authentication check — a wrong passphrase or any
/// tampering, indistinguishably — is one generic error; recovered bytes that
/// are not valid text are a distinct error.
pub fn decrypt_data(encrypted: &str, password: &str) -> (r: Result<String, String>)
    ensures
        match r {
            Ok(text) => decrypt_outcome(encrypted@, password@) == Some(text@),
            Err(_) => decrypt_outcome(encrypted@, password@) is None,
        },
{
    let decoded = match base64_decode(encrypted) {
        Some(v) => v,
        None => {
            return Err("invalid encrypted record: not valid base64".to_owned());
        },
    };
    if decoded.len() < NONCE_LENGTH {
        return Err("invalid encrypted record: decoded data too short".to_owned());
    }
    let nonce = vstd::slice::slice_subrange(decoded.as_slice(), 0, NONCE_LENGTH);
    let sealed = vstd::slice::slice_subrange(decoded.as_slice(), NONCE_LENGTH, decoded.len());
    let salt = encryption_salt_bytes();
    let key = derive_key(password.as_bytes(), salt.as_slice(), KEY_ITERATIONS);
    let content = match aes_gcm_decrypt(key.as_slice(), nonce, sealed) {
        Some(v) => v,
        None => {
            return Err("decryption failed".to_owned());
        },
    };
    match bytes_to_string(content) {
        Some(text) => {
            proof {
                vstd::utf8::encode_utf8_decode_utf8(text@);
            }
            Ok(text)
        },
        None => Err("decrypted data is not valid text".to_owned()),
    }
}

/// Law: verification round-trips hashing. A credential record built from any
/// password and any fresh salt — exactly what `hash_password` returns —
/// verifies as `true` against that password.
pub proof fn lemma_hash_then_verify(password: Seq<char>, salt: Seq<u8>, record: Seq<char>)
    requires
        credential_record_for(password, salt, record),
    ensures
        verify_outcome(password, record) == Some(true),
{
    let combined = salt + credential_hash_of(password, salt);
    assert(combined.subrange(0, SALT_LENGTH as int) =~= salt);
    assert(combined.subrange(SALT_LENGTH as int, (SALT_LENGTH + HASH_LENGTH) as int)
        =~= credential_hash_of(password, salt));
}

/// Law: round-trip verification. Whatever record `hash_password` returns
/// for a password — its postcondition is exactly `valid_credential_record` —
/// `verify_password` returns `Ok(true)` for that password and record, since
/// its result equals `verify_outcome`.
pub proof fn lemma_round_trip_verify(password: Seq<char>, record: Seq<char>)
    requires
        valid_credential_record(password, record),
    ensures
        verify_outcome(password, record) == Some(true),
{
    let salt = choose|salt: Seq<u8>| credential_record_for(password, salt, record);
    lemma_hash_then_verify(password, salt, record);
}

/// Law: decryption round-trips encryption. A ciphertext record built from
/// any plaintext, passphrase and fresh nonce — exactly what `encrypt_data`
/// returns — decrypts to that plaintext under the same passphrase.
pub proof fn lemma_encrypt_then_decrypt(
    plaintext: Seq<char>,
    passphrase: Seq<char>,
    nonce: Seq<u8>,
    record: Seq<char>,
)
    requires
        encrypted_record_for(plaintext, passphrase, nonce, record),
    ensures
        decrypt_outcome(record, passphrase) == Some(plaintext),
{
    let key = encryption_key_of(passphrase);
    let content = encode_utf8(plaintext);
    let sealed = aes256_gcm_seal(key, nonce, content);
    let combined = nonce + sealed;
    assert(combined.subrange(0, NONCE_LENGTH as int) =~= nonce);
    assert(combined.subrange(NONCE_LENGTH as int, combined.len() as int) =~= sealed);
    vstd::utf8::encode_utf8_valid_utf8(plaintext);
    vstd::utf8::encode_utf8_decode_utf8(plaintext);
}

/// Law: round-trip encryption. Whatever record `encrypt_data` returns for a
/// plaintext and passphrase — its postcondition is exactly
/// `valid_encrypted_record` — `decrypt_data` returns that plaintext under
/// the same passphrase, since its result equals `decrypt_outcome`.
pub proof fn lemma_round_trip_encrypt(plaintext: Seq<char>, passphrase: Seq<char>, record: Seq<char>)
    requires
        valid_encrypted_record(plaintext, passphrase, record),
    ensures
        decrypt_outcome(record, passphrase) == Some(plaintext),
{
    let nonce = choose|nonce: Seq<u8>|
        encrypted_record_for(plaintext, passphrase, nonce, record);
    lemma_encrypt_then_decrypt(plaintext, passphrase, nonce, record);
}

} // verus!
