//! Key derivation and authenticated encryption of shards.
//!
//! A passphrase becomes a secretbox key through the hexadecimal SHA-256 digest of its
//! bytes, of which the first 32 characters are taken as key bytes. Each shard is sealed
//! under its own nonce; nonce and ciphertext travel as Base64 text.

use vstd::prelude::*;
use vstd::string::StringSliceAdditionalSpecFns;
use vstd::utf8::{encode_utf8, is_ascii_chars, is_ascii_chars_encode_utf8};
use sha256::Sha256Digest;
use sodiumoxide::crypto::secretbox;
use crate::b64::{b64_decoded, b64_decodes, b64_encode, decode_base64, encode_base64, lemma_decode_encode};
use crate::algorithm::models::{EncryptedData, HorcruxError};

verus! {

/// Bytes in a secretbox key.
pub const KEY_BYTES: usize = 32;

/// Bytes in a secretbox nonce.
pub const NONCE_BYTES: usize = 24;

/// Bytes that sealing adds to a message: the authentication tag.
pub const MAC_BYTES: usize = 16;

/// The lowercase hexadecimal SHA-256 digest of `data`.
pub uninterp spec fn sha256_hex(data: Seq<u8>) -> Seq<char>;

/// The ciphertext of `m` sealed by secretbox (XSalsa20-Poly1305) under nonce `n` and key `k`.
pub uninterp spec fn secretbox_seal(m: Seq<u8>, n: Seq<u8>, k: Seq<u8>) -> Seq<u8>;

/// What opening `c` under nonce `n` and key `k` gives: the message, or `None` when `c`
/// does not verify.
pub uninterp spec fn secretbox_open(c: Seq<u8>, n: Seq<u8>, k: Seq<u8>) -> Option<Seq<u8>>;

/// Hexadecimal SHA-256 digest of `data`, through the `sha256` crate.
///
/// Trusted: `Sha256Digest::digest` on a byte slice returns `hex::encode` of the 32-byte
/// digest, which is 64 ASCII characters; which characters is named, not stated.
#[verifier::external_body]
fn sha256_digest_hex(data: &[u8]) -> (hex: String)
    ensures
        hex@ == sha256_hex(data@),
        hex@.len() == 64,
        is_ascii_chars(hex@),
{
    data.digest()
}

/// A fresh random nonce, from `secretbox::gen_nonce`.
///
/// Trusted: the nonce has `NONCEBYTES` (24) bytes; its value is chance and stated nowhere.
#[verifier::external_body]
fn random_nonce() -> (nonce: Vec<u8>)
    ensures
        nonce@.len() == NONCE_BYTES,
{
    secretbox::gen_nonce().0.to_vec()
}

/// Seals `m` with `secretbox::seal`.
///
/// Trusted: the ciphertext is the named `secretbox_seal` of the arguments, is `MACBYTES`
/// (16) longer than the message, and opens to the message under the same nonce and key, as
/// the crate's own round-trip test checks.
#[verifier::external_body]
fn secretbox_seal_bytes(m: &[u8], nonce: &[u8], key: &[u8]) -> (c: Vec<u8>)
    requires
        nonce@.len() == NONCE_BYTES,
        key@.len() == KEY_BYTES,
        m@.len() + MAC_BYTES <= usize::MAX,
    ensures
        c@ == secretbox_seal(m@, nonce@, key@),
        c@.len() == m@.len() + MAC_BYTES,
        secretbox_open(c@, nonce@, key@) == Some(m@),
{
    let n = secretbox::Nonce::from_slice(nonce).unwrap();
    let k = secretbox::Key::from_slice(key).unwrap();
    secretbox::seal(m, &n, &k)
}

/// Opens `c` with `secretbox::open`.
///
/// Trusted: the outcome is the named `secretbox_open` of the arguments.
#[verifier::external_body]
fn secretbox_open_bytes(c: &[u8], nonce: &[u8], key: &[u8]) -> (r: Result<Vec<u8>, ()>)
    requires
        nonce@.len() == NONCE_BYTES,
        key@.len() == KEY_BYTES,
    ensures
        match r {
            Ok(m) => secretbox_open(c@, nonce@, key@) == Some(m@),
            Err(_) => secretbox_open(c@, nonce@, key@) is None,
        },
{
    let n = secretbox::Nonce::from_slice(nonce).unwrap();
    let k = secretbox::Key::from_slice(key).unwrap();
    secretbox::open(c, &n, &k)
}

/// The key bytes for a passphrase: the first 32 characters of the hexadecimal SHA-256
/// digest of the passphrase's UTF-8 bytes, taken as bytes.
pub open spec fn secret_key(passphrase: Seq<char>) -> Seq<u8> {
    encode_utf8(sha256_hex(encode_utf8(passphrase))).take(KEY_BYTES as int)
}

/// The key of a passphrase is the first 32 characters of the hexadecimal SHA-256 digest of
/// all of the passphrase's UTF-8 bytes, taken as bytes.
pub proof fn lemma_key_is_digest_prefix(passphrase: Seq<char>)
    ensures
        secret_key(passphrase) == encode_utf8(sha256_hex(encode_utf8(passphrase))).take(32),
{
}

/// Derives the secretbox key of a passphrase.
pub fn derive_key(passphrase: &str) -> (key: Vec<u8>)
    ensures
        key@ == secret_key(passphrase@),
        key@ == encode_utf8(sha256_hex(passphrase.spec_bytes())).take(32),
        key@.len() == KEY_BYTES,
{
    let hex = sha256_digest_hex(passphrase.as_bytes());
    let bytes = hex.as_str().as_bytes();
    proof {
        is_ascii_chars_encode_utf8(hex@);
    }
    vstd::slice::slice_to_vec(&bytes[0..KEY_BYTES])
}


/// What opening one sealed shard under the key bytes `key` comes to.
pub enum Opening {
    /// Nonce and ciphertext are Base64, the nonce has 24 bytes and the ciphertext
    /// verifies: the message.
    Opened(Seq<u8>),
    /// The nonce or the ciphertext is not Base64 text.
    BadBase64,
    /// Both are Base64 text but the nonce does not have 24 bytes.
    BadNonce,
    /// The ciphertext does not verify.
    Rejected,
}

/// The outcome of opening `e` under `key`, in the order the checks are made.
pub open spec fn opening(e: EncryptedData, key: Seq<u8>) -> Opening {
    if !b64_decodes(e.nonce@) || !b64_decodes(e.encrypted_data@) {
        Opening::BadBase64
    } else if b64_decoded(e.nonce@).len() != NONCE_BYTES {
        Opening::BadNonce
    } else {
        match secretbox_open(b64_decoded(e.encrypted_data@), b64_decoded(e.nonce@), key) {
            Some(m) => Opening::Opened(m),
            None => Opening::Rejected,
        }
    }
}

/// `err` is the error that reports the failed opening `o`.
pub open spec fn reports(o: Opening, err: HorcruxError) -> bool {
    ||| (o is BadBase64 && err is Base64)
    ||| (o is Rejected && err is DecryptionFailed)
}

/// `e` is `m` sealed under the key bytes `key` and some nonce of 24 bytes, by a seal
/// whose ciphertext opens back to `m`.
pub open spec fn sealed_with(e: EncryptedData, m: Seq<u8>, key: Seq<u8>) -> bool {
    exists|n: Seq<u8>| #[trigger] sealed_under(e, m, n, key)
}

/// `e` is `m` sealed under nonce `n` and the key bytes `key`, by a seal whose ciphertext
/// is 16 bytes longer than `m` and opens back to `m`.
pub open spec fn sealed_under(e: EncryptedData, m: Seq<u8>, n: Seq<u8>, key: Seq<u8>) -> bool {
    &&& n.len() == NONCE_BYTES
    &&& key.len() == KEY_BYTES
    &&& e.nonce@ == b64_encode(n)
    &&& e.encrypted_data@ == b64_encode(secretbox_seal(m, n, key))
    &&& secretbox_seal(m, n, key).len() == m.len() + MAC_BYTES
    &&& secretbox_open(secretbox_seal(m, n, key), n, key) == Some(m)
}

/// The Base64 text of a sealed message of `len` bytes fits in memory.
pub open spec fn sealable_len(len: nat) -> bool {
    (len + MAC_BYTES + 2) / 3 * 4 <= usize::MAX
}

/// Seals `plaintext` under `nonce` and `key` and writes ciphertext and nonce as Base64.
pub fn seal_shard(plaintext: &[u8], nonce: &[u8], key: &[u8]) -> (e: EncryptedData)
    requires
        nonce@.len() == NONCE_BYTES,
        key@.len() == KEY_BYTES,
        sealable_len(plaintext@.len()),
    ensures
        e.encrypted_data@ == b64_encode(secretbox_seal(plaintext@, nonce@, key@)),
        e.nonce@ == b64_encode(nonce@),
        sealed_under(e, plaintext@, nonce@, key@),
        sealed_with(e, plaintext@, key@),
{
    let ciphertext = secretbox_seal_bytes(plaintext, nonce, key);
    let e = EncryptedData {
        encrypted_data: encode_base64(ciphertext.as_slice()),
        nonce: encode_base64(nonce),
    };
    assert(sealed_under(e, plaintext@, nonce@, key@));
    e
}

/// Seals `plaintext` under `key` with a fresh random nonce.
pub fn seal_shard_fresh(plaintext: &[u8], key: &[u8]) -> (e: EncryptedData)
    requires
        key@.len() == KEY_BYTES,
        sealable_len(plaintext@.len()),
    ensures
        sealed_with(e, plaintext@, key@),
{
    let nonce = random_nonce();
    seal_shard(plaintext, nonce.as_slice(), key)
}

/// Opens one sealed shard under `key`; `None` where the nonce is Base64 but not 24 bytes
/// long, which is no nonce at all.
pub fn try_open_shard(e: &EncryptedData, key: &[u8]) -> (r: Option<Result<Vec<u8>, HorcruxError>>)
    requires
        key@.len() == KEY_BYTES,
    ensures
        r is None <==> opening(*e, key@) is BadNonce,
        r matches Some(Ok(m)) ==> opening(*e, key@) == Opening::Opened(m@),
        r matches Some(Err(err)) ==> reports(opening(*e, key@), err),
        r matches Some(x) ==> (x is Ok <==> opening(*e, key@) is Opened),
{
    let nonce = match decode_base64(e.nonce.as_str()) {
        Ok(n) => n,
        Err(err) => return Some(Err(HorcruxError::Base64(err))),
    };
    let data = match decode_base64(e.encrypted_data.as_str()) {
        Ok(d) => d,
        Err(err) => return Some(Err(HorcruxError::Base64(err))),
    };
    proof {
        lemma_decode_encode(nonce@);
        lemma_decode_encode(data@);
    }
    if nonce.len() != NONCE_BYTES {
        return None;
    }
    match secretbox_open_bytes(data.as_slice(), nonce.as_slice(), key) {
        Ok(m) => Some(Ok(m)),
        Err(_) => Some(Err(HorcruxError::DecryptionFailed)),
    }
}

/// Opening what was sealed under a key gives back the message.
pub proof fn lemma_open_sealed(e: EncryptedData, m: Seq<u8>, key: Seq<u8>)
    requires
        sealed_with(e, m, key),
    ensures
        opening(e, key) == Opening::Opened(m),
{
    let n = choose|n: Seq<u8>| #[trigger] sealed_under(e, m, n, key);
    lemma_decode_encode(n);
    lemma_decode_encode(secretbox_seal(m, n, key));
}


/// A sealed shard carries, as Base64, a nonce of 24 bytes and a ciphertext 16 bytes longer
/// than the message.
pub proof fn lemma_sealed_shape(e: EncryptedData, m: Seq<u8>, key: Seq<u8>)
    requires
        sealed_with(e, m, key),
    ensures
        b64_decodes(e.nonce@),
        b64_decoded(e.nonce@).len() == NONCE_BYTES,
        b64_decodes(e.encrypted_data@),
        b64_decoded(e.encrypted_data@).len() == m.len() + MAC_BYTES,
{
    let n = choose|n: Seq<u8>| #[trigger] sealed_under(e, m, n, key);
    lemma_decode_encode(n);
    lemma_decode_encode(secretbox_seal(m, n, key));
}

} // verus!
