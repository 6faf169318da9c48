//! Authenticated encryption, key derivation, randomness and text encodings.
use base64::engine::general_purpose::STANDARD;
use base64::Engine;
use ring::rand::SecureRandom;
use ring::{aead, pbkdf2};
use std::num::NonZeroU32;
use vstd::prelude::*;
use vstd::utf8::{decode_utf8, valid_utf8};

use crate::compression::{good, outcome_view};
use crate::config::CipherSuite;

verus! {

/// The length of a key, whatever the cipher suite.
pub const KEY_LEN: usize = 32;

/// The length of a nonce.
pub const NONCE_LEN: usize = 12;

/// The length of the tag that authenticates the data.
pub const TAG_LEN: usize = 16;

/// The longest data that either cipher suite seals.
pub const MAX_SEALED_LEN: u64 = 68_719_476_704;

/// The longest secret or salt that a key is derived from.
pub const MAX_SECRET_LEN: u64 = 0x0fff_ffff_ffff_ffff;

/// The bytes of an optional vector.
pub open spec fn opt_bytes(value: Option<Vec<u8>>) -> Option<Seq<u8>> {
    match value {
        Some(bytes) => Some(bytes@),
        None => None,
    }
}

/// The encrypted data with its tag, if the data can be sealed.
pub uninterp spec fn aead_sealed(
    suite: CipherSuite,
    key: Seq<u8>,
    nonce: Seq<u8>,
    data: Seq<u8>,
) -> Option<Seq<u8>>;

/// The data that was sealed, if the tag belongs to it.
pub uninterp spec fn aead_opened(
    suite: CipherSuite,
    key: Seq<u8>,
    nonce: Seq<u8>,
    sealed: Seq<u8>,
) -> Option<Seq<u8>>;

/// The key that is derived from a secret and a salt.
pub uninterp spec fn pbkdf2_key(iterations: u32, salt: Seq<u8>, secret: Seq<u8>) -> Seq<u8>;

/// The base64 text of some bytes.
pub uninterp spec fn base64_text(data: Seq<u8>) -> Seq<char>;

/// The bytes that a base64 text stands for, or why it stands for none.
pub uninterp spec fn base64_bytes(text: Seq<char>) -> std::result::Result<Seq<u8>, Seq<char>>;

/// The complaint about bytes that are not UTF-8.
pub uninterp spec fn utf8_complaint(bytes: Seq<u8>) -> Seq<char>;

/// `ring::aead::LessSafeKey::seal_in_place_append_tag` without associated data:
/// the encrypted data with its tag. It succeeds on data up to the length that both
/// cipher suites take. `open_in_place` gives the data back.
#[verifier::external_body]
pub(crate) fn aead_seal(suite: CipherSuite, key: &[u8], nonce: &[u8], data: &[u8]) -> (result: Option<
    Vec<u8>,
>)
    requires
        key@.len() == KEY_LEN,
        nonce@.len() == NONCE_LEN,
    ensures
        opt_bytes(result) == aead_sealed(suite, key@, nonce@, data@),
        data@.len() <= MAX_SEALED_LEN ==> result is Some,
        result matches Some(sealed) ==> sealed@.len() == data@.len() + TAG_LEN && aead_opened(
            suite,
            key@,
            nonce@,
            sealed@,
        ) == Some(data@),
{
    let algorithm = match suite {
        CipherSuite::ChaCha20Poly1305 => &aead::CHACHA20_POLY1305,
        CipherSuite::Aes256Gcm => &aead::AES_256_GCM,
    };
    let key = aead::LessSafeKey::new(aead::UnboundKey::new(algorithm, key).ok()?);
    let nonce = aead::Nonce::try_assume_unique_for_key(nonce).ok()?;
    let mut sealed = data.to_vec();
    key.seal_in_place_append_tag(nonce, aead::Aad::empty(), &mut sealed).ok()?;
    Some(sealed)
}

/// `ring::aead::LessSafeKey::open_in_place` without associated data: the data that
/// was sealed, or nothing where the tag does not belong to it. Opened data is
/// shorter than sealed data by the tag.
#[verifier::external_body]
pub(crate) fn aead_open(suite: CipherSuite, key: &[u8], nonce: &[u8], sealed: &[u8]) -> (result:
    Option<Vec<u8>>)
    requires
        key@.len() == KEY_LEN,
        nonce@.len() == NONCE_LEN,
    ensures
        opt_bytes(result) == aead_opened(suite, key@, nonce@, sealed@),
        result matches Some(data) ==> data@.len() + TAG_LEN == sealed@.len(),
{
    let algorithm = match suite {
        CipherSuite::ChaCha20Poly1305 => &aead::CHACHA20_POLY1305,
        CipherSuite::Aes256Gcm => &aead::AES_256_GCM,
    };
    let key = aead::LessSafeKey::new(aead::UnboundKey::new(algorithm, key).ok()?);
    let nonce = aead::Nonce::try_assume_unique_for_key(nonce).ok()?;
    let mut data = sealed.to_vec();
    let opened = key.open_in_place(nonce, aead::Aad::empty(), &mut data).ok()?;
    Some(opened.to_vec())
}

/// `ring::rand::SystemRandom::fill`: random bytes, unless the system has none to
/// give. Which ones come back rests on chance.
#[verifier::external_body]
pub(crate) fn random_bytes(len: usize) -> (result: Option<Vec<u8>>)
    requires
        len <= 1024,
    ensures
        result matches Some(bytes) ==> bytes@.len() == len,
{
    let mut bytes = vec![0u8; len];
    ring::rand::SystemRandom::new().fill(&mut bytes).ok()?;
    Some(bytes)
}

/// `ring::pbkdf2::derive` with HMAC-SHA256: the key that is derived from a secret
/// and a salt.
#[verifier::external_body]
pub(crate) fn derive_key(iterations: u32, salt: &[u8], secret: &[u8]) -> (result: Vec<u8>)
    requires
        iterations > 0,
        salt@.len() <= MAX_SECRET_LEN,
        secret@.len() <= MAX_SECRET_LEN,
    ensures
        result@ == pbkdf2_key(iterations, salt@, secret@),
        result@.len() == KEY_LEN,
{
    let mut key = vec![0u8; KEY_LEN];
    let rounds = NonZeroU32::new(iterations).unwrap();
    pbkdf2::derive(pbkdf2::PBKDF2_HMAC_SHA256, rounds, salt, secret, &mut key);
    key
}

/// `base64::Engine::encode` with the standard alphabet and padding: the text of
/// some bytes. `decode` gives the bytes back.
#[verifier::external_body]
pub(crate) fn base64_encode(data: &[u8]) -> (result: String)
    requires
        data@.len() <= usize::MAX / 4,
    ensures
        result@ == base64_text(data@),
        base64_bytes(result@) == good(data@),
{
    STANDARD.encode(data)
}

/// `base64::Engine::decode` with the standard alphabet and padding: the bytes that
/// a text stands for, or the text of the error. Nothing is claimed of which texts
/// are base64.
#[verifier::external_body]
pub(crate) fn base64_decode(text: &str) -> (result: std::result::Result<Vec<u8>, String>)
    ensures
        outcome_view(result) == base64_bytes(text@),
{
    STANDARD.decode(text).map_err(|error| error.to_string())
}

/// `String::from_utf8`: the text that the bytes encode, or the text of the error.
/// Of the error only that its text depends on the bytes alone is claimed.
#[verifier::external_body]
pub(crate) fn text_from_utf8(bytes: Vec<u8>) -> (result: std::result::Result<String, String>)
    ensures
        match result {
            Ok(text) => valid_utf8(bytes@) && text@ == decode_utf8(bytes@),
            Err(complaint) => !valid_utf8(bytes@) && complaint@ == utf8_complaint(bytes@),
        },
{
    String::from_utf8(bytes).map_err(|error| error.to_string())
}

} // verus!
