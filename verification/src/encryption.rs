//! Encryption of data and text with a key derived from a password.
use vstd::prelude::*;
use vstd::slice::slice_subrange;
use vstd::utf8::{decode_utf8, encode_utf8, encode_utf8_decode_utf8, encode_utf8_valid_utf8, valid_utf8};

use crate::bytes::to_vec;
use crate::config::CipherSuite;
use crate::sealing::{
    aead_open, aead_opened, aead_seal, aead_sealed, base64_bytes, base64_decode, base64_encode,
    base64_text, derive_key, pbkdf2_key, random_bytes, text_from_utf8, utf8_complaint, KEY_LEN,
    MAX_SEALED_LEN, MAX_SECRET_LEN, NONCE_LEN, TAG_LEN,
};
use crate::text::join;

verus! {

/// How often the hash is iterated when a key is derived.
pub const KEY_ITERATIONS: u32 = 100_000;

/// What can go wrong with encrypted data.
#[derive(Debug, PartialEq, Eq)]
pub enum EncryptionError {
    /// The system has no random bytes to give.
    NonceGeneration,
    /// The data is too long to be encrypted.
    Encryption,
    /// The data is too short to hold a nonce and a tag.
    TooShort,
    /// The tag does not belong to the data.
    Decryption,
    /// The text is not base64.
    Base64(String),
    /// The decrypted bytes are not UTF-8.
    Utf8(String),
}

/// The outcome of an operation that may fail with an [`EncryptionError`].
pub type Result<T> = std::result::Result<T, EncryptionError>;

impl EncryptionError {
    /// The error as a line of text.
    pub fn message(&self) -> (result: String)
        ensures
            result@ == (match *self {
                EncryptionError::NonceGeneration => "Failed to generate nonce: Unspecified"@,
                EncryptionError::Encryption => "Encryption failed: Unspecified"@,
                EncryptionError::TooShort => "Encrypted data too short"@,
                EncryptionError::Decryption => "Decryption failed: Unspecified"@,
                EncryptionError::Base64(text) => "Base64 decode error: "@ + text@,
                EncryptionError::Utf8(text) => "UTF-8 decode error: "@ + text@,
            }),
    {
        match self {
            EncryptionError::NonceGeneration => "Failed to generate nonce: Unspecified".to_owned(),
            EncryptionError::Encryption => "Encryption failed: Unspecified".to_owned(),
            EncryptionError::TooShort => "Encrypted data too short".to_owned(),
            EncryptionError::Decryption => "Decryption failed: Unspecified".to_owned(),
            EncryptionError::Base64(text) => join("Base64 decode error: ", text.as_str()),
            EncryptionError::Utf8(text) => join("UTF-8 decode error: ", text.as_str()),
        }
    }
}

/// Encrypts data with AES-256 in Galois/Counter mode.
pub struct EncryptionManager {
    pub enabled: bool,
    pub key: Vec<u8>,
}

impl EncryptionManager {
    /// The key has the length that the cipher takes.
    pub open spec fn wf(&self) -> bool {
        self.key@.len() == KEY_LEN
    }

    /// What the manager makes of `data` with the given nonce: the nonce, then the
    /// encrypted data with its tag.
    pub open spec fn encrypted(&self, data: Seq<u8>, nonce: Seq<u8>) -> Option<Seq<u8>> {
        if !self.enabled {
            Some(data)
        } else {
            match aead_sealed(CipherSuite::Aes256Gcm, self.key@, nonce, data) {
                Some(sealed) => Some(nonce + sealed),
                None => None,
            }
        }
    }

    /// What the manager makes of encrypted data.
    pub open spec fn decrypted(&self, data: Seq<u8>) -> Option<Seq<u8>> {
        if !self.enabled {
            Some(data)
        } else if data.len() < NONCE_LEN + TAG_LEN {
            None
        } else {
            aead_opened(
                CipherSuite::Aes256Gcm,
                self.key@,
                data.take(NONCE_LEN as int),
                data.skip(NONCE_LEN as int),
            )
        }
    }

    /// A manager whose key is derived from `password`. One that is not enabled leaves
    /// all data alone.
    pub fn new(enabled: bool, password: &str) -> (result: Result<Self>)
        requires
            encode_utf8(password@).len() <= MAX_SECRET_LEN,
        ensures
            result matches Ok(manager) && {
                &&& manager.wf()
                &&& manager.enabled == enabled
                &&& manager.key@ == (if enabled {
                    pbkdf2_key(
                        KEY_ITERATIONS,
                        encode_utf8("horizon_atlas_salt_2024"@),
                        encode_utf8(password@),
                    )
                } else {
                    Seq::new(KEY_LEN as nat, |i: int| 0u8)
                })
            },
    {
        if !enabled {
            let mut key: Vec<u8> = Vec::new();
            while key.len() < KEY_LEN
                invariant
                    key@.len() <= KEY_LEN,
                    forall|i: int| 0 <= i < key@.len() ==> key@[i] == 0,
                decreases KEY_LEN - key@.len(),
            {
                key.push(0);
            }
            assert(key@ =~= Seq::new(KEY_LEN as nat, |i: int| 0u8));
            return Ok(EncryptionManager { enabled, key });
        }
        proof {
            reveal_strlit("horizon_atlas_salt_2024");
            vstd::utf8::is_ascii_chars_encode_utf8("horizon_atlas_salt_2024"@);
        }
        let key = derive_key(
            KEY_ITERATIONS,
            "horizon_atlas_salt_2024".as_bytes(),
            password.as_bytes(),
        );
        Ok(EncryptionManager { enabled, key })
    }

    /// Encrypts `data` with the given nonce.
    pub fn encrypt_with_nonce(&self, data: &[u8], nonce: &[u8]) -> (result: Result<Vec<u8>>)
        requires
            self.wf(),
            nonce@.len() == NONCE_LEN,
        ensures
            match result {
                Ok(out) => {
                    &&& self.encrypted(data@, nonce@) == Some(out@)
                    &&& self.decrypted(out@) == Some(data@)
                    &&& self.enabled ==> out@.len() == data@.len() + NONCE_LEN + TAG_LEN
                },
                Err(error) => {
                    &&& error is Encryption
                    &&& self.encrypted(data@, nonce@) is None
                    &&& self.enabled && data@.len() > MAX_SEALED_LEN
                },
            },
    {
        if !self.enabled {
            return Ok(to_vec(data));
        }
        let sealed = match aead_seal(CipherSuite::Aes256Gcm, self.key.as_slice(), nonce, data) {
            Some(sealed) => sealed,
            None => {
                return Err(EncryptionError::Encryption);
            },
        };
        let mut out: Vec<u8> = to_vec(nonce);
        out.extend_from_slice(sealed.as_slice());
        assert(out@ =~= nonce@ + sealed@);
        assert(out@.take(NONCE_LEN as int) =~= nonce@);
        assert(out@.skip(NONCE_LEN as int) =~= sealed@);
        Ok(out)
    }

    /// Encrypts `data` with a random nonce, which goes before the encrypted data.
    /// Decryption gives `data` back.
    pub fn encrypt(&self, data: &[u8]) -> (result: Result<Vec<u8>>)
        requires
            self.wf(),
        ensures
            match result {
                Ok(out) => {
                    &&& self.decrypted(out@) == Some(data@)
                    &&& if self.enabled {
                        &&& out@.len() == data@.len() + NONCE_LEN + TAG_LEN
                        &&& self.encrypted(data@, out@.take(NONCE_LEN as int)) == Some(out@)
                    } else {
                        out@ == data@
                    }
                },
                Err(error) => {
                    &&& self.enabled
                    &&& error is NonceGeneration || (error is Encryption && data@.len()
                        > MAX_SEALED_LEN)
                },
            },
    {
        if !self.enabled {
            return Ok(to_vec(data));
        }
        let nonce = match random_bytes(NONCE_LEN) {
            Some(nonce) => nonce,
            None => {
                return Err(EncryptionError::NonceGeneration);
            },
        };
        let result = self.encrypt_with_nonce(data, nonce.as_slice());
        assert(result matches Ok(out) ==> out@.take(NONCE_LEN as int) =~= nonce@);
        result
    }

    /// Decrypts what `encrypt` has made.
    pub fn decrypt(&self, encrypted_data: &[u8]) -> (result: Result<Vec<u8>>)
        requires
            self.wf(),
        ensures
            match result {
                Ok(data) => self.decrypted(encrypted_data@) == Some(data@),
                Err(error) => {
                    &&& self.decrypted(encrypted_data@) is None
                    &&& error == (if encrypted_data@.len() < NONCE_LEN + TAG_LEN {
                        EncryptionError::TooShort
                    } else {
                        EncryptionError::Decryption
                    })
                },
            },
    {
        if !self.enabled {
            return Ok(to_vec(encrypted_data));
        }
        if encrypted_data.len() < NONCE_LEN + TAG_LEN {
            return Err(EncryptionError::TooShort);
        }
        let nonce = slice_subrange(encrypted_data, 0, NONCE_LEN);
        let sealed = slice_subrange(encrypted_data, NONCE_LEN, encrypted_data.len());
        assert(nonce@ =~= encrypted_data@.take(NONCE_LEN as int));
        assert(sealed@ =~= encrypted_data@.skip(NONCE_LEN as int));
        match aead_open(CipherSuite::Aes256Gcm, self.key.as_slice(), nonce, sealed) {
            Some(data) => Ok(data),
            None => Err(EncryptionError::Decryption),
        }
    }

    /// What the manager makes of encrypted text: base64, then encrypted data, then
    /// UTF-8.
    pub open spec fn decrypted_text(&self, text: Seq<char>) -> Option<Seq<char>> {
        match base64_bytes(text) {
            Ok(bytes) => match self.decrypted(bytes) {
                Some(data) => if valid_utf8(data) {
                    Some(decode_utf8(data))
                } else {
                    None
                },
                None => None,
            },
            Err(_) => None,
        }
    }

    /// Encrypts text; the result is base64. Decryption gives the text back.
    pub fn encrypt_string(&self, data: &str) -> (result: Result<String>)
        requires
            self.wf(),
            encode_utf8(data@).len() + NONCE_LEN + TAG_LEN <= usize::MAX / 4,
        ensures
            match result {
                Ok(text) => {
                    &&& self.decrypted_text(text@) == Some(data@)
                    &&& exists|bytes: Seq<u8>|
                        text@ == #[trigger] base64_text(bytes) && self.decrypted(bytes) == Some(
                            encode_utf8(data@),
                        ) && (!self.enabled ==> bytes == encode_utf8(data@))
                },
                Err(error) => {
                    &&& self.enabled
                    &&& error is NonceGeneration || (error is Encryption && encode_utf8(data@).len()
                        > MAX_SEALED_LEN)
                },
            },
    {
        let encrypted = match self.encrypt(data.as_bytes()) {
            Ok(encrypted) => encrypted,
            Err(error) => {
                return Err(error);
            },
        };
        let text: String = base64_encode(encrypted.as_slice());
        proof {
            encode_utf8_valid_utf8(data@);
            encode_utf8_decode_utf8(data@);
            assert(text@ == base64_text(encrypted@));
        }
        Ok(text)
    }

    /// Decrypts what `encrypt_string` has made.
    pub fn decrypt_string(&self, encrypted_data: &str) -> (result: Result<String>)
        requires
            self.wf(),
        ensures
            match result {
                Ok(text) => self.decrypted_text(encrypted_data@) == Some(text@),
                Err(error) => {
                    &&& self.decrypted_text(encrypted_data@) is None
                    &&& match base64_bytes(encrypted_data@) {
                        Err(complaint) => error matches EncryptionError::Base64(text) && text@
                            == complaint,
                        Ok(bytes) => match self.decrypted(bytes) {
                            None => error == (if bytes.len() < NONCE_LEN + TAG_LEN {
                                EncryptionError::TooShort
                            } else {
                                EncryptionError::Decryption
                            }),
                            Some(data) => error matches EncryptionError::Utf8(text) && text@
                                == utf8_complaint(data),
                        },
                    }
                },
            },
    {
        let decoded = match base64_decode(encrypted_data) {
            Ok(decoded) => decoded,
            Err(complaint) => {
                return Err(EncryptionError::Base64(complaint));
            },
        };
        let decrypted = match self.decrypt(decoded.as_slice()) {
            Ok(decrypted) => decrypted,
            Err(error) => {
                return Err(error);
            },
        };
        match text_from_utf8(decrypted) {
            Ok(text) => Ok(text),
            Err(complaint) => Err(EncryptionError::Utf8(complaint)),
        }
    }
}

/// A manager that is not enabled leaves data alone. One that is puts the nonce before what
/// AES-256-GCM makes of the data with its key, and takes apart nothing that is too short
/// for a nonce and a tag.
pub proof fn lemma_encrypted_data_starts_with_its_nonce(
    manager: EncryptionManager,
    data: Seq<u8>,
    nonce: Seq<u8>,
)
    requires
        nonce.len() == 12,
    ensures
        !manager.enabled ==> manager.encrypted(data, nonce) == Some(data) && manager.decrypted(data)
            == Some(data),
        manager.enabled && data.len() < 28 ==> manager.decrypted(data) is None,
        manager.enabled ==> match aead_sealed(
            CipherSuite::Aes256Gcm,
            manager.key@,
            nonce,
            data,
        ) {
            Some(sealed) => {
                &&& manager.encrypted(data, nonce) is Some
                &&& manager.encrypted(data, nonce)->0.take(12) == nonce
                &&& manager.encrypted(data, nonce)->0.skip(12) == sealed
                &&& sealed.len() >= 16 ==> manager.decrypted(manager.encrypted(data, nonce)->0)
                    == aead_opened(CipherSuite::Aes256Gcm, manager.key@, nonce, sealed)
            },
            None => manager.encrypted(data, nonce) is None,
        },
{
    match aead_sealed(CipherSuite::Aes256Gcm, manager.key@, nonce, data) {
        Some(sealed) => {
            assert((nonce + sealed).take(12) =~= nonce);
            assert((nonce + sealed).skip(12) =~= sealed);
        },
        None => {},
    }
}

/// Managers with the same key read each other's data, and nothing but the key and whether
/// they are enabled tells managers apart.
pub proof fn lemma_same_key_reads_the_same(
    a: EncryptionManager,
    b: EncryptionManager,
    data: Seq<u8>,
    text: Seq<char>,
)
    requires
        a.enabled == b.enabled,
        a.key@ == b.key@,
    ensures
        a.decrypted(data) == b.decrypted(data),
        a.decrypted_text(text) == b.decrypted_text(text),
        forall|nonce: Seq<u8>| #[trigger] a.encrypted(data, nonce) == b.encrypted(data, nonce),
{
}

/// A text is read by way of the bytes that it stands for: one that is no base64, whose bytes
/// cannot be decrypted or whose data is no text gives nothing.
pub proof fn lemma_text_is_read_by_its_bytes(manager: EncryptionManager, text: Seq<char>)
    ensures
        manager.decrypted_text(text) is Some <==> (base64_bytes(text) matches Ok(bytes)
            && manager.decrypted(bytes) matches Some(data) && valid_utf8(data)),
        manager.decrypted_text(text) matches Some(read) ==> (base64_bytes(text) matches Ok(bytes)
            && manager.decrypted(bytes) matches Some(data) && read == decode_utf8(data)),
{
}

} // verus!
