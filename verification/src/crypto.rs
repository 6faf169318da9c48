//! Encryption with rotating keys, and with keys of single sessions.
use std::collections::HashMap;
use vstd::prelude::*;
use vstd::slice::slice_subrange;
use vstd::std_specs::iter::IteratorSpec;
use vstd::utf8::encode_utf8;

use crate::bytes::{le_bytes, lemma_byte_ranges, lemma_le_len, lemma_le_round_trip, to_vec};
use crate::clock::{elapsed, elapsed_nanos, NANOS_PER_SECOND};
use crate::compression::{good, outcome_view};
use crate::config::{CipherSuite, CryptoConfig};
use crate::errors::{AtlasError, Result};
use crate::table::{lemma_push_contains, Table};
use crate::sealing::{
    aead_open, aead_opened, aead_seal, aead_sealed, derive_key, pbkdf2_key, random_bytes, KEY_LEN,
    MAX_SEALED_LEN, MAX_SECRET_LEN, NONCE_LEN, TAG_LEN,
};
use crate::text::{decimal, decimal_u64, join};
use crate::types::copy_bytes;

verus! {

broadcast use vstd::std_specs::hash::group_hash_axioms;

/// The length of a salt.
pub const SALT_LEN: usize = 32;

/// For how long an expired key is still on record, in nanoseconds.
pub const KEY_GRACE: u64 = 300_000_000_000;

/// A key with the time in which it is used.
#[derive(Debug)]
pub struct EncryptionKey {
    pub id: u32,
    pub key: Vec<u8>,
    pub suite: CipherSuite,
    pub created_at: i64,
    pub expires_at: i64,
}

impl EncryptionKey {
    /// Whether the two keys agree in every field.
    pub open spec fn same_as(self, other: EncryptionKey) -> bool {
        &&& self.id == other.id
        &&& self.key@ == other.key@
        &&& self.suite == other.suite
        &&& self.created_at == other.created_at
        &&& self.expires_at == other.expires_at
    }

    /// Whether the key's time is over at `now`.
    pub open spec fn has_expired(self, now: i64) -> bool {
        now > self.expires_at
    }

    /// Whether the key's time has been over for so long that the key is dropped.
    pub open spec fn is_forgotten(self, now: i64) -> bool {
        now - self.expires_at > KEY_GRACE
    }

    /// A key that is used from `now` on, for `lifetime_ms` milliseconds.
    pub fn new(id: u32, key: Vec<u8>, suite: CipherSuite, lifetime_ms: u64, now: i64) -> (result: Self)
        requires
            now + lifetime_ms * 1_000_000 <= i64::MAX,
        ensures
            result == (EncryptionKey {
                id,
                key,
                suite,
                created_at: now,
                expires_at: (now + lifetime_ms * 1_000_000) as i64,
            }),
    {
        let lifetime: i128 = (lifetime_ms as i128) * 1_000_000;
        EncryptionKey {
            id,
            key,
            suite,
            created_at: now,
            expires_at: ((now as i128) + lifetime) as i64,
        }
    }

    /// Whether the key's time is over at `now`.
    pub fn is_expired(&self, now: i64) -> (result: bool)
        ensures
            result == self.has_expired(now),
    {
        now > self.expires_at
    }
}

impl Clone for EncryptionKey {
    fn clone(&self) -> (result: Self)
        ensures
            result.same_as(*self),
    {
        EncryptionKey {
            id: self.id,
            key: copy_bytes(&self.key),
            suite: self.suite,
            created_at: self.created_at,
            expires_at: self.expires_at,
        }
    }
}

/// Encrypted data with what is needed to decrypt it.
#[derive(Debug)]
pub struct EncryptedData {
    pub key_id: u32,
    pub nonce: Vec<u8>,
    pub ciphertext: Vec<u8>,
}

/// The encoding of a record: the key's identifier in four bytes, then the nonce and
/// the encrypted data, each with its length in eight bytes before it.
pub open spec fn encoded_record(key_id: u32, nonce: Seq<u8>, ciphertext: Seq<u8>) -> Seq<u8> {
    le_bytes(key_id as nat, 4) + le_bytes(nonce.len(), 8) + nonce + le_bytes(ciphertext.len(), 8)
        + ciphertext
}

/// `bincode::serialize` on the three parts of a record: the identifier in four
/// bytes, then each part with its length in eight bytes before it. It does not fail
/// on such a record.
#[verifier::external_body]
fn encode_record(record: &EncryptedData) -> (result: std::result::Result<Vec<u8>, String>)
    requires
        record.nonce@.len() + record.ciphertext@.len() + 20 <= isize::MAX,
    ensures
        outcome_view(result) == good(
            encoded_record(record.key_id, record.nonce@, record.ciphertext@),
        ),
{
    bincode::serialize(&(record.key_id, &record.nonce, &record.ciphertext))
        .map_err(|error| error.to_string())
}

/// A field of a record.
#[derive(Clone, Copy, Debug, PartialEq, Eq, Structural)]
pub enum RecordField {
    KeyId,
    Nonce,
    Ciphertext,
}

impl RecordField {
    /// The field's name.
    pub open spec fn spec_name(self) -> Seq<char> {
        match self {
            RecordField::KeyId => "key_id"@,
            RecordField::Nonce => "nonce"@,
            RecordField::Ciphertext => "ciphertext"@,
        }
    }

    /// The field's name.
    pub fn name(self) -> (result: &'static str)
        ensures
            result@ == self.spec_name(),
    {
        match self {
            RecordField::KeyId => "key_id",
            RecordField::Nonce => "nonce",
            RecordField::Ciphertext => "ciphertext",
        }
    }

    /// The field with the given name.
    pub fn from_name(name: &str) -> (result: Option<Self>)
        ensures
            match result {
                Some(field) => field.spec_name() == name@,
                None => forall|field: RecordField| #[trigger] field.spec_name() != name@,
            },
    {
        if crate::text::str_eq(name, "key_id") {
            Some(RecordField::KeyId)
        } else if crate::text::str_eq(name, "nonce") {
            Some(RecordField::Nonce)
        } else if crate::text::str_eq(name, "ciphertext") {
            Some(RecordField::Ciphertext)
        } else {
            None
        }
    }
}

/// The fields of a record as far as they have been read, in whatever order they
/// come.
#[derive(Debug)]
pub struct EncryptedDataFields {
    pub key_id: Option<u32>,
    pub nonce: Option<Vec<u8>>,
    pub ciphertext: Option<Vec<u8>>,
}

impl EncryptedDataFields {
    /// Whether the field has been read.
    pub open spec fn has(self, field: RecordField) -> bool {
        match field {
            RecordField::KeyId => self.key_id is Some,
            RecordField::Nonce => self.nonce is Some,
            RecordField::Ciphertext => self.ciphertext is Some,
        }
    }

    /// No fields read yet.
    pub fn new() -> (result: Self)
        ensures
            result == (EncryptedDataFields { key_id: None, nonce: None, ciphertext: None }),
    {
        EncryptedDataFields { key_id: None, nonce: None, ciphertext: None }
    }

    /// Whether a field that comes up has come up before: a record has each field
    /// once. The name of a field that is repeated is the error.
    pub fn check(&self, field: RecordField) -> (result: std::result::Result<(), &'static str>)
        ensures
            match result {
                Ok(_) => !self.has(field),
                Err(name) => self.has(field) && name@ == field.spec_name(),
            },
    {
        let known = match field {
            RecordField::KeyId => self.key_id.is_some(),
            RecordField::Nonce => self.nonce.is_some(),
            RecordField::Ciphertext => self.ciphertext.is_some(),
        };
        if known {
            Err(field.name())
        } else {
            Ok(())
        }
    }

    /// The record, once all fields have been read. The name of the first field that
    /// is missing is the error.
    pub fn finish(self) -> (result: std::result::Result<EncryptedData, &'static str>)
        ensures
            match result {
                Ok(record) => {
                    &&& self.key_id == Some(record.key_id)
                    &&& self.nonce == Some(record.nonce)
                    &&& self.ciphertext == Some(record.ciphertext)
                },
                Err(name) => if self.key_id is None {
                    name@ == "key_id"@
                } else if self.nonce is None {
                    name@ == "nonce"@
                } else {
                    self.ciphertext is None && name@ == "ciphertext"@
                },
            },
    {
        let key_id: u32 = match self.key_id {
            Some(key_id) => key_id,
            None => {
                return Err("key_id");
            },
        };
        let nonce = match self.nonce {
            Some(nonce) => nonce,
            None => {
                return Err("nonce");
            },
        };
        let ciphertext = match self.ciphertext {
            Some(ciphertext) => ciphertext,
            None => {
                return Err("ciphertext");
            },
        };
        Ok(EncryptedData { key_id, nonce, ciphertext })
    }
}

/// The value of a field as it was read.
#[derive(Debug, PartialEq, Eq)]
pub enum FieldValue {
    Number(u32),
    Bytes(Vec<u8>),
    /// A value that no field of a record has
    Other,
}

/// A field as it was read: its name and its value.
#[derive(Debug, PartialEq, Eq)]
pub struct FieldEntry {
    pub name: String,
    pub value: FieldValue,
}

/// Why fields do not make up a record.
#[derive(Debug, PartialEq, Eq)]
pub enum RecordError {
    /// A record has no such field.
    UnknownField(String),
    /// The field comes up again.
    DuplicateField(RecordField),
    /// The field has no such value.
    InvalidType(RecordField),
    /// The field does not come up.
    MissingField(RecordField),
}

/// The field with the given name.
pub open spec fn field_named(name: Seq<char>) -> Option<RecordField> {
    if name == "key_id"@ {
        Some(RecordField::KeyId)
    } else if name == "nonce"@ {
        Some(RecordField::Nonce)
    } else if name == "ciphertext"@ {
        Some(RecordField::Ciphertext)
    } else {
        None
    }
}

/// Whether a value is one that the field can have.
pub open spec fn suits(field: RecordField, value: FieldValue) -> bool {
    match field {
        RecordField::KeyId => value is Number,
        RecordField::Nonce | RecordField::Ciphertext => value is Bytes,
    }
}

/// Whether the name of field `i` has come up before it.
pub open spec fn comes_again(entries: Seq<FieldEntry>, i: int) -> bool {
    exists|j: int| 0 <= j < i && (#[trigger] entries[j]).name@ == entries[i].name@
}

/// What is wrong with field `i`, if anything is.
pub open spec fn field_fault(entries: Seq<FieldEntry>, i: int) -> Option<RecordError> {
    match field_named(entries[i].name@) {
        None => Some(RecordError::UnknownField(entries[i].name)),
        Some(field) => if comes_again(entries, i) {
            Some(RecordError::DuplicateField(field))
        } else if !suits(field, entries[i].value) {
            Some(RecordError::InvalidType(field))
        } else {
            None
        },
    }
}

/// Whether no field has the name.
pub open spec fn is_absent(entries: Seq<FieldEntry>, name: Seq<char>) -> bool {
    forall|i: int| 0 <= i < entries.len() ==> (#[trigger] entries[i]).name@ != name
}

/// The first thing that is wrong with the fields: the first that is wrong itself, or else
/// the first of a record's fields that is missing.
pub open spec fn is_first_fault(entries: Seq<FieldEntry>, error: RecordError) -> bool {
    ||| exists|i: int|
        {
            &&& 0 <= i < entries.len()
            &&& #[trigger] field_fault(entries, i) == Some(error)
            &&& forall|j: int| 0 <= j < i ==> #[trigger] field_fault(entries, j) is None
        }
    ||| {
        &&& forall|j: int| 0 <= j < entries.len() ==> #[trigger] field_fault(entries, j) is None
        &&& if is_absent(entries, "key_id"@) {
            error == RecordError::MissingField(RecordField::KeyId)
        } else if is_absent(entries, "nonce"@) {
            error == RecordError::MissingField(RecordField::Nonce)
        } else {
            is_absent(entries, "ciphertext"@) && error == RecordError::MissingField(
                RecordField::Ciphertext,
            )
        }
    }
}

/// Whether the fields at the given positions are those of the record.
pub open spec fn fields_at(
    entries: Seq<FieldEntry>,
    key_id: u32,
    nonce: Seq<u8>,
    ciphertext: Seq<u8>,
    i: int,
    j: int,
    k: int,
) -> bool {
    &&& 0 <= i < entries.len() && 0 <= j < entries.len() && 0 <= k < entries.len()
    &&& entries[i].name@ == "key_id"@ && entries[i].value == FieldValue::Number(key_id)
    &&& entries[j].name@ == "nonce"@
    &&& entries[j].value matches FieldValue::Bytes(bytes) && bytes@ == nonce
    &&& entries[k].name@ == "ciphertext"@
    &&& entries[k].value matches FieldValue::Bytes(bytes) && bytes@ == ciphertext
}

/// Whether the fields are those of a record: each of its fields comes up once, in any
/// order, with the record's value, and no other does.
pub open spec fn reads_as(
    entries: Seq<FieldEntry>,
    key_id: u32,
    nonce: Seq<u8>,
    ciphertext: Seq<u8>,
) -> bool {
    &&& entries.len() == 3
    &&& exists|i: int, j: int, k: int| #[trigger]
        fields_at(entries, key_id, nonce, ciphertext, i, j, k)
}

proof fn lemma_field_names_differ()
    ensures
        "key_id"@ != "nonce"@,
        "key_id"@ != "ciphertext"@,
        "nonce"@ != "ciphertext"@,
{
    reveal_strlit("key_id");
    reveal_strlit("nonce");
    reveal_strlit("ciphertext");
    assert("key_id"@.len() == 6);
    assert("nonce"@.len() == 5);
    assert("ciphertext"@.len() == 10);
}

/// The fields of a record have nothing wrong with them, and are those of no other record.
pub proof fn lemma_record_fields_are_sound(
    entries: Seq<FieldEntry>,
    key_id: u32,
    nonce: Seq<u8>,
    ciphertext: Seq<u8>,
)
    requires
        reads_as(entries, key_id, nonce, ciphertext),
    ensures
        forall|error: RecordError| !#[trigger] is_first_fault(entries, error),
        forall|id: u32, n: Seq<u8>, c: Seq<u8>| #[trigger]
            reads_as(entries, id, n, c) ==> id == key_id && n == nonce && c == ciphertext,
{
    lemma_field_names_differ();
    let (i, j, k) = choose|i: int, j: int, k: int| #[trigger]
        fields_at(entries, key_id, nonce, ciphertext, i, j, k);
    assert(i != j && i != k && j != k);
    assert forall|p: int| 0 <= p < entries.len() implies #[trigger] field_fault(entries, p) is None by {
        assert(p == i || p == j || p == k);
        if comes_again(entries, p) {
            let q = choose|q: int| 0 <= q < p && (#[trigger] entries[q]).name@ == entries[p].name@;
            assert(q == i || q == j || q == k);
        }
    }
    assert(!is_absent(entries, "key_id"@)) by {
        assert(entries[i].name@ == "key_id"@);
    }
    assert(!is_absent(entries, "nonce"@)) by {
        assert(entries[j].name@ == "nonce"@);
    }
    assert(!is_absent(entries, "ciphertext"@)) by {
        assert(entries[k].name@ == "ciphertext"@);
    }
    assert forall|id: u32, n: Seq<u8>, c: Seq<u8>| #[trigger] reads_as(entries, id, n, c) implies id
        == key_id && n == nonce && c == ciphertext by {
        let (x, y, z) = choose|x: int, y: int, z: int| #[trigger]
            fields_at(entries, id, n, c, x, y, z);
        assert(x == i || x == j || x == k);
        assert(y == i || y == j || y == k);
        assert(z == i || z == j || z == k);
    }
}

impl EncryptedData {
    /// The fields of the record.
    pub fn serialize(&self) -> (result: Vec<FieldEntry>)
        ensures
            reads_as(result@, self.key_id, self.nonce@, self.ciphertext@),
            result@[0].name@ == "key_id"@,
            result@[1].name@ == "nonce"@,
            result@[2].name@ == "ciphertext"@,
    {
        let fields: Vec<FieldEntry> = vec![
            FieldEntry { name: "key_id".to_owned(), value: FieldValue::Number(self.key_id) },
            FieldEntry {
                name: "nonce".to_owned(),
                value: FieldValue::Bytes(copy_bytes(&self.nonce)),
            },
            FieldEntry {
                name: "ciphertext".to_owned(),
                value: FieldValue::Bytes(copy_bytes(&self.ciphertext)),
            },
        ];
        assert(fields_at(fields@, self.key_id, self.nonce@, self.ciphertext@, 0, 1, 2));
        fields
    }

    /// The record that fields make up, in whatever order they come, or the first thing
    /// that is wrong with them.
    pub fn deserialize(entries: Vec<FieldEntry>) -> (result: std::result::Result<
        EncryptedData,
        RecordError,
    >)
        ensures
            match result {
                Ok(record) => reads_as(
                    entries@,
                    record.key_id,
                    record.nonce@,
                    record.ciphertext@,
                ),
                Err(error) => {
                    &&& is_first_fault(entries@, error)
                    &&& forall|key_id: u32, nonce: Seq<u8>, ciphertext: Seq<u8>|
                        !#[trigger] reads_as(entries@, key_id, nonce, ciphertext)
                },
            },
    {
        proof {
            lemma_field_names_differ();
            if exists|id: u32, n: Seq<u8>, c: Seq<u8>| reads_as(entries@, id, n, c) {
                let (id, n, c) = choose|id: u32, n: Seq<u8>, c: Seq<u8>| reads_as(entries@, id, n, c);
                lemma_record_fields_are_sound(entries@, id, n, c);
            }
        }
        let ghost all = entries@;
        let ghost mut at: (int, int, int) = (-1, -1, -1);
        let mut fields = EncryptedDataFields::new();
        for entry in iter: entries
            invariant
                iter.seq() == all,
                all == entries@,
                "key_id"@ != "nonce"@,
                "key_id"@ != "ciphertext"@,
                "nonce"@ != "ciphertext"@,
                forall|id: u32, n: Seq<u8>, c: Seq<u8>| #[trigger]
                    reads_as(all, id, n, c) ==> forall|error: RecordError| !#[trigger]
                        is_first_fault(all, error),
                forall|p: int| 0 <= p < iter.index() ==> #[trigger] field_fault(all, p) is None,
                fields_read(all, iter.index() as int, fields, at),
        {
            let ghost p = iter.index() as int;
            assert(all[p] == entry);
            let FieldEntry { name, value } = entry;
            let field = match RecordField::from_name(name.as_str()) {
                Some(field) => field,
                None => {
                    proof {
                        assert(RecordField::KeyId.spec_name() != name@);
                        assert(RecordField::Nonce.spec_name() != name@);
                        assert(RecordField::Ciphertext.spec_name() != name@);
                        assert(field_fault(all, p) == Some(RecordError::UnknownField(name)));
                        assert(is_first_fault(all, RecordError::UnknownField(name)));
                    }
                    return Err(RecordError::UnknownField(name));
                },
            };
            assert(field_named(all[p].name@) == Some(field));
            if fields.check(field).is_err() {
                proof {
                    let q = match field {
                        RecordField::KeyId => at.0,
                        RecordField::Nonce => at.1,
                        RecordField::Ciphertext => at.2,
                    };
                    assert(all[q].name@ == all[p].name@);
                    assert(comes_again(all, p));
                    assert(field_fault(all, p) == Some(RecordError::DuplicateField(field)));
                    assert(is_first_fault(all, RecordError::DuplicateField(field)));
                }
                return Err(RecordError::DuplicateField(field));
            }
            assert(!comes_again(all, p));
            match (field, value) {
                (RecordField::KeyId, FieldValue::Number(key_id)) => {
                    fields.key_id = Some(key_id);
                    proof {
                        at = (p, at.1, at.2);
                    }
                },
                (RecordField::Nonce, FieldValue::Bytes(bytes)) => {
                    fields.nonce = Some(bytes);
                    proof {
                        at = (at.0, p, at.2);
                    }
                },
                (RecordField::Ciphertext, FieldValue::Bytes(bytes)) => {
                    fields.ciphertext = Some(bytes);
                    proof {
                        at = (at.0, at.1, p);
                    }
                },
                _ => {
                    proof {
                        assert(field_fault(all, p) == Some(RecordError::InvalidType(field)));
                        assert(is_first_fault(all, RecordError::InvalidType(field)));
                    }
                    return Err(RecordError::InvalidType(field));
                },
            }
        }
        match fields.finish() {
            Ok(record) => {
                proof {
                    assert(all.len() == 3) by {
                        if all.len() > 3 {
                            assert(field_named(all[0].name@) is Some);
                            assert(field_named(all[1].name@) is Some);
                            assert(field_named(all[2].name@) is Some);
                            assert(field_named(all[3].name@) is Some);
                        }
                    }
                    assert(fields_at(
                        all,
                        record.key_id,
                        record.nonce@,
                        record.ciphertext@,
                        at.0,
                        at.1,
                        at.2,
                    ));
                }
                Ok(record)
            },
            Err(name) => {
                let field = match RecordField::from_name(name) {
                    Some(field) => field,
                    None => RecordField::Ciphertext,
                };
                proof {
                    assert(RecordField::KeyId.spec_name() == "key_id"@);
                    assert(RecordField::Nonce.spec_name() == "nonce"@);
                    assert(RecordField::Ciphertext.spec_name() == "ciphertext"@);
                    assert(is_first_fault(all, RecordError::MissingField(field)));
                }
                Err(RecordError::MissingField(field))
            },
        }
    }
}

/// Whether `fields` are those among the first `n` entries, each of them at the position
/// that `at` has for it.
spec fn fields_read(
    entries: Seq<FieldEntry>,
    n: int,
    fields: EncryptedDataFields,
    at: (int, int, int),
) -> bool {
    &&& match fields.key_id {
        Some(key_id) => 0 <= at.0 < n && entries[at.0].name@ == "key_id"@ && entries[at.0].value
            == FieldValue::Number(key_id),
        None => true,
    }
    &&& match fields.nonce {
        Some(nonce) => 0 <= at.1 < n && entries[at.1].name@ == "nonce"@ && entries[at.1].value
            == FieldValue::Bytes(nonce),
        None => true,
    }
    &&& match fields.ciphertext {
        Some(ciphertext) => 0 <= at.2 < n && entries[at.2].name@ == "ciphertext"@
            && entries[at.2].value == FieldValue::Bytes(ciphertext),
        None => true,
    }
    &&& forall|p: int|
        0 <= p < n ==> match field_named((#[trigger] entries[p]).name@) {
            Some(RecordField::KeyId) => fields.key_id is Some && p == at.0,
            Some(RecordField::Nonce) => fields.nonce is Some && p == at.1,
            Some(RecordField::Ciphertext) => fields.ciphertext is Some && p == at.2,
            None => false,
        }
}

/// What is told of a key.
#[derive(Clone, Copy, Debug, PartialEq, Eq, Structural)]
pub struct KeyInfo {
    pub id: u32,
    pub created_at: i64,
    pub expires_at: i64,
    pub is_current: bool,
    pub is_expired: bool,
}

/// What is told of a key at `now`, while `current` is the key in use.
pub open spec fn key_info(key: EncryptionKey, current: u32, now: i64) -> KeyInfo {
    KeyInfo {
        id: key.id,
        created_at: key.created_at,
        expires_at: key.expires_at,
        is_current: key.id == current,
        is_expired: key.has_expired(now),
    }
}

/// Whether `error` is a cryptographic error with the given text.
pub open spec fn is_crypto_error(error: AtlasError, text: Seq<char>) -> bool {
    error matches AtlasError::Crypto(detail) && detail@ == text
}

/// The keys that are not forgotten at `now`.
pub open spec fn remembered(history: Map<u32, EncryptionKey>, now: i64) -> Map<u32, EncryptionKey> {
    history.restrict(Set::new(|id: u32| !history[id].is_forgotten(now)))
}

/// Encrypts with the current key, and decrypts with any key on record.
pub struct CryptoManager {
    pub config: CryptoConfig,
    pub current_key: EncryptionKey,
    pub key_history: HashMap<u32, EncryptionKey>,
}

fn crypto_error(text: &str) -> (result: AtlasError)
    ensures
        is_crypto_error(result, text@),
{
    AtlasError::Crypto(text.to_owned())
}

/// Whether `key` is made at `now` as a configuration has it: of the configured cipher
/// suite, for the rotation interval.
pub open spec fn is_configured_key(
    key: EncryptionKey,
    id: u32,
    config: CryptoConfig,
    now: i64,
) -> bool {
    &&& key.id == id
    &&& key.suite == config.cipher_suite
    &&& key.created_at == now
    &&& key.expires_at == now + config.key_rotation_interval * 1_000_000
}

/// Whether `key` is the one that a manager which is not enabled is made with at `now`: a
/// key of zeros for a day.
pub open spec fn is_unused_key(key: EncryptionKey, now: i64) -> bool {
    &&& key.id == 0
    &&& key.key@ == Seq::new(KEY_LEN as nat, |i: int| 0u8)
    &&& key.suite is ChaCha20Poly1305
    &&& key.created_at == now
    &&& key.expires_at == now + 86_400 * NANOS_PER_SECOND
}

/// Whether a key was put to use at `now` under `id`: it is made as the configuration has
/// it, and joins the keys on record, of which none is dropped but those forgotten at
/// `now`.
pub open spec fn key_rotated(
    before: CryptoManager,
    after: CryptoManager,
    id: u32,
    now: i64,
) -> bool {
    &&& after.config == before.config
    &&& is_configured_key(after.current_key, id, before.config, now)
    &&& after.key_history@ == remembered(
        before.key_history@.insert(id, after.key_history@[id]),
        now,
    )
    &&& after.key_history@.dom().contains(id)
    &&& after.key_history@[id].same_as(after.current_key)
}

/// What comes of opening a record with a key.
pub open spec fn record_opened(key: EncryptionKey, record: EncryptedData) -> Option<Seq<u8>> {
    aead_opened(key.suite, key.key@, record.nonce@, record.ciphertext@)
}

impl CryptoManager {
    /// Every key is on record under its own identifier and has the right length. While
    /// encryption is enabled, the current key is among them.
    pub open spec fn wf(&self) -> bool {
        &&& self.current_key.key@.len() == KEY_LEN
        &&& forall|id: u32| #[trigger]
            self.key_history@.dom().contains(id) ==> self.key_history@[id].id == id
                && self.key_history@[id].key@.len() == KEY_LEN
        &&& self.config.enabled ==> self.key_history@.dom().contains(self.current_key.id)
            && self.key_history@[self.current_key.id].same_as(self.current_key)
    }

    /// The latest time at which a key can be made.
    pub open spec fn can_make_key(config: CryptoConfig, now: i64) -> bool {
        now <= i64::MAX - 86_400 * NANOS_PER_SECOND && now + config.key_rotation_interval * 1_000_000
            <= i64::MAX
    }

    /// A manager with the given first key, made at `now`. One that is not enabled has no
    /// keys on record, and a key of zeros that nothing uses.
    pub fn with_key(config: CryptoConfig, first_key: Vec<u8>, now: i64) -> (result: Self)
        requires
            first_key@.len() == KEY_LEN,
            Self::can_make_key(config, now),
        ensures
            result.wf(),
            result.config == config,
            if config.enabled {
                &&& is_configured_key(result.current_key, 1, config, now)
                &&& result.current_key.key@ == first_key@
                &&& result.key_history@.dom() == set![1u32]
            } else {
                &&& is_unused_key(result.current_key, now)
                &&& result.key_history@ == Map::<u32, EncryptionKey>::empty()
            },
    {
        let mut history: HashMap<u32, EncryptionKey> = HashMap::new();
        if !config.enabled {
            let zeros = zero_key();
            let key = EncryptionKey::new(
                0,
                zeros,
                CipherSuite::ChaCha20Poly1305,
                86_400_000,
                now,
            );
            return CryptoManager { config, current_key: key, key_history: history };
        }
        let key = EncryptionKey::new(
            1,
            first_key,
            config.cipher_suite,
            config.key_rotation_interval,
            now,
        );
        let _ = history.insert(1, key.clone());
        let result = CryptoManager { config, current_key: key, key_history: history };
        assert(result.key_history@.dom() =~= set![1u32]);
        result
    }

    /// A manager with a random first key.
    pub fn new(config: CryptoConfig, now: i64) -> (result: Result<Self>)
        requires
            Self::can_make_key(config, now),
        ensures
            match result {
                Ok(manager) => {
                    &&& manager.wf()
                    &&& manager.config == config
                    &&& if config.enabled {
                        &&& is_configured_key(manager.current_key, 1, config, now)
                        &&& manager.key_history@.dom() == set![1u32]
                    } else {
                        &&& is_unused_key(manager.current_key, now)
                        &&& manager.key_history@ == Map::<u32, EncryptionKey>::empty()
                    }
                },
                Err(error) => config.enabled && is_crypto_error(error, "Failed to generate key"@),
            },
    {
        if !config.enabled {
            return Ok(CryptoManager::with_key(config, zero_key(), now));
        }
        match random_bytes(KEY_LEN) {
            Some(key) => Ok(CryptoManager::with_key(config, key, now)),
            None => Err(crypto_error("Failed to generate key")),
        }
    }

    /// Whether less than a quarter of the rotation interval is left of the current key's
    /// time.
    pub fn should_rotate(&self, now: i64) -> (result: bool)
        ensures
            result == (elapsed(now as int, self.current_key.expires_at as int)
                < (self.config.key_rotation_interval / 4) * 1_000_000),
    {
        let left: u64 = elapsed_nanos(now, self.current_key.expires_at);
        (left as u128) < ((self.config.key_rotation_interval / 4) as u128) * 1_000_000
    }

    /// Puts a new key to use, and drops the keys that are forgotten at `now`.
    pub fn install_key(&mut self, key_id: u32, key: Vec<u8>, now: i64)
        requires
            old(self).wf(),
            key@.len() == KEY_LEN,
            Self::can_make_key(old(self).config, now),
        ensures
            final(self).wf(),
            key_rotated(*old(self), *final(self), key_id, now),
            final(self).current_key.key == key,
    {
        let new_key = EncryptionKey::new(
            key_id,
            key,
            self.config.cipher_suite,
            self.config.key_rotation_interval,
            now,
        );
        let _ = self.key_history.insert(key_id, new_key.clone());
        self.current_key = new_key;
        cleanup_expired_keys(&mut self.key_history, now);
    }

    /// Encrypts with the current key and the given nonce, to a record.
    pub fn seal_record(&self, plaintext: &[u8], nonce: Vec<u8>) -> (result: Result<EncryptedData>)
        requires
            self.wf(),
            nonce@.len() == NONCE_LEN,
        ensures
            match result {
                Ok(record) => {
                    &&& record.key_id == self.current_key.id
                    &&& record.nonce@ == nonce@
                    &&& aead_sealed(
                        self.current_key.suite,
                        self.current_key.key@,
                        nonce@,
                        plaintext@,
                    ) == Some(record.ciphertext@)
                    &&& record.ciphertext@.len() == plaintext@.len() + TAG_LEN
                    &&& record_opened(self.current_key, record) == Some(plaintext@)
                },
                Err(error) => {
                    &&& plaintext@.len() > MAX_SEALED_LEN
                    &&& is_crypto_error(error, "Encryption failed"@)
                },
            },
    {
        let key = &self.current_key;
        match aead_seal(key.suite, key.key.as_slice(), nonce.as_slice(), plaintext) {
            Some(ciphertext) => Ok(EncryptedData { key_id: key.id, nonce, ciphertext }),
            None => Err(crypto_error("Encryption failed")),
        }
    }

    /// Encrypts with the current key and the given nonce, to the bytes of a record.
    pub fn encrypt_with_nonce(&self, plaintext: &[u8], nonce: Vec<u8>) -> (result: Result<Vec<u8>>)
        requires
            self.wf(),
            nonce@.len() == NONCE_LEN,
            plaintext@.len() + 64 <= isize::MAX,
        ensures
            match result {
                Ok(bytes) => if !self.config.enabled {
                    bytes@ == plaintext@
                } else {
                    match aead_sealed(
                        self.current_key.suite,
                        self.current_key.key@,
                        nonce@,
                        plaintext@,
                    ) {
                        Some(ciphertext) => {
                            &&& bytes@ == encoded_record(self.current_key.id, nonce@, ciphertext)
                            &&& aead_opened(
                                self.current_key.suite,
                                self.current_key.key@,
                                nonce@,
                                ciphertext,
                            ) == Some(plaintext@)
                        },
                        None => false,
                    }
                },
                Err(error) => {
                    &&& self.config.enabled
                    &&& plaintext@.len() > MAX_SEALED_LEN
                    &&& is_crypto_error(error, "Encryption failed"@)
                },
            },
    {
        if !self.config.enabled {
            return Ok(to_vec(plaintext));
        }
        match self.seal_record(plaintext, nonce) {
            Ok(record) => match encode_record(&record) {
                Ok(bytes) => Ok(bytes),
                Err(text) => Err(
                    AtlasError::Crypto(
                        join("Failed to serialize encrypted data: ", text.as_str()),
                    ),
                ),
            },
            Err(error) => Err(error),
        }
    }

    /// Encrypts with the current key and a random nonce.
    pub fn encrypt(&self, plaintext: &[u8]) -> (result: Result<Vec<u8>>)
        requires
            self.wf(),
            plaintext@.len() + 64 <= isize::MAX,
        ensures
            match result {
                Ok(bytes) => if !self.config.enabled {
                    bytes@ == plaintext@
                } else {
                    exists|nonce: Seq<u8>, ciphertext: Seq<u8>|
                        {
                            &&& nonce.len() == NONCE_LEN
                            &&& bytes@ == #[trigger] encoded_record(
                                self.current_key.id,
                                nonce,
                                ciphertext,
                            )
                            &&& aead_opened(
                                self.current_key.suite,
                                self.current_key.key@,
                                nonce,
                                ciphertext,
                            ) == Some(plaintext@)
                        }
                },
                Err(error) => {
                    &&& self.config.enabled
                    &&& is_crypto_error(error, "Failed to generate nonce"@) || (plaintext@.len()
                        > MAX_SEALED_LEN && is_crypto_error(error, "Encryption failed"@))
                },
            },
    {
        if !self.config.enabled {
            return Ok(to_vec(plaintext));
        }
        match random_bytes(NONCE_LEN) {
            Some(nonce) => self.encrypt_with_nonce(plaintext, nonce),
            None => Err(crypto_error("Failed to generate nonce")),
        }
    }

    /// Decrypts a record with the key that it names.
    pub fn open_record(&self, record: &EncryptedData, now: i64) -> (result: Result<Vec<u8>>)
        requires
            self.wf(),
        ensures
            ({
                let known = self.key_history@.dom().contains(record.key_id);
                let key = self.key_history@[record.key_id];
                match result {
                    Ok(plaintext) => {
                        &&& known && !key.has_expired(now) && record.nonce@.len() == NONCE_LEN
                        &&& record_opened(key, *record) == Some(plaintext@)
                    },
                    Err(error) => if !known {
                        is_crypto_error(
                            error,
                            "Unknown key ID: "@ + decimal(record.key_id as nat),
                        )
                    } else if key.has_expired(now) {
                        is_crypto_error(error, "Key has expired"@)
                    } else if record.nonce@.len() != NONCE_LEN {
                        is_crypto_error(error, "Invalid nonce length"@)
                    } else {
                        record_opened(key, *record) is None && is_crypto_error(
                            error,
                            "Decryption failed"@,
                        )
                    },
                }
            }),
    {
        let key = match self.key_history.get(&record.key_id) {
            Some(key) => key,
            None => {
                let digits: String = decimal_u64(record.key_id as u64);
                return Err(AtlasError::Crypto(join("Unknown key ID: ", digits.as_str())));
            },
        };
        if key.is_expired(now) {
            return Err(crypto_error("Key has expired"));
        }
        if record.nonce.len() != NONCE_LEN {
            return Err(crypto_error("Invalid nonce length"));
        }
        match aead_open(
            key.suite,
            key.key.as_slice(),
            record.nonce.as_slice(),
            record.ciphertext.as_slice(),
        ) {
            Some(plaintext) => Ok(plaintext),
            None => Err(crypto_error("Decryption failed")),
        }
    }

    /// Decrypts the bytes of a record. `record` is what reading the record from the
    /// bytes led to.
    pub fn decrypt(
        &self,
        encrypted_data: &[u8],
        record: std::result::Result<EncryptedData, String>,
        now: i64,
    ) -> (result: Result<Vec<u8>>)
        requires
            self.wf(),
        ensures
            if !self.config.enabled {
                result matches Ok(plaintext) && plaintext@ == encrypted_data@
            } else {
                match record {
                    Err(text) => result matches Err(error) && is_crypto_error(
                        error,
                        "Failed to deserialize encrypted data: "@ + text@,
                    ),
                    Ok(data) => {
                        let known = self.key_history@.dom().contains(data.key_id);
                        let key = self.key_history@[data.key_id];
                        match result {
                            Ok(plaintext) => {
                                &&& known && !key.has_expired(now) && data.nonce@.len() == NONCE_LEN
                                &&& record_opened(key, data) == Some(plaintext@)
                            },
                            Err(error) => if !known {
                                is_crypto_error(
                                    error,
                                    "Unknown key ID: "@ + decimal(data.key_id as nat),
                                )
                            } else if key.has_expired(now) {
                                is_crypto_error(error, "Key has expired"@)
                            } else if data.nonce@.len() != NONCE_LEN {
                                is_crypto_error(error, "Invalid nonce length"@)
                            } else {
                                record_opened(key, data) is None && is_crypto_error(
                                    error,
                                    "Decryption failed"@,
                                )
                            },
                        }
                    },
                }
            },
    {
        if !self.config.enabled {
            return Ok(to_vec(encrypted_data));
        }
        match record {
            Ok(data) => self.open_record(&data, now),
            Err(text) => Err(
                AtlasError::Crypto(join("Failed to deserialize encrypted data: ", text.as_str())),
            ),
        }
    }

    /// Whether data is encrypted at all.
    pub fn is_encryption_enabled(&self) -> (result: bool)
        ensures
            result == self.config.enabled,
    {
        self.config.enabled
    }

    /// The key that is derived from a password and a salt.
    pub fn derive_key_from_password(&self, password: &str, salt: &[u8]) -> (result: Result<Vec<u8>>)
        requires
            encode_utf8(password@).len() <= MAX_SECRET_LEN,
            salt@.len() <= MAX_SECRET_LEN,
        ensures
            match result {
                Ok(key) => {
                    &&& self.config.key_derivation.iterations > 0
                    &&& key@ == pbkdf2_key(
                        self.config.key_derivation.iterations,
                        salt@,
                        encode_utf8(password@),
                    )
                    &&& key@.len() == KEY_LEN
                },
                Err(error) => self.config.key_derivation.iterations == 0 && is_crypto_error(
                    error,
                    "Invalid iteration count"@,
                ),
            },
    {
        let iterations: u32 = self.config.key_derivation.iterations;
        if iterations == 0 {
            return Err(crypto_error("Invalid iteration count"));
        }
        Ok(derive_key(iterations, salt, password.as_bytes()))
    }

    /// A random salt.
    pub fn generate_salt(&self) -> (result: Result<Vec<u8>>)
        ensures
            match result {
                Ok(salt) => salt@.len() == SALT_LEN,
                Err(error) => is_crypto_error(error, "Failed to generate salt"@),
            },
    {
        match random_bytes(SALT_LEN) {
            Some(salt) => Ok(salt),
            None => Err(crypto_error("Failed to generate salt")),
        }
    }

    /// The identifier of the current key.
    pub fn get_current_key_id(&self) -> (result: u32)
        ensures
            result == self.current_key.id,
    {
        self.current_key.id
    }

    /// What is told of the keys on record, in no particular order.
    pub fn get_key_info(&self, now: i64) -> (result: Vec<KeyInfo>)
        requires
            self.wf(),
        ensures
            result@.len() == self.key_history@.dom().len(),
            forall|id: u32| #[trigger]
                self.key_history@.dom().contains(id) ==> result@.contains(
                    key_info(self.key_history@[id], self.current_key.id, now),
                ),
            forall|i: int|
                0 <= i < result@.len() ==> {
                    let info = #[trigger] result@[i];
                    &&& self.key_history@.dom().contains(info.id)
                    &&& info == key_info(self.key_history@[info.id], self.current_key.id, now)
                },
    {
        let mut out: Vec<KeyInfo> = Vec::new();
        let ghost pairs = vstd::std_specs::hash::spec_hash_map_iter(&self.key_history).remaining();
        for (id, key) in iter: self.key_history.iter()
            invariant
                self.wf(),
                iter.seq() == pairs,
                out@.len() == iter.index(),
                pairs == vstd::std_specs::hash::spec_hash_map_iter(&self.key_history).remaining(),
                forall|i: int|
                    0 <= i < out@.len() ==> {
                        let info = #[trigger] out@[i];
                        &&& info.id == *pairs[i].0
                        &&& self.key_history@.dom().contains(info.id)
                        &&& info == key_info(self.key_history@[info.id], self.current_key.id, now)
                    },
        {
            assert(self.key_history@.contains_key(*pairs[iter.index() as int].0));
            out.push(
                KeyInfo {
                    id: *id,
                    created_at: key.created_at,
                    expires_at: key.expires_at,
                    is_current: *id == self.current_key.id,
                    is_expired: key.is_expired(now),
                },
            );
        }
        proof {
            assert forall|id: u32| #[trigger] self.key_history@.dom().contains(id) implies out@.contains(
                key_info(self.key_history@[id], self.current_key.id, now),
            ) by {
                assert(self.key_history@.contains_key(id));
                assert(pairs.contains((&id, &self.key_history@[id])));
                let i = pairs.index_of((&id, &self.key_history@[id]));
                assert(out@[i].id == id);
            }
        }
        out
    }
}

fn zero_key() -> (result: Vec<u8>)
    ensures
        result@ == Seq::new(KEY_LEN as nat, |i: int| 0u8),
{
    let mut key: Vec<u8> = Vec::new();
    while key.len() < KEY_LEN
        invariant
            key@.len() <= KEY_LEN,
            forall|i: int| 0 <= i < key@.len() ==> key@[i] == 0,
        decreases KEY_LEN - key@.len(),
    {
        key.push(0);
    }
    assert(key@ =~= Seq::new(KEY_LEN as nat, |i: int| 0u8));
    key
}

/// Drops the keys that are forgotten at `now`.
pub fn cleanup_expired_keys(history: &mut HashMap<u32, EncryptionKey>, now: i64)
    ensures
        final(history)@ == remembered(old(history)@, now),
{
    let mut doomed: Vec<u32> = Vec::new();
    let ghost pairs = vstd::std_specs::hash::spec_hash_map_iter(history).remaining();
    for (id, key) in iter: history.iter()
        invariant
            iter.seq() == pairs,
            *history == *old(history),
            pairs == vstd::std_specs::hash::spec_hash_map_iter(history).remaining(),
            forall|k: u32| #[trigger]
                doomed@.contains(k) <==> exists|j: int|
                    0 <= j < iter.index() && *(#[trigger] pairs[j]).0 == k && pairs[j].1.is_forgotten(
                        now,
                    ),
    {
        let gone = elapsed_nanos(key.expires_at, now) > KEY_GRACE;
        let ghost before = doomed@;
        if gone {
            doomed.push(*id);
            proof {
                lemma_push_contains(before, *id);
            }
        }
        proof {
            let at = iter.index() as int;
            assert forall|k: u32| #[trigger] doomed@.contains(k) <==> exists|j: int|
                0 <= j < at + 1 && *(#[trigger] pairs[j]).0 == k && pairs[j].1.is_forgotten(now) by {
                if doomed@.contains(k) && !before.contains(k) {
                    assert(*pairs[at].0 == k);
                }
                if before.contains(k) {
                    let j = choose|j: int|
                        0 <= j < at && *(#[trigger] pairs[j]).0 == k && pairs[j].1.is_forgotten(now);
                    assert(0 <= j < at + 1 && *pairs[j].0 == k);
                }
            }
        }
    }
    let mut i: usize = 0;
    assert(doomed@.take(0) =~= Seq::<u32>::empty());
    assert(history@ =~= history@.remove_keys(doomed@.take(0).to_set()));
    while i < doomed.len()
        invariant
            i <= doomed@.len(),
            history@ == old(history)@.remove_keys(doomed@.take(i as int).to_set()),
        decreases doomed@.len() - i,
    {
        let _ = history.remove(&doomed[i]);
        proof {
            let before = doomed@.take(i as int);
            assert(doomed@.take(i + 1) =~= before.push(doomed@[i as int]));
            lemma_push_contains(before, doomed@[i as int]);
            assert(history@ =~= old(history)@.remove_keys(doomed@.take(i + 1).to_set()));
        }
        i += 1;
    }
    proof {
        assert(doomed@.take(i as int) =~= doomed@);
        assert forall|k: u32| old(history)@.dom().contains(k) implies (doomed@.contains(k) <==> old(
            history,
        )@[k].is_forgotten(now)) by {
            assert(old(history)@.contains_key(k));
            assert(pairs.contains((&k, &old(history)@[k])));
            let j = pairs.index_of((&k, &old(history)@[k]));
            assert(*pairs[j].0 == k);
        }
        assert(history@ =~= remembered(old(history)@, now));
    }
}

/// Counts the keys that a running manager has made.
#[derive(Clone, Copy, Debug, PartialEq, Eq, Structural)]
pub struct KeyRotation {
    pub next_key_id: u32,
}

impl KeyRotation {
    /// Whether the next key is numbered after all keys on record.
    pub open spec fn is_ahead_of(self, manager: CryptoManager) -> bool {
        forall|id: u32| #[trigger]
            manager.key_history@.dom().contains(id) ==> id < self.next_key_id
    }

    /// The first key is already in use; the next is the second.
    pub fn new() -> (result: Self)
        ensures
            result.next_key_id == 2,
    {
        KeyRotation { next_key_id: 2 }
    }

    /// Puts `key` to use where it is time to rotate; says whether it was.
    pub fn rotate_to(&mut self, manager: &mut CryptoManager, key: Vec<u8>, now: i64) -> (result: bool)
        requires
            old(manager).wf(),
            old(self).next_key_id < u32::MAX,
            key@.len() == KEY_LEN,
            CryptoManager::can_make_key(old(manager).config, now),
        ensures
            final(manager).wf(),
            final(manager).config == old(manager).config,
            old(self).is_ahead_of(*old(manager)) ==> final(self).is_ahead_of(*final(manager)),
            result == (elapsed(now as int, old(manager).current_key.expires_at as int) < (
            old(manager).config.key_rotation_interval / 4) * 1_000_000),
            if result {
                &&& final(self).next_key_id == old(self).next_key_id + 1
                &&& key_rotated(*old(manager), *final(manager), old(self).next_key_id, now)
                &&& final(manager).current_key.key == key
            } else {
                *final(self) == *old(self) && *final(manager) == *old(manager)
            },
    {
        if !manager.should_rotate(now) {
            return false;
        }
        manager.install_key(self.next_key_id, key, now);
        self.next_key_id = self.next_key_id + 1;
        true
    }

    /// Puts a random key to use where it is time to rotate; says whether it was. Where
    /// no random key can be had, the current key stays.
    pub fn tick(&mut self, manager: &mut CryptoManager, now: i64) -> (result: Result<bool>)
        requires
            old(manager).wf(),
            old(self).next_key_id < u32::MAX,
            CryptoManager::can_make_key(old(manager).config, now),
        ensures
            final(manager).wf(),
            final(manager).config == old(manager).config,
            old(self).is_ahead_of(*old(manager)) ==> final(self).is_ahead_of(*final(manager)),
            ({
                let due = elapsed(now as int, old(manager).current_key.expires_at as int) < (old(
                    manager,
                ).config.key_rotation_interval / 4) * 1_000_000;
                match result {
                    Ok(rotated) => {
                        &&& rotated == due
                        &&& if due {
                            &&& final(self).next_key_id == old(self).next_key_id + 1
                            &&& key_rotated(
                                *old(manager),
                                *final(manager),
                                old(self).next_key_id,
                                now,
                            )
                        } else {
                            *final(self) == *old(self) && *final(manager) == *old(manager)
                        }
                    },
                    Err(error) => {
                        &&& due
                        &&& is_crypto_error(error, "Failed to generate key"@)
                        &&& *final(self) == *old(self) && *final(manager) == *old(manager)
                    },
                }
            }),
    {
        if !manager.should_rotate(now) {
            return Ok(false);
        }
        match random_bytes(KEY_LEN) {
            Some(key) => Ok(self.rotate_to(manager, key, now)),
            None => Err(crypto_error("Failed to generate key")),
        }
    }
}

/// A key of one session.
#[derive(Debug)]
pub struct SessionKey {
    pub key: Vec<u8>,
    pub suite: CipherSuite,
    pub created_at: i64,
    pub last_used: i64,
}

/// Encrypts data of a session with the session's own key.
pub struct SessionCrypto {
    pub session_keys: Table<SessionKey>,
}

/// What comes of opening a session's data: the nonce, then the encrypted data with
/// its tag.
pub open spec fn session_opened(key: SessionKey, data: Seq<u8>) -> Option<Seq<u8>> {
    aead_opened(key.suite, key.key@, data.take(NONCE_LEN as int), data.skip(NONCE_LEN as int))
}

/// The sessions that were used less than `max_age` nanoseconds before `now`.
pub open spec fn young_sessions(
    sessions: Map<Seq<char>, SessionKey>,
    max_age: u64,
    now: i64,
) -> Map<Seq<char>, SessionKey> {
    sessions.restrict(
        Set::new(|k: Seq<char>| elapsed(sessions[k].last_used as int, now as int) < max_age),
    )
}

impl SessionCrypto {
    /// Every session's key has the right length.
    pub open spec fn wf(&self) -> bool {
        &&& self.session_keys.wf()
        &&& forall|k: Seq<char>| #[trigger]
            self.session_keys@.dom().contains(k) ==> self.session_keys@[k].key@.len() == KEY_LEN
    }

    /// No sessions.
    pub fn new() -> (result: Self)
        ensures
            result.wf(),
            result.session_keys@ == Map::<Seq<char>, SessionKey>::empty(),
    {
        SessionCrypto { session_keys: Table::new() }
    }

    /// Opens a session with the given key, in place of one with the same identifier.
    pub fn insert_session(&mut self, session_id: String, key: Vec<u8>, suite: CipherSuite, now: i64)
        requires
            old(self).wf(),
            key@.len() == KEY_LEN,
        ensures
            final(self).wf(),
            final(self).session_keys@ == old(self).session_keys@.insert(
                session_id@,
                SessionKey { key, suite, created_at: now, last_used: now },
            ),
    {
        let session = SessionKey { key, suite, created_at: now, last_used: now };
        let _ = self.session_keys.insert(session_id, session);
    }

    /// Opens a session with a random key.
    pub fn create_session(&mut self, session_id: String, suite: CipherSuite, now: i64) -> (result:
        Result<()>)
        requires
            old(self).wf(),
        ensures
            final(self).wf(),
            match result {
                Ok(_) => {
                    let session = final(self).session_keys@[session_id@];
                    &&& final(self).session_keys@ == old(self).session_keys@.insert(
                        session_id@,
                        session,
                    )
                    &&& session.suite == suite
                    &&& session.created_at == now
                    &&& session.last_used == now
                },
                Err(error) => {
                    &&& *final(self) == *old(self)
                    &&& is_crypto_error(error, "Failed to generate session key"@)
                },
            },
    {
        match random_bytes(KEY_LEN) {
            Some(key) => {
                self.insert_session(session_id, key, suite, now);
                Ok(())
            },
            None => Err(crypto_error("Failed to generate session key")),
        }
    }

    fn touch(&mut self, session_id: &str, now: i64) -> (result: Option<usize>)
        requires
            old(self).wf(),
        ensures
            final(self).wf(),
            match result {
                Some(i) => {
                    let before = old(self).session_keys@[session_id@];
                    &&& old(self).session_keys@.dom().contains(session_id@)
                    &&& i < final(self).session_keys.values().len()
                    &&& final(self).session_keys.values()[i as int] == (SessionKey {
                        last_used: now,
                        ..before
                    })
                    &&& before.key@.len() == KEY_LEN
                    &&& final(self).session_keys@ == old(self).session_keys@.insert(
                        session_id@,
                        SessionKey { last_used: now, ..before },
                    )
                },
                None => !old(self).session_keys@.dom().contains(session_id@) && *final(self)
                    == *old(self),
            },
    {
        match self.session_keys.find(session_id) {
            Some(i) => {
                let session = self.session_keys.value_at_mut(i);
                session.last_used = now;
                Some(i)
            },
            None => None,
        }
    }

    /// Encrypts with a session's key and the given nonce. The session counts as used
    /// even where that fails.
    pub fn encrypt_with_nonce(
        &mut self,
        session_id: &str,
        plaintext: &[u8],
        nonce: Vec<u8>,
        now: i64,
    ) -> (result: Result<Vec<u8>>)
        requires
            old(self).wf(),
            nonce@.len() == NONCE_LEN,
        ensures
            final(self).wf(),
            ({
                let known = old(self).session_keys@.dom().contains(session_id@);
                let session = old(self).session_keys@[session_id@];
                &&& final(self).session_keys@ == (if known {
                    old(self).session_keys@.insert(
                        session_id@,
                        SessionKey { last_used: now, ..session },
                    )
                } else {
                    old(self).session_keys@
                })
                &&& match result {
                    Ok(data) => {
                        &&& known
                        &&& data@.take(NONCE_LEN as int) == nonce@
                        &&& aead_sealed(session.suite, session.key@, nonce@, plaintext@) == Some(
                            data@.skip(NONCE_LEN as int),
                        )
                        &&& data@.len() == plaintext@.len() + NONCE_LEN + TAG_LEN
                        &&& session_opened(session, data@) == Some(plaintext@)
                    },
                    Err(error) => if !known {
                        is_crypto_error(error, "Session not found"@)
                    } else {
                        plaintext@.len() > MAX_SEALED_LEN && is_crypto_error(
                            error,
                            "Session encryption failed"@,
                        )
                    },
                }
            }),
    {
        let i: usize = match self.touch(session_id, now) {
            Some(i) => i,
            None => {
                return Err(crypto_error("Session not found"));
            },
        };
        let session = self.session_keys.value_at(i);
        match aead_seal(session.suite, session.key.as_slice(), nonce.as_slice(), plaintext) {
            Some(sealed) => {
                let ghost start = nonce@;
                let mut data: Vec<u8> = nonce;
                data.extend_from_slice(sealed.as_slice());
                assert(data@ =~= start + sealed@);
                assert(data@.take(NONCE_LEN as int) =~= start);
                assert(data@.skip(NONCE_LEN as int) =~= sealed@);
                Ok(data)
            },
            None => Err(crypto_error("Session encryption failed")),
        }
    }

    /// Encrypts with a session's key and a random nonce.
    pub fn encrypt_for_session(&mut self, session_id: &str, plaintext: &[u8], now: i64) -> (result:
        Result<Vec<u8>>)
        requires
            old(self).wf(),
        ensures
            final(self).wf(),
            ({
                let known = old(self).session_keys@.dom().contains(session_id@);
                let session = old(self).session_keys@[session_id@];
                &&& final(self).session_keys@ == (if known {
                    old(self).session_keys@.insert(
                        session_id@,
                        SessionKey { last_used: now, ..session },
                    )
                } else {
                    old(self).session_keys@
                })
                &&& match result {
                    Ok(data) => {
                        &&& known
                        &&& data@.len() == plaintext@.len() + NONCE_LEN + TAG_LEN
                        &&& session_opened(session, data@) == Some(plaintext@)
                    },
                    Err(error) => if !known {
                        is_crypto_error(error, "Session not found"@)
                    } else {
                        is_crypto_error(error, "Failed to generate nonce"@) || (plaintext@.len()
                            > MAX_SEALED_LEN && is_crypto_error(
                            error,
                            "Session encryption failed"@,
                        ))
                    },
                }
            }),
    {
        if self.touch(session_id, now).is_none() {
            return Err(crypto_error("Session not found"));
        }
        let nonce = match random_bytes(NONCE_LEN) {
            Some(nonce) => nonce,
            None => {
                return Err(crypto_error("Failed to generate nonce"));
            },
        };
        let result = self.encrypt_with_nonce(session_id, plaintext, nonce, now);
        proof {
            let session = old(self).session_keys@[session_id@];
            assert(self.session_keys@ =~= old(self).session_keys@.insert(
                session_id@,
                SessionKey { last_used: now, ..session },
            ));
        }
        result
    }

    /// Decrypts with a session's key. The session counts as used even where that
    /// fails, but not where the data is too short to hold a nonce.
    pub fn decrypt_for_session(&mut self, session_id: &str, encrypted_data: &[u8], now: i64) -> (result:
        Result<Vec<u8>>)
        requires
            old(self).wf(),
        ensures
            final(self).wf(),
            ({
                let short = encrypted_data@.len() < NONCE_LEN;
                let known = old(self).session_keys@.dom().contains(session_id@);
                let session = old(self).session_keys@[session_id@];
                &&& final(self).session_keys@ == (if known && !short {
                    old(self).session_keys@.insert(
                        session_id@,
                        SessionKey { last_used: now, ..session },
                    )
                } else {
                    old(self).session_keys@
                })
                &&& match result {
                    Ok(plaintext) => {
                        &&& !short && known
                        &&& session_opened(session, encrypted_data@) == Some(plaintext@)
                    },
                    Err(error) => if short {
                        is_crypto_error(error, "Invalid encrypted data length"@)
                    } else if !known {
                        is_crypto_error(error, "Session not found"@)
                    } else {
                        session_opened(session, encrypted_data@) is None && is_crypto_error(
                            error,
                            "Session decryption failed"@,
                        )
                    },
                }
            }),
    {
        if encrypted_data.len() < NONCE_LEN {
            return Err(crypto_error("Invalid encrypted data length"));
        }
        let i: usize = match self.touch(session_id, now) {
            Some(i) => i,
            None => {
                return Err(crypto_error("Session not found"));
            },
        };
        let session = self.session_keys.value_at(i);
        let nonce = slice_subrange(encrypted_data, 0, NONCE_LEN);
        let sealed = slice_subrange(encrypted_data, NONCE_LEN, encrypted_data.len());
        assert(nonce@ =~= encrypted_data@.take(NONCE_LEN as int));
        assert(sealed@ =~= encrypted_data@.skip(NONCE_LEN as int));
        match aead_open(session.suite, session.key.as_slice(), nonce, sealed) {
            Some(plaintext) => Ok(plaintext),
            None => Err(crypto_error("Session decryption failed")),
        }
    }

    /// Closes a session.
    pub fn remove_session(&mut self, session_id: &str)
        requires
            old(self).wf(),
        ensures
            final(self).wf(),
            final(self).session_keys@ == old(self).session_keys@.remove(session_id@),
    {
        let _ = self.session_keys.remove(session_id);
    }

    /// Closes the sessions that have not been used for `max_age` nanoseconds.
    pub fn cleanup_expired_sessions(&mut self, max_age: u64, now: i64)
        requires
            old(self).wf(),
        ensures
            final(self).wf(),
            final(self).session_keys@ == young_sessions(old(self).session_keys@, max_age, now),
    {
        let ghost keeps = |k: Seq<char>, session: SessionKey|
            elapsed(session.last_used as int, now as int) < max_age;
        let keep = |_id: &String, session: &SessionKey| -> (kept: bool)
            ensures
                kept == (elapsed(session.last_used as int, now as int) < max_age),
        {
            elapsed_nanos(session.last_used, now) < max_age
        };
        self.session_keys.retain(keep, Ghost(keeps));
        proof {
            assert(self.session_keys@ =~= young_sessions(
                old(self).session_keys@,
                max_age,
                now,
            ));
        }
    }
}

/// Putting a new key to use takes no key off the record whose time is not over, so
/// what was encrypted with an earlier key can be decrypted until that key expires.
pub proof fn lemma_rotation_keeps_live_keys(
    before: CryptoManager,
    after: CryptoManager,
    rotation: KeyRotation,
    record: EncryptedData,
    now: i64,
)
    requires
        rotation.is_ahead_of(before),
        key_rotated(before, after, rotation.next_key_id, now),
        before.key_history@.dom().contains(record.key_id),
        !before.key_history@[record.key_id].has_expired(now),
    ensures
        after.key_history@.dom().contains(record.key_id),
        after.key_history@[record.key_id] == before.key_history@[record.key_id],
        record_opened(after.key_history@[record.key_id], record) == record_opened(
            before.key_history@[record.key_id],
            record,
        ),
{
}

/// What was encrypted with the current key can be decrypted after the next rotation, until
/// that key expires.
pub proof fn lemma_record_outlives_rotation(
    before: CryptoManager,
    after: CryptoManager,
    rotation: KeyRotation,
    record: EncryptedData,
    plaintext: Seq<u8>,
    now: i64,
)
    requires
        before.wf(),
        before.config.enabled,
        rotation.is_ahead_of(before),
        record.key_id == before.current_key.id,
        record_opened(before.current_key, record) == Some(plaintext),
        key_rotated(before, after, rotation.next_key_id, now),
        !before.current_key.has_expired(now),
    ensures
        after.key_history@.dom().contains(record.key_id),
        after.key_history@[record.key_id].expires_at == before.current_key.expires_at,
        record_opened(after.key_history@[record.key_id], record) == Some(plaintext),
{
    lemma_rotation_keeps_live_keys(before, after, rotation, record, now);
}

/// The numbering starts after the keys that a manager is made with.
pub proof fn lemma_rotation_starts_ahead(rotation: KeyRotation, manager: CryptoManager)
    requires
        rotation.next_key_id == 2,
        manager.key_history@.dom() == set![1u32] || manager.key_history@ == Map::<
            u32,
            EncryptionKey,
        >::empty(),
    ensures
        rotation.is_ahead_of(manager),
{
}

/// A key that is dropped had expired before, and stays dropped as time goes on.
pub proof fn lemma_forgotten_keys_had_expired(key: EncryptionKey, now: i64, later: i64)
    requires
        key.is_forgotten(now),
        now <= later,
    ensures
        key.has_expired(now),
        key.is_forgotten(later),
{
}

/// The bytes of a record determine its parts.
pub proof fn lemma_record_bytes_determine_parts(
    key_id: u32,
    nonce: Seq<u8>,
    ciphertext: Seq<u8>,
    other_id: u32,
    other_nonce: Seq<u8>,
    other_ciphertext: Seq<u8>,
)
    requires
        nonce.len() <= u64::MAX,
        ciphertext.len() <= u64::MAX,
        other_nonce.len() <= u64::MAX,
        other_ciphertext.len() <= u64::MAX,
        encoded_record(key_id, nonce, ciphertext) == encoded_record(
            other_id,
            other_nonce,
            other_ciphertext,
        ),
    ensures
        key_id == other_id,
        nonce == other_nonce,
        ciphertext == other_ciphertext,
{
    let bytes = encoded_record(key_id, nonce, ciphertext);
    let others = encoded_record(other_id, other_nonce, other_ciphertext);
    lemma_byte_ranges();
    lemma_le_round_trip(key_id as nat, 4);
    lemma_le_round_trip(other_id as nat, 4);
    lemma_le_round_trip(nonce.len(), 8);
    lemma_le_round_trip(other_nonce.len(), 8);
    lemma_le_len(ciphertext.len(), 8);
    lemma_le_len(other_ciphertext.len(), 8);
    assert(bytes.subrange(0, 4) =~= le_bytes(key_id as nat, 4));
    assert(others.subrange(0, 4) =~= le_bytes(other_id as nat, 4));
    assert(bytes.subrange(4, 12) =~= le_bytes(nonce.len(), 8));
    assert(others.subrange(4, 12) =~= le_bytes(other_nonce.len(), 8));
    let end = 12 + nonce.len() as int;
    assert(bytes.subrange(12, end) =~= nonce);
    assert(others.subrange(12, end) =~= other_nonce);
    assert(bytes.skip(end + 8) =~= ciphertext);
    assert(others.skip(end + 8) =~= other_ciphertext);
}

/// What was encrypted with the current key is decrypted with the key on record under
/// its identifier.
pub proof fn lemma_current_record_opens(
    manager: CryptoManager,
    record: EncryptedData,
    plaintext: Seq<u8>,
)
    requires
        manager.wf(),
        manager.config.enabled,
        record.key_id == manager.current_key.id,
        record_opened(manager.current_key, record) == Some(plaintext),
    ensures
        manager.key_history@.dom().contains(record.key_id),
        record_opened(manager.key_history@[record.key_id], record) == Some(plaintext),
{
}

/// A key is good through the moment at which it expires, and is kept for five minutes
/// after it.
pub proof fn lemma_keys_expire_and_are_kept(key: EncryptionKey, now: i64)
    ensures
        key.has_expired(now) <==> key.expires_at < now,
        !key.has_expired(key.expires_at),
        key.is_forgotten(now) <==> now > key.expires_at + 5 * 60 * 1_000_000_000,
{
}

/// The record of keys loses those that expired more than five minutes ago, and no other.
pub proof fn lemma_record_loses_only_old_keys(
    history: Map<u32, EncryptionKey>,
    now: i64,
    id: u32,
)
    requires
        history.dom().contains(id),
    ensures
        remembered(history, now).dom().contains(id) <==> now <= history[id].expires_at
            + 300_000_000_000,
        remembered(history, now).dom().contains(id) ==> remembered(history, now)[id] == history[id],
{
}

/// What is told of a key is true of it: it is the current one exactly where it has the
/// current identifier, and expired exactly where its time is over.
pub proof fn lemma_key_info_is_true(key: EncryptionKey, current: u32, now: i64)
    ensures
        ({
            let info = key_info(key, current, now);
            &&& info.id == key.id
            &&& info.created_at == key.created_at
            &&& info.expires_at == key.expires_at
            &&& info.is_current <==> key.id == current
            &&& info.is_expired <==> key.expires_at < now
        }),
{
}

/// A new key is of the configured suite and lasts for the configured time, which counts
/// milliseconds.
pub proof fn lemma_new_key_lasts_as_configured(
    key: EncryptionKey,
    id: u32,
    config: CryptoConfig,
    now: i64,
)
    requires
        is_configured_key(key, id, config, now),
    ensures
        key.id == id,
        key.suite == config.cipher_suite,
        key.created_at == now,
        key.expires_at - key.created_at == config.key_rotation_interval * 1_000_000,
        !key.has_expired(now),
{
}

/// Where nothing is to be encrypted, the key is all zeros and stands for a day.
pub proof fn lemma_unused_key_is_zero(key: EncryptionKey, now: i64)
    requires
        is_unused_key(key, now),
    ensures
        key.id == 0,
        key.key@.len() == 32,
        forall|i: int| 0 <= i < 32 ==> #[trigger] key.key@[i] == 0,
        key.expires_at - now == 24 * 60 * 60 * 1_000_000_000,
        key.created_at == now,
        key.suite == CipherSuite::ChaCha20Poly1305,
{
}

/// A rotation puts a new key to use, which is on record with the same key bytes and the
/// same times, and leaves the configuration alone. Of the older keys it loses only those
/// that expired more than five minutes ago.
pub proof fn lemma_rotation_files_the_new_key(
    before: CryptoManager,
    after: CryptoManager,
    id: u32,
    now: i64,
    other: u32,
)
    requires
        key_rotated(before, after, id, now),
    ensures
        after.config == before.config,
        after.current_key.id == id,
        after.current_key.created_at == now,
        after.key_history@.dom().contains(id),
        after.key_history@[id].key@ == after.current_key.key@,
        after.key_history@[id].suite == after.current_key.suite,
        after.key_history@[id].expires_at == after.current_key.expires_at,
        other != id ==> (after.key_history@.dom().contains(other)
            <==> before.key_history@.dom().contains(other) && now
            <= before.key_history@[other].expires_at + 300_000_000_000),
        other != id && after.key_history@.dom().contains(other) ==> after.key_history@[other]
            == before.key_history@[other],
{
}

/// A session lives while it was used less than the maximal age ago; a use in the future
/// counts as one just now.
pub proof fn lemma_young_sessions_were_used_lately(
    sessions: Map<Seq<char>, SessionKey>,
    max_age: u64,
    now: i64,
    id: Seq<char>,
)
    requires
        sessions.dom().contains(id),
    ensures
        young_sessions(sessions, max_age, now).dom().contains(id) <==> max_age > 0 && now
            < sessions[id].last_used + max_age,
        young_sessions(sessions, max_age, now).dom().contains(id) ==> young_sessions(
            sessions,
            max_age,
            now,
        )[id] == sessions[id],
{
}

/// A record's parts stand one after the other in its bytes: the key's identifier, and the
/// nonce and the encrypted data each behind its length.
pub proof fn lemma_record_parts_stand_in_order(key_id: u32, nonce: Seq<u8>, ciphertext: Seq<u8>)
    requires
        nonce.len() <= u64::MAX,
        ciphertext.len() <= u64::MAX,
    ensures
        ({
            let bytes = encoded_record(key_id, nonce, ciphertext);
            let end = 12 + nonce.len() as int;
            &&& bytes.len() == 20 + nonce.len() + ciphertext.len()
            &&& crate::bytes::le_value(bytes.subrange(0, 4)) == key_id
            &&& crate::bytes::le_value(bytes.subrange(4, 12)) == nonce.len()
            &&& bytes.subrange(12, end) == nonce
            &&& crate::bytes::le_value(bytes.subrange(end, end + 8)) == ciphertext.len()
            &&& bytes.skip(end + 8) == ciphertext
        }),
{
    let bytes = encoded_record(key_id, nonce, ciphertext);
    let end = 12 + nonce.len() as int;
    lemma_byte_ranges();
    lemma_le_round_trip(key_id as nat, 4);
    lemma_le_round_trip(nonce.len(), 8);
    lemma_le_round_trip(ciphertext.len(), 8);
    assert(bytes.subrange(0, 4) =~= le_bytes(key_id as nat, 4));
    assert(bytes.subrange(4, 12) =~= le_bytes(nonce.len(), 8));
    assert(bytes.subrange(12, end) =~= nonce);
    assert(bytes.subrange(end, end + 8) =~= le_bytes(ciphertext.len(), 8));
    assert(bytes.skip(end + 8) =~= ciphertext);
}

/// The three fields of a record have their own names, and no other name stands for one.
pub proof fn lemma_three_names_stand_for_fields(name: Seq<char>)
    ensures
        field_named(name) is Some <==> name == "key_id"@ || name == "nonce"@ || name
            == "ciphertext"@,
        field_named("key_id"@) == Some(RecordField::KeyId),
        field_named("nonce"@) == Some(RecordField::Nonce),
        field_named("ciphertext"@) == Some(RecordField::Ciphertext),
        forall|field: RecordField| #[trigger] field_named(field.spec_name()) == Some(field),
{
    reveal_strlit("key_id");
    reveal_strlit("nonce");
    reveal_strlit("ciphertext");
    assert("key_id"@.len() == 6 && "nonce"@.len() == 5 && "ciphertext"@.len() == 10);
    assert forall|field: RecordField| #[trigger] field_named(field.spec_name()) == Some(field) by {
        match field {
            RecordField::KeyId => {},
            RecordField::Nonce => {},
            RecordField::Ciphertext => {},
        }
    }
}

/// The key's identifier is a number, and the other two fields are bytes.
pub proof fn lemma_fields_have_their_types(value: FieldValue)
    ensures
        suits(RecordField::KeyId, value) <==> value is Number,
        suits(RecordField::Nonce, value) <==> value is Bytes,
        suits(RecordField::Ciphertext, value) <==> value is Bytes,
{
}

/// An entry is at fault exactly where its name stands for no field, has come before, or its
/// value is of the wrong type; a name that is not known is told before one that came
/// before, and that before a wrong type.
pub proof fn lemma_entries_are_at_fault_in_turn(entries: Seq<FieldEntry>, i: int)
    requires
        0 <= i < entries.len(),
    ensures
        ({
            let name = entries[i].name@;
            let known = name == "key_id"@ || name == "nonce"@ || name == "ciphertext"@;
            let again = exists|j: int| 0 <= j < i && (#[trigger] entries[j]).name@ == name;
            let fault = field_fault(entries, i);
            &&& !known <==> fault == Some(RecordError::UnknownField(entries[i].name))
            &&& known && again <==> fault is Some && fault->0 is DuplicateField
            &&& fault is None ==> known && !again && (entries[i].value is Number <==> name
                == "key_id"@)
            &&& known && !again && (entries[i].value is Number <==> name == "key_id"@) && (
            entries[i].value is Bytes <==> name != "key_id"@) ==> fault is None
        }),
{
    lemma_three_names_stand_for_fields(entries[i].name@);
    let name = entries[i].name@;
    if exists|j: int| 0 <= j < i && (#[trigger] entries[j]).name@ == name {
        let j = choose|j: int| 0 <= j < i && (#[trigger] entries[j]).name@ == name;
        assert(entries[j].name@ == entries[i].name@);
    }
}

/// Keys that are the same encrypt alike and expire together.
pub proof fn lemma_same_key_in_every_field(a: EncryptionKey, b: EncryptionKey)
    requires
        a.same_as(b),
    ensures
        a.id == b.id && a.key@ == b.key@ && a.suite == b.suite,
        a.created_at == b.created_at && a.expires_at == b.expires_at,
        forall|record: EncryptedData| #[trigger]
            record_opened(a, record) == record_opened(b, record),
{
}

/// A record is opened with the key's own suite and bytes, and with the record's own nonce.
pub proof fn lemma_record_is_opened_with_its_nonce(
    key: EncryptionKey,
    record: EncryptedData,
    session: SessionKey,
    data: Seq<u8>,
)
    requires
        data.len() >= 12,
    ensures
        record_opened(key, record) == aead_opened(
            key.suite,
            key.key@,
            record.nonce@,
            record.ciphertext@,
        ),
        session_opened(session, data) == aead_opened(
            session.suite,
            session.key@,
            data.subrange(0, 12),
            data.subrange(12, data.len() as int),
        ),
{
    assert(data.subrange(0, 12) =~= data.take(12));
    assert(data.subrange(12, data.len() as int) =~= data.skip(12));
}

/// Of a record's faults, one is told: there are never two that come first.
pub proof fn lemma_one_fault_comes_first(
    entries: Seq<FieldEntry>,
    a: RecordError,
    b: RecordError,
)
    requires
        is_first_fault(entries, a),
        is_first_fault(entries, b),
    ensures
        a == b,
{
    if exists|i: int| 0 <= i < entries.len() && #[trigger] field_fault(entries, i) is Some {
        let i = choose|i: int|
            {
                &&& 0 <= i < entries.len()
                &&& #[trigger] field_fault(entries, i) == Some(a)
                &&& forall|j: int| 0 <= j < i ==> #[trigger] field_fault(entries, j) is None
            };
        let k = choose|i: int|
            {
                &&& 0 <= i < entries.len()
                &&& #[trigger] field_fault(entries, i) == Some(b)
                &&& forall|j: int| 0 <= j < i ==> #[trigger] field_fault(entries, j) is None
            };
        assert(field_fault(entries, i) == Some(a));
        assert(field_fault(entries, k) == Some(b));
        if i < k {
            assert(field_fault(entries, i) is None);
        }
        if k < i {
            assert(field_fault(entries, k) is None);
        }
    }
}

/// A field that is missing is told only where no entry is at fault: the identifier before
/// the nonce, and the nonce before the encrypted data.
pub proof fn lemma_missing_fields_are_told_last(entries: Seq<FieldEntry>, error: RecordError)
    requires
        is_first_fault(entries, error),
        forall|j: int| 0 <= j < entries.len() ==> #[trigger] field_fault(entries, j) is None,
    ensures
        is_absent(entries, "key_id"@) ==> error == RecordError::MissingField(RecordField::KeyId),
        error == RecordError::MissingField(RecordField::KeyId) ==> is_absent(entries, "key_id"@),
        error == RecordError::MissingField(RecordField::Nonce) ==> is_absent(entries, "nonce"@)
            && !is_absent(entries, "key_id"@),
        error == RecordError::MissingField(RecordField::Ciphertext) ==> is_absent(
            entries,
            "ciphertext"@,
        ) && !is_absent(entries, "key_id"@) && !is_absent(entries, "nonce"@),
{
}

} // verus!
