//! Random identifiers and their text form.
use uuid::Uuid;
use vstd::prelude::*;

use crate::json::opt_text;

verus! {

/// Whether `c` is a hexadecimal digit in lower case.
pub open spec fn is_lower_hex(c: char) -> bool {
    ('0' <= c && c <= '9') || ('a' <= c && c <= 'f')
}

/// Whether `text` is a universally unique identifier in hyphenated form:
/// groups of 8, 4, 4, 4 and 12 lower-case hexadecimal digits.
pub open spec fn is_uuid_text(text: Seq<char>) -> bool {
    &&& text.len() == 36
    &&& forall|i: int|
        0 <= i < 36 ==> if i == 8 || i == 13 || i == 18 || i == 23 {
            #[trigger] text[i] == '-'
        } else {
            is_lower_hex(text[i])
        }
}

/// `Uuid::new_v4` and its `to_string`: a random identifier in hyphenated form.
/// Which one comes back rests on chance.
#[verifier::external_body]
pub(crate) fn new_uuid_text() -> (result: String)
    ensures
        is_uuid_text(result@),
{
    Uuid::new_v4().to_string()
}

/// The hyphenated form of the identifier that a text stands for, if it stands for
/// one.
pub uninterp spec fn uuid_canonical(text: Seq<char>) -> Option<Seq<char>>;

/// `Uuid::parse_str` and its `to_string`: the hyphenated form of the identifier that
/// `text` stands for. A text in that form stands for itself. Nothing is claimed of
/// which other texts stand for one.
#[verifier::external_body]
pub(crate) fn canonical_uuid(text: &str) -> (result: Option<String>)
    ensures
        opt_text(result) == uuid_canonical(text@),
        is_uuid_text(text@) ==> opt_text(result) == Some(text@),
        result matches Some(form) ==> is_uuid_text(form@),
{
    Uuid::parse_str(text).ok().map(|id| id.to_string())
}

/// An identifier has five groups of lower-case hexadecimal digits with dashes between them.
pub proof fn lemma_identifier_has_five_groups(text: Seq<char>, i: int)
    requires
        is_uuid_text(text),
        0 <= i < 36,
    ensures
        text.len() == 36,
        text[i] == '-' <==> i == 8 || i == 13 || i == 18 || i == 23,
        text[i] != '-' ==> ('0' <= text[i] && text[i] <= '9') || ('a' <= text[i] && text[i] <= 'f'),
{
}

} // verus!
