//! Unique identifiers.

use vstd::arithmetic::power::pow;
use vstd::prelude::*;

verus! {

/// A UUID, by its 128 bits.
pub type Uuid = u128;

/// The UUID that a text stands for, if it stands for one.
pub uninterp spec fn uuid_of_text(text: Seq<char>) -> Option<u128>;

/// The hexadecimal digit of a number, in lower case.
pub open spec fn hex_digit(n: int) -> char {
    if n < 10 {
        ('0' as int + n) as char
    } else {
        ('a' as int + n - 10) as char
    }
}

/// The text of a UUID: its 32 hexadecimal digits in groups of eight, four, four, four and twelve, with
/// hyphens between them.
pub open spec fn text_of_uuid(id: u128) -> Seq<char> {
    Seq::new(
        36,
        |i: int|
            if i == 8 || i == 13 || i == 18 || i == 23 {
                '-'
            } else {
                let hyphens = if i < 8 {
                    0int
                } else if i < 13 {
                    1
                } else if i < 18 {
                    2
                } else if i < 23 {
                    3
                } else {
                    4
                };
                hex_digit(id as int / pow(16, (31 - (i - hyphens)) as nat) % 16)
            },
    )
}

/// Parses a UUID with `uuid::Uuid::parse_str`. Whether a text is a UUID, and which, depends on the
/// text alone.
#[verifier::external_body]
pub(crate) fn parse_uuid(text: &str) -> (id: Option<Uuid>)
    ensures
        id == uuid_of_text(text@),
{
    match uuid::Uuid::parse_str(text) {
        Ok(id) => Some(id.as_u128()),
        Err(_) => None,
    }
}

/// Writes a UUID as `uuid::Uuid` displays it: in hyphenated form, with digits in lower case. The text
/// parses back to the same UUID.
#[verifier::external_body]
pub(crate) fn format_uuid(id: Uuid) -> (text: String)
    ensures
        text@ == text_of_uuid(id),
        uuid_of_text(text@) == Some(id),
{
    uuid::Uuid::from_u128(id).to_string()
}

/// The id is one of those that are drawn at random: its version is 4, and its variant the bits one and
/// zero.
pub open spec fn is_random_id(id: Uuid) -> bool {
    (id >> 76) & 0xf == 4 && (id >> 62) & 3 == 2
}

/// A fresh random UUID from `uuid::Uuid::new_v4`. Of its bits only the version (4) and the variant
/// (the bits one and zero) are fixed.
#[verifier::external_body]
pub(crate) fn random_uuid() -> (id: Uuid)
    ensures
        is_random_id(id),
{
    uuid::Uuid::new_v4().as_u128()
}

} // verus!
