//! Identifiers of documents and layers.
//!
//! Identifiers are random (version 4) UUIDs, held by the library as their
//! 128-bit value.
use vstd::prelude::*;
use vstd::arithmetic::power::pow;

use crate::mcp::uuid_from_text;

verus! {

/// A fresh identifier: the value of `uuid::Uuid::new_v4()`, as a `u128`.
///
/// The value is random, so nothing is stated of it; in particular it is not
/// promised to differ from identifiers already in use.
#[verifier::external_body]
pub fn fresh_id() -> (r: u128) {
    uuid::Uuid::new_v4().as_u128()
}

/// The lower-case hexadecimal digit of `v`, for `0 <= v < 16`.
pub open spec fn hex_digit(v: int) -> char {
    if v < 10 {
        ('0' as int + v) as char
    } else {
        ('a' as int + v - 10) as char
    }
}

/// The 32 hexadecimal digits of `id`, most significant first.
pub open spec fn hex_digits(id: u128) -> Seq<char> {
    Seq::new(32, |k: int| hex_digit((id as int / pow(16, (31 - k) as nat)) % 16))
}

/// The hyphenated lower-case text of the UUID with this 128-bit value: its
/// 32 hexadecimal digits, most significant first, in groups of 8, 4, 4, 4
/// and 12 joined by hyphens.
pub open spec fn uuid_text(id: u128) -> Seq<char> {
    let d = hex_digits(id);
    d.subrange(0, 8) + seq!['-'] + d.subrange(8, 12) + seq!['-'] + d.subrange(12, 16) + seq!['-']
        + d.subrange(16, 20) + seq!['-'] + d.subrange(20, 32)
}

/// `uuid::Uuid::from_u128(id).to_string()`. Claimed: the text is
/// `uuid_text(id)` (the crate's hyphenated, lower-case form of the value's
/// big-endian bytes), and `uuid::Uuid::parse_str` reads `id` back from it.
#[verifier::external_body]
pub(crate) fn uuid_string(id: u128) -> (r: String)
    ensures
        r@ == uuid_text(id),
        uuid_from_text(r@) == Some(id),
{
    uuid::Uuid::from_u128(id).to_string()
}

/// The text of an identifier: its UUID in hyphenated lower-case form, from
/// which the UUID parser reads the identifier back.
pub fn id_text(id: u128) -> (r: String)
    ensures
        r@ == uuid_text(id),
        uuid_from_text(r@) == Some(id),
{
    uuid_string(id)
}

} // verus!
