use vstd::prelude::*;

verus! {

/// The 128-bit value `uuid::Uuid::parse_str` gives for `s`, if it accepts it.
pub uninterp spec fn spec_parse_uuid(s: Seq<char>) -> Option<u128>;

/// `uuid::Uuid::parse_str`, read back as the 128-bit value (`Uuid::as_u128`). Whether a string is
/// accepted and what it denotes depends on the string alone; the contract names that result.
#[verifier::external_body]
pub(crate) fn parse_uuid(s: &str) -> (r: Option<u128>)
    ensures
        r == spec_parse_uuid(s@),
{
    uuid::Uuid::parse_str(s).ok().map(|u| u.as_u128())
}

/// The lowercase hexadecimal digit for a nibble.
pub open spec fn hex_digit(n: int) -> char {
    if n < 10 {
        (n + 48) as char
    } else {
        (n + 87) as char
    }
}

/// Nibble `k` (0 = most significant) of a 128-bit value.
pub open spec fn nibble(v: u128, k: int) -> int {
    ((v >> ((124 - 4 * k) as u128)) & 0xf) as int
}

/// Which hex digit a position of the hyphenated form shows (positions 8, 13, 18, 23 are hyphens).
pub open spec fn digit_index(i: int) -> int {
    if i < 8 {
        i
    } else if i < 13 {
        i - 1
    } else if i < 18 {
        i - 2
    } else if i < 23 {
        i - 3
    } else {
        i - 4
    }
}

/// The hyphenated lowercase form of a UUID: `xxxxxxxx-xxxx-xxxx-xxxx-xxxxxxxxxxxx`.
pub open spec fn spec_hyphenated(v: u128) -> Seq<char> {
    Seq::new(36, |i: int| if i == 8 || i == 13 || i == 18 || i == 23 {
        '-'
    } else {
        hex_digit(nibble(v, digit_index(i)))
    })
}

/// `uuid::Uuid::from_u128(v).hyphenated().to_string()`: its documentation and source write the 32
/// lowercase hex digits of the value, most significant first, grouped 8-4-4-4-12 with hyphens.
#[verifier::external_body]
pub(crate) fn uuid_hyphenated(v: u128) -> (r: String)
    ensures
        r@ == spec_hyphenated(v),
{
    uuid::Uuid::from_u128(v).hyphenated().to_string()
}

} // verus!
