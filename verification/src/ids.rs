use vstd::prelude::*;

verus! {

/// Identifier of an object of the schema graph.
pub type Uid = u128;

/// The lowercase hexadecimal digit for `n`, from 0 to 15.
pub open spec fn hex_char(n: int) -> char {
    if n < 10 {
        (48 + n) as char
    } else {
        (87 + n) as char
    }
}

/// The last `n` hexadecimal digits of `v`, most significant first.
pub open spec fn hex_digits(v: nat, n: nat) -> Seq<char>
    decreases n,
{
    if n == 0 {
        Seq::empty()
    } else {
        hex_digits(v / 16, (n - 1) as nat).push(hex_char((v % 16) as int))
    }
}

/// The lowercase, hyphenated text form of an identifier: its 32 hexadecimal
/// digits in groups of 8, 4, 4, 4 and 12, joined by hyphens.
#[verifier::opaque]
pub open spec fn uuid_text(v: u128) -> Seq<char> {
    let h = hex_digits(v as nat, 32);
    h.subrange(0, 8) + seq!['-'] + h.subrange(8, 12) + seq!['-'] + h.subrange(12, 16) + seq!['-']
        + h.subrange(16, 20) + seq!['-'] + h.subrange(20, 32)
}

/// What `uuid::Uuid::parse_str(s)` yields for the text `s`, the parsed
/// identifier taken as its `u128` value, or `None` where parsing fails.
pub uninterp spec fn uuid_parse(s: Seq<char>) -> Option<u128>;

/// Calls `uuid::Uuid::from_u128(v).to_string()`.
/// Claims: the result is `uuid_text(v)`, the lowercase hyphenated form
/// `8-4-4-4-12` that `Display` for `Uuid` writes, 36 characters long; and
/// `Uuid::parse_str` reads it back as `v`.
#[verifier::external_body]
pub(crate) fn uuid_to_string(v: u128) -> (s: String)
    ensures
        s@ == uuid_text(v),
        s@.len() == 36,
        uuid_parse(s@) == Some(v),
{
    uuid::Uuid::from_u128(v).to_string()
}

/// Calls `uuid::Uuid::parse_str(s)` and takes `as_u128` of a parsed value.
/// Claims: the result is `uuid_parse(s@)`; nothing more is stated of which
/// texts parse.
#[verifier::external_body]
pub(crate) fn uuid_from_str(s: &str) -> (r: Option<u128>)
    ensures
        r == uuid_parse(s@),
{
    match uuid::Uuid::parse_str(s) {
        Ok(u) => Some(u.as_u128()),
        Err(_) => None,
    }
}

} // verus!
