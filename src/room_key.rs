use vstd::arithmetic::power::pow;
use vstd::prelude::*;

verus! {

/// The lower-case hexadecimal digit for `n`, which is below 16.
pub open spec fn hex_digit(n: int) -> char {
    if n < 8 {
        if n < 4 {
            if n == 0 { '0' } else if n == 1 { '1' } else if n == 2 { '2' } else { '3' }
        } else {
            if n == 4 { '4' } else if n == 5 { '5' } else if n == 6 { '6' } else { '7' }
        }
    } else {
        if n < 12 {
            if n == 8 { '8' } else if n == 9 { '9' } else if n == 10 { 'a' } else { 'b' }
        } else {
            if n == 12 { 'c' } else if n == 13 { 'd' } else if n == 14 { 'e' } else { 'f' }
        }
    }
}

/// The `d`-th hexadecimal digit of `k`, counted from the most significant
/// of its 32 digits.
pub open spec fn nibble(k: u128, d: int) -> int {
    (k as int / pow(16, (31 - d) as nat)) % 16
}

/// The text that `uuid` writes for the room key `k`: its 32 hexadecimal
/// digits, most significant first, in lower case, in groups of 8, 4, 4, 4
/// and 12 joined by hyphens.
pub open spec fn uuid_text(k: u128) -> Seq<char> {
    Seq::new(
        36,
        |i: int|
            if i == 8 || i == 13 || i == 18 || i == 23 {
                '-'
            } else {
                let d = if i < 8 {
                    i
                } else if i < 13 {
                    i - 1
                } else if i < 18 {
                    i - 2
                } else if i < 23 {
                    i - 3
                } else {
                    i - 4
                };
                hex_digit(nibble(k, d))
            },
    )
}

/// The key that `uuid` reads from the text `s`, if `s` is a UUID in one of
/// the forms it accepts.
pub uninterp spec fn uuid_parsed(s: Seq<char>) -> Option<u128>;

/// Relies on `uuid::Uuid::new_v4`: a random 128-bit room key. Nothing is
/// known of its value.
#[verifier::external_body]
pub(crate) fn fresh_key() -> (r: u128) {
    uuid::Uuid::new_v4().as_u128()
}

/// Relies on `uuid::Uuid`'s `Display`: the textual form of a room key, which
/// `Uuid::parse_str` reads back (its documentation: every form that the crate
/// writes is accepted).
#[verifier::external_body]
pub(crate) fn key_text(k: u128) -> (r: String)
    ensures
        r@ == uuid_text(k),
        uuid_parsed(r@) == Some(k),
{
    uuid::Uuid::from_u128(k).to_string()
}

/// Relies on `uuid::Uuid::parse_str`: reads a room key from its text.
#[verifier::external_body]
pub(crate) fn parse_key(s: &str) -> (r: Option<u128>)
    ensures
        r == uuid_parsed(s@),
{
    match uuid::Uuid::parse_str(s) {
        Ok(u) => Some(u.as_u128()),
        Err(_) => None,
    }
}

} // verus!
