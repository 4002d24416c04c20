use vstd::arithmetic::power::pow;
use vstd::prelude::*;

verus! {

/// The lower-case hexadecimal digit for `n` in `0..16`.
pub open spec fn hex_digit(n: int) -> char {
    seq!['0', '1', '2', '3', '4', '5', '6', '7', '8', '9', 'a', 'b', 'c', 'd', 'e', 'f'][n]
}

/// The `k`-th hexadecimal digit of `u`, the most significant first.
pub open spec fn nibble(u: u128, k: int) -> int {
    (u as int / pow(16, (31 - k) as nat)) % 16
}

/// The number of hyphens before position `i` of the hyphenated form.
pub open spec fn hyphens_before(i: int) -> int {
    if i > 23 {
        4
    } else if i > 18 {
        3
    } else if i > 13 {
        2
    } else if i > 8 {
        1
    } else {
        0
    }
}

/// The hyphenated lower-case form of an identifier: 32 hexadecimal digits, most significant
/// first, in groups of 8, 4, 4, 4 and 12.
pub open spec fn hyphenated(u: u128) -> Seq<char> {
    Seq::new(
        36,
        |i: int|
            if i == 8 || i == 13 || i == 18 || i == 23 {
                '-'
            } else {
                hex_digit(nibble(u, i - hyphens_before(i)))
            },
    )
}

/// The identifier that the uuid crate reads from a text, if it accepts it.
pub uninterp spec fn uuid_value(s: Seq<char>) -> Option<u128>;

/// Relies on uuid's `Uuid::parse_str`, which reads among other forms the hyphenated one
/// (hexadecimal digits of either case), and `Uuid::as_u128`, which reads the bytes
/// most significant first.
#[verifier::external_body]
fn parse_uuid(s: &str) -> (r: Option<u128>)
    ensures
        r == uuid_value(s@),
        forall|v: u128| s@ == #[trigger] hyphenated(v) ==> r == Some(v),
{
    match uuid::Uuid::parse_str(s) {
        Ok(u) => Some(u.as_u128()),
        Err(_) => None,
    }
}

/// Reads an identifier such as `b86bc6ed-50a5-4ef2-bdd3-e17baef11eff`.
pub fn parse_uid(s: &str) -> (r: Option<u128>)
    ensures
        r == uuid_value(s@),
        forall|v: u128| s@ == #[trigger] hyphenated(v) ==> r == Some(v),
{
    parse_uuid(s)
}

/// Relies on uuid's `Uuid::from_u128` and its `Display`, which writes the hyphenated
/// lower-case form.
#[verifier::external_body]
pub(crate) fn uid_text(u: u128) -> (r: String)
    ensures
        r@ == hyphenated(u),
{
    uuid::Uuid::from_u128(u).to_string()
}

/// Relies on uuid's `Uuid::new_v4`: a random identifier, of which nothing is promised here.
#[verifier::external_body]
pub(crate) fn fresh_uid() -> (r: u128) {
    uuid::Uuid::new_v4().as_u128()
}

} // verus!
