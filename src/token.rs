//! Session identifiers and their text form, through the `uuid` crate.
use vstd::prelude::*;
use crate::session::SessionId;

verus! {

/// The lower-case hexadecimal digit for `d < 16`.
pub open spec fn hex_digit(d: nat) -> char {
    seq!['0', '1', '2', '3', '4', '5', '6', '7', '8', '9', 'a', 'b', 'c', 'd', 'e', 'f'][d as int]
}

/// The `n` lowest hexadecimal digits of `v`, most significant first.
pub open spec fn hex_digits(v: nat, n: nat) -> Seq<char>
    decreases n,
{
    if n == 0 {
        Seq::empty()
    } else {
        hex_digits(v / 16, (n - 1) as nat).push(hex_digit(v % 16))
    }
}

/// The hyphenated lower-case text of the 128-bit value `id`: its 32
/// hexadecimal digits in groups of 8, 4, 4, 4 and 12.
pub open spec fn token_text(id: u128) -> Seq<char> {
    let d = hex_digits(id as nat, 32);
    d.subrange(0, 8) + seq!['-'] + d.subrange(8, 12) + seq!['-'] + d.subrange(12, 16) + seq!['-']
        + d.subrange(16, 20) + seq!['-'] + d.subrange(20, 32)
}

proof fn lemma_hex_digits_len(v: nat, n: nat)
    ensures
        hex_digits(v, n).len() == n,
    decreases n,
{
    if n > 0 {
        lemma_hex_digits_len(v / 16, (n - 1) as nat);
    }
}

/// The text of every id is 36 characters long.
pub proof fn lemma_token_text_len(id: u128)
    ensures
        token_text(id).len() == 36,
{
    lemma_hex_digits_len(id as nat, 32);
}

/// Relies on `uuid::Uuid::new_v4`: 128 bits drawn from the system's random
/// source. Nothing is promised of the value.
#[verifier::external_body]
pub(crate) fn random_session_id() -> (r: SessionId) {
    uuid::Uuid::new_v4().as_u128()
}

/// Relies on `uuid::Uuid::from_u128` and its `Hyphenated` formatting: the
/// value's 32 lower-case hexadecimal digits, most significant first, in
/// groups of 8, 4, 4, 4 and 12 joined by hyphens.
#[verifier::external_body]
pub(crate) fn session_token(id: SessionId) -> (r: String)
    ensures
        r@ == token_text(id),
{
    uuid::Uuid::from_u128(id).hyphenated().to_string()
}

/// Relies on `uuid::Uuid::parse_str`, which reads the hyphenated text back to
/// the value it was formatted from.
#[verifier::external_body]
pub(crate) fn parse_session_token(s: &str) -> (r: Option<SessionId>)
    ensures
        forall|id: u128| s@ == token_text(id) ==> r == Some(id),
{
    match uuid::Uuid::parse_str(s) {
        Ok(u) => Some(u.as_u128()),
        Err(_) => None,
    }
}

} // verus!
