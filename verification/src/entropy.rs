//! Randomness: key material (crate `rand`) and random identifiers (crate
//! `uuid`).

use vstd::prelude::*;
use rand::RngCore;

verus! {

/// Fills a 32-byte buffer from `rand::thread_rng`. Nothing is claimed of
/// the bytes: they are random.
#[verifier::external_body]
pub(crate) fn random_bytes_32() -> (b: [u8; 32]) {
    let mut b = [0u8; 32];
    rand::thread_rng().fill_bytes(&mut b);
    b
}

/// Fills a 12-byte buffer from `rand::thread_rng`. Nothing is claimed of
/// the bytes: they are random.
#[verifier::external_body]
pub(crate) fn random_bytes_12() -> (b: [u8; 12]) {
    let mut b = [0u8; 12];
    rand::thread_rng().fill_bytes(&mut b);
    b
}

/// Calls `rand::random::<u64>`. Nothing is claimed of the value.
#[verifier::external_body]
pub(crate) fn random_u64() -> (x: u64) {
    rand::random::<u64>()
}

/// Whether a character is a lower-case hexadecimal digit.
pub open spec fn is_lower_hex(c: char) -> bool {
    ('0' <= c && c <= '9') || ('a' <= c && c <= 'f')
}

/// The hyphenated lower-case text form of a UUID: 36 characters, '-' at
/// positions 8, 13, 18 and 23, lower-case hex digits elsewhere.
pub open spec fn is_hyphenated_uuid(s: Seq<char>) -> bool {
    &&& s.len() == 36
    &&& forall|i: int|
        0 <= i < 36 ==> if i == 8 || i == 13 || i == 18 || i == 23 {
            s[i] == '-'
        } else {
            is_lower_hex(s[i])
        }
}

/// Calls `uuid::Uuid::new_v4` and formats it with `to_string`. Trusted:
/// the text is the hyphenated lower-case form (the crate's `Display`
/// writes `as_hyphenated` in lower-case hex); the value is random.
#[verifier::external_body]
pub(crate) fn uuid_v4_string() -> (s: String)
    ensures
        is_hyphenated_uuid(s@),
{
    uuid::Uuid::new_v4().to_string()
}

} // verus!
