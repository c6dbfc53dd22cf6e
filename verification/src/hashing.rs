//! SHA3-256 digests (crate `sha3`) and hexadecimal text (crate `hex`).

use vstd::prelude::*;
use sha3::Digest;

verus! {

/// The SHA3-256 digest of a byte string, as computed by `sha3::Sha3_256`.
pub uninterp spec fn spec_sha3_256(data: Seq<u8>) -> Seq<u8>;

/// Calls `sha3::Sha3_256::digest`. Trusted: the result is the SHA3-256
/// digest of `data`, named `spec_sha3_256`, and it is 32 bytes long
/// (the output size of `Sha3_256`).
#[verifier::external_body]
pub(crate) fn sha3_256(data: &[u8]) -> (d: Vec<u8>)
    ensures
        d@ == spec_sha3_256(data@),
        d@.len() == 32,
{
    sha3::Sha3_256::digest(data).to_vec()
}

/// The lower-case hexadecimal digit for a nibble.
pub open spec fn hex_digit(n: u8) -> char {
    seq!['0', '1', '2', '3', '4', '5', '6', '7', '8', '9', 'a', 'b', 'c', 'd', 'e', 'f'][n as int]
}

/// Lower-case hexadecimal text of a byte string, high nibble first.
pub open spec fn spec_hex(data: Seq<u8>) -> Seq<char>
    decreases data.len(),
{
    if data.len() == 0 {
        Seq::empty()
    } else {
        seq![hex_digit(data[0] / 16), hex_digit(data[0] % 16)] + spec_hex(data.drop_first())
    }
}

/// The value of a hexadecimal digit of either case.
pub open spec fn hex_value(c: char) -> Option<u8> {
    if '0' <= c && c <= '9' {
        Some((c as int - '0' as int) as u8)
    } else if 'a' <= c && c <= 'f' {
        Some((c as int - 'a' as int + 10) as u8)
    } else if 'A' <= c && c <= 'F' {
        Some((c as int - 'A' as int + 10) as u8)
    } else {
        None
    }
}

/// Decoding of hexadecimal text: pairs of digits of either case, high
/// nibble first; `None` for odd length or a character that is no digit.
pub open spec fn spec_unhex(s: Seq<char>) -> Option<Seq<u8>>
    decreases s.len(),
{
    if s.len() == 0 {
        Some(Seq::empty())
    } else if s.len() == 1 {
        None
    } else {
        match (hex_value(s[0]), hex_value(s[1]), spec_unhex(s.skip(2))) {
            (Some(h), Some(l), Some(rest)) => Some(seq![(h * 16 + l) as u8] + rest),
            _ => None,
        }
    }
}

/// Calls `hex::encode`. Trusted: lower-case hex, two digits per byte,
/// high nibble first (the crate's `HEX_CHARS_LOWER` table).
#[verifier::external_body]
pub(crate) fn hex_encode(data: &[u8]) -> (s: String)
    ensures
        s@ == spec_hex(data@),
{
    hex::encode(data)
}

/// Calls `hex::decode`. Trusted: digits of either case are accepted in
/// pairs; odd length or a non-digit character is an error.
#[verifier::external_body]
pub(crate) fn hex_decode(s: &str) -> (r: Option<Vec<u8>>)
    ensures
        match r {
            Some(v) => spec_unhex(s@) == Some(v@),
            None => spec_unhex(s@) is None,
        },
{
    hex::decode(s).ok()
}

/// Hex text decodes back to the bytes it encodes.
pub proof fn lemma_unhex_hex(data: Seq<u8>)
    ensures
        spec_unhex(spec_hex(data)) == Some(data),
    decreases data.len(),
{
    if data.len() > 0 {
        let h = data[0] / 16;
        let l = data[0] % 16;
        lemma_unhex_hex(data.drop_first());
        let t = spec_hex(data);
        assert(t.skip(2) =~= spec_hex(data.drop_first()));
        assert(hex_value(hex_digit(h)) == Some(h));
        assert(hex_value(hex_digit(l)) == Some(l));
        assert(seq![(h * 16 + l) as u8] + data.drop_first() =~= data);
    }
}

/// Byte-wise equality of two byte strings.
pub fn bytes_equal(a: &[u8], b: &[u8]) -> (r: bool)
    ensures
        r == (a@ == b@),
{
    if a.len() != b.len() {
        return false;
    }
    let mut i: usize = 0;
    while i < a.len()
        invariant
            a@.len() == b@.len(),
            i <= a@.len(),
            forall|j: int| 0 <= j < i ==> a@[j] == b@[j],
        decreases a@.len() - i,
    {
        if a[i] != b[i] {
            return false;
        }
        i = i + 1;
    }
    assert(a@ =~= b@);
    true
}

} // verus!
