//! Hexadecimal text of byte strings, through the `hex` crate.
use vstd::prelude::*;
use vstd::utf8::encode_utf8;

verus! {

/// The lowercase hexadecimal digit of `n` (below 16).
pub open spec fn hex_lower_digit(n: u8) -> char {
    if n < 10 {
        (48 + n) as char
    } else {
        (87 + n) as char
    }
}

/// Two lowercase hexadecimal digits per byte of `data`, most significant first.
pub open spec fn hex_lower(data: Seq<u8>) -> Seq<char>
    decreases data.len(),
{
    if data.len() == 0 {
        Seq::empty()
    } else {
        hex_lower(data.drop_last()) + seq![
            hex_lower_digit(data.last() / 16),
            hex_lower_digit(data.last() % 16),
        ]
    }
}

/// The value of a hexadecimal digit byte, in either case.
pub open spec fn hex_nibble(b: u8) -> Option<u8> {
    if 0x30 <= b <= 0x39 {
        Some((b - 0x30) as u8)
    } else if 0x41 <= b <= 0x46 {
        Some((b - 0x41 + 10) as u8)
    } else if 0x61 <= b <= 0x66 {
        Some((b - 0x61 + 10) as u8)
    } else {
        None
    }
}

/// The bytes that the hexadecimal text `t` (as bytes) denotes: `None` when its length is
/// odd or one of its bytes is not a hexadecimal digit.
pub open spec fn hex_decoded(t: Seq<u8>) -> Option<Seq<u8>> {
    if t.len() % 2 != 0 {
        None
    } else if exists|i: int| 0 <= i < t.len() && (#[trigger] hex_nibble(t[i])) is None {
        None
    } else {
        Some(
            Seq::new(
                t.len() / 2,
                |i: int| (hex_nibble(t[2 * i])->0 * 16 + hex_nibble(t[2 * i + 1])->0) as u8,
            ),
        )
    }
}

/// The lowercase hexadecimal text of `data` (`hex::encode`).
/// Trusted: two lowercase digits per byte, most significant first, as the crate documents.
#[verifier::external_body]
pub(crate) fn hex_encode(data: &[u8]) -> (s: String)
    ensures
        s@ == hex_lower(data@),
{
    hex::encode(data)
}

/// The bytes a hexadecimal text denotes (`hex::decode`).
/// Trusted: as the crate's source shows, an error on odd length or on a byte that is not a
/// hexadecimal digit in either case; otherwise one byte per pair of digits.
#[verifier::external_body]
pub(crate) fn hex_decode(text: &str) -> (r: Option<Vec<u8>>)
    ensures
        match hex_decoded(encode_utf8(text@)) {
            Some(b) => r matches Some(v) && v@ == b,
            None => r is None,
        },
{
    hex::decode(text).ok()
}

} // verus!
