//! Hex text of byte strings: the `hex` crate's codec, the node RPC's own
//! pairwise reading of hex, and little-endian numbers.
use vstd::prelude::*;
use vstd::string::StringSliceAdditionalSpecFns;
use crate::text::{hex_char, decimal};

verus! {

/// The value of one hex digit byte, either case.
pub open spec fn hex_digit_value(b: u8) -> Option<nat> {
    if 48 <= b <= 57 {
        Some((b - 48) as nat)
    } else if 97 <= b <= 102 {
        Some((b - 87) as nat)
    } else if 65 <= b <= 70 {
        Some((b - 55) as nat)
    } else {
        None
    }
}

/// Text the `hex` crate decodes: an even number of hex digits.
pub open spec fn is_hex_text(bs: Seq<u8>) -> bool {
    bs.len() % 2 == 0 && forall|i: int| 0 <= i < bs.len() ==> (#[trigger] hex_digit_value(bs[i])) is Some
}

/// The bytes such text encodes, two digits per byte, high digit first.
pub open spec fn hex_text_bytes(bs: Seq<u8>) -> Seq<u8> {
    Seq::new(bs.len() / 2, |i: int|
        (hex_digit_value(bs[2 * i])->0 * 16 + hex_digit_value(bs[2 * i + 1])->0) as u8)
}

/// Lowercase hex of a byte string, two digits per byte.
pub open spec fn hex_lower(bytes: Seq<u8>) -> Seq<char> {
    Seq::new(2 * bytes.len(), |j: int|
        if j % 2 == 0 { hex_char(bytes[j / 2] as nat / 16) } else { hex_char(bytes[j / 2] as nat % 16) })
}

#[verifier::external_type_specification]
#[verifier::external_body]
pub struct ExFromHexError(hex::FromHexError);

/// `hex::decode`: decodes text of an even number of hex digits (either
/// case), two digits per byte; any other text is an error.
#[verifier::external_body]
fn hex_crate_decode(text: &str) -> (r: Result<Vec<u8>, hex::FromHexError>)
    ensures
        r is Ok <==> is_hex_text(text.spec_bytes()),
        r matches Ok(v) ==> v@ == hex_text_bytes(text.spec_bytes()),
{
    hex::decode(text)
}

/// `hex::encode`: lowercase hex, two digits per byte.
#[verifier::external_body]
fn hex_crate_encode(bytes: &[u8]) -> (s: String)
    ensures
        s@ == hex_lower(bytes@),
{
    hex::encode(bytes)
}

/// Lowercase hex of `bytes`, as the node prints ids and hashes.
pub fn encode_hex(bytes: &[u8]) -> (s: String)
    ensures
        s@ == hex_lower(bytes@),
{
    hex_crate_encode(bytes)
}

/// Bytes of hex text, `None` where it is not an even number of hex digits.
pub fn decode_hex(text: &str) -> (r: Option<Vec<u8>>)
    ensures
        r is Some <==> is_hex_text(text.spec_bytes()),
        r matches Some(v) ==> v@ == hex_text_bytes(text.spec_bytes()),
{
    match hex_crate_decode(text) {
        Ok(v) => Some(v),
        Err(_) => None,
    }
}

/// One two-byte pair as `u8::from_str_radix(pair, 16)` reads it: two hex
/// digits, or `+` and one hex digit.
pub open spec fn radix16_pair(b0: u8, b1: u8) -> Option<u8> {
    if b0 == 43 {
        match hex_digit_value(b1) {
            Some(v) => Some(v as u8),
            None => None,
        }
    } else {
        match (hex_digit_value(b0), hex_digit_value(b1)) {
            (Some(h), Some(l)) => Some((h * 16 + l) as u8),
            _ => None,
        }
    }
}

/// Bytes of hex text read pair by pair; `None` for an odd length or a pair
/// that is not a number.
pub open spec fn radix16_pairs(bs: Seq<u8>) -> Option<Seq<u8>> {
    if bs.len() % 2 != 0 {
        None
    } else if forall|i: int| 0 <= i < bs.len() / 2 ==> (#[trigger] radix16_pair(bs[2 * i], bs[2 * i + 1])) is Some {
        Some(Seq::new(bs.len() / 2, |i: int| radix16_pair(bs[2 * i], bs[2 * i + 1])->0))
    } else {
        None
    }
}

/// Every even byte offset starts a character, so the text can be cut into
/// two-byte pieces.
pub open spec fn pairs_on_char_boundaries(bs: Seq<u8>) -> bool {
    bs.len() % 2 == 0 ==> forall|i: int| 0 <= i < bs.len() && i % 2 == 0 ==> !(0x80 <= #[trigger] bs[i] < 0xc0)
}

/// Whether the text can be cut into two-byte pieces: an odd length (which
/// reads as no pairs at all), or a character starting at every even offset.
pub fn pairs_cut_on_chars(text: &str) -> (r: bool)
    ensures
        r == pairs_on_char_boundaries(text.spec_bytes()),
{
    let bs = text.as_bytes();
    if bs.len() % 2 != 0 {
        return true;
    }
    let mut i: usize = 0;
    while i < bs.len()
        invariant
            bs@ == text.spec_bytes(),
            bs@.len() % 2 == 0,
            i <= bs@.len(),
            i % 2 == 0,
            forall|j: int| 0 <= j < i && j % 2 == 0 ==> !(0x80 <= #[trigger] bs@[j] < 0xc0),
        decreases bs.len() - i,
    {
        if bs[i] >= 0x80 && bs[i] < 0xc0 {
            return false;
        }
        i += 2;
    }
    true
}

} // verus!
