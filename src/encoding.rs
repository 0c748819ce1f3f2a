//! Text encodings of binary fields: lowercase hexadecimal and standard base64.
use vstd::prelude::*;
use vstd::utf8::encode_utf8;
use base64::Engine;

verus! {

/// The lowercase hexadecimal digit of a nibble.
pub open spec fn hex_digit(n: int) -> u8 {
    if n < 10 {
        (48 + n) as u8
    } else {
        (87 + n) as u8
    }
}

/// Two lowercase hexadecimal digits for each byte, most significant first.
pub open spec fn hex_text(b: Seq<u8>) -> Seq<u8>
    decreases b.len(),
{
    if b.len() == 0 {
        seq![]
    } else {
        seq![hex_digit(b[0] as int / 16), hex_digit(b[0] as int % 16)] + hex_text(b.drop_first())
    }
}

/// The value of a hexadecimal digit of either case.
pub open spec fn hex_value(c: u8) -> Option<int> {
    if 48 <= c <= 57 {
        Some(c - 48)
    } else if 97 <= c <= 102 {
        Some(c - 87)
    } else if 65 <= c <= 70 {
        Some(c - 55)
    } else {
        None
    }
}

/// The bytes that a hexadecimal text stands for, if it is one: an even number
/// of digits of either case.
pub open spec fn hex_parse(t: Seq<u8>) -> Option<Seq<u8>>
    decreases t.len(),
{
    if t.len() == 0 {
        Some(seq![])
    } else if t.len() == 1 {
        None
    } else {
        match (hex_value(t[0]), hex_value(t[1]), hex_parse(t.subrange(2, t.len() as int))) {
            (Some(h), Some(l), Some(rest)) => Some(seq![(h * 16 + l) as u8] + rest),
            _ => None,
        }
    }
}

/// Reading back the hexadecimal text of some bytes gives those bytes.
pub proof fn lemma_hex_round_trip(b: Seq<u8>)
    ensures
        hex_parse(hex_text(b)) == Some(b),
    decreases b.len(),
{
    if b.len() > 0 {
        let t = hex_text(b);
        lemma_hex_round_trip(b.drop_first());
        assert(t.subrange(2, t.len() as int) =~= hex_text(b.drop_first()));
        let h = b[0] / 16;
        let l = b[0] % 16;
        assert(hex_value(hex_digit(h as int)) == Some(h as int));
        assert(hex_value(hex_digit(l as int)) == Some(l as int));
        assert(seq![(h * 16 + l) as u8] + b.drop_first() =~= b);
    } else {
        assert(hex_text(b) =~= Seq::<u8>::empty());
        assert(b =~= Seq::<u8>::empty());
    }
}

/// Relies on `hex::encode`: two lowercase digits for each byte, from a table
/// of "0123456789abcdef".
#[verifier::external_body]
pub(crate) fn to_hex(b: &[u8]) -> (r: String)
    ensures
        encode_utf8(r@) == hex_text(b@),
{
    hex::encode(b)
}

/// Relies on `hex::decode`: it reads the bytes of the text in pairs of digits
/// of either case, and fails on an odd length or on any other character.
#[verifier::external_body]
pub(crate) fn from_hex(s: &str) -> (r: Option<Vec<u8>>)
    ensures
        match r {
            Some(v) => hex_parse(encode_utf8(s@)) == Some(v@),
            None => hex_parse(encode_utf8(s@)) is None,
        },
{
    match hex::decode(s) {
        Ok(v) => Some(v),
        Err(_) => None,
    }
}

/// What the standard base64 engine writes for some bytes.
pub uninterp spec fn base64_text(b: Seq<u8>) -> Seq<char>;

/// What the standard base64 engine reads from a text, if it accepts it.
pub uninterp spec fn base64_bytes(s: Seq<char>) -> Option<Seq<u8>>;

/// Relies on `base64::engine::general_purpose::STANDARD.encode`: padded
/// standard base64, which the same engine decodes back to the input.
#[verifier::external_body]
pub(crate) fn to_base64(b: &[u8]) -> (r: String)
    ensures
        r@ == base64_text(b@),
        base64_bytes(r@) == Some(b@),
{
    base64::engine::general_purpose::STANDARD.encode(b)
}

/// Relies on `base64::engine::general_purpose::STANDARD.decode`: the bytes of
/// a padded standard base64 text, or an error.
#[verifier::external_body]
pub(crate) fn from_base64(s: &str) -> (r: Option<Vec<u8>>)
    ensures
        match r {
            Some(v) => base64_bytes(s@) == Some(v@),
            None => base64_bytes(s@) is None,
        },
{
    match base64::engine::general_purpose::STANDARD.decode(s) {
        Ok(v) => Some(v),
        Err(_) => None,
    }
}

} // verus!
