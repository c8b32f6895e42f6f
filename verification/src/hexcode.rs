//! Hexadecimal text for payment hashes, through the `hex` crate.

use vstd::prelude::*;
use vstd::utf8::*;

use crate::text::digit_char;

verus! {

/// The lower-case hexadecimal digit of a value below sixteen.
pub open spec fn hex_digit(v: nat) -> char {
    if v < 10 {
        digit_char(v)
    } else if v == 10 {
        'a'
    } else if v == 11 {
        'b'
    } else if v == 12 {
        'c'
    } else if v == 13 {
        'd'
    } else if v == 14 {
        'e'
    } else {
        'f'
    }
}

/// Two lower-case hexadecimal digits per byte, high half first.
pub open spec fn hex_encode(data: Seq<u8>) -> Seq<char>
    decreases data.len(),
{
    if data.len() == 0 {
        Seq::<char>::empty()
    } else {
        hex_encode(data.drop_last()) + seq![hex_digit(data.last() as nat / 16), hex_digit(data.last() as nat % 16)]
    }
}

/// The value of a hexadecimal digit byte, either case.
pub open spec fn hex_value(c: u8) -> Option<nat> {
    if 48 <= c <= 57 {
        Some((c - 48) as nat)
    } else if 65 <= c <= 70 {
        Some((c - 55) as nat)
    } else if 97 <= c <= 102 {
        Some((c - 87) as nat)
    } else {
        None
    }
}

/// The bytes that hexadecimal text stands for: `None` for an odd length or
/// a byte that is no hexadecimal digit.
pub open spec fn hex_decode(text: Seq<u8>) -> Option<Seq<u8>>
    decreases text.len(),
{
    if text.len() % 2 != 0 {
        None
    } else if text.len() == 0 {
        Some(Seq::<u8>::empty())
    } else {
        match (
            hex_decode(text.take(text.len() - 2)),
            hex_value(text[text.len() - 2]),
            hex_value(text[text.len() - 1]),
        ) {
            (Some(prefix), Some(high), Some(low)) => Some(prefix.push((high * 16 + low) as u8)),
            _ => None,
        }
    }
}

/// The outside type `hex::FromHexError`, carried as an opaque value.
#[verifier::external_type_specification]
#[verifier::external_body]
pub struct ExFromHexError(hex::FromHexError);

/// `hex::encode`: claimed to write each byte as two lower-case hexadecimal
/// digits, high half first, as the crate documents and its source does.
#[verifier::external_body]
pub(crate) fn hex_encode_bytes(data: &[u8]) -> (r: String)
    ensures
        r@ == hex_encode(data@),
{
    hex::encode(data)
}

/// `hex::decode`: claimed to give the bytes that the text's UTF-8 bytes stand
/// for, two digits of either case per byte, and to fail exactly on an odd
/// length or a byte that is no hexadecimal digit, as the crate's source does.
/// Which error it reports is not stated.
#[verifier::external_body]
pub(crate) fn hex_decode_str(text: &str) -> (r: Result<Vec<u8>, hex::FromHexError>)
    ensures
        match r {
            Ok(v) => hex_decode(encode_utf8(text@)) == Some(v@),
            Err(_) => hex_decode(encode_utf8(text@)) is None,
        },
{
    hex::decode(text)
}

/// The characters of `text` taken one byte each.
pub open spec fn ascii_bytes(text: Seq<char>) -> Seq<u8> {
    text.map_values(|c: char| c as u8)
}

proof fn lemma_hex_digit_value(v: nat)
    requires
        v < 16,
    ensures
        '\0' <= hex_digit(v) <= '\u{7f}',
        hex_value(hex_digit(v) as u8) == Some(v),
{
}

proof fn lemma_hex_encode_ascii(data: Seq<u8>)
    ensures
        hex_encode(data).len() == 2 * data.len(),
        is_ascii_chars(hex_encode(data)),
        hex_decode(ascii_bytes(hex_encode(data))) == Some(data),
    decreases data.len(),
{
    if data.len() > 0 {
        let init = data.drop_last();
        lemma_hex_encode_ascii(init);
        let hi: nat = data.last() as nat / 16;
        let lo: nat = data.last() as nat % 16;
        lemma_hex_digit_value(hi);
        lemma_hex_digit_value(lo);
        let e = hex_encode(data);
        assert(e == hex_encode(init) + seq![hex_digit(hi), hex_digit(lo)]);
        assert forall|i: int| 0 <= i < e.len() implies '\0' <= #[trigger] e[i] <= '\u{7f}' by {
            if i < hex_encode(init).len() {
                assert(e[i] == hex_encode(init)[i]);
            }
        }
        let bytes = ascii_bytes(e);
        assert(bytes.take(bytes.len() - 2) =~= ascii_bytes(hex_encode(init)));
        assert(bytes[bytes.len() - 2] == hex_digit(hi) as u8);
        assert(bytes[bytes.len() - 1] == hex_digit(lo) as u8);
        assert((hi * 16 + lo) as u8 == data.last());
        assert(init.push(data.last()) =~= data);
    }
}

/// Hexadecimal text made by `hex::encode` reads back, through `hex::decode`,
/// as the bytes it was made from.
pub proof fn lemma_hex_roundtrip(data: Seq<u8>)
    ensures
        hex_decode(encode_utf8(hex_encode(data))) == Some(data),
{
    lemma_hex_encode_ascii(data);
    let e = hex_encode(data);
    is_ascii_chars_encode_utf8(e);
    assert(encode_utf8(e) =~= ascii_bytes(e));
}

} // verus!
