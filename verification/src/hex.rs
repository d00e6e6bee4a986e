//! Hexadecimal notation of byte strings: lowercase on output, either case on
//! input.

use vstd::prelude::*;
use vstd::slice::slice_to_vec;
use vstd::string::StringSliceAdditionalSpecFns;
use vstd::utf8::{is_ascii_chars, is_ascii_chars_encode_utf8};

verus! {

/// The lowercase hexadecimal digit, as an ASCII code, for a value below 16.
pub open spec fn hex_digit(n: int) -> u8 {
    if n < 10 {
        (0x30 + n) as u8
    } else {
        (0x61 + n - 10) as u8
    }
}

/// Two lowercase digits for each byte, the high half first.
pub open spec fn hex_text(bytes: Seq<u8>) -> Seq<u8> {
    Seq::new(
        2 * bytes.len(),
        |i: int|
            if i % 2 == 0 {
                hex_digit(bytes[i / 2] as int / 16)
            } else {
                hex_digit(bytes[i / 2] as int % 16)
            },
    )
}

/// ASCII codes as characters.
pub open spec fn ascii_text(bytes: Seq<u8>) -> Seq<char> {
    Seq::new(bytes.len(), |i: int| bytes[i] as char)
}

/// Characters as single bytes. Meaningful for ASCII text only.
pub open spec fn ascii_bytes(text: Seq<char>) -> Seq<u8> {
    Seq::new(text.len(), |i: int| text[i] as u8)
}

/// The value of a hexadecimal digit of either case, given as an ASCII code.
pub open spec fn hex_value(b: u8) -> Option<u8> {
    if 0x30 <= b <= 0x39 {
        Some((b - 0x30) as u8)
    } else if 0x61 <= b <= 0x66 {
        Some((b - 0x61 + 10) as u8)
    } else if 0x41 <= b <= 0x46 {
        Some((b - 0x41 + 10) as u8)
    } else {
        None
    }
}

/// Whether every byte of `text` is a hexadecimal digit.
pub open spec fn is_hex_text(text: Seq<u8>) -> bool {
    forall|i: int| 0 <= i < text.len() ==> (#[trigger] hex_value(text[i])) is Some
}

/// The bytes that pairs of hexadecimal digits denote.
pub open spec fn hex_bytes(text: Seq<u8>) -> Seq<u8> {
    Seq::new(
        text.len() / 2,
        |i: int| (hex_value(text[2 * i]).unwrap() * 16 + hex_value(text[2 * i + 1]).unwrap()) as u8,
    )
}

/// An ASCII letter in lower case; any other byte unchanged.
pub open spec fn to_lower(b: u8) -> u8 {
    if 0x41 <= b <= 0x5a {
        (b + 0x20) as u8
    } else {
        b
    }
}

/// Hexadecimal text is ASCII, and reading it back gives the bytes.
pub proof fn lemma_hex_roundtrip(bytes: Seq<u8>)
    ensures
        hex_text(bytes).len() == 2 * bytes.len(),
        is_hex_text(hex_text(bytes)),
        hex_bytes(hex_text(bytes)) == bytes,
        is_ascii_chars(ascii_text(hex_text(bytes))),
        ascii_bytes(ascii_text(hex_text(bytes))) == hex_text(bytes),
        forall|i: int|
            0 <= i < hex_text(bytes).len() ==> 0x30 <= #[trigger] hex_text(bytes)[i] <= 0x66,
{
    let t = hex_text(bytes);
    assert forall|i: int| 0 <= i < t.len() implies 0x30 <= #[trigger] t[i] <= 0x66 && hex_value(
        t[i],
    ) is Some by {
        let b = bytes[i / 2] as int;
        assert(0 <= b / 16 < 16 && 0 <= b % 16 < 16);
    }
    assert forall|i: int| 0 <= i < bytes.len() implies #[trigger] hex_bytes(t)[i] == bytes[i] by {
        let b = bytes[i] as int;
        assert(0 <= b / 16 < 16 && 0 <= b % 16 < 16);
        assert((2 * i) / 2 == i && (2 * i) % 2 == 0);
        assert((2 * i + 1) / 2 == i && (2 * i + 1) % 2 == 1);
        assert(t[2 * i] == hex_digit(b / 16));
        assert(t[2 * i + 1] == hex_digit(b % 16));
        assert(hex_value(hex_digit(b / 16)) == Some((b / 16) as u8));
        assert(hex_value(hex_digit(b % 16)) == Some((b % 16) as u8));
        assert(b == (b / 16) * 16 + b % 16);
    }
    assert(hex_bytes(t) =~= bytes);
    let chars = ascii_text(t);
    assert forall|i: int| 0 <= i < chars.len() implies '\0' <= #[trigger] chars[i] <= '\u{7f}' by {
        assert(0x30 <= t[i] <= 0x66);
    }
    assert forall|i: int| 0 <= i < t.len() implies #[trigger] ascii_bytes(chars)[i] == t[i] by {
        assert(0x30 <= t[i] <= 0x66);
    }
    assert(ascii_bytes(chars) =~= t);
}

/// Writing out what was read gives the text again, in lower case: input is
/// accepted in either case, output is always lowercase.
pub proof fn lemma_hex_normalises_case(text: Seq<u8>)
    requires
        is_hex_text(text),
        text.len() % 2 == 0,
    ensures
        hex_text(hex_bytes(text)) == text.map_values(|b: u8| to_lower(b)),
{
    let bytes = hex_bytes(text);
    let out = hex_text(bytes);
    let low = text.map_values(|b: u8| to_lower(b));
    assert(out.len() == low.len());
    assert forall|i: int| 0 <= i < out.len() implies out[i] == low[i] by {
        let k = i / 2;
        let hi = hex_value(text[2 * k]);
        let lo = hex_value(text[2 * k + 1]);
        assert(hi is Some && lo is Some);
        let h = hi.unwrap() as int;
        let l = lo.unwrap() as int;
        assert(0 <= h < 16 && 0 <= l < 16);
        assert(bytes[k] == (h * 16 + l) as u8);
        assert((h * 16 + l) / 16 == h && (h * 16 + l) % 16 == l);
        if i % 2 == 0 {
            assert(i == 2 * k);
            assert(out[i] == hex_digit(h));
        } else {
            assert(i == 2 * k + 1);
            assert(out[i] == hex_digit(l));
        }
    }
    assert(out =~= low);
}

/// Calls `hex::encode`.
///
/// Trusted: the string holds two characters for each input byte, the digit
/// of the high four bits and then that of the low four bits, taken from
/// `0123456789abcdef`.
#[verifier::external_body]
pub(crate) fn hex_encode(bytes: &[u8]) -> (text: String)
    ensures
        text@ == ascii_text(hex_text(bytes@)),
{
    hex::encode(bytes)
}

/// The lowercase hexadecimal notation of `bytes`, as ASCII bytes.
pub fn to_hex_bytes(bytes: &[u8]) -> (out: Vec<u8>)
    ensures
        out@ == hex_text(bytes@),
{
    let text = hex_encode(bytes);
    let slice: &str = text.as_str();
    proof {
        lemma_hex_roundtrip(bytes@);
        is_ascii_chars_encode_utf8(slice@);
        let enc = slice.spec_bytes();
        assert forall|i: int| 0 <= i < enc.len() implies enc[i] == hex_text(bytes@)[i] by {
            assert(slice@[i] as u8 == enc[i]);
            assert(ascii_bytes(slice@)[i] == hex_text(bytes@)[i]);
        }
        assert(enc =~= hex_text(bytes@));
    }
    slice_to_vec(slice.as_bytes())
}

/// The value of one hexadecimal digit, or `None` for any other byte.
pub fn digit_value(b: u8) -> (v: Option<u8>)
    ensures
        v == hex_value(b),
{
    if 0x30 <= b && b <= 0x39 {
        Some(b - 0x30)
    } else if 0x61 <= b && b <= 0x66 {
        Some(b - 0x61 + 10)
    } else if 0x41 <= b && b <= 0x46 {
        Some(b - 0x41 + 10)
    } else {
        None
    }
}

} // verus!
