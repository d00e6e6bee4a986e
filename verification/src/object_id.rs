//! Object ids: the 20 bytes of a SHA-1 digest, shown as 40 hexadecimal
//! characters.

use vstd::prelude::*;
use vstd::string::is_ascii_spec_bytes;
use vstd::utf8::is_ascii_chars;
use crate::hex::{
    ascii_bytes, ascii_text, digit_value, hex_bytes, hex_encode, hex_text, hex_value, is_hex_text,
    lemma_hex_normalises_case, lemma_hex_roundtrip, to_hex_bytes, to_lower,
};

verus! {

/// Number of bytes in an id.
pub const ID_LEN: usize = 20;

/// Number of characters in the hexadecimal notation of an id.
pub const ID_HEX_LEN: usize = 40;

/// The content-derived key of an object. It is both the fingerprint of the
/// object's bytes and the name under which the object is stored.
#[derive(Debug, Clone, Copy, PartialEq, Eq, Hash)]
pub struct ObjectId {
    pub bytes: [u8; 20],
}

impl View for ObjectId {
    type V = Seq<u8>;

    open spec fn view(&self) -> Seq<u8> {
        self.bytes@
    }
}

/// The id that a 40-character text denotes: `None` unless the text is
/// exactly 40 hexadecimal digits, of either case.
pub open spec fn parse_id_spec(text: Seq<char>) -> Option<Seq<u8>> {
    if text.len() == ID_HEX_LEN && is_ascii_chars(text) && is_hex_text(ascii_bytes(text)) {
        Some(hex_bytes(ascii_bytes(text)))
    } else {
        None
    }
}

impl ObjectId {
    /// The id with the given digest bytes.
    pub fn from_bytes(bytes: [u8; 20]) -> (id: ObjectId)
        ensures
            id@ == bytes@,
            id.bytes == bytes,
    {
        ObjectId { bytes }
    }

    /// The 20 raw bytes.
    pub fn as_bytes(&self) -> (bytes: &[u8; 20])
        ensures
            bytes@ == self@,
            bytes@.len() == ID_LEN,
    {
        &self.bytes
    }

    /// The id as 40 lowercase hexadecimal characters.
    pub fn to_hex(&self) -> (text: String)
        ensures
            text@ == ascii_text(hex_text(self@)),
            text@.len() == ID_HEX_LEN,
    {
        hex_encode(self.bytes.as_slice())
    }

    /// The id as 40 lowercase hexadecimal digits in ASCII.
    pub fn to_hex_bytes(&self) -> (text: Vec<u8>)
        ensures
            text@ == hex_text(self@),
            text@.len() == ID_HEX_LEN,
    {
        to_hex_bytes(self.bytes.as_slice())
    }

    /// Reads an id from its hexadecimal notation. Upper and lower case are
    /// both accepted. Returns `None` unless `text` is exactly 40 hexadecimal
    /// digits.
    pub fn from_hex(text: &str) -> (r: Option<ObjectId>)
        ensures
            match parse_id_spec(text@) {
                Some(bytes) => r matches Some(id) && id@ == bytes,
                None => r is None,
            },
    {
        if !text.is_ascii() {
            return None;
        }
        let raw = text.as_bytes();
        proof {
            is_ascii_spec_bytes(text);
            assert(raw@ =~= ascii_bytes(text@));
        }
        if raw.len() != ID_HEX_LEN {
            return None;
        }
        let mut bytes = [0u8; 20];
        let mut i: usize = 0;
        while i < ID_LEN
            invariant
                0 <= i <= ID_LEN,
                raw@.len() == ID_HEX_LEN,
                raw@ == ascii_bytes(text@),
                forall|j: int| 0 <= j < 2 * i ==> (#[trigger] hex_value(raw@[j])) is Some,
                forall|j: int| 0 <= j < i ==> #[trigger] bytes@[j] == hex_bytes(raw@)[j],
            decreases ID_LEN - i,
        {
            let hi = match digit_value(raw[2 * i]) {
                Some(v) => v,
                None => {
                    assert(hex_value(raw@[2 * i]) is None);
                    return None;
                },
            };
            let lo = match digit_value(raw[2 * i + 1]) {
                Some(v) => v,
                None => {
                    assert(hex_value(raw@[2 * i + 1]) is None);
                    return None;
                },
            };
            bytes[i] = hi * 16 + lo;
            i += 1;
        }
        assert(is_hex_text(raw@));
        assert(bytes@ =~= hex_bytes(raw@));
        Some(ObjectId { bytes })
    }
}

/// Reading the hexadecimal notation of an id gives the id back.
pub proof fn lemma_id_hex_roundtrip(id: ObjectId)
    ensures
        parse_id_spec(ascii_text(hex_text(id@))) == Some(id@),
{
    lemma_hex_roundtrip(id@);
}

/// An id read from text of either case is written out as that text in
/// lower case.
pub proof fn lemma_id_text_normalised(text: Seq<char>)
    requires
        parse_id_spec(text) is Some,
    ensures
        hex_text(parse_id_spec(text).unwrap()) == ascii_bytes(text).map_values(
            |b: u8| to_lower(b),
        ),
{
    lemma_hex_normalises_case(ascii_bytes(text));
}

} // verus!
