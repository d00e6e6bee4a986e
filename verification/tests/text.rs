use gitobj::bytes::{append, bytes_eq, bytes_le, find_byte, prefix};
use gitobj::decimal::{parse_decimal, write_decimal};
use gitobj::error::{DecodeFailure, Error};
use gitobj::hex::{digit_value, to_hex_bytes};
use gitobj::kind::Kind;
use gitobj::object_id::ObjectId;

fn decimal(n: u64) -> Vec<u8> {
    let mut out = Vec::new();
    write_decimal(n, &mut out);
    out
}

#[test]
fn decimal_is_written_without_leading_zeros() {
    assert_eq!(decimal(0), b"0".to_vec());
    assert_eq!(decimal(7), b"7".to_vec());
    assert_eq!(decimal(10), b"10".to_vec());
    assert_eq!(decimal(1620000000), b"1620000000".to_vec());
    assert_eq!(decimal(u64::MAX), b"18446744073709551615".to_vec());
}

#[test]
fn decimal_is_appended() {
    let mut out = b"size ".to_vec();
    write_decimal(42, &mut out);
    assert_eq!(out, b"size 42".to_vec());
}

#[test]
fn decimal_is_read_back() {
    for n in [0u64, 1, 9, 10, 99, 100, 12345, u64::MAX - 1, u64::MAX] {
        assert_eq!(parse_decimal(&decimal(n)), Some(n));
    }
}

#[test]
fn decimal_parse_refuses_what_is_no_number() {
    assert_eq!(parse_decimal(b""), None);
    assert_eq!(parse_decimal(b"+1"), None);
    assert_eq!(parse_decimal(b"-1"), None);
    assert_eq!(parse_decimal(b" 1"), None);
    assert_eq!(parse_decimal(b"1 "), None);
    assert_eq!(parse_decimal(b"12a"), None);
    assert_eq!(parse_decimal(b"0x10"), None);
    assert_eq!(parse_decimal(b"18446744073709551616"), None);
    assert_eq!(parse_decimal(b"99999999999999999999999"), None);
}

#[test]
fn decimal_parse_accepts_leading_zeros() {
    assert_eq!(parse_decimal(b"000"), Some(0));
    assert_eq!(parse_decimal(b"0042"), Some(42));
    assert_eq!(parse_decimal(b"00000000000000000000000018446744073709551615"), Some(u64::MAX));
}

#[test]
fn hex_is_lowercase_two_digits_per_byte() {
    assert_eq!(to_hex_bytes(&[]), Vec::<u8>::new());
    assert_eq!(to_hex_bytes(&[1, 2, 3, 15, 16]), b"0102030f10".to_vec());
    assert_eq!(to_hex_bytes(&[0x00, 0xff, 0xa9, 0x9a]), b"00ffa99a".to_vec());
}

#[test]
fn hex_digit_values() {
    assert_eq!(digit_value(b'0'), Some(0));
    assert_eq!(digit_value(b'9'), Some(9));
    assert_eq!(digit_value(b'a'), Some(10));
    assert_eq!(digit_value(b'f'), Some(15));
    assert_eq!(digit_value(b'A'), Some(10));
    assert_eq!(digit_value(b'F'), Some(15));
    assert_eq!(digit_value(b'g'), None);
    assert_eq!(digit_value(b'G'), None);
    assert_eq!(digit_value(b'/'), None);
    assert_eq!(digit_value(b':'), None);
    assert_eq!(digit_value(b'@'), None);
    assert_eq!(digit_value(b'`'), None);
    assert_eq!(digit_value(0), None);
    assert_eq!(digit_value(0xff), None);
}

#[test]
fn id_to_hex_is_forty_lowercase_digits() {
    let mut bytes = [0u8; 20];
    for i in 0..20 {
        bytes[i] = (i as u8) * 13 + 1;
    }
    let id = ObjectId::from_bytes(bytes);
    assert_eq!(id.to_hex(), "010e1b2835424f5c697683909daab7c4d1deebf8");
    assert_eq!(id.to_hex_bytes(), b"010e1b2835424f5c697683909daab7c4d1deebf8".to_vec());
}

#[test]
fn id_from_hex_reads_either_case() {
    let lower = ObjectId::from_hex("32f95c0d1244a78b2be1bab8de17906fabb2c4a8").unwrap();
    let upper = ObjectId::from_hex("32F95C0D1244A78B2BE1BAB8DE17906FABB2C4A8").unwrap();
    let mixed = ObjectId::from_hex("32f95C0d1244A78b2be1bab8DE17906fabb2c4a8").unwrap();
    assert_eq!(lower, upper);
    assert_eq!(lower, mixed);
    assert_eq!(lower.bytes[0], 0x32);
    assert_eq!(lower.bytes[1], 0xf9);
    assert_eq!(lower.bytes[19], 0xa8);
    assert_eq!(upper.to_hex(), "32f95c0d1244a78b2be1bab8de17906fabb2c4a8");
}

#[test]
fn id_hex_roundtrip() {
    for seed in 0..50u8 {
        let mut bytes = [0u8; 20];
        for i in 0..20 {
            bytes[i] = seed.wrapping_mul(31).wrapping_add((i as u8).wrapping_mul(17));
        }
        let id = ObjectId::from_bytes(bytes);
        assert_eq!(ObjectId::from_hex(&id.to_hex()), Some(id));
    }
}

#[test]
fn id_from_hex_refuses_what_is_no_id() {
    assert_eq!(ObjectId::from_hex(""), None);
    assert_eq!(ObjectId::from_hex("32f95c0d1244a78b2be1bab8de17906fabb2c4a"), None);
    assert_eq!(ObjectId::from_hex("32f95c0d1244a78b2be1bab8de17906fabb2c4a8a"), None);
    assert_eq!(ObjectId::from_hex("32f95c0d1244a78b2be1bab8de17906fabb2c4ag"), None);
    assert_eq!(ObjectId::from_hex("g2f95c0d1244a78b2be1bab8de17906fabb2c4a8"), None);
    assert_eq!(ObjectId::from_hex(" 2f95c0d1244a78b2be1bab8de17906fabb2c4a8"), None);
    assert_eq!(ObjectId::from_hex("32f95c0d1244a78b2be1bab8de17906fabb2c4\u{e9}"), None);
    assert_eq!(ObjectId::from_hex("\u{ff10}2f95c0d1244a78b2be1bab8de17906fabb2c4a8"), None);
}

#[test]
fn kind_names() {
    assert_eq!(Kind::Blob.name(), "blob");
    assert_eq!(Kind::Tree.name(), "tree");
    assert_eq!(Kind::Commit.name(), "commit");
    assert_eq!(Kind::Tag.name(), "tag");
    assert_eq!(Kind::Commit.to_string(), "commit".to_string());
}

#[test]
fn kind_words() {
    for kind in [Kind::Blob, Kind::Tree, Kind::Commit, Kind::Tag] {
        let mut word = Vec::new();
        kind.write_word(&mut word);
        assert_eq!(word, kind.name().as_bytes().to_vec());
        assert_eq!(Kind::from_word(&word), Some(kind));
    }
    assert_eq!(Kind::from_word(b""), None);
    assert_eq!(Kind::from_word(b"blo"), None);
    assert_eq!(Kind::from_word(b"blobb"), None);
    assert_eq!(Kind::from_word(b"BLOB"), None);
    assert_eq!(Kind::from_word(b"tags"), None);
    assert_eq!(Kind::from_word(b"commit "), None);
}

#[test]
fn error_descriptions_differ() {
    let all = [
        Error::Io,
        Error::Format,
        Error::SizeMismatch,
        Error::NotFound,
        Error::UnsupportedKind,
        Error::Corrupt(DecodeFailure::Io),
        Error::Corrupt(DecodeFailure::Format),
        Error::Corrupt(DecodeFailure::SizeMismatch),
        Error::EmptyTree,
    ];
    for (i, a) in all.iter().enumerate() {
        assert!(!a.describe().is_empty());
        for b in &all[i + 1..] {
            assert_ne!(a.describe(), b.describe());
        }
    }
}

#[test]
fn find_byte_gives_first_position_or_length() {
    assert_eq!(find_byte(b"", 0), 0);
    assert_eq!(find_byte(b"abc", b'a'), 0);
    assert_eq!(find_byte(b"abcabc", b'c'), 2);
    assert_eq!(find_byte(b"abc", b'x'), 3);
}

#[test]
fn prefix_is_bounded_by_length() {
    assert_eq!(prefix(b"abcdef", 4), b"abcd");
    assert_eq!(prefix(b"abc", 4), b"abc");
    assert_eq!(prefix(b"abc", 0), b"");
}

#[test]
fn append_extends() {
    let mut out = b"ab".to_vec();
    append(&mut out, b"cd");
    append(&mut out, b"");
    assert_eq!(out, b"abcd".to_vec());
}

#[test]
fn bytes_order_is_lexicographic() {
    assert!(bytes_le(b"", b""));
    assert!(bytes_le(b"", b"a"));
    assert!(!bytes_le(b"a", b""));
    assert!(bytes_le(b"a", b"a"));
    assert!(bytes_le(b"a", b"ab"));
    assert!(!bytes_le(b"ab", b"a"));
    assert!(bytes_le(b"ab", b"b"));
    assert!(!bytes_le(b"b", b"ab"));
    assert!(bytes_le(b"Z", b"a"));
    assert!(bytes_le(&[0x7f], &[0x80]));
    assert!(!bytes_le(&[0xff], &[0x00, 0xff]));
}

#[test]
fn bytes_equality() {
    assert!(bytes_eq(b"", b""));
    assert!(bytes_eq(b".git", b".git"));
    assert!(!bytes_eq(b".git", b".gi"));
    assert!(!bytes_eq(b".git", b".giT"));
}
