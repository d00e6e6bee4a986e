use std::io::{Read, Write};

use gitobj::codec::{
    decode, decode_record, encode, encode_record, object_id, parse_header, seal, write_header,
    Object, HEADER_LIMIT,
};
use gitobj::error::Error;
use gitobj::kind::Kind;
use gitobj::object_id::ObjectId;

fn zlib(data: &[u8]) -> Vec<u8> {
    let mut encoder = flate2::write::ZlibEncoder::new(Vec::new(), flate2::Compression::default());
    encoder.write_all(data).unwrap();
    encoder.finish().unwrap()
}

fn unzlib(data: &[u8]) -> Vec<u8> {
    let mut out = Vec::new();
    flate2::read::ZlibDecoder::new(data).read_to_end(&mut out).unwrap();
    out
}

#[test]
fn record_is_header_then_payload() {
    assert_eq!(encode_record(Kind::Blob, b"hi"), b"blob 2\0hi".to_vec());
    assert_eq!(encode_record(Kind::Tree, b""), b"tree 0\0".to_vec());
    assert_eq!(encode_record(Kind::Commit, b"0123456789"), b"commit 10\x000123456789".to_vec());
    assert_eq!(encode_record(Kind::Tag, b"x"), b"tag 1\0x".to_vec());
}

#[test]
fn header_of_largest_size() {
    let mut out = b"<".to_vec();
    write_header(Kind::Commit, u64::MAX, &mut out);
    assert_eq!(out, b"<commit 18446744073709551615\0".to_vec());
    assert!(out.len() - 1 <= HEADER_LIMIT);
}

#[test]
fn id_is_sha1_of_record() {
    assert_eq!(object_id(Kind::Blob, b"hi").to_hex(), "32f95c0d1244a78b2be1bab8de17906fabb2c4a8");
    assert_eq!(object_id(Kind::Blob, b"").to_hex(), "e69de29bb2d1d6434b8b29ae775ad8c2e48c5391");
    assert_eq!(
        object_id(Kind::Blob, b"hello world\n").to_hex(),
        "3b18e512dba79e4c8300dd08aeb37f8e728b8dad"
    );
    assert_eq!(object_id(Kind::Tree, b"").to_hex(), "4b825dc642cb6eb9a060e54bf8d69288fbee4904");
}

#[test]
fn id_depends_on_kind() {
    assert_ne!(object_id(Kind::Blob, b"hi"), object_id(Kind::Commit, b"hi"));
}

#[test]
fn encode_gives_id_and_zlib_stream() {
    let encoded = encode(Kind::Blob, b"hi", 2).unwrap();
    assert_eq!(encoded.id.to_hex(), "32f95c0d1244a78b2be1bab8de17906fabb2c4a8");
    assert_ne!(encoded.bytes, b"blob 2\0hi".to_vec());
    assert_eq!(unzlib(&encoded.bytes), b"blob 2\0hi".to_vec());
}

#[test]
fn encode_then_decode_gives_kind_and_payload() {
    let payloads: Vec<Vec<u8>> = vec![
        Vec::new(),
        b"hi".to_vec(),
        vec![0u8; 1000],
        (0..=255u8).collect(),
        b"blob 3\0abc".to_vec(),
    ];
    for kind in [Kind::Blob, Kind::Tree, Kind::Commit, Kind::Tag] {
        for payload in &payloads {
            let encoded = encode(kind, payload, payload.len() as u64).unwrap();
            let object = decode(&encoded.bytes).unwrap();
            assert_eq!(object.kind, kind);
            assert_eq!(object.declared_size, payload.len() as u64);
            assert_eq!(&object.payload, payload);
        }
    }
}

#[test]
fn encode_is_deterministic() {
    let first = encode(Kind::Blob, b"some bytes", 10).unwrap();
    let second = encode(Kind::Blob, b"some bytes", 10).unwrap();
    assert_eq!(first.id.to_hex(), second.id.to_hex());
    assert_eq!(first, second);
}

#[test]
fn encode_refuses_wrong_declared_size() {
    assert_eq!(encode(Kind::Blob, b"hi", 3), Err(Error::SizeMismatch));
    assert_eq!(encode(Kind::Blob, b"hi", 1), Err(Error::SizeMismatch));
    assert_eq!(encode(Kind::Blob, b"", 1), Err(Error::SizeMismatch));
}

#[test]
fn seal_maps_compression_outcome() {
    let id = object_id(Kind::Blob, b"hi");
    let sealed = seal(id, Ok(vec![1, 2, 3])).unwrap();
    assert_eq!(sealed.id, id);
    assert_eq!(sealed.bytes, vec![1, 2, 3]);
    let failed = seal(id, Err(std::io::Error::new(std::io::ErrorKind::Other, "disk")));
    assert_eq!(failed, Err(Error::Io));
}

#[test]
fn decode_reads_foreign_zlib_stream() {
    let stream = [
        0x78u8, 0x9c, 0x4b, 0xca, 0xc9, 0x4f, 0x52, 0x30, 0x62, 0xc8, 0xc8, 0x04, 0x00, 0x0e, 0xd1,
        0x02, 0xc3,
    ];
    let object = decode(&stream).unwrap();
    assert_eq!(object, Object { kind: Kind::Blob, declared_size: 2, payload: b"hi".to_vec() });
}

#[test]
fn decode_refuses_truncated_stream() {
    let payload: Vec<u8> = (0..4000u32).map(|i| (i * 7 % 251) as u8).collect();
    let encoded = encode(Kind::Blob, &payload, payload.len() as u64).unwrap();
    let cut = &encoded.bytes[..encoded.bytes.len() / 2];
    let outcome = decode(cut);
    assert!(matches!(outcome, Err(Error::Io) | Err(Error::Format)));
    assert_eq!(decode(&encoded.bytes[..encoded.bytes.len() - 1]), Err(Error::Io));
    assert_eq!(decode(&encoded.bytes[..3]), Err(Error::Io));
    assert_eq!(decode(&[]), Err(Error::Io));
}

#[test]
fn decode_refuses_garbage() {
    assert_eq!(decode(b"this is not a zlib stream"), Err(Error::Io));
}

#[test]
fn decode_refuses_record_cut_inside_payload() {
    assert_eq!(decode(&zlib(b"blob 10\0short")), Err(Error::SizeMismatch));
    assert_eq!(decode_record(b"blob 3\0ab"), Err(Error::SizeMismatch));
    assert_eq!(decode_record(b"blob 1\0"), Err(Error::SizeMismatch));
}

#[test]
fn decode_refuses_header_without_nul() {
    assert_eq!(decode(&zlib(b"blob 2 hi")), Err(Error::Format));
    assert_eq!(decode_record(b"blob 2"), Err(Error::Format));
    assert_eq!(decode_record(b""), Err(Error::Format));
    assert_eq!(decode_record(&vec![b'a'; 500]), Err(Error::Format));
}

#[test]
fn decode_looks_for_nul_in_bounded_prefix_only() {
    let mut late = b"blob ".to_vec();
    late.extend(std::iter::repeat(b'0').take(HEADER_LIMIT - 5));
    late.extend(b"2\0hi");
    assert_eq!(decode_record(&late), Err(Error::Format));

    let mut fits = b"blob ".to_vec();
    fits.extend(std::iter::repeat(b'0').take(HEADER_LIMIT - 7));
    fits.extend(b"2\0hi");
    let object = decode_record(&fits).unwrap();
    assert_eq!(object.declared_size, 2);
    assert_eq!(object.payload, b"hi".to_vec());
}

#[test]
fn decode_refuses_unknown_kind() {
    assert_eq!(decode_record(b"blub 2\0hi"), Err(Error::Format));
    assert_eq!(decode_record(b"Blob 2\0hi"), Err(Error::Format));
    assert_eq!(decode_record(b" 2\0hi"), Err(Error::Format));
    assert_eq!(decode_record(b"blobs 2\0hi"), Err(Error::Format));
}

#[test]
fn decode_refuses_bad_size() {
    assert_eq!(decode_record(b"blob x\0hi"), Err(Error::Format));
    assert_eq!(decode_record(b"blob \0hi"), Err(Error::Format));
    assert_eq!(decode_record(b"blob\0hi"), Err(Error::Format));
    assert_eq!(decode_record(b"blob +2\0hi"), Err(Error::Format));
    assert_eq!(decode_record(b"blob -2\0hi"), Err(Error::Format));
    assert_eq!(decode_record(b"blob 2 \0hi"), Err(Error::Format));
    assert_eq!(decode_record(b"blob  2\0hi"), Err(Error::Format));
    assert_eq!(decode_record(b"blob 18446744073709551616\0hi"), Err(Error::Format));
}

#[test]
fn decode_accepts_largest_size_field() {
    assert_eq!(decode_record(b"blob 18446744073709551615\0hi"), Err(Error::SizeMismatch));
    assert_eq!(parse_header(b"blob 18446744073709551615"), Some((Kind::Blob, u64::MAX)));
}

#[test]
fn decode_accepts_tag_and_leading_zeros() {
    let object = decode_record(b"tag 002\0ab").unwrap();
    assert_eq!(object.kind, Kind::Tag);
    assert_eq!(object.declared_size, 2);
    assert_eq!(object.payload, b"ab".to_vec());
}

#[test]
fn decode_leaves_out_bytes_beyond_declared_size() {
    let object = decode_record(b"blob 2\0hi and more").unwrap();
    assert_eq!(object.payload, b"hi".to_vec());
    assert_eq!(object.declared_size, 2);
    let object = decode(&zlib(b"commit 0\0trailing")).unwrap();
    assert_eq!(object.kind, Kind::Commit);
    assert_eq!(object.payload, Vec::<u8>::new());
}

#[test]
fn payload_may_hold_nul_and_spaces() {
    let object = decode_record(b"blob 5\0a\0 \0b").unwrap();
    assert_eq!(object.payload, b"a\0 \0b".to_vec());
}

#[test]
fn new_object_declares_its_length() {
    let object = Object::new(Kind::Tree, vec![1, 2, 3]);
    assert_eq!(object.kind, Kind::Tree);
    assert_eq!(object.declared_size, 3);
    assert_eq!(object.payload, vec![1, 2, 3]);
}

#[test]
fn id_from_bytes_keeps_bytes() {
    let id = ObjectId::from_bytes([7u8; 20]);
    assert_eq!(id.as_bytes(), &[7u8; 20]);
}
