//! The byte layout of an object: a header `<kind> <size>\0`, then the
//! payload, the whole compressed as one zlib stream. The id of an object is
//! the SHA-1 digest of header and payload before compression.

use vstd::prelude::*;
use vstd::slice::{slice_subrange, slice_to_vec};
use crate::bytes::{
    append, find_byte, first_index, has_byte, lemma_first_index, lemma_first_index_is, prefix,
};
use crate::decimal::{
    decimal_text, is_digit, lemma_decimal_len_u64, lemma_decimal_roundtrip, parse_decimal,
    parse_decimal_spec, write_decimal,
};
use crate::digest::{sha1, sha1_digest};
use crate::error::Error;
use crate::kind::{lemma_word_names_kind, Kind};
use crate::object_id::ObjectId;
use crate::zlib::{deflate, inflate, zlib_deflate, zlib_inflate};

verus! {

/// The byte that ends a header.
pub const NUL: u8 = 0;

/// The byte between the kind word and the size.
pub const SPACE: u8 = 0x20;

/// How far into a record the end of the header is looked for. A header
/// written here is at most 28 bytes long; one whose NUL does not stand among
/// the first 32 bytes of the record is malformed.
pub const HEADER_LIMIT: usize = 32;

/// A decoded object. `declared_size` is the size that the header gives;
/// in a well-formed object it is the number of payload bytes.
#[derive(Debug, Clone, PartialEq, Eq)]
pub struct Object {
    pub kind: Kind,
    pub declared_size: u64,
    pub payload: Vec<u8>,
}

/// An object as a mathematical value.
pub struct ObjectView {
    pub kind: Kind,
    pub declared_size: u64,
    pub payload: Seq<u8>,
}

impl View for Object {
    type V = ObjectView;

    open spec fn view(&self) -> ObjectView {
        ObjectView { kind: self.kind, declared_size: self.declared_size, payload: self.payload@ }
    }
}

impl ObjectView {
    /// The declared size is the number of payload bytes.
    pub open spec fn wf(self) -> bool {
        self.payload.len() == self.declared_size
    }
}

impl Object {
    /// The declared size is the number of payload bytes.
    pub open spec fn wf(&self) -> bool {
        self@.wf()
    }

    /// The object of the given kind whose payload is `payload`.
    pub fn new(kind: Kind, payload: Vec<u8>) -> (object: Object)
        ensures
            object.wf(),
            object@.kind == kind,
            object@.payload == payload@,
    {
        let declared_size = payload.len() as u64;
        Object { kind, declared_size, payload }
    }
}

/// An object ready to be stored: its id and its compressed bytes.
#[derive(Debug, Clone, PartialEq, Eq)]
pub struct EncodedObject {
    pub id: ObjectId,
    pub bytes: Vec<u8>,
}

/// An encoded object as a mathematical value.
pub struct EncodedView {
    pub id: Seq<u8>,
    pub bytes: Seq<u8>,
}

impl View for EncodedObject {
    type V = EncodedView;

    open spec fn view(&self) -> EncodedView {
        EncodedView { id: self.id@, bytes: self.bytes@ }
    }
}

/// The header of an object of `kind` with `size` payload bytes.
pub open spec fn header(kind: Kind, size: nat) -> Seq<u8> {
    kind.word() + seq![SPACE] + decimal_text(size) + seq![NUL]
}

/// The uncompressed record of an object: header, then payload.
pub open spec fn record(kind: Kind, payload: Seq<u8>) -> Seq<u8> {
    header(kind, payload.len()) + payload
}

/// The id of the object of `kind` with `payload`.
pub open spec fn object_id_spec(kind: Kind, payload: Seq<u8>) -> Seq<u8> {
    sha1_digest(record(kind, payload))
}

/// What the text before the NUL says: a kind word, one space, a size. `None`
/// if there is no space, the word before the first space names no kind, or
/// what follows it is not a size that fits in 64 bits.
pub open spec fn parse_header_spec(text: Seq<u8>) -> Option<(Kind, u64)> {
    let sp = first_index(text, SPACE);
    if sp == text.len() {
        None
    } else {
        match (Kind::from_word_spec(text.take(sp)), parse_decimal_spec(text.skip(sp + 1))) {
            (Some(kind), Some(size)) => Some((kind, size)),
            _ => None,
        }
    }
}

/// The part of a record in which the header must end.
pub open spec fn header_window(bytes: Seq<u8>) -> Seq<u8> {
    bytes.take(
        if bytes.len() <= HEADER_LIMIT {
            bytes.len() as int
        } else {
            HEADER_LIMIT as int
        },
    )
}

/// What an uncompressed record decodes to.
///
/// - No NUL among the first `HEADER_LIMIT` bytes, or a malformed header
///   before it: `Format`.
/// - Fewer bytes after the NUL than the header declares: `SizeMismatch`.
/// - Otherwise the object whose payload is exactly the declared number of
///   bytes after the NUL; bytes beyond them are not part of it.
pub open spec fn parse_record(bytes: Seq<u8>) -> Result<ObjectView, Error> {
    let window = header_window(bytes);
    let nul = first_index(window, NUL);
    if nul == window.len() {
        Err(Error::Format)
    } else {
        match parse_header_spec(bytes.take(nul)) {
            None => Err(Error::Format),
            Some((kind, size)) => {
                let body = bytes.skip(nul + 1);
                if body.len() < size {
                    Err(Error::SizeMismatch)
                } else {
                    Ok(ObjectView { kind, declared_size: size, payload: body.take(size as int) })
                }
            },
        }
    }
}

/// What a compressed stream decodes to: `Io` if it does not inflate, else
/// what the inflated record decodes to.
pub open spec fn decode_spec(stream: Seq<u8>) -> Result<ObjectView, Error> {
    match zlib_inflate(stream) {
        None => Err(Error::Io),
        Some(bytes) => parse_record(bytes),
    }
}

/// Whether `stream` is the compressed form of the object of `kind` with
/// `payload`: it is what compression makes of the record, and it inflates
/// to the record.
pub open spec fn is_encoding_of(stream: Seq<u8>, kind: Kind, payload: Seq<u8>) -> bool {
    &&& zlib_deflate(record(kind, payload)) == Some(stream)
    &&& zlib_inflate(stream) == Some(record(kind, payload))
}

/// What encoding gives.
///
/// - `SizeMismatch` if `declared_size` is not the length of the payload.
/// - Otherwise the id of the record and the compressed record; `Io` only
///   if compression of this record fails.
pub open spec fn encode_spec(kind: Kind, payload: Seq<u8>, declared_size: u64) -> Result<
    EncodedView,
    Error,
> {
    if payload.len() != declared_size {
        Err(Error::SizeMismatch)
    } else {
        match zlib_deflate(record(kind, payload)) {
            Some(stream) => Ok(EncodedView { id: object_id_spec(kind, payload), bytes: stream }),
            None => Err(Error::Io),
        }
    }
}

/// Whether the outcome `r` of encoding is `expected`.
pub open spec fn encodes_to(r: Result<EncodedObject, Error>, expected: Result<EncodedView, Error>)
    -> bool {
    match expected {
        Ok(view) => r matches Ok(encoded) && encoded@ == view,
        Err(e) => r matches Err(got) && got == e,
    }
}

/// Whether the outcome `r` of a decoding function is `expected`.
pub open spec fn decodes_to(r: Result<Object, Error>, expected: Result<ObjectView, Error>) -> bool {
    match expected {
        Ok(view) => r matches Ok(object) && object@ == view,
        Err(e) => r matches Err(got) && got == e,
    }
}

/// Where the parts of a record stand: the header is written without NUL, the
/// kind word without a space, and the whole header fits the lookahead.
pub proof fn lemma_header_shape(kind: Kind, size: u64)
    ensures
        header(kind, size as nat).len() == kind.word().len() + decimal_text(size as nat).len() + 2,
        header(kind, size as nat).len() <= 28,
        first_index(header(kind, size as nat), NUL) == header(kind, size as nat).len() - 1,
        parse_header_spec(header(kind, size as nat).drop_last()) == Some((kind, size)),
{
    let word = kind.word();
    let digits = decimal_text(size as nat);
    let h = header(kind, size as nat);
    lemma_word_names_kind(kind);
    lemma_decimal_len_u64(size);
    lemma_decimal_roundtrip(size as nat);
    assert(h.len() == word.len() + digits.len() + 2);
    assert forall|j: int| 0 <= j < h.len() - 1 implies h[j] != NUL by {
        if j < word.len() {
            assert(h[j] == word[j]);
        } else if j == word.len() {
            assert(h[j] == SPACE);
        } else {
            assert(h[j] == digits[j - word.len() - 1]);
            assert(is_digit(digits[j - word.len() - 1]));
        }
    }
    assert(h[h.len() - 1] == NUL);
    lemma_first_index_is(h, NUL, h.len() - 1);
    let text = h.drop_last();
    assert(text =~= word + seq![SPACE] + digits);
    assert forall|j: int| 0 <= j < word.len() implies text[j] != SPACE by {
        assert(text[j] == word[j]);
    }
    assert(text[word.len() as int] == SPACE);
    lemma_first_index_is(text, SPACE, word.len() as int);
    assert(text.take(word.len() as int) =~= word);
    assert(text.skip(word.len() as int + 1) =~= digits);
}

/// Decoding the record of an object gives the kind, the payload and its
/// length back.
pub proof fn lemma_record_roundtrip(kind: Kind, payload: Seq<u8>)
    requires
        payload.len() <= u64::MAX,
    ensures
        parse_record(record(kind, payload)) == Ok::<ObjectView, Error>(
            ObjectView { kind, declared_size: payload.len() as u64, payload },
        ),
{
    let size = payload.len() as u64;
    let h = header(kind, size as nat);
    let bytes = record(kind, payload);
    lemma_header_shape(kind, size);
    lemma_first_index(h, NUL);
    let window = header_window(bytes);
    let nul = h.len() - 1;
    assert(window.len() > nul);
    assert forall|j: int| 0 <= j < nul implies window[j] != NUL by {
        assert(window[j] == h[j]);
    }
    assert(window[nul] == h[nul]);
    lemma_first_index_is(window, NUL, nul);
    assert(bytes.take(nul) =~= h.drop_last());
    assert(bytes.skip(nul + 1) =~= payload);
    assert(payload.take(size as int) =~= payload);
}

/// A compressed object decodes to the kind and payload that went into it.
pub proof fn lemma_encoding_roundtrip(stream: Seq<u8>, kind: Kind, payload: Seq<u8>)
    requires
        is_encoding_of(stream, kind, payload),
        payload.len() <= u64::MAX,
    ensures
        decode_spec(stream) == Ok::<ObjectView, Error>(
            ObjectView { kind, declared_size: payload.len() as u64, payload },
        ),
{
    lemma_record_roundtrip(kind, payload);
}

/// A record cut short anywhere never decodes: cut inside the header it is
/// malformed, cut inside the payload its size disagrees with the header.
pub proof fn lemma_truncated_record(kind: Kind, payload: Seq<u8>, n: int)
    requires
        payload.len() <= u64::MAX,
        0 <= n < record(kind, payload).len(),
    ensures
        parse_record(record(kind, payload).take(n)) == Err::<ObjectView, Error>(
            if n < header(kind, payload.len()).len() {
                Error::Format
            } else {
                Error::SizeMismatch
            },
        ),
{
    let size = payload.len() as u64;
    let h = header(kind, size as nat);
    let bytes = record(kind, payload);
    let cut = bytes.take(n);
    let window = header_window(cut);
    lemma_header_shape(kind, size);
    lemma_first_index(h, NUL);
    let nul = h.len() - 1;
    if n < h.len() {
        assert forall|j: int| 0 <= j < window.len() implies window[j] != NUL by {
            assert(window[j] == h[j]);
        }
        lemma_first_index_is(window, NUL, window.len() as int);
    } else {
        assert(window.len() > nul);
        assert forall|j: int| 0 <= j < nul implies window[j] != NUL by {
            assert(window[j] == h[j]);
        }
        assert(window[nul] == h[nul]);
        lemma_first_index_is(window, NUL, nul);
        assert(cut.take(nul) =~= h.drop_last());
        assert(cut.skip(nul + 1).len() == n - h.len());
    }
}

/// A record without a NUL among its first `HEADER_LIMIT` bytes is malformed,
/// whatever else it holds; and so is every stream that inflates to such a
/// record.
pub proof fn lemma_missing_nul(stream: Seq<u8>, bytes: Seq<u8>)
    ensures
        !has_byte(header_window(bytes), NUL) ==> parse_record(bytes) == Err::<ObjectView, Error>(
            Error::Format,
        ),
        zlib_inflate(stream) == Some(bytes) && !has_byte(header_window(bytes), NUL)
            ==> decode_spec(stream) == Err::<ObjectView, Error>(Error::Format),
{
    lemma_first_index(header_window(bytes), NUL);
}

/// Once an object has been encoded, encoding the same kind and payload
/// again succeeds, with the same id and the same bytes.
pub proof fn lemma_encode_again(encoded: EncodedView, kind: Kind, payload: Seq<u8>)
    requires
        payload.len() <= u64::MAX,
        encoded.id == object_id_spec(kind, payload),
        is_encoding_of(encoded.bytes, kind, payload),
    ensures
        encode_spec(kind, payload, payload.len() as u64) == Ok::<EncodedView, Error>(encoded),
{
}

/// Writes the header of an object of `kind` with `size` payload bytes.
pub fn write_header(kind: Kind, size: u64, out: &mut Vec<u8>)
    ensures
        final(out)@ == old(out)@ + header(kind, size as nat),
{
    kind.write_word(out);
    out.push(SPACE);
    write_decimal(size, out);
    out.push(NUL);
    assert(out@ =~= old(out)@ + header(kind, size as nat));
}

/// The uncompressed record of an object: header, then payload.
pub fn encode_record(kind: Kind, payload: &[u8]) -> (out: Vec<u8>)
    ensures
        out@ == record(kind, payload@),
{
    let mut out: Vec<u8> = Vec::new();
    write_header(kind, payload.len() as u64, &mut out);
    append(&mut out, payload);
    assert(out@ =~= record(kind, payload@));
    out
}

/// The id of the object of `kind` with `payload`: the digest of its record.
/// The same kind and payload always give the same id.
pub fn object_id(kind: Kind, payload: &[u8]) -> (id: ObjectId)
    ensures
        id@ == object_id_spec(kind, payload@),
{
    let bytes = encode_record(kind, payload);
    ObjectId::from_bytes(sha1(bytes.as_slice()))
}

/// Reads the text of a header, without its NUL.
pub fn parse_header(text: &[u8]) -> (r: Option<(Kind, u64)>)
    ensures
        r == parse_header_spec(text@),
{
    let sp = find_byte(text, SPACE);
    if sp == text.len() {
        return None;
    }
    let kind = match Kind::from_word(slice_subrange(text, 0, sp)) {
        Some(kind) => kind,
        None => {
            return None;
        },
    };
    let size = match parse_decimal(slice_subrange(text, sp + 1, text.len())) {
        Some(size) => size,
        None => {
            return None;
        },
    };
    Some((kind, size))
}

/// Decodes an uncompressed record. The payload of the object returned is
/// exactly as long as the header declares; a record that holds fewer bytes
/// is refused, and bytes beyond the declared size are left out.
pub fn decode_record(bytes: &[u8]) -> (r: Result<Object, Error>)
    ensures
        decodes_to(r, parse_record(bytes@)),
        r matches Ok(object) ==> object.wf(),
{
    let window = prefix(bytes, HEADER_LIMIT);
    let nul = find_byte(window, NUL);
    if nul == window.len() {
        return Err(Error::Format);
    }
    let (kind, size) = match parse_header(slice_subrange(bytes, 0, nul)) {
        Some(parsed) => parsed,
        None => {
            return Err(Error::Format);
        },
    };
    let body = slice_subrange(bytes, nul + 1, bytes.len());
    if (body.len() as u64) < size {
        return Err(Error::SizeMismatch);
    }
    let payload = slice_to_vec(slice_subrange(body, 0, size as usize));
    Ok(Object { kind, declared_size: size, payload })
}

/// Pairs an id with the outcome of compressing the record it was computed
/// from: the encoded object if compression gave a stream, `Io` if it
/// failed.
pub fn seal(id: ObjectId, compressed: Result<Vec<u8>, std::io::Error>) -> (r: Result<
    EncodedObject,
    Error,
>)
    ensures
        match compressed {
            Ok(stream) => r matches Ok(encoded) && encoded.id == id && encoded.bytes@ == stream@,
            Err(_) => r matches Err(e) && e == Error::Io,
        },
{
    match compressed {
        Ok(stream) => Ok(EncodedObject { id, bytes: stream }),
        Err(_) => Err(Error::Io),
    }
}

/// Encodes an object: frames `payload` with its header, takes the digest of
/// the framed bytes as the id, and compresses those same bytes.
///
/// Fails with `SizeMismatch`, before anything is hashed, exactly when
/// `declared_size` is not the length of `payload`. Otherwise it gives the
/// id of `(kind, payload)` and the compressed record, which decodes to
/// them; it fails with `Io` exactly when compression of the record fails,
/// which depends on the record alone.
pub fn encode(kind: Kind, payload: &[u8], declared_size: u64) -> (r: Result<EncodedObject, Error>)
    ensures
        encodes_to(r, encode_spec(kind, payload@, declared_size)),
        r matches Ok(encoded) ==> {
            &&& is_encoding_of(encoded.bytes@, kind, payload@)
            &&& decode_spec(encoded.bytes@) == Ok::<ObjectView, Error>(
                ObjectView { kind, declared_size, payload: payload@ },
            )
        },
{
    if payload.len() as u64 != declared_size {
        return Err(Error::SizeMismatch);
    }
    let bytes = encode_record(kind, payload);
    let id = ObjectId::from_bytes(sha1(bytes.as_slice()));
    let compressed = deflate(bytes.as_slice());
    proof {
        lemma_record_roundtrip(kind, payload@);
    }
    seal(id, compressed)
}

/// Decodes a compressed object: inflates the stream to its end, then
/// decodes the record. A stream that is damaged or stops early is an `Io`
/// error, never a shorter payload.
pub fn decode(stream: &[u8]) -> (r: Result<Object, Error>)
    ensures
        decodes_to(r, decode_spec(stream@)),
        r matches Ok(object) ==> object.wf(),
{
    match inflate(stream) {
        Ok(bytes) => decode_record(bytes.as_slice()),
        Err(_) => Err(Error::Io),
    }
}

} // verus!
