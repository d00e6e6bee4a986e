//! The object store: where an object lives, what is written for it, and
//! what a file read back from its place means.
//!
//! Objects are kept one per file under a root directory, at
//! `<root>/objects/<first 2 hex digits>/<other 38 hex digits>`. The store
//! decides paths and contents; whoever owns the files writes what
//! [`ObjectStore::put`] hands out (to a temporary file that is then renamed
//! to the path, so that no reader sees half an object) and hands
//! [`ObjectStore::get`] what is found at a path.

use vstd::prelude::*;
use vstd::string::{StrSliceExecFns, StringExecFns};
use crate::codec::{
    decode, decode_spec, decodes_to, encode, encode_spec, is_encoding_of,
    lemma_encoding_roundtrip, object_id_spec, EncodedObject, Object, ObjectView,
};
use crate::error::{DecodeFailure, Error};
use crate::hex::{ascii_text, hex_text, lemma_hex_roundtrip};
use crate::kind::Kind;
use crate::object_id::ObjectId;

verus! {

/// A store rooted at a directory. The root is part of every path the store
/// gives out; nothing is taken from the surroundings.
#[derive(Debug, Clone, PartialEq, Eq)]
pub struct ObjectStore {
    pub root: String,
}

/// What is to be written for one object: its compressed bytes, the file
/// they belong in, and the directory of that file.
#[derive(Debug, Clone, PartialEq, Eq)]
pub struct StoredObject {
    pub id: ObjectId,
    pub dir: String,
    pub path: String,
    pub bytes: Vec<u8>,
}

/// A stored object as a mathematical value.
pub struct StoredObjectView {
    pub id: Seq<u8>,
    pub dir: Seq<char>,
    pub path: Seq<char>,
    pub bytes: Seq<u8>,
}

impl View for StoredObject {
    type V = StoredObjectView;

    open spec fn view(&self) -> StoredObjectView {
        StoredObjectView { id: self.id@, dir: self.dir@, path: self.path@, bytes: self.bytes@ }
    }
}

/// The directory of the file of the object `id` in the store at `root`.
pub open spec fn object_dir_spec(root: Seq<char>, id: Seq<u8>) -> Seq<char> {
    root + "/objects/"@ + ascii_text(hex_text(id)).take(2)
}

/// The file of the object `id` in the store at `root`.
pub open spec fn object_path_spec(root: Seq<char>, id: Seq<u8>) -> Seq<char> {
    object_dir_spec(root, id) + "/"@ + ascii_text(hex_text(id)).skip(2)
}

/// Whether `stored` is what the store at `root` writes for the object of
/// `kind` with `payload`.
pub open spec fn stored_as(
    stored: StoredObjectView,
    root: Seq<char>,
    kind: Kind,
    payload: Seq<u8>,
) -> bool {
    &&& stored.id == object_id_spec(kind, payload)
    &&& stored.dir == object_dir_spec(root, stored.id)
    &&& stored.path == object_path_spec(root, stored.id)
    &&& is_encoding_of(stored.bytes, kind, payload)
}

/// What putting gives: the error of encoding, or the encoded object with
/// its directory and path in the store at `root`.
pub open spec fn put_spec(root: Seq<char>, kind: Kind, payload: Seq<u8>, declared_size: u64)
    -> Result<StoredObjectView, Error> {
    match encode_spec(kind, payload, declared_size) {
        Ok(encoded) => Ok(
            StoredObjectView {
                id: encoded.id,
                dir: object_dir_spec(root, encoded.id),
                path: object_path_spec(root, encoded.id),
                bytes: encoded.bytes,
            },
        ),
        Err(e) => Err(e),
    }
}

/// Whether the outcome `r` of putting is `expected`.
pub open spec fn puts_as(r: Result<StoredObject, Error>, expected: Result<StoredObjectView, Error>)
    -> bool {
    match expected {
        Ok(view) => r matches Ok(stored) && stored@ == view,
        Err(e) => r matches Err(got) && got == e,
    }
}

/// What the contents found at an object's path mean: `NotFound` if there
/// is no file, `Corrupt` with the cause if the file does not decode, else
/// the object.
pub open spec fn get_spec(file: Option<Seq<u8>>) -> Result<ObjectView, Error> {
    match file {
        None => Err(Error::NotFound),
        Some(bytes) => match decode_spec(bytes) {
            Ok(object) => Ok(object),
            Err(e) => Err(corrupt(e)),
        },
    }
}

/// A decoding error as the store reports it: wrapped as `Corrupt`, so that
/// a file that is there but does not decode is told apart from no file.
pub open spec fn corrupt(e: Error) -> Error {
    match e.decode_failure() {
        Some(cause) => Error::Corrupt(cause),
        None => e,
    }
}

/// Storing the same kind and payload twice gives the same id, the same
/// path and the same bytes: the second write replaces the file by an equal
/// one.
pub proof fn lemma_put_deterministic(
    first: StoredObjectView,
    second: StoredObjectView,
    root: Seq<char>,
    kind: Kind,
    payload: Seq<u8>,
)
    requires
        stored_as(first, root, kind, payload),
        stored_as(second, root, kind, payload),
    ensures
        first.id == second.id,
        first.path == second.path,
        first.dir == second.dir,
        first.bytes == second.bytes,
        first == second,
{
}

/// Once an object has been put, putting the same kind and payload again
/// succeeds and gives the same id, path and bytes: nothing new is stored.
pub proof fn lemma_put_again(
    first: StoredObjectView,
    root: Seq<char>,
    kind: Kind,
    payload: Seq<u8>,
)
    requires
        payload.len() <= u64::MAX,
        stored_as(first, root, kind, payload),
    ensures
        put_spec(root, kind, payload, payload.len() as u64) == Ok::<StoredObjectView, Error>(
            first,
        ),
{
}

/// Getting what was put gives the payload back, byte for byte, with its
/// length as the declared size.
pub proof fn lemma_store_roundtrip(
    stored: StoredObjectView,
    root: Seq<char>,
    kind: Kind,
    payload: Seq<u8>,
)
    requires
        stored_as(stored, root, kind, payload),
        payload.len() <= u64::MAX,
    ensures
        get_spec(Some(stored.bytes)) == Ok::<ObjectView, Error>(
            ObjectView { kind, declared_size: payload.len() as u64, payload },
        ),
{
    lemma_encoding_roundtrip(stored.bytes, kind, payload);
}

/// Objects of different ids live in different files.
pub proof fn lemma_paths_differ(root: Seq<char>, a: Seq<u8>, b: Seq<u8>)
    requires
        a.len() == 20,
        b.len() == 20,
        a != b,
    ensures
        object_path_spec(root, a) != object_path_spec(root, b),
{
    lemma_hex_roundtrip(a);
    lemma_hex_roundtrip(b);
    let ha = ascii_text(hex_text(a));
    let hb = ascii_text(hex_text(b));
    let pa = object_path_spec(root, a);
    let pb = object_path_spec(root, b);
    if pa == pb {
        let base = root.len() + "/objects/"@.len();
        assert(ha.len() == 40 && hb.len() == 40);
        assert forall|i: int| 0 <= i < 40 implies ha[i] == hb[i] by {
            if i < 2 {
                assert(pa[base + i] == ha.take(2)[i]);
                assert(pb[base + i] == hb.take(2)[i]);
            } else {
                assert(pa[base + 2 + "/"@.len() + (i - 2)] == ha.skip(2)[i - 2]);
                assert(pb[base + 2 + "/"@.len() + (i - 2)] == hb.skip(2)[i - 2]);
            }
        }
        assert(ha =~= hb);
        assert forall|i: int| 0 <= i < 40 implies hex_text(a)[i] == hex_text(b)[i] by {
            assert(ha[i] == hex_text(a)[i] as char);
            assert(hb[i] == hex_text(b)[i] as char);
            assert(0x30 <= hex_text(a)[i] <= 0x66);
            assert(0x30 <= hex_text(b)[i] <= 0x66);
        }
        assert(hex_text(a) =~= hex_text(b));
        assert(false);
    }
}

impl ObjectStore {
    /// The store rooted at `root`.
    pub fn new(root: String) -> (store: ObjectStore)
        ensures
            store.root@ == root@,
    {
        ObjectStore { root }
    }

    /// The directory that holds the file of the object `id`.
    pub fn object_dir(&self, id: &ObjectId) -> (dir: String)
        ensures
            dir@ == object_dir_spec(self.root@, id@),
    {
        let hex = id.to_hex();
        proof {
            lemma_hex_roundtrip(id@);
        }
        let mut dir = String::from_str(self.root.as_str());
        dir.append("/objects/");
        dir.append(hex.as_str().substring_ascii(0, 2));
        assert(hex@.subrange(0, 2) =~= hex@.take(2));
        dir
    }

    /// The file of the object `id`: the first two hex digits of the id name
    /// a directory, the other 38 the file in it.
    pub fn object_path(&self, id: &ObjectId) -> (path: String)
        ensures
            path@ == object_path_spec(self.root@, id@),
    {
        let hex = id.to_hex();
        proof {
            lemma_hex_roundtrip(id@);
        }
        let mut path = self.object_dir(id);
        path.append("/");
        path.append(hex.as_str().substring_ascii(2, 40));
        assert(hex@.subrange(2, 40) =~= hex@.skip(2));
        path
    }

    /// Says where an encoded object is to be written.
    pub fn place(&self, encoded: EncodedObject) -> (stored: StoredObject)
        ensures
            stored.id == encoded.id,
            stored.bytes@ == encoded.bytes@,
            stored.dir@ == object_dir_spec(self.root@, encoded.id@),
            stored.path@ == object_path_spec(self.root@, encoded.id@),
    {
        let dir = self.object_dir(&encoded.id);
        let path = self.object_path(&encoded.id);
        StoredObject { id: encoded.id, dir, path, bytes: encoded.bytes }
    }

    /// Prepares an object for storing: encodes it and says where it goes.
    ///
    /// Fails with `SizeMismatch` exactly when `declared_size` is not the
    /// length of `payload`, and with `Io` exactly when compression of the
    /// record fails. What comes back depends on kind and payload alone, so
    /// a put that has succeeded once succeeds again with the same result;
    /// and getting what was put gives kind and payload back.
    pub fn put(&self, kind: Kind, payload: &[u8], declared_size: u64) -> (r: Result<
        StoredObject,
        Error,
    >)
        ensures
            puts_as(r, put_spec(self.root@, kind, payload@, declared_size)),
            r matches Ok(stored) ==> {
                &&& stored_as(stored@, self.root@, kind, payload@)
                &&& get_spec(Some(stored.bytes@)) == Ok::<ObjectView, Error>(
                    ObjectView { kind, declared_size, payload: payload@ },
                )
            },
    {
        match encode(kind, payload, declared_size) {
            Ok(encoded) => Ok(self.place(encoded)),
            Err(e) => Err(e),
        }
    }

    /// Reads an object from what was found at its path: `None` if no file
    /// is there, else the contents of the file.
    ///
    /// `NotFound` if there is no file; `Corrupt`, with the cause, if the
    /// file does not decode; else the object.
    pub fn get(&self, file: Option<&[u8]>) -> (r: Result<Object, Error>)
        ensures
            decodes_to(
                r,
                get_spec(
                    match file {
                        Some(bytes) => Some(bytes@),
                        None => None,
                    },
                ),
            ),
            r matches Ok(object) ==> object.wf(),
    {
        match file {
            None => Err(Error::NotFound),
            Some(bytes) => match decode(bytes) {
                Ok(object) => Ok(object),
                Err(Error::Io) => Err(Error::Corrupt(DecodeFailure::Io)),
                Err(Error::Format) => Err(Error::Corrupt(DecodeFailure::Format)),
                Err(Error::SizeMismatch) => Err(Error::Corrupt(DecodeFailure::SizeMismatch)),
                Err(other) => Err(other),
            },
        }
    }
}

} // verus!
