//! Reading objects: the bytes of a blob, the entries of a tree, and a tree
//! as lines of text.

use vstd::prelude::*;
use vstd::slice::slice_to_vec;
use crate::bytes::{append, bytes_eq};
use crate::codec::{Object, ObjectView, SPACE};
use crate::error::Error;
use crate::hex::hex_text;
use crate::kind::Kind;
use crate::tree::{parse_entries, parse_tree, views, EntryMode, TreeEntry, TreeEntryView};

verus! {

/// The byte that ends a line.
pub const NEWLINE: u8 = 0x0a;

/// The bytes of a blob: `UnsupportedKind` if the object is no blob,
/// `SizeMismatch` if its payload is not as long as it declares, else the
/// payload.
pub open spec fn blob_spec(object: ObjectView) -> Result<Seq<u8>, Error> {
    if object.kind != Kind::Blob {
        Err(Error::UnsupportedKind)
    } else if object.payload.len() != object.declared_size {
        Err(Error::SizeMismatch)
    } else {
        Ok(object.payload)
    }
}

/// The entries of a tree: `UnsupportedKind` if the object is no tree,
/// `SizeMismatch` if its payload is not as long as it declares, `Format`
/// if the payload ends inside an entry or an entry is malformed, else the
/// entries in the order in which they stand.
pub open spec fn tree_spec(object: ObjectView) -> Result<Seq<TreeEntryView>, Error> {
    if object.kind != Kind::Tree {
        Err(Error::UnsupportedKind)
    } else if object.payload.len() != object.declared_size {
        Err(Error::SizeMismatch)
    } else {
        match parse_tree(object.payload) {
            Some(entries) => Ok(entries),
            None => Err(Error::Format),
        }
    }
}

/// The kind of object that an entry points to, going by its mode alone:
/// a tree for mode `40000`, a blob for every other mode. Nothing is looked
/// up.
pub open spec fn entry_kind_spec(mode: Seq<u8>) -> Kind {
    if mode == EntryMode::Directory.text() {
        Kind::Tree
    } else {
        Kind::Blob
    }
}

/// One line of a listing: the name alone, or `<mode> <kind> <hex id>
/// <name>`; a newline ends it either way.
pub open spec fn listing_line(entry: TreeEntryView, name_only: bool) -> Seq<u8> {
    if name_only {
        entry.name + seq![NEWLINE]
    } else {
        entry.mode + seq![SPACE] + entry_kind_spec(entry.mode).word() + seq![SPACE] + hex_text(
            entry.id,
        ) + seq![SPACE] + entry.name + seq![NEWLINE]
    }
}

/// The lines of all entries, in order.
pub open spec fn listing(entries: Seq<TreeEntryView>, name_only: bool) -> Seq<u8>
    decreases entries.len(),
{
    if entries.len() == 0 {
        Seq::<u8>::empty()
    } else {
        listing_line(entries.first(), name_only) + listing(entries.drop_first(), name_only)
    }
}

/// The listing of a tree object, or the error that reading its entries
/// gives.
pub open spec fn list_tree_spec(object: ObjectView, name_only: bool) -> Result<Seq<u8>, Error> {
    match tree_spec(object) {
        Ok(entries) => Ok(listing(entries, name_only)),
        Err(e) => Err(e),
    }
}

/// The bytes of a blob, all of them and no more. An object of another kind
/// is refused, and so is one whose payload is shorter or longer than it
/// declares: a blob is never handed out cut short.
pub fn read_blob(object: &Object) -> (r: Result<Vec<u8>, Error>)
    ensures
        match blob_spec(object@) {
            Ok(bytes) => r matches Ok(got) && got@ == bytes,
            Err(e) => r matches Err(got) && got == e,
        },
{
    match object.kind {
        Kind::Blob => {},
        _ => {
            return Err(Error::UnsupportedKind);
        },
    }
    if object.payload.len() as u64 != object.declared_size {
        return Err(Error::SizeMismatch);
    }
    Ok(slice_to_vec(object.payload.as_slice()))
}

/// The entries of a tree object, in the order in which they stand.
pub fn read_tree(object: &Object) -> (r: Result<Vec<TreeEntry>, Error>)
    ensures
        match tree_spec(object@) {
            Ok(entries) => r matches Ok(got) && views(got@) == entries,
            Err(e) => r matches Err(got) && got == e,
        },
{
    match object.kind {
        Kind::Tree => {},
        _ => {
            return Err(Error::UnsupportedKind);
        },
    }
    if object.payload.len() as u64 != object.declared_size {
        return Err(Error::SizeMismatch);
    }
    parse_entries(object.payload.as_slice())
}

/// The kind of object that an entry of this mode points to.
pub fn entry_kind(mode: &[u8]) -> (kind: Kind)
    ensures
        kind == entry_kind_spec(mode@),
{
    let directory = EntryMode::Directory.to_bytes();
    if bytes_eq(mode, directory.as_slice()) {
        Kind::Tree
    } else {
        Kind::Blob
    }
}

/// Appends the line of one entry to `out`.
pub fn write_line(entry: &TreeEntry, name_only: bool, out: &mut Vec<u8>)
    ensures
        final(out)@ == old(out)@ + listing_line(entry@, name_only),
{
    if !name_only {
        append(out, entry.mode.as_slice());
        out.push(SPACE);
        entry_kind(entry.mode.as_slice()).write_word(out);
        out.push(SPACE);
        append(out, entry.id.to_hex_bytes().as_slice());
        out.push(SPACE);
    }
    append(out, entry.name.as_slice());
    out.push(NEWLINE);
    assert(out@ =~= old(out)@ + listing_line(entry@, name_only));
}

/// The lines of `entries`, in order.
pub fn format_entries(entries: &Vec<TreeEntry>, name_only: bool) -> (out: Vec<u8>)
    ensures
        out@ == listing(views(entries@), name_only),
{
    let mut out: Vec<u8> = Vec::new();
    let n = entries.len();
    let ghost all = views(entries@);
    let mut i: usize = 0;
    assert(all.skip(0) =~= all);
    while i < n
        invariant
            n == entries@.len(),
            0 <= i <= n,
            all == views(entries@),
            listing(all, name_only) == out@ + listing(all.skip(i as int), name_only),
        decreases n - i,
    {
        let ghost before = out@;
        write_line(&entries[i], name_only, &mut out);
        proof {
            let rest = all.skip(i as int);
            assert(rest.first() == entries@[i as int]@);
            assert(rest.drop_first() =~= all.skip(i + 1));
            assert(before + (listing_line(rest.first(), name_only) + listing(
                rest.drop_first(),
                name_only,
            )) =~= (before + listing_line(rest.first(), name_only)) + listing(
                rest.drop_first(),
                name_only,
            ));
        }
        i += 1;
    }
    assert(listing(all.skip(n as int), name_only) =~= Seq::<u8>::empty());
    assert(out@ + Seq::<u8>::empty() =~= out@);
    out
}

/// Lists a tree object: one line for each entry, the name alone if
/// `name_only`, else mode, kind, id and name.
pub fn list_tree(object: &Object, name_only: bool) -> (r: Result<Vec<u8>, Error>)
    ensures
        match list_tree_spec(object@, name_only) {
            Ok(text) => r matches Ok(got) && got@ == text,
            Err(e) => r matches Err(got) && got == e,
        },
{
    match read_tree(object) {
        Ok(entries) => Ok(format_entries(&entries, name_only)),
        Err(e) => Err(e),
    }
}

} // verus!
