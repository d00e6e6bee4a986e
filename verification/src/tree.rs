//! Tree objects: the entries of a directory snapshot, their byte layout and
//! their order.
//!
//! A tree payload is the concatenation of its entries, each written as
//! `<mode> <name>\0` followed by the 20 raw bytes of an id. A tree that is
//! built here holds its entries in bytewise order of their names, so that
//! the same directory contents give the same tree wherever and in whatever
//! order they were listed.

use vstd::prelude::*;
use vstd::slice::{slice_subrange, slice_to_vec};
use vstd::relations::{sorted_by, total_ordering};
use vstd::seq_lib::{lemma_sorted_unique, to_multiset_build, to_multiset_insert};
use crate::bytes::{
    append, bytes_eq, bytes_le, find_byte, first_index, has_byte, lemma_first_index,
    lemma_first_index_is, lemma_lex_le_antisymmetric, lemma_lex_le_reflexive, lemma_lex_le_total,
    lemma_lex_le_transitive, lex_le,
};
use crate::codec::{NUL, SPACE};
use crate::error::Error;
use crate::object_id::{ObjectId, ID_LEN};

verus! {

/// How an entry is to be read: as a plain file, an executable file, a
/// symbolic link or a subdirectory.
#[derive(Debug, Clone, Copy, PartialEq, Eq, Structural)]
pub enum EntryMode {
    Regular,
    Executable,
    Symlink,
    Directory,
}

/// The execute permissions of owner, group and others in a file's
/// permission bits.
pub const EXECUTE_BITS: u32 = 0o111;

/// Whether a file with these permission bits counts as executable: it does
/// if any of the three execute permissions is set.
pub fn is_executable(permissions: u32) -> (r: bool)
    ensures
        r == (permissions & EXECUTE_BITS != 0),
{
    permissions & EXECUTE_BITS != 0
}

impl EntryMode {
    /// The mode of a file with these permission bits: `Executable` if any
    /// execute permission is set, else `Regular`.
    pub fn for_permissions(permissions: u32) -> (mode: EntryMode)
        ensures
            mode == if permissions & EXECUTE_BITS != 0 {
                EntryMode::Executable
            } else {
                EntryMode::Regular
            },
    {
        EntryMode::for_file(is_executable(permissions))
    }

    /// The mode as it is written in a tree: `100644`, `100755`, `120000` or
    /// `40000`.
    pub open spec fn text(self) -> Seq<u8> {
        match self {
            EntryMode::Regular => seq![0x31u8, 0x30, 0x30, 0x36, 0x34, 0x34],
            EntryMode::Executable => seq![0x31u8, 0x30, 0x30, 0x37, 0x35, 0x35],
            EntryMode::Symlink => seq![0x31u8, 0x32, 0x30, 0x30, 0x30, 0x30],
            EntryMode::Directory => seq![0x34u8, 0x30, 0x30, 0x30, 0x30],
        }
    }

    /// The mode of a file: executable if any execute permission is set.
    pub fn for_file(executable: bool) -> (mode: EntryMode)
        ensures
            mode == if executable {
                EntryMode::Executable
            } else {
                EntryMode::Regular
            },
    {
        if executable {
            EntryMode::Executable
        } else {
            EntryMode::Regular
        }
    }

    /// The mode as it is written in a tree.
    pub fn to_bytes(&self) -> (out: Vec<u8>)
        ensures
            out@ == self.text(),
    {
        let mut out: Vec<u8> = Vec::new();
        match self {
            EntryMode::Regular => {
                out.push(0x31);
                out.push(0x30);
                out.push(0x30);
                out.push(0x36);
                out.push(0x34);
                out.push(0x34);
            },
            EntryMode::Executable => {
                out.push(0x31);
                out.push(0x30);
                out.push(0x30);
                out.push(0x37);
                out.push(0x35);
                out.push(0x35);
            },
            EntryMode::Symlink => {
                out.push(0x31);
                out.push(0x32);
                out.push(0x30);
                out.push(0x30);
                out.push(0x30);
                out.push(0x30);
            },
            EntryMode::Directory => {
                out.push(0x34);
                out.push(0x30);
                out.push(0x30);
                out.push(0x30);
                out.push(0x30);
            },
        }
        assert(out@ =~= self.text());
        out
    }
}

/// One line of a tree: a mode, a name and the id of the blob or subtree.
#[derive(Debug, Clone, PartialEq, Eq)]
pub struct TreeEntry {
    pub mode: Vec<u8>,
    pub name: Vec<u8>,
    pub id: ObjectId,
}

/// A tree entry as a mathematical value.
pub struct TreeEntryView {
    pub mode: Seq<u8>,
    pub name: Seq<u8>,
    pub id: Seq<u8>,
}

impl View for TreeEntry {
    type V = TreeEntryView;

    open spec fn view(&self) -> TreeEntryView {
        TreeEntryView { mode: self.mode@, name: self.name@, id: self.id@ }
    }
}

impl TreeEntryView {
    /// What can be written and read back: a mode without blank or NUL, a
    /// name without NUL, an id of 20 bytes.
    pub open spec fn wf(self) -> bool {
        &&& !has_byte(self.mode, SPACE)
        &&& !has_byte(self.mode, NUL)
        &&& !has_byte(self.name, NUL)
        &&& self.id.len() == ID_LEN
    }

    /// The bytes of this entry in a tree payload.
    pub open spec fn bytes(self) -> Seq<u8> {
        self.mode + seq![SPACE] + self.name + seq![NUL] + self.id
    }
}

/// Whether each of `entries` can be written and read back.
pub open spec fn all_wf(entries: Seq<TreeEntryView>) -> bool {
    forall|i: int| 0 <= i < entries.len() ==> (#[trigger] entries[i]).wf()
}

/// The text of a mode holds digits only: no blank and no NUL.
pub proof fn lemma_mode_text(mode: EntryMode)
    ensures
        !has_byte(mode.text(), SPACE),
        !has_byte(mode.text(), NUL),
        5 <= mode.text().len() <= 6,
{
    let text = mode.text();
    assert forall|i: int| 0 <= i < text.len() implies 0x30 <= #[trigger] text[i] <= 0x37 by {
        match mode {
            EntryMode::Regular => {
                assert(text[0] == 0x31 && text[1] == 0x30 && text[2] == 0x30 && text[3] == 0x36
                    && text[4] == 0x34 && text[5] == 0x34);
            },
            EntryMode::Executable => {
                assert(text[0] == 0x31 && text[1] == 0x30 && text[2] == 0x30 && text[3] == 0x37
                    && text[4] == 0x35 && text[5] == 0x35);
            },
            EntryMode::Symlink => {
                assert(text[0] == 0x31 && text[1] == 0x32 && text[2] == 0x30 && text[3] == 0x30
                    && text[4] == 0x30 && text[5] == 0x30);
            },
            EntryMode::Directory => {
                assert(text[0] == 0x34 && text[1] == 0x30 && text[2] == 0x30 && text[3] == 0x30
                    && text[4] == 0x30);
            },
        }
    }
}

/// The views of a sequence of entries.
pub open spec fn views(entries: Seq<TreeEntry>) -> Seq<TreeEntryView> {
    entries.map_values(|e: TreeEntry| e@)
}

/// The payload of a tree with these entries, in this order.
pub open spec fn tree_payload(entries: Seq<TreeEntryView>) -> Seq<u8>
    decreases entries.len(),
{
    if entries.len() == 0 {
        Seq::<u8>::empty()
    } else {
        entries.first().bytes() + tree_payload(entries.drop_first())
    }
}

/// The entries that a tree payload holds, or `None` if the payload ends
/// inside an entry or an entry has no blank between mode and name.
pub open spec fn parse_tree(payload: Seq<u8>) -> Option<Seq<TreeEntryView>>
    decreases payload.len(),
{
    if payload.len() == 0 {
        Some(Seq::<TreeEntryView>::empty())
    } else {
        let nul = first_index(payload, NUL);
        let text = payload.take(nul);
        let sp = first_index(text, SPACE);
        if nul + 1 + ID_LEN > payload.len() || sp == text.len() {
            None
        } else {
            let entry = TreeEntryView {
                mode: text.take(sp),
                name: text.skip(sp + 1),
                id: payload.subrange(nul + 1, nul + 1 + ID_LEN),
            };
            proof {
                lemma_first_index(payload, NUL);
            }
            match parse_tree(payload.skip(nul + 1 + ID_LEN)) {
                None => None,
                Some(rest) => Some(seq![entry] + rest),
            }
        }
    }
}

/// Where the parts of a written entry stand.
pub proof fn lemma_entry_shape(entry: TreeEntryView, tail: Seq<u8>)
    requires
        entry.wf(),
    ensures
        first_index(entry.bytes() + tail, NUL) == entry.mode.len() + 1 + entry.name.len(),
        first_index(
            (entry.bytes() + tail).take(entry.mode.len() + 1 + entry.name.len() as int),
            SPACE,
        ) == entry.mode.len(),
{
    let all = entry.bytes() + tail;
    let nul: int = (entry.mode.len() + 1 + entry.name.len()) as int;
    assert forall|j: int| 0 <= j < nul implies all[j] != NUL by {
        if j < entry.mode.len() {
            assert(all[j] == entry.mode[j]);
        } else if j > entry.mode.len() {
            assert(all[j] == entry.name[j - entry.mode.len() - 1]);
        }
    }
    assert(all[nul] == NUL);
    lemma_first_index_is(all, NUL, nul);
    let text = all.take(nul);
    assert forall|j: int| 0 <= j < entry.mode.len() implies text[j] != SPACE by {
        assert(text[j] == entry.mode[j]);
    }
    assert(text[entry.mode.len() as int] == SPACE);
    lemma_first_index_is(text, SPACE, entry.mode.len() as int);
}

/// Reading a written tree gives its entries back, provided each of them can
/// be written unambiguously.
pub proof fn lemma_tree_roundtrip(entries: Seq<TreeEntryView>)
    requires
        all_wf(entries),
    ensures
        parse_tree(tree_payload(entries)) == Some(entries),
    decreases entries.len(),
{
    if entries.len() > 0 {
        let entry = entries.first();
        let rest = entries.drop_first();
        let tail = tree_payload(rest);
        let payload = tree_payload(entries);
        assert(entry.wf());
        assert forall|i: int| 0 <= i < rest.len() implies (#[trigger] rest[i]).wf() by {
            assert(rest[i] == entries[i + 1]);
        }
        lemma_tree_roundtrip(rest);
        lemma_entry_shape(entry, tail);
        let nul: int = (entry.mode.len() + 1 + entry.name.len()) as int;
        let text = payload.take(nul);
        assert(payload.len() == entry.bytes().len() + tail.len());
        assert(text.take(entry.mode.len() as int) =~= entry.mode);
        assert(text.skip(entry.mode.len() as int + 1) =~= entry.name);
        assert(payload.subrange(nul + 1, nul + 1 + ID_LEN) =~= entry.id);
        assert(payload.skip(nul + 1 + ID_LEN) =~= tail);
        assert(seq![entry] + rest =~= entries);
    }
}

/// A payload that reads as a tree is exactly what writing its entries
/// gives, and each entry read can be written unambiguously.
pub proof fn lemma_tree_parse_exact(payload: Seq<u8>)
    requires
        parse_tree(payload) is Some,
    ensures
        tree_payload(parse_tree(payload).unwrap()) == payload,
        all_wf(parse_tree(payload).unwrap()),
    decreases payload.len(),
{
    if payload.len() > 0 {
        let nul = first_index(payload, NUL);
        let text = payload.take(nul);
        let sp = first_index(text, SPACE);
        lemma_first_index(payload, NUL);
        lemma_first_index(text, SPACE);
        let entry = TreeEntryView {
            mode: text.take(sp),
            name: text.skip(sp + 1),
            id: payload.subrange(nul + 1, nul + 1 + ID_LEN),
        };
        let tail = payload.skip(nul + 1 + ID_LEN);
        lemma_tree_parse_exact(tail);
        let rest = parse_tree(tail).unwrap();
        let entries = parse_tree(payload).unwrap();
        assert(entries == seq![entry] + rest);
        assert(entries.first() == entry);
        assert(entries.drop_first() =~= rest);
        assert(entry.bytes() + tail =~= payload);
        assert(entry.wf()) by {
            if has_byte(entry.mode, SPACE) {
                let j = choose|j: int| 0 <= j < entry.mode.len() && entry.mode[j] == SPACE;
                assert(text[j] == SPACE);
            }
            if has_byte(entry.mode, NUL) {
                let j = choose|j: int| 0 <= j < entry.mode.len() && entry.mode[j] == NUL;
                assert(payload[j] == NUL);
            }
            if has_byte(entry.name, NUL) {
                let j = choose|j: int| 0 <= j < entry.name.len() && entry.name[j] == NUL;
                assert(payload[sp + 1 + j] == NUL);
            }
        }
        assert forall|i: int| 0 <= i < entries.len() implies (#[trigger] entries[i]).wf() by {
            if i > 0 {
                assert(entries[i] == rest[i - 1]);
            }
        }
    }
}

/// Appends the bytes of one entry to `out`.
pub fn write_entry(entry: &TreeEntry, out: &mut Vec<u8>)
    ensures
        final(out)@ == old(out)@ + entry@.bytes(),
{
    append(out, entry.mode.as_slice());
    out.push(SPACE);
    append(out, entry.name.as_slice());
    out.push(NUL);
    append(out, entry.id.as_bytes().as_slice());
    assert(out@ =~= old(out)@ + entry@.bytes());
}

/// The payload of a tree with these entries, in this order.
pub fn serialize_entries(entries: &Vec<TreeEntry>) -> (out: Vec<u8>)
    ensures
        out@ == tree_payload(views(entries@)),
{
    let mut out: Vec<u8> = Vec::new();
    let n = entries.len();
    let ghost all = views(entries@);
    let mut i: usize = 0;
    assert(all.skip(0) =~= all);
    while i < n
        invariant
            n == entries@.len(),
            0 <= i <= n,
            all == views(entries@),
            tree_payload(all) == out@ + tree_payload(all.skip(i as int)),
        decreases n - i,
    {
        let ghost before = out@;
        write_entry(&entries[i], &mut out);
        proof {
            let rest = all.skip(i as int);
            assert(rest.first() == entries@[i as int]@);
            assert(rest.drop_first() =~= all.skip(i + 1));
            assert(before + (rest.first().bytes() + tree_payload(rest.drop_first())) =~= (before
                + rest.first().bytes()) + tree_payload(rest.drop_first()));
        }
        i += 1;
    }
    assert(tree_payload(all.skip(n as int)) =~= Seq::<u8>::empty());
    assert(out@ + Seq::<u8>::empty() =~= out@);
    out
}

/// Reads the entries of a tree payload, one `mode SPACE name NUL id` record
/// after the other until the payload is used up. A payload that ends inside
/// a record, or a record without a blank before its NUL, is a `Format`
/// error.
pub fn parse_entries(payload: &[u8]) -> (r: Result<Vec<TreeEntry>, Error>)
    ensures
        match parse_tree(payload@) {
            Some(entries) => r matches Ok(got) && views(got@) == entries,
            None => r matches Err(e) && e == Error::Format,
        },
{
    let mut out: Vec<TreeEntry> = Vec::new();
    let n = payload.len();
    let mut pos: usize = 0;
    assert(payload@.skip(0) =~= payload@);
    assert(views(out@) =~= Seq::<TreeEntryView>::empty());
    while pos < n
        invariant
            n == payload@.len(),
            0 <= pos <= n,
            parse_tree(payload@) == match parse_tree(payload@.skip(pos as int)) {
                None => None::<Seq<TreeEntryView>>,
                Some(rest) => Some(views(out@) + rest),
            },
        decreases n - pos,
    {
        let remaining = slice_subrange(payload, pos, n);
        let nul = find_byte(remaining, NUL);
        if nul >= remaining.len() || remaining.len() - nul - 1 < ID_LEN {
            return Err(Error::Format);
        }
        let text = slice_subrange(remaining, 0, nul);
        let sp = find_byte(text, SPACE);
        if sp == text.len() {
            return Err(Error::Format);
        }
        let mode = slice_to_vec(slice_subrange(text, 0, sp));
        let name = slice_to_vec(slice_subrange(text, sp + 1, nul));
        let raw = slice_subrange(remaining, nul + 1, nul + 1 + ID_LEN);
        let mut id = [0u8; 20];
        let mut k: usize = 0;
        while k < ID_LEN
            invariant
                0 <= k <= ID_LEN,
                raw@.len() == ID_LEN,
                forall|j: int| 0 <= j < k ==> id@[j] == raw@[j],
            decreases ID_LEN - k,
        {
            id[k] = raw[k];
            k += 1;
        }
        assert(id@ =~= raw@);
        let entry = TreeEntry { mode, name, id: ObjectId::from_bytes(id) };
        proof {
            let rem = payload@.skip(pos as int);
            assert(remaining@ =~= rem);
            assert(rem.skip(nul + 1 + ID_LEN) =~= payload@.skip(pos + nul + 1 + ID_LEN));
            assert(views(out@.push(entry)) =~= views(out@) + seq![entry@]);
            match parse_tree(rem.skip(nul + 1 + ID_LEN)) {
                None => {},
                Some(rest) => {
                    assert(views(out@) + (seq![entry@] + rest) =~= (views(out@) + seq![entry@])
                        + rest);
                },
            }
        }
        out.push(entry);
        pos = pos + nul + 1 + ID_LEN;
    }
    assert(payload@.skip(n as int) =~= Seq::<u8>::empty());
    assert(views(out@) + Seq::<TreeEntryView>::empty() =~= views(out@));
    Ok(out)
}

/// The order of entries in a tree: by name, bytewise. Entries of one name
/// stand in the order of their modes, and entries of one name and mode in
/// the order of their ids, so that any two entries are ordered.
pub open spec fn entry_le(a: TreeEntryView, b: TreeEntryView) -> bool {
    if a.name != b.name {
        lex_le(a.name, b.name)
    } else if a.mode != b.mode {
        lex_le(a.mode, b.mode)
    } else {
        lex_le(a.id, b.id)
    }
}

/// `entry_le` as a relation.
pub open spec fn entry_order() -> spec_fn(TreeEntryView, TreeEntryView) -> bool {
    |a: TreeEntryView, b: TreeEntryView| entry_le(a, b)
}

/// Whether `entries` stand in the order of a tree.
pub open spec fn entries_sorted(entries: Seq<TreeEntryView>) -> bool {
    sorted_by(entries, entry_order())
}

/// Two steps in the bytewise order make one; if the ends are equal, so is
/// what stands between them.
pub proof fn lemma_lex_le_chain(a: Seq<u8>, b: Seq<u8>, c: Seq<u8>)
    requires
        lex_le(a, b),
        lex_le(b, c),
    ensures
        lex_le(a, c),
        a == c ==> a == b,
{
    lemma_lex_le_transitive(a, b, c);
    if a == c {
        lemma_lex_le_antisymmetric(a, b);
    }
}

/// The order of entries is a total order.
pub proof fn lemma_entry_order_total()
    ensures
        total_ordering(entry_order()),
{
    let r = entry_order();
    assert forall|x: TreeEntryView| #[trigger] r(x, x) by {
        lemma_lex_le_reflexive(x.id);
    }
    assert forall|x: TreeEntryView, y: TreeEntryView| #[trigger] r(x, y) && #[trigger] r(
        y,
        x,
    ) implies x == y by {
        if x.name != y.name {
            lemma_lex_le_antisymmetric(x.name, y.name);
        } else if x.mode != y.mode {
            lemma_lex_le_antisymmetric(x.mode, y.mode);
        } else {
            lemma_lex_le_antisymmetric(x.id, y.id);
        }
    }
    assert forall|x: TreeEntryView, y: TreeEntryView, z: TreeEntryView| #[trigger] r(x, y)
        && #[trigger] r(y, z) implies r(x, z) by {
        if x.name != y.name || y.name != z.name {
            lemma_lex_le_reflexive(x.name);
            lemma_lex_le_reflexive(z.name);
            lemma_lex_le_chain(x.name, y.name, z.name);
        } else if x.mode != y.mode || y.mode != z.mode {
            lemma_lex_le_reflexive(x.mode);
            lemma_lex_le_reflexive(z.mode);
            lemma_lex_le_chain(x.mode, y.mode, z.mode);
        } else {
            lemma_lex_le_transitive(x.id, y.id, z.id);
        }
    }
    assert forall|x: TreeEntryView, y: TreeEntryView| #[trigger] r(x, y) || #[trigger] r(
        y,
        x,
    ) by {
        lemma_lex_le_total(x.name, y.name);
        lemma_lex_le_total(x.mode, y.mode);
        lemma_lex_le_total(x.id, y.id);
    }
}

/// In a sorted sequence the names stand in bytewise order.
pub proof fn lemma_sorted_names(entries: Seq<TreeEntryView>, i: int, j: int)
    requires
        entries_sorted(entries),
        0 <= i <= j < entries.len(),
    ensures
        lex_le(entries[i].name, entries[j].name),
{
    lemma_lex_le_reflexive(entries[i].name);
    if i < j {
        assert(entry_order()(entries[i], entries[j]));
    }
}

/// How many entries at the front of `entries` come no later than `entry`.
/// In a sorted sequence this is the place of `entry`.
pub open spec fn insert_point(entries: Seq<TreeEntryView>, entry: TreeEntryView) -> int
    decreases entries.len(),
{
    if entries.len() == 0 {
        0
    } else if entry_le(entries.first(), entry) {
        1 + insert_point(entries.drop_first(), entry)
    } else {
        0
    }
}

/// `entries` with `entry` put in at its place.
pub open spec fn sorted_insert(entries: Seq<TreeEntryView>, entry: TreeEntryView) -> Seq<
    TreeEntryView,
> {
    entries.insert(insert_point(entries, entry), entry)
}

/// The entries of `listed`, put in order one after the other.
pub open spec fn sort_entries(listed: Seq<TreeEntryView>) -> Seq<TreeEntryView>
    decreases listed.len(),
{
    if listed.len() == 0 {
        Seq::<TreeEntryView>::empty()
    } else {
        sorted_insert(sort_entries(listed.drop_last()), listed.last())
    }
}

/// The insert point lies within the sequence; everything before it comes no
/// later than `entry`, and the entry at it, if any, comes later.
pub proof fn lemma_insert_point(entries: Seq<TreeEntryView>, entry: TreeEntryView)
    ensures
        0 <= insert_point(entries, entry) <= entries.len(),
        forall|j: int| 0 <= j < insert_point(entries, entry) ==> entry_le(entries[j], entry),
        insert_point(entries, entry) < entries.len() ==> !entry_le(
            entries[insert_point(entries, entry)],
            entry,
        ),
    decreases entries.len(),
{
    if entries.len() > 0 && entry_le(entries.first(), entry) {
        let rest = entries.drop_first();
        lemma_insert_point(rest, entry);
        assert forall|j: int| 0 <= j < insert_point(entries, entry) implies entry_le(
            entries[j],
            entry,
        ) by {
            if j > 0 {
                assert(entries[j] == rest[j - 1]);
            }
        }
        if insert_point(entries, entry) < entries.len() {
            assert(entries[insert_point(entries, entry)] == rest[insert_point(rest, entry)]);
        }
    }
}

/// Putting an entry into a sorted sequence leaves it sorted, adds that
/// entry once, and changes nothing else.
pub proof fn lemma_sorted_insert(entries: Seq<TreeEntryView>, entry: TreeEntryView)
    requires
        entries_sorted(entries),
    ensures
        entries_sorted(sorted_insert(entries, entry)),
        sorted_insert(entries, entry).len() == entries.len() + 1,
        sorted_insert(entries, entry).to_multiset() == entries.to_multiset().insert(entry),
{
    let k = insert_point(entries, entry);
    let out = sorted_insert(entries, entry);
    let r = entry_order();
    lemma_insert_point(entries, entry);
    lemma_entry_order_total();
    to_multiset_insert(entries, k, entry);
    assert forall|i: int, j: int| 0 <= i < j < out.len() implies #[trigger] r(out[i], out[j]) by {
        if j < k {
            assert(r(entries[i], entries[j]));
        } else if j == k {
            assert(out[i] == entries[i]);
        } else if i < k {
            assert(r(entries[i], entries[j - 1]));
        } else if i == k {
            assert(out[j] == entries[j - 1]);
            assert(r(entries[k], entry) || r(entry, entries[k]));
            if j - 1 > k {
                assert(r(entries[k], entries[j - 1]));
                assert(r(entry, entries[k]) && r(entries[k], entries[j - 1]));
            }
        } else {
            assert(r(entries[i - 1], entries[j - 1]));
        }
    }
}

/// Putting an entry that can be written among entries that can be written
/// gives entries that can be written.
pub proof fn lemma_sorted_insert_wf(entries: Seq<TreeEntryView>, entry: TreeEntryView)
    requires
        all_wf(entries),
        entry.wf(),
    ensures
        all_wf(sorted_insert(entries, entry)),
{
    let k = insert_point(entries, entry);
    let out = sorted_insert(entries, entry);
    lemma_insert_point(entries, entry);
    assert forall|i: int| 0 <= i < out.len() implies (#[trigger] out[i]).wf() by {
        if i < k {
            assert(out[i] == entries[i]);
        } else if i > k {
            assert(out[i] == entries[i - 1]);
        }
    }
}

/// Sorting gives a sorted sequence of the same entries.
pub proof fn lemma_sort_entries(listed: Seq<TreeEntryView>)
    ensures
        entries_sorted(sort_entries(listed)),
        sort_entries(listed).to_multiset() == listed.to_multiset(),
        sort_entries(listed).len() == listed.len(),
    decreases listed.len(),
{
    if listed.len() > 0 {
        lemma_sort_entries(listed.drop_last());
        lemma_sorted_insert(sort_entries(listed.drop_last()), listed.last());
        to_multiset_build(listed.drop_last(), listed.last());
        assert(listed.drop_last().push(listed.last()) =~= listed);
    } else {
        assert(listed =~= Seq::<TreeEntryView>::empty());
    }
}

/// The order in which entries were listed does not show in the sorted
/// sequence: two listings of the same entries sort to the same sequence.
pub proof fn lemma_sort_ignores_order(first: Seq<TreeEntryView>, second: Seq<TreeEntryView>)
    requires
        first.to_multiset() == second.to_multiset(),
    ensures
        sort_entries(first) == sort_entries(second),
{
    lemma_sort_entries(first);
    lemma_sort_entries(second);
    lemma_entry_order_total();
    lemma_sorted_unique(sort_entries(first), sort_entries(second), entry_order());
}

/// Whether `a` comes no later than `b` in the order of a tree.
pub fn entry_no_later(a: &TreeEntry, b: &TreeEntry) -> (r: bool)
    ensures
        r == entry_le(a@, b@),
{
    if !bytes_eq(a.name.as_slice(), b.name.as_slice()) {
        bytes_le(a.name.as_slice(), b.name.as_slice())
    } else if !bytes_eq(a.mode.as_slice(), b.mode.as_slice()) {
        bytes_le(a.mode.as_slice(), b.mode.as_slice())
    } else {
        bytes_le(a.id.as_bytes().as_slice(), b.id.as_bytes().as_slice())
    }
}

/// Puts `entry` into `entries` at its place in the order of a tree: behind
/// every entry that comes no later.
pub fn insert_sorted(entries: &mut Vec<TreeEntry>, entry: TreeEntry)
    ensures
        views(final(entries)@) == sorted_insert(views(old(entries)@), entry@),
{
    let ghost all = views(entries@);
    let n = entries.len();
    let mut k: usize = 0;
    assert(all.skip(0) =~= all);
    while k < n
        invariant
            n == entries@.len(),
            0 <= k <= n,
            entries@ == old(entries)@,
            all == views(entries@),
            insert_point(all, entry@) == k + insert_point(all.skip(k as int), entry@),
        ensures
            0 <= k <= n,
            n == entries@.len(),
            entries@ == old(entries)@,
            insert_point(all, entry@) == k,
        decreases n - k,
    {
        proof {
            assert(all.skip(k as int).first() == entries@[k as int]@);
            assert(all.skip(k as int).drop_first() =~= all.skip(k + 1));
        }
        if !entry_no_later(&entries[k], &entry) {
            break;
        }
        k += 1;
    }
    entries.insert(k, entry);
    assert(views(entries@) =~= all.insert(k as int, entry@));
}

} // verus!
