//! Turning a directory into tree and blob objects.
//!
//! The directory is handed over as a value: the names and contents that a
//! walk of the file system found. Building goes depth first and bottom up:
//! files and symbolic links become blobs, subdirectories become trees, and
//! a directory that holds nothing, however deep one looks, becomes nothing
//! at all.

use vstd::prelude::*;
use vstd::multiset::Multiset;
use vstd::seq_lib::to_multiset_build;
use vstd::slice::slice_to_vec;
use crate::bytes::{bytes_eq, find_byte, has_byte, lemma_first_index};
use crate::codec::{object_id, object_id_spec, Object, ObjectView, NUL};
use crate::error::Error;
use crate::kind::Kind;
use crate::object_id::ObjectId;
use crate::tree::{
    all_wf, entries_sorted, insert_sorted, lemma_mode_text, lemma_sort_ignores_order,
    lemma_sorted_insert, lemma_sorted_insert_wf, lemma_tree_roundtrip, parse_tree,
    serialize_entries, sort_entries, sorted_insert, tree_payload, views, EntryMode, TreeEntry,
    TreeEntryView,
};

verus! {

/// The byte that separates the parts of a path.
pub const SEPARATOR: u8 = 0x2f;

/// What stands under a name in a directory.
#[derive(Debug)]
pub enum FsNode {
    /// A regular file: its bytes, and whether any execute permission is set.
    File { executable: bool, contents: Vec<u8> },
    /// A symbolic link: the path it points to, as text. It is never followed.
    Symlink { target: Vec<u8> },
    /// A subdirectory and what it holds.
    Directory { children: Vec<FsEntry> },
}

/// A name in a directory and what stands under it.
#[derive(Debug)]
pub struct FsEntry {
    pub name: Vec<u8>,
    pub node: FsNode,
}

/// The objects of a directory and the id of its tree. The objects stand in
/// the order in which they were made: everything below a directory before
/// the tree of that directory, the root tree last.
#[derive(Debug)]
pub struct Snapshot {
    pub root: ObjectId,
    pub objects: Vec<Object>,
}

/// The views of a sequence of objects.
pub open spec fn object_views(objects: Seq<Object>) -> Seq<ObjectView> {
    objects.map_values(|o: Object| o@)
}

/// A name that can stand in a tree: not empty, no NUL, no path separator.
pub open spec fn valid_name(name: Seq<u8>) -> bool {
    &&& name.len() > 0
    &&& !has_byte(name, NUL)
    &&& !has_byte(name, SEPARATOR)
}

/// The object that holds `payload` as a `kind`.
pub open spec fn object_of(kind: Kind, payload: Seq<u8>) -> ObjectView {
    ObjectView { kind, declared_size: payload.len() as u64, payload }
}

/// Whether every name that building looks at is valid. What stands inside a
/// directory named `metadata_dir` is not looked at.
pub open spec fn names_valid(children: Seq<FsEntry>, metadata_dir: Seq<u8>) -> bool
    decreases children,
{
    if children.len() == 0 {
        true
    } else {
        let last = children.last();
        &&& names_valid(children.drop_last(), metadata_dir)
        &&& match last.node {
            FsNode::Directory { children: sub } => last.name@ == metadata_dir || (valid_name(
                last.name@,
            ) && names_valid(sub@, metadata_dir)),
            _ => valid_name(last.name@),
        }
    }
}

/// Whether a directory holds nothing to store: each of its children is a
/// directory that is either the metadata directory or itself holds nothing.
pub open spec fn is_hollow(children: Seq<FsEntry>, metadata_dir: Seq<u8>) -> bool
    decreases children,
{
    if children.len() == 0 {
        true
    } else {
        let last = children.last();
        &&& is_hollow(children.drop_last(), metadata_dir)
        &&& match last.node {
            FsNode::Directory { children: sub } => last.name@ == metadata_dir || is_hollow(
                sub@,
                metadata_dir,
            ),
            _ => false,
        }
    }
}

/// The entries of the tree of a directory, in the order of their names.
///
/// - A file gives an entry of mode `100755` if it is executable, else
///   `100644`, with the id of the blob of its bytes.
/// - A symbolic link gives an entry of mode `120000`, with the id of the
///   blob of its target text.
/// - A subdirectory gives an entry of mode `40000` with the id of its own
///   tree, unless it is named `metadata_dir` or its tree would have no
///   entries: then it gives none.
pub open spec fn tree_entries(children: Seq<FsEntry>, metadata_dir: Seq<u8>) -> Seq<TreeEntryView>
    decreases children,
{
    if children.len() == 0 {
        Seq::<TreeEntryView>::empty()
    } else {
        let rest = tree_entries(children.drop_last(), metadata_dir);
        let last = children.last();
        match last.node {
            FsNode::File { executable, contents } => sorted_insert(
                rest,
                TreeEntryView {
                    mode: if executable {
                        EntryMode::Executable.text()
                    } else {
                        EntryMode::Regular.text()
                    },
                    name: last.name@,
                    id: object_id_spec(Kind::Blob, contents@),
                },
            ),
            FsNode::Symlink { target } => sorted_insert(
                rest,
                TreeEntryView {
                    mode: EntryMode::Symlink.text(),
                    name: last.name@,
                    id: object_id_spec(Kind::Blob, target@),
                },
            ),
            FsNode::Directory { children: sub } => {
                let inner = tree_entries(sub@, metadata_dir);
                if last.name@ == metadata_dir || inner.len() == 0 {
                    rest
                } else {
                    sorted_insert(
                        rest,
                        TreeEntryView {
                            mode: EntryMode::Directory.text(),
                            name: last.name@,
                            id: object_id_spec(Kind::Tree, tree_payload(inner)),
                        },
                    )
                }
            },
        }
    }
}

/// The entry that one child gives to the tree of its directory, if it gives
/// one.
pub open spec fn entry_of(child: FsEntry, metadata_dir: Seq<u8>) -> Option<TreeEntryView> {
    match child.node {
        FsNode::File { executable, contents } => Some(
            TreeEntryView {
                mode: if executable {
                    EntryMode::Executable.text()
                } else {
                    EntryMode::Regular.text()
                },
                name: child.name@,
                id: object_id_spec(Kind::Blob, contents@),
            },
        ),
        FsNode::Symlink { target } => Some(
            TreeEntryView {
                mode: EntryMode::Symlink.text(),
                name: child.name@,
                id: object_id_spec(Kind::Blob, target@),
            },
        ),
        FsNode::Directory { children: sub } => {
            let inner = tree_entries(sub@, metadata_dir);
            if child.name@ == metadata_dir || inner.len() == 0 {
                None
            } else {
                Some(
                    TreeEntryView {
                        mode: EntryMode::Directory.text(),
                        name: child.name@,
                        id: object_id_spec(Kind::Tree, tree_payload(inner)),
                    },
                )
            }
        },
    }
}

/// The entries that the children give, in the order in which the children
/// were listed.
pub open spec fn listed_entries(children: Seq<FsEntry>, metadata_dir: Seq<u8>) -> Seq<
    TreeEntryView,
>
    decreases children.len(),
{
    if children.len() == 0 {
        Seq::<TreeEntryView>::empty()
    } else {
        let rest = listed_entries(children.drop_last(), metadata_dir);
        match entry_of(children.last(), metadata_dir) {
            Some(entry) => rest.push(entry),
            None => rest,
        }
    }
}

/// The entries of one child as a multiset: one entry or none.
pub open spec fn entry_bag(child: FsEntry, metadata_dir: Seq<u8>) -> Multiset<TreeEntryView> {
    match entry_of(child, metadata_dir) {
        Some(entry) => Multiset::singleton(entry),
        None => Multiset::empty(),
    }
}

/// The objects that the children of a directory give, in the order in which
/// the children stand: a blob for each file and symbolic link; for each
/// subdirectory that gives an entry, the objects of its own children and
/// then its tree.
pub open spec fn child_objects(children: Seq<FsEntry>, metadata_dir: Seq<u8>) -> Seq<ObjectView>
    decreases children,
{
    if children.len() == 0 {
        Seq::<ObjectView>::empty()
    } else {
        let rest = child_objects(children.drop_last(), metadata_dir);
        let last = children.last();
        match last.node {
            FsNode::File { executable, contents } => rest.push(object_of(Kind::Blob, contents@)),
            FsNode::Symlink { target } => rest.push(object_of(Kind::Blob, target@)),
            FsNode::Directory { children: sub } => {
                let inner = tree_entries(sub@, metadata_dir);
                if last.name@ == metadata_dir || inner.len() == 0 {
                    rest
                } else {
                    (rest + child_objects(sub@, metadata_dir)).push(
                        object_of(Kind::Tree, tree_payload(inner)),
                    )
                }
            },
        }
    }
}

/// What building a directory gives: nothing if it is hollow, else the id of
/// its tree and all objects below and including that tree.
pub open spec fn snapshot_spec(children: Seq<FsEntry>, metadata_dir: Seq<u8>) -> Option<
    (Seq<u8>, Seq<ObjectView>),
> {
    let entries = tree_entries(children, metadata_dir);
    if entries.len() == 0 {
        None
    } else {
        Some(
            (
                object_id_spec(Kind::Tree, tree_payload(entries)),
                child_objects(children, metadata_dir).push(
                    object_of(Kind::Tree, tree_payload(entries)),
                ),
            ),
        )
    }
}

/// A directory gives no tree entries exactly when it is hollow: it has no
/// children, or only directories that are themselves hollow or left out.
/// The entries it does give stand in the order of their names.
pub proof fn lemma_hollow_gives_nothing(children: Seq<FsEntry>, metadata_dir: Seq<u8>)
    ensures
        tree_entries(children, metadata_dir).len() == 0 <==> is_hollow(children, metadata_dir),
        is_hollow(children, metadata_dir) ==> child_objects(children, metadata_dir).len() == 0,
        snapshot_spec(children, metadata_dir) is None <==> is_hollow(children, metadata_dir),
        entries_sorted(tree_entries(children, metadata_dir)),
    decreases children,
{
    if children.len() > 0 {
        let rest = tree_entries(children.drop_last(), metadata_dir);
        let last = children.last();
        lemma_hollow_gives_nothing(children.drop_last(), metadata_dir);
        match last.node {
            FsNode::File { executable, contents } => {
                let entry = TreeEntryView {
                    mode: if executable {
                        EntryMode::Executable.text()
                    } else {
                        EntryMode::Regular.text()
                    },
                    name: last.name@,
                    id: object_id_spec(Kind::Blob, contents@),
                };
                lemma_sorted_insert(rest, entry);
            },
            FsNode::Symlink { target } => {
                let entry = TreeEntryView {
                    mode: EntryMode::Symlink.text(),
                    name: last.name@,
                    id: object_id_spec(Kind::Blob, target@),
                };
                lemma_sorted_insert(rest, entry);
            },
            FsNode::Directory { children: sub } => {
                lemma_hollow_gives_nothing(sub@, metadata_dir);
                let inner = tree_entries(sub@, metadata_dir);
                let entry = TreeEntryView {
                    mode: EntryMode::Directory.text(),
                    name: last.name@,
                    id: object_id_spec(Kind::Tree, tree_payload(inner)),
                };
                lemma_sorted_insert(rest, entry);
            },
        }
    }
}

/// The entries of a tree are the entries of the children, sorted.
pub proof fn lemma_tree_entries_sorted_listing(children: Seq<FsEntry>, metadata_dir: Seq<u8>)
    ensures
        tree_entries(children, metadata_dir) == sort_entries(
            listed_entries(children, metadata_dir),
        ),
    decreases children.len(),
{
    if children.len() > 0 {
        let rest = listed_entries(children.drop_last(), metadata_dir);
        lemma_tree_entries_sorted_listing(children.drop_last(), metadata_dir);
        match entry_of(children.last(), metadata_dir) {
            Some(entry) => {
                assert(rest.push(entry).drop_last() =~= rest);
            },
            None => {},
        }
    }
}

/// Taking one child out of a listing takes its entry, if it gives one, out
/// of the listed entries.
pub proof fn lemma_listed_without(children: Seq<FsEntry>, metadata_dir: Seq<u8>, k: int)
    requires
        0 <= k < children.len(),
    ensures
        listed_entries(children, metadata_dir).to_multiset() == listed_entries(
            children.remove(k),
            metadata_dir,
        ).to_multiset().add(entry_bag(children[k], metadata_dir)),
    decreases children.len(),
{
    broadcast use vstd::multiset::group_multiset_axioms;

    let front = children.drop_last();
    let last = children.last();
    let rest = listed_entries(front, metadata_dir);
    if k == children.len() - 1 {
        assert(children.remove(k) =~= front);
        match entry_of(last, metadata_dir) {
            Some(entry) => {
                to_multiset_build(rest, entry);
                assert(rest.to_multiset().insert(entry) =~= rest.to_multiset().add(
                    Multiset::singleton(entry),
                ));
            },
            None => {
                assert(rest.to_multiset().add(Multiset::empty()) =~= rest.to_multiset());
            },
        }
    } else {
        let without = children.remove(k);
        assert(without.drop_last() =~= front.remove(k));
        assert(without.last() == last);
        assert(front[k] == children[k]);
        lemma_listed_without(front, metadata_dir, k);
        let rest_without = listed_entries(front.remove(k), metadata_dir);
        let bag = entry_bag(children[k], metadata_dir);
        match entry_of(last, metadata_dir) {
            Some(entry) => {
                to_multiset_build(rest, entry);
                to_multiset_build(rest_without, entry);
                assert(rest_without.to_multiset().add(bag).insert(entry)
                    =~= rest_without.to_multiset().insert(entry).add(bag));
            },
            None => {},
        }
    }
}

/// Two listings of the same children give the same entries, in whatever
/// order each of them stands.
pub proof fn lemma_listed_same_children(
    first: Seq<FsEntry>,
    second: Seq<FsEntry>,
    metadata_dir: Seq<u8>,
)
    requires
        first.to_multiset() == second.to_multiset(),
    ensures
        listed_entries(first, metadata_dir).to_multiset() == listed_entries(
            second,
            metadata_dir,
        ).to_multiset(),
    decreases first.len(),
{
    broadcast use vstd::multiset::group_multiset_axioms;

    first.to_multiset_ensures();
    second.to_multiset_ensures();
    if first.len() == 0 {
        assert(second.len() == 0);
        assert(first =~= second);
    } else {
        let last = first.last();
        assert(first.contains(last));
        assert(second.to_multiset().count(last) > 0);
        assert(second.contains(last));
        let k = choose|k: int| 0 <= k < second.len() && second[k] == last;
        assert(first.remove(first.len() - 1) =~= first.drop_last());
        assert(first.drop_last().to_multiset() =~= first.to_multiset().remove(last));
        assert(second.remove(k).to_multiset() =~= second.to_multiset().remove(last));
        lemma_listed_same_children(first.drop_last(), second.remove(k), metadata_dir);
        lemma_listed_without(first, metadata_dir, first.len() - 1);
        lemma_listed_without(second, metadata_dir, k);
    }
}

/// The order in which a directory was listed does not show in its tree:
/// two listings of the same children give the same entries in the same
/// order, and so the same tree id, or both give no tree.
pub proof fn lemma_listing_order_irrelevant(
    first: Seq<FsEntry>,
    second: Seq<FsEntry>,
    metadata_dir: Seq<u8>,
)
    requires
        first.to_multiset() == second.to_multiset(),
    ensures
        tree_entries(first, metadata_dir) == tree_entries(second, metadata_dir),
        snapshot_spec(first, metadata_dir) is None <==> snapshot_spec(second, metadata_dir) is None,
        snapshot_spec(first, metadata_dir) is Some ==> snapshot_spec(first, metadata_dir).unwrap().0
            == snapshot_spec(second, metadata_dir).unwrap().0,
{
    lemma_listed_same_children(first, second, metadata_dir);
    lemma_tree_entries_sorted_listing(first, metadata_dir);
    lemma_tree_entries_sorted_listing(second, metadata_dir);
    lemma_sort_ignores_order(
        listed_entries(first, metadata_dir),
        listed_entries(second, metadata_dir),
    );
}

/// What the root of a working directory must give: the snapshot that
/// building gave, `EmptyTree` if building gave none, and the error of
/// building if it failed.
pub open spec fn root_spec(built: Result<Option<Snapshot>, Error>) -> Result<Snapshot, Error> {
    match built {
        Ok(Some(snapshot)) => Ok(snapshot),
        Ok(None) => Err(Error::EmptyTree),
        Err(e) => Err(e),
    }
}

/// Whether `name` can stand in a tree.
pub fn is_valid_name(name: &[u8]) -> (ok: bool)
    ensures
        ok == valid_name(name@),
{
    proof {
        lemma_first_index(name@, NUL);
        lemma_first_index(name@, SEPARATOR);
    }
    name.len() > 0 && find_byte(name, NUL) == name.len() && find_byte(name, SEPARATOR)
        == name.len()
}

/// Builds the objects of a directory. Subdirectories named as the store's
/// own metadata directory are left out, wherever they stand.
pub struct TreeBuilder {
    pub metadata_dir: Vec<u8>,
}

impl TreeBuilder {
    /// A builder that leaves out directories named `metadata_dir`.
    pub fn new(metadata_dir: Vec<u8>) -> (builder: TreeBuilder)
        ensures
            builder.metadata_dir@ == metadata_dir@,
    {
        TreeBuilder { metadata_dir }
    }

    /// Whether every name that building `children` would look at is valid.
    pub fn check_names(&self, children: &Vec<FsEntry>) -> (ok: bool)
        ensures
            ok == names_valid(children@, self.metadata_dir@),
        decreases children,
    {
        let n = children.len();
        let mut i: usize = 0;
        assert(children@.take(0) =~= Seq::<FsEntry>::empty());
        while i < n
            invariant
                n == children@.len(),
                0 <= i <= n,
                names_valid(children@.take(i as int), self.metadata_dir@),
            decreases n - i,
        {
            let child = &children[i];
            proof {
                assert(children@.take(i + 1).drop_last() =~= children@.take(i as int));
                assert(children@.take(i + 1).last() == children@[i as int]);
                lemma_names_valid_prefix(children@, self.metadata_dir@, i + 1);
            }
            let ok = match &child.node {
                FsNode::Directory { children: sub } => bytes_eq(
                    child.name.as_slice(),
                    self.metadata_dir.as_slice(),
                ) || (is_valid_name(child.name.as_slice()) && self.check_names(sub)),
                _ => is_valid_name(child.name.as_slice()),
            };
            if !ok {
                return false;
            }
            i += 1;
        }
        assert(children@.take(n as int) =~= children@);
        true
    }

    /// Makes the objects of the children of one directory, appends them to
    /// `objects`, and returns the entries of the directory's tree.
    pub fn collect(&self, children: &Vec<FsEntry>, objects: &mut Vec<Object>) -> (entries: Vec<
        TreeEntry,
    >)
        ensures
            views(entries@) == tree_entries(children@, self.metadata_dir@),
            object_views(final(objects)@) == object_views(old(objects)@) + child_objects(
                children@,
                self.metadata_dir@,
            ),
            names_valid(children@, self.metadata_dir@) ==> all_wf(views(entries@)),
        decreases children,
    {
        let mut entries: Vec<TreeEntry> = Vec::new();
        let n = children.len();
        let ghost md = self.metadata_dir@;
        let ghost before = object_views(objects@);
        let mut i: usize = 0;
        proof {
            assert(children@.take(0) =~= Seq::<FsEntry>::empty());
            assert(views(entries@) =~= Seq::<TreeEntryView>::empty());
            assert(before + Seq::<ObjectView>::empty() =~= before);
        }
        while i < n
            invariant
                n == children@.len(),
                0 <= i <= n,
                md == self.metadata_dir@,
                views(entries@) == tree_entries(children@.take(i as int), md),
                object_views(objects@) == before + child_objects(children@.take(i as int), md),
                names_valid(children@.take(i as int), md) ==> all_wf(views(entries@)),
            decreases n - i,
        {
            let child = &children[i];
            let ghost so_far = child_objects(children@.take(i as int), md);
            let ghost sorted = views(entries@);
            proof {
                assert(children@.take(i + 1).drop_last() =~= children@.take(i as int));
                assert(children@.take(i + 1).last() == children@[i as int]);
                lemma_mode_text(EntryMode::Regular);
                lemma_mode_text(EntryMode::Executable);
                lemma_mode_text(EntryMode::Symlink);
                lemma_mode_text(EntryMode::Directory);
            }
            match &child.node {
                FsNode::File { executable, contents } => {
                    let id = object_id(Kind::Blob, contents.as_slice());
                    let blob = Object::new(Kind::Blob, slice_to_vec(contents.as_slice()));
                    proof {
                        lemma_push_view(objects@, blob);
                        assert((before + so_far).push(blob@) =~= before + so_far.push(blob@));
                    }
                    objects.push(blob);
                    let entry = TreeEntry {
                        mode: EntryMode::for_file(*executable).to_bytes(),
                        name: slice_to_vec(child.name.as_slice()),
                        id,
                    };
                    proof {
                        if names_valid(children@.take(i + 1), md) {
                            lemma_sorted_insert_wf(sorted, entry@);
                        }
                    }
                    insert_sorted(&mut entries, entry);
                },
                FsNode::Symlink { target } => {
                    let id = object_id(Kind::Blob, target.as_slice());
                    let blob = Object::new(Kind::Blob, slice_to_vec(target.as_slice()));
                    proof {
                        lemma_push_view(objects@, blob);
                        assert((before + so_far).push(blob@) =~= before + so_far.push(blob@));
                    }
                    objects.push(blob);
                    let entry = TreeEntry {
                        mode: EntryMode::Symlink.to_bytes(),
                        name: slice_to_vec(child.name.as_slice()),
                        id,
                    };
                    proof {
                        if names_valid(children@.take(i + 1), md) {
                            lemma_sorted_insert_wf(sorted, entry@);
                        }
                    }
                    insert_sorted(&mut entries, entry);
                },
                FsNode::Directory { children: sub } => {
                    if !bytes_eq(child.name.as_slice(), self.metadata_dir.as_slice()) {
                        let ghost mark = object_views(objects@);
                        let inner = self.collect(sub, objects);
                        if inner.len() > 0 {
                            let payload = serialize_entries(&inner);
                            let id = object_id(Kind::Tree, payload.as_slice());
                            let tree = Object::new(Kind::Tree, payload);
                            proof {
                                lemma_push_view(objects@, tree);
                                let below = child_objects(sub@, md);
                                assert(((before + so_far) + below).push(tree@) =~= before + (so_far
                                    + below).push(tree@));
                            }
                            objects.push(tree);
                            let entry = TreeEntry {
                                mode: EntryMode::Directory.to_bytes(),
                                name: slice_to_vec(child.name.as_slice()),
                                id,
                            };
                            proof {
                                if names_valid(children@.take(i + 1), md) {
                                    lemma_sorted_insert_wf(sorted, entry@);
                                }
                            }
                            insert_sorted(&mut entries, entry);
                        } else {
                            proof {
                                lemma_hollow_gives_nothing(sub@, md);
                                assert(mark + child_objects(sub@, md) =~= mark);
                            }
                        }
                    }
                },
            }
            i += 1;
        }
        assert(children@.take(n as int) =~= children@);
        entries
    }

    /// Builds the tree of the root of a working directory, which must have
    /// one.
    ///
    /// - `Err(Format)` exactly when a name is not valid.
    /// - `Err(EmptyTree)` exactly when the names are valid and the
    ///   directory is hollow.
    /// - Otherwise the snapshot that [`TreeBuilder::build`] gives.
    pub fn build_root(&self, children: &Vec<FsEntry>) -> (r: Result<Snapshot, Error>)
        ensures
            !names_valid(children@, self.metadata_dir@) ==> (r matches Err(e) && e
                == Error::Format),
            names_valid(children@, self.metadata_dir@) ==> match snapshot_spec(
                children@,
                self.metadata_dir@,
            ) {
                None => r matches Err(e) && e == Error::EmptyTree,
                Some((root, objects)) => r matches Ok(snapshot) && snapshot.root@ == root
                    && object_views(snapshot.objects@) == objects,
            },
            names_valid(children@, self.metadata_dir@) ==> ((r matches Err(e) && e
                == Error::EmptyTree) <==> is_hollow(children@, self.metadata_dir@)),
    {
        require_root(self.build(children))
    }

    /// Builds the tree of a directory and everything below it.
    ///
    /// - `Err(Format)` exactly when a name is not valid: empty, or holding
    ///   a NUL or a path separator.
    /// - `Ok(None)` exactly when the names are valid and the directory is
    ///   hollow: there is nothing to store, and no tree.
    /// - Otherwise the id of the directory's tree and all objects to store,
    ///   the root tree last. The payload of that tree reads back as the
    ///   entries it was written from.
    pub fn build(&self, children: &Vec<FsEntry>) -> (r: Result<Option<Snapshot>, Error>)
        ensures
            !names_valid(children@, self.metadata_dir@) ==> (r matches Err(e) && e
                == Error::Format),
            names_valid(children@, self.metadata_dir@) ==> match snapshot_spec(
                children@,
                self.metadata_dir@,
            ) {
                None => r matches Ok(None),
                Some((root, objects)) => r matches Ok(Some(snapshot)) && snapshot.root@ == root
                    && object_views(snapshot.objects@) == objects,
            },
            names_valid(children@, self.metadata_dir@) ==> (r matches Ok(None) <==> is_hollow(
                children@,
                self.metadata_dir@,
            )),
            r matches Ok(Some(snapshot)) ==> parse_tree(
                tree_payload(tree_entries(children@, self.metadata_dir@)),
            ) == Some(tree_entries(children@, self.metadata_dir@)),
    {
        if !self.check_names(children) {
            return Err(Error::Format);
        }
        proof {
            lemma_hollow_gives_nothing(children@, self.metadata_dir@);
        }
        let mut objects: Vec<Object> = Vec::new();
        assert(object_views(objects@) =~= Seq::<ObjectView>::empty());
        let entries = self.collect(children, &mut objects);
        if entries.len() == 0 {
            return Ok(None);
        }
        let payload = serialize_entries(&entries);
        let root = object_id(Kind::Tree, payload.as_slice());
        let tree = Object::new(Kind::Tree, payload);
        proof {
            lemma_tree_roundtrip(views(entries@));
            let below = child_objects(children@, self.metadata_dir@);
            assert(Seq::<ObjectView>::empty() + below =~= below);
            lemma_push_view(objects@, tree);
        }
        objects.push(tree);
        Ok(Some(Snapshot { root, objects }))
    }
}

/// Insists on a tree. A commit must point to a tree, so where building
/// gave none the root has nothing to offer, and that is an error:
/// `EmptyTree`. A snapshot and an error of building are passed on as they
/// are.
pub fn require_root(built: Result<Option<Snapshot>, Error>) -> (r: Result<Snapshot, Error>)
    ensures
        r == root_spec(built),
{
    match built {
        Ok(Some(snapshot)) => Ok(snapshot),
        Ok(None) => Err(Error::EmptyTree),
        Err(e) => Err(e),
    }
}

/// The views of a sequence with one more object.
pub proof fn lemma_push_view(objects: Seq<Object>, object: Object)
    ensures
        object_views(objects.push(object)) == object_views(objects).push(object@),
{
    assert(object_views(objects.push(object)) =~= object_views(objects).push(object@));
}

/// The names of a prefix of valid children are valid.
pub proof fn lemma_names_valid_prefix(children: Seq<FsEntry>, metadata_dir: Seq<u8>, k: int)
    requires
        0 <= k <= children.len(),
    ensures
        names_valid(children, metadata_dir) ==> names_valid(children.take(k), metadata_dir),
    decreases children.len() - k,
{
    if k < children.len() {
        lemma_names_valid_prefix(children, metadata_dir, k + 1);
        assert(children.take(k + 1).drop_last() =~= children.take(k));
    } else {
        assert(children.take(k) =~= children);
    }
}

} // verus!
