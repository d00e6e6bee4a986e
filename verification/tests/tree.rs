use gitobj::builder::{is_valid_name, require_root, FsEntry, FsNode, TreeBuilder};
use gitobj::codec::{object_id, Object};
use gitobj::error::Error;
use gitobj::kind::Kind;
use gitobj::object_id::ObjectId;
use gitobj::tree::{
    entry_no_later, insert_sorted, is_executable, parse_entries, serialize_entries, write_entry,
    EntryMode, TreeEntry,
};

fn file(name: &str, contents: &[u8]) -> FsEntry {
    FsEntry {
        name: name.as_bytes().to_vec(),
        node: FsNode::File { executable: false, contents: contents.to_vec() },
    }
}

fn script(name: &str, contents: &[u8]) -> FsEntry {
    FsEntry {
        name: name.as_bytes().to_vec(),
        node: FsNode::File { executable: true, contents: contents.to_vec() },
    }
}

fn link(name: &str, target: &str) -> FsEntry {
    FsEntry {
        name: name.as_bytes().to_vec(),
        node: FsNode::Symlink { target: target.as_bytes().to_vec() },
    }
}

fn dir(name: &str, children: Vec<FsEntry>) -> FsEntry {
    FsEntry { name: name.as_bytes().to_vec(), node: FsNode::Directory { children } }
}

fn builder() -> TreeBuilder {
    TreeBuilder::new(b".git".to_vec())
}

fn entry(mode: &str, name: &str, id: ObjectId) -> TreeEntry {
    TreeEntry { mode: mode.as_bytes().to_vec(), name: name.as_bytes().to_vec(), id }
}

fn names(entries: &[TreeEntry]) -> Vec<String> {
    entries.iter().map(|e| String::from_utf8(e.name.clone()).unwrap()).collect()
}

#[test]
fn modes_as_text() {
    assert_eq!(EntryMode::Regular.to_bytes(), b"100644".to_vec());
    assert_eq!(EntryMode::Executable.to_bytes(), b"100755".to_vec());
    assert_eq!(EntryMode::Symlink.to_bytes(), b"120000".to_vec());
    assert_eq!(EntryMode::Directory.to_bytes(), b"40000".to_vec());
    assert_eq!(EntryMode::for_file(true), EntryMode::Executable);
    assert_eq!(EntryMode::for_file(false), EntryMode::Regular);
}

#[test]
fn entry_is_mode_space_name_nul_raw_id() {
    let id = ObjectId::from_bytes([0xab; 20]);
    let mut out = Vec::new();
    write_entry(&entry("100644", "a b.txt", id), &mut out);
    let mut expected = b"100644 a b.txt\0".to_vec();
    expected.extend([0xab; 20]);
    assert_eq!(out, expected);
}

#[test]
fn entries_are_written_in_given_order() {
    let a = ObjectId::from_bytes([1; 20]);
    let b = ObjectId::from_bytes([2; 20]);
    let payload = serialize_entries(&vec![entry("40000", "z", a), entry("100755", "a", b)]);
    let mut expected = b"40000 z\0".to_vec();
    expected.extend([1; 20]);
    expected.extend(b"100755 a\0");
    expected.extend([2; 20]);
    assert_eq!(payload, expected);
    assert_eq!(serialize_entries(&Vec::new()), Vec::<u8>::new());
}

#[test]
fn written_entries_are_read_back() {
    let entries = vec![
        entry("100644", "a.txt", ObjectId::from_bytes([0; 20])),
        entry("100755", "name with spaces", ObjectId::from_bytes([0x20; 20])),
        entry("120000", "l", ObjectId::from_bytes([0xff; 20])),
        entry("40000", "dir", object_id(Kind::Tree, b"")),
        entry("", "", ObjectId::from_bytes([9; 20])),
    ];
    assert_eq!(parse_entries(&serialize_entries(&entries)), Ok(entries));
    assert_eq!(parse_entries(b""), Ok(Vec::new()));
}

#[test]
fn id_bytes_may_hold_nul_and_space() {
    let mut id = [0u8; 20];
    id[3] = b' ';
    id[7] = 0;
    let entries = vec![
        entry("100644", "first", ObjectId::from_bytes(id)),
        entry("100644", "second", ObjectId::from_bytes(id)),
    ];
    assert_eq!(parse_entries(&serialize_entries(&entries)), Ok(entries));
}

#[test]
fn partial_entry_is_format_error() {
    let whole = serialize_entries(&vec![
        entry("100644", "a.txt", ObjectId::from_bytes([5; 20])),
        entry("40000", "sub", ObjectId::from_bytes([6; 20])),
    ]);
    for cut in 1..whole.len() {
        if cut == 33 {
            continue;
        }
        assert_eq!(parse_entries(&whole[..cut]), Err(Error::Format));
    }
    assert_eq!(parse_entries(&whole[..33]).map(|e| e.len()), Ok(1));
}

#[test]
fn entry_without_space_is_format_error() {
    let mut payload = b"100644a.txt\0".to_vec();
    payload.extend([5; 20]);
    assert_eq!(parse_entries(&payload), Err(Error::Format));
    assert_eq!(parse_entries(b"no nul at all, just text that goes on"), Err(Error::Format));
}

#[test]
fn insert_keeps_names_in_order() {
    let mut entries = Vec::new();
    for name in ["m", "b", "z", "a", "ab", "B", "m"] {
        let id = object_id(Kind::Blob, name.as_bytes());
        insert_sorted(&mut entries, entry("100644", name, id));
    }
    assert_eq!(names(&entries), vec!["B", "a", "ab", "b", "m", "m", "z"]);
}

#[test]
fn equal_names_are_ordered_by_mode_then_id() {
    let listed = vec![
        entry("120000", "same", ObjectId::from_bytes([3; 20])),
        entry("100644", "same", ObjectId::from_bytes([9; 20])),
        entry("100755", "same", ObjectId::from_bytes([2; 20])),
        entry("100644", "same", ObjectId::from_bytes([1; 20])),
        entry("100644", "same", ObjectId::from_bytes([9; 20])),
    ];
    let mut forward = Vec::new();
    for e in listed.iter() {
        insert_sorted(&mut forward, e.clone());
    }
    let mut backward = Vec::new();
    for e in listed.iter().rev() {
        insert_sorted(&mut backward, e.clone());
    }
    assert_eq!(forward, backward);
    let keys: Vec<(Vec<u8>, u8)> = forward.iter().map(|e| (e.mode.clone(), e.id.bytes[0])).collect();
    assert_eq!(
        keys,
        vec![
            (b"100644".to_vec(), 1),
            (b"100644".to_vec(), 9),
            (b"100644".to_vec(), 9),
            (b"100755".to_vec(), 2),
            (b"120000".to_vec(), 3),
        ]
    );
}

#[test]
fn entry_order_goes_by_name_first() {
    let a = entry("40000", "a", ObjectId::from_bytes([9; 20]));
    let b = entry("100644", "b", ObjectId::from_bytes([0; 20]));
    assert!(entry_no_later(&a, &b));
    assert!(!entry_no_later(&b, &a));
    assert!(entry_no_later(&a, &a));
    let a2 = entry("40000", "a", ObjectId::from_bytes([8; 20]));
    assert!(entry_no_later(&a2, &a));
    assert!(!entry_no_later(&a, &a2));
}

#[test]
fn names_that_can_stand_in_a_tree() {
    assert!(is_valid_name(b"a.txt"));
    assert!(is_valid_name(b"with space"));
    assert!(is_valid_name(b".git"));
    assert!(is_valid_name(&[0xff, 0xfe]));
    assert!(!is_valid_name(b""));
    assert!(!is_valid_name(b"a/b"));
    assert!(!is_valid_name(b"/"));
    assert!(!is_valid_name(b"a\0b"));
}

#[test]
fn empty_directory_gives_no_object() {
    assert!(matches!(builder().build(&Vec::new()), Ok(None)));
}

#[test]
fn directories_that_hold_nothing_give_no_object() {
    let children = vec![
        dir("empty", Vec::new()),
        dir("hollow", vec![dir("e1", Vec::new()), dir("e2", vec![dir("e3", Vec::new())])]),
    ];
    assert!(matches!(builder().build(&children), Ok(None)));
}

#[test]
fn metadata_directory_alone_gives_no_object() {
    let children = vec![dir(".git", vec![file("HEAD", b"ref: refs/heads/main\n")])];
    assert!(matches!(builder().build(&children), Ok(None)));
}

#[test]
fn single_file_gives_tree_of_one_entry() {
    let snapshot = builder().build(&vec![file("a.txt", b"hi")]).unwrap().unwrap();
    assert_eq!(snapshot.root.to_hex(), "959186c87f11cedbc03fb0aa728575ce3dbf3335");
    assert_eq!(snapshot.objects.len(), 2);
    assert_eq!(
        snapshot.objects[0],
        Object { kind: Kind::Blob, declared_size: 2, payload: b"hi".to_vec() }
    );
    let tree = &snapshot.objects[1];
    assert_eq!(tree.kind, Kind::Tree);
    assert_eq!(tree.declared_size, 33);
    let entries = parse_entries(&tree.payload).unwrap();
    assert_eq!(entries.len(), 1);
    assert_eq!(entries[0].mode, b"100644".to_vec());
    assert_eq!(entries[0].name, b"a.txt".to_vec());
    assert_eq!(entries[0].id, object_id(Kind::Blob, b"hi"));
    assert_eq!(entries[0].id.to_hex(), "32f95c0d1244a78b2be1bab8de17906fabb2c4a8");
    let mut expected = b"100644 a.txt\0".to_vec();
    expected.extend(object_id(Kind::Blob, b"hi").bytes);
    assert_eq!(tree.payload, expected);
}

fn sample() -> Vec<FsEntry> {
    vec![
        dir("sub", vec![dir("deep", vec![file("d", b"d")]), file("c", b"")]),
        link("link", "a.txt"),
        dir("empty", Vec::new()),
        script("b.sh", b"#!/bin/sh\n"),
        dir(".git", vec![file("config", b"x")]),
        file("a.txt", b"hi"),
        dir("hollow", vec![dir("e1", Vec::new())]),
    ]
}

#[test]
fn nested_directory_gives_nested_trees() {
    let snapshot = builder().build(&sample()).unwrap().unwrap();
    assert_eq!(snapshot.root.to_hex(), "9fec41ee2070182c5c3155ca41832e463ad20a2a");
    let root = snapshot.objects.last().unwrap();
    assert_eq!(root.kind, Kind::Tree);
    let entries = parse_entries(&root.payload).unwrap();
    assert_eq!(names(&entries), vec!["a.txt", "b.sh", "link", "sub"]);
    let modes: Vec<&[u8]> = entries.iter().map(|e| e.mode.as_slice()).collect();
    assert_eq!(modes, vec![&b"100644"[..], &b"100755"[..], &b"120000"[..], &b"40000"[..]]);
    assert_eq!(entries[1].id.to_hex(), "1a2485251c33a70432394c93fb89330ef214bfc9");
    assert_eq!(entries[2].id.to_hex(), "8d14cbf983b3fad683171c9418998d9f68340823");
    assert_eq!(entries[3].id.to_hex(), "4e156300b9e12fe596e6843ac0f5811cd21e86ed");
}

#[test]
fn objects_come_bottom_up() {
    let snapshot = builder().build(&sample()).unwrap().unwrap();
    let ids: Vec<String> =
        snapshot.objects.iter().map(|o| object_id(o.kind, &o.payload).to_hex()).collect();
    assert_eq!(
        ids,
        vec![
            "c59d9b6344f1af00e504ba698129f07a34bbed8d",
            "24d2c94d8af232b15a0978c006bf61ef4479a0a5",
            "e69de29bb2d1d6434b8b29ae775ad8c2e48c5391",
            "4e156300b9e12fe596e6843ac0f5811cd21e86ed",
            "8d14cbf983b3fad683171c9418998d9f68340823",
            "1a2485251c33a70432394c93fb89330ef214bfc9",
            "32f95c0d1244a78b2be1bab8de17906fabb2c4a8",
            "9fec41ee2070182c5c3155ca41832e463ad20a2a",
        ]
    );
    for object in &snapshot.objects {
        assert_eq!(object.declared_size, object.payload.len() as u64);
    }
}

#[test]
fn symlink_is_stored_as_its_target_text() {
    let snapshot = builder().build(&vec![link("l", "../elsewhere")]).unwrap().unwrap();
    assert_eq!(
        snapshot.objects[0],
        Object { kind: Kind::Blob, declared_size: 12, payload: b"../elsewhere".to_vec() }
    );
}

#[test]
fn listing_order_does_not_change_the_tree() {
    let forward = vec![file("a", b"1"), file("b", b"2"), dir("c", vec![file("x", b"3")])];
    let backward = vec![dir("c", vec![file("x", b"3")]), file("b", b"2"), file("a", b"1")];
    let first = builder().build(&forward).unwrap().unwrap();
    let second = builder().build(&backward).unwrap().unwrap();
    assert_eq!(first.root, second.root);
}

#[test]
fn building_twice_gives_the_same_snapshot() {
    let first = builder().build(&sample()).unwrap().unwrap();
    let second = builder().build(&sample()).unwrap().unwrap();
    assert_eq!(first.root, second.root);
    assert_eq!(first.objects, second.objects);
}

#[test]
fn metadata_directory_is_left_out_at_every_level() {
    let with = vec![
        file("a.txt", b"hi"),
        dir(".git", vec![file("HEAD", b"x")]),
        dir("sub", vec![file("f", b"f"), dir(".git", vec![file("HEAD", b"y")])]),
    ];
    let without = vec![file("a.txt", b"hi"), dir("sub", vec![file("f", b"f")])];
    let first = builder().build(&with).unwrap().unwrap();
    let second = builder().build(&without).unwrap().unwrap();
    assert_eq!(first.root, second.root);
    assert_eq!(first.objects, second.objects);
}

#[test]
fn file_named_like_metadata_directory_is_kept() {
    let snapshot = builder().build(&vec![file(".git", b"gitdir: elsewhere\n")]).unwrap().unwrap();
    let entries = parse_entries(&snapshot.objects[1].payload).unwrap();
    assert_eq!(names(&entries), vec![".git"]);
}

#[test]
fn other_metadata_name_is_honoured() {
    let children = vec![dir(".git", vec![file("HEAD", b"x")]), dir(".store", vec![file("k", b"v")])];
    let snapshot = TreeBuilder::new(b".store".to_vec()).build(&children).unwrap().unwrap();
    let entries = parse_entries(&snapshot.objects.last().unwrap().payload).unwrap();
    assert_eq!(names(&entries), vec![".git"]);
}

#[test]
fn invalid_names_are_refused() {
    assert!(matches!(builder().build(&vec![file("a/b", b"x")]), Err(Error::Format)));
    assert!(matches!(builder().build(&vec![file("", b"x")]), Err(Error::Format)));
    assert!(matches!(builder().build(&vec![link("a\0", "t")]), Err(Error::Format)));
    assert!(matches!(
        builder().build(&vec![file("ok", b"x"), dir("d", vec![dir("e", vec![file("\0", b"")])])]),
        Err(Error::Format)
    ));
    assert!(matches!(builder().build(&vec![dir("bad/name", Vec::new())]), Err(Error::Format)));
    assert!(!builder().check_names(&vec![dir("d", vec![file("x/y", b"")])]));
    assert!(builder().check_names(&sample()));
}

#[test]
fn names_inside_metadata_directory_are_not_looked_at() {
    let children = vec![file("a.txt", b"hi"), dir(".git", vec![file("odd/name", b"x")])];
    let snapshot = builder().build(&children).unwrap().unwrap();
    assert_eq!(snapshot.root.to_hex(), "959186c87f11cedbc03fb0aa728575ce3dbf3335");
}

#[test]
fn collect_appends_objects_and_returns_entries() {
    let mut objects = vec![Object::new(Kind::Blob, b"before".to_vec())];
    let entries = builder().collect(&vec![file("b", b"2"), file("a", b"1")], &mut objects);
    assert_eq!(names(&entries), vec!["a", "b"]);
    assert_eq!(objects.len(), 3);
    assert_eq!(objects[0].payload, b"before".to_vec());
    assert_eq!(objects[1].payload, b"2".to_vec());
    assert_eq!(objects[2].payload, b"1".to_vec());
}

#[test]
fn any_execute_bit_makes_a_file_executable() {
    assert!(!is_executable(0o100644));
    assert!(!is_executable(0o644));
    assert!(!is_executable(0o666));
    assert!(!is_executable(0));
    assert!(is_executable(0o100755));
    assert!(is_executable(0o744));
    assert!(is_executable(0o654));
    assert!(is_executable(0o645));
    assert!(is_executable(0o001));
    assert!(is_executable(0o010));
    assert!(is_executable(0o100));
    assert!(!is_executable(0o7000));
    assert!(!is_executable(0o200));
    assert_eq!(EntryMode::for_permissions(0o100644), EntryMode::Regular);
    assert_eq!(EntryMode::for_permissions(0o100700), EntryMode::Executable);
    assert_eq!(EntryMode::for_permissions(0o100611), EntryMode::Executable);
}

#[test]
fn root_without_tree_is_an_error() {
    assert!(matches!(builder().build_root(&Vec::new()), Err(Error::EmptyTree)));
    assert!(matches!(
        builder().build_root(&vec![dir("empty", Vec::new()), dir(".git", vec![file("HEAD", b"x")])]),
        Err(Error::EmptyTree)
    ));
    assert!(matches!(require_root(Ok(None)), Err(Error::EmptyTree)));
}

#[test]
fn root_with_tree_is_its_snapshot() {
    let built = builder().build(&sample()).unwrap().unwrap();
    let root = builder().build_root(&sample()).unwrap();
    assert_eq!(root.root, built.root);
    assert_eq!(root.objects, built.objects);
    assert_eq!(root.root.to_hex(), "9fec41ee2070182c5c3155ca41832e463ad20a2a");
    let passed = require_root(Ok(Some(built))).unwrap();
    assert_eq!(passed.root, root.root);
    assert_eq!(passed.objects, root.objects);
}

#[test]
fn root_passes_on_errors_of_building() {
    assert!(matches!(builder().build_root(&vec![file("a/b", b"x")]), Err(Error::Format)));
    assert!(matches!(require_root(Err(Error::Format)), Err(Error::Format)));
    assert!(matches!(require_root(Err(Error::Io)), Err(Error::Io)));
}
