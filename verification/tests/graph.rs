//! The content-addressed store and the object-graph resolver.

use baskethub::resolve::{
    list_entries, lookup_path, parse_object_id, read_blob, read_blob_hex, resolve_ref, tree_of,
    LookupError, PathError, RefError,
};
use baskethub::store::{Entry, EntryKind, Object, ObjectId, Store, Tree};

fn empty_store() -> Store {
    Store {
        objects: Vec::new(),
        refs: Vec::new(),
    }
}

#[test]
fn bootstrap_end_to_end() {
    let store = Store::bootstrap("alice", 1700000000).unwrap();
    let commit = resolve_ref(&store, "HEAD").unwrap();
    assert_eq!(commit.parent_ids.len(), 0);
    assert_eq!(commit.message.as_deref(), Some("Initial commit"));
    assert_eq!(commit.author, "alice");
    let tree = tree_of(&store, &commit);
    assert_eq!(tree.entries.len(), 0);
    assert_eq!(list_entries(&tree).len(), 0);
}

#[test]
fn unknown_and_non_commit_refs() {
    let mut store = Store::bootstrap("alice", 0).unwrap();
    assert!(matches!(
        resolve_ref(&store, "refs/heads/main"),
        Err(RefError::UnknownRef)
    ));
    // point a ref at a blob: resolving it is NotACommit
    let blob_id = store.write_blob(b"data".to_vec()).unwrap();
    store.set_ref("oddball".to_string(), blob_id);
    assert!(matches!(
        resolve_ref(&store, "oddball"),
        Err(RefError::NotACommit)
    ));
}

#[test]
fn content_addressing_is_idempotent() {
    let mut store = Store::bootstrap("alice", 0).unwrap();
    let before = store.objects.len();
    let id1 = store.write_blob(b"same bytes".to_vec()).unwrap();
    let id2 = store.write_blob(b"same bytes".to_vec()).unwrap();
    assert_eq!(id1.bytes, id2.bytes);
    assert_eq!(store.objects.len(), before + 1);
    let id3 = store.write_blob(b"other bytes".to_vec()).unwrap();
    assert_ne!(id1.bytes, id3.bytes);
}

#[test]
fn blob_ids_are_hash_width_hex() {
    let mut store = empty_store();
    let id = store.write_blob(b"x".to_vec()).unwrap();
    assert_eq!(id.bytes.len(), 20);
    let hex = id.to_hex();
    assert_eq!(hex.len(), 40);
    assert!(hex.chars().all(|c| c.is_ascii_hexdigit() && !c.is_ascii_uppercase()));
    let parsed = parse_object_id(&hex).unwrap();
    assert_eq!(parsed.bytes, id.bytes);
}

#[test]
fn hex_rendering_matches_known_value() {
    let id = ObjectId {
        bytes: vec![
            0x01, 0x02, 0x03, 0x0f, 0x10, 0xab, 0xcd, 0xef, 0x00, 0xff, 0x01, 0x02, 0x03, 0x0f,
            0x10, 0xab, 0xcd, 0xef, 0x00, 0xff,
        ],
    };
    assert_eq!(id.to_hex(), "0102030f10abcdef00ff0102030f10abcdef00ff");
}

fn store_with_nested_tree() -> (Store, ObjectId) {
    // root tree: { "a" -> blob, "dir" -> tree { "b" -> blob } }
    let mut store = empty_store();
    let blob_a = store.write_blob(b"file a".to_vec()).unwrap();
    let blob_b = store.write_blob(b"file b".to_vec()).unwrap();
    let inner = Object::Tree(Tree {
        entries: vec![Entry {
            name: "b".to_string(),
            id: blob_b,
            kind: EntryKind::Blob,
        }],
    });
    let inner_id = store.put_object(inner).unwrap();
    let root = Object::Tree(Tree {
        entries: vec![
            Entry {
                name: "a".to_string(),
                id: blob_a,
                kind: EntryKind::Blob,
            },
            Entry {
                name: "dir".to_string(),
                id: inner_id,
                kind: EntryKind::Tree,
            },
        ],
    });
    let root_id = store.put_object(root).unwrap();
    (store, root_id)
}

#[test]
fn empty_path_is_the_tree_itself() {
    let (store, root_id) = store_with_nested_tree();
    let entry = lookup_path(&store, &root_id, "").unwrap();
    assert_eq!(entry.id.bytes, root_id.bytes);
    assert_eq!(entry.kind, EntryKind::Tree);
    assert_eq!(entry.name, "");
    // separators alone also name the tree itself
    let entry2 = lookup_path(&store, &root_id, "///").unwrap();
    assert_eq!(entry2.id.bytes, root_id.bytes);
}

#[test]
fn paths_descend_and_fail_cleanly() {
    let (store, root_id) = store_with_nested_tree();
    let a = lookup_path(&store, &root_id, "a").unwrap();
    assert_eq!(a.kind, EntryKind::Blob);
    assert_eq!(a.name, "a");
    let b = lookup_path(&store, &root_id, "dir/b").unwrap();
    assert_eq!(b.kind, EntryKind::Blob);
    // a leading separator is tolerated
    let b2 = lookup_path(&store, &root_id, "/dir/b").unwrap();
    assert_eq!(b2.id.bytes, b.id.bytes);
    // descending into a blob fails with PathNotFound, not a crash
    assert!(matches!(
        lookup_path(&store, &root_id, "a/b"),
        Err(PathError::PathNotFound)
    ));
    assert!(matches!(
        lookup_path(&store, &root_id, "missing"),
        Err(PathError::PathNotFound)
    ));
    assert!(matches!(
        lookup_path(&store, &root_id, "dir/missing"),
        Err(PathError::PathNotFound)
    ));
}

#[test]
fn read_blob_distinguishes_failures() {
    let (mut store, root_id) = store_with_nested_tree();
    let blob_id = store.write_blob(b"payload".to_vec()).unwrap();
    assert_eq!(read_blob(&store, &blob_id).unwrap(), b"payload".to_vec());
    assert!(matches!(
        read_blob(&store, &root_id),
        Err(LookupError::NotABlob)
    ));
    let absent = ObjectId { bytes: vec![0u8; 20] };
    assert!(matches!(
        read_blob(&store, &absent),
        Err(LookupError::ObjectNotFound)
    ));
}

#[test]
fn malformed_ids_are_rejected_before_any_store_lookup() {
    // the same verdict on an empty store and on a populated one: the store
    // takes no part in rejecting a malformed id
    let (populated, _) = store_with_nested_tree();
    let empty = empty_store();
    let not_hex_40 = "g".repeat(40);
    for bad in ["", "xyz", "123", not_hex_40.as_str(), "abc123"] {
        assert!(matches!(
            read_blob_hex(&empty, bad),
            Err(LookupError::MalformedId)
        ));
        assert!(matches!(
            read_blob_hex(&populated, bad),
            Err(LookupError::MalformedId)
        ));
        assert!(matches!(
            parse_object_id(bad),
            Err(LookupError::MalformedId)
        ));
    }
    // correct charset, wrong width
    assert!(matches!(
        parse_object_id("abcd"),
        Err(LookupError::MalformedId)
    ));
    assert!(matches!(
        parse_object_id(&"ab".repeat(21)),
        Err(LookupError::MalformedId)
    ));
}

#[test]
fn tree_listing_keeps_storage_order() {
    let (store, root_id) = store_with_nested_tree();
    let entry = lookup_path(&store, &root_id, "").unwrap();
    let obj = store.get_object(&entry.id).unwrap();
    match obj {
        Object::Tree(t) => {
            let listed = list_entries(t);
            assert_eq!(listed.len(), 2);
            assert_eq!(listed[0].name, "a");
            assert_eq!(listed[1].name, "dir");
        }
        _ => panic!("root entry must be a tree"),
    }
}
