use dsvn::object::{Blob, Commit, ObjectId, ObjectKind, Tree, TreeEntry};

#[test]
fn test_object_id_roundtrip() {
    let bytes = [42u8; 32];
    let id = ObjectId::new(bytes);
    let hex = id.to_hex();
    let id2 = ObjectId::from_hex(&hex).unwrap();
    assert_eq!(id, id2);
}

#[test]
fn test_blob_id() {
    let blob = Blob::from_bytes(b"hello world".to_vec());
    let id = blob.id();
    assert_eq!(id.to_hex().len(), 64);
}

#[test]
fn test_tree_insert_remove() {
    let mut tree = Tree::new();
    let entry = TreeEntry::new(
        "test.txt".to_string(),
        ObjectId::new([0u8; 32]),
        ObjectKind::Blob,
        0o644,
    );
    tree.insert(entry.clone());
    assert!(tree.get("test.txt").is_some());
    tree.remove("test.txt");
    assert!(tree.get("test.txt").is_none());
}

#[test]
fn blob_id_is_sha256_of_content() {
    let blob = Blob::from_bytes(b"abc".to_vec());
    assert_eq!(
        blob.id().to_hex(),
        "ba7816bf8f01cfea414140de5dae2223b00361a396177a9cb410ff61f20015ad"
    );
    assert_eq!(blob.size, 3);
    assert!(!blob.executable);
}

#[test]
fn object_id_hex_is_lowercase_and_rejects_bad_lengths() {
    let mut b = [0u8; 32];
    b[0] = 0xAB;
    b[31] = 0x01;
    let id = ObjectId::new(b);
    let h = id.to_hex();
    assert!(h.starts_with("ab"));
    assert!(h.ends_with("01"));
    assert_eq!(ObjectId::from_hex(&h.to_uppercase()).unwrap(), id);
    assert_eq!(ObjectId::from_hex("abc"), Err(dsvn::object::HexError::OddLength));
    assert_eq!(ObjectId::from_hex("abcd"), Err(dsvn::object::HexError::InvalidStringLength));
    assert!(ObjectId::from_hex(&"zz".repeat(32)).is_err());
}

#[test]
fn tree_keeps_names_sorted_and_unique() {
    let mut tree = Tree::new();
    for n in ["b", "a", "c", "a"] {
        tree.insert(TreeEntry::new(n.to_string(), ObjectId::new([1u8; 32]), ObjectKind::Blob, 0o644));
    }
    let names: Vec<&str> = tree.iter().iter().map(|e| e.name.as_str()).collect();
    assert_eq!(names, vec!["a", "b", "c"]);
    assert_eq!(tree.len(), 3);
    let removed = tree.remove("b").unwrap();
    assert_eq!(removed.name, "b");
    assert!(tree.remove("b").is_none());
    assert_eq!(tree.len(), 2);
}

#[test]
fn commit_initial_has_no_parents() {
    let c = Commit::new(ObjectId::new([1u8; 32]), vec![], "a".into(), "m".into(), 5, 0);
    assert!(c.is_initial());
    let c2 = Commit::new(ObjectId::new([1u8; 32]), vec![ObjectId::new([2u8; 32])], "a".into(), "m".into(), 5, 0);
    assert!(!c2.is_initial());
}
