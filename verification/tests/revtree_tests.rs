use dsvn::object::{DeltaTree, ObjectId, ObjectKind, TreeChange, TreeEntry};
use dsvn::revtree::{
    apply_delta_chain, apply_tree_change, apply_tree_changes, commit_hook_files, commit_plan, file_entry,
    list_dir_names,
};
use dsvn::strmap::StrMap;

fn file(path: &str, byte: u8) -> TreeEntry {
    TreeEntry::new(path.to_string(), ObjectId::new([byte; 32]), ObjectKind::Blob, 0o644)
}

fn dir(path: &str) -> TreeEntry {
    TreeEntry::new(path.to_string(), ObjectId::new([0u8; 32]), ObjectKind::Tree, 0o755)
}

fn upsert(e: TreeEntry) -> TreeChange {
    TreeChange::Upsert { path: e.name.clone(), entry: e }
}

fn sample_tree() -> StrMap<TreeEntry> {
    let mut t = StrMap::new();
    for e in [file("a/b.txt", 1), file("a/c/d.txt", 2), file("ab.txt", 3), file("e.txt", 4), dir("a")] {
        t.insert(e.name.clone(), e);
    }
    t
}

#[test]
fn test_delete_removes_path_and_below() {
    let mut t = sample_tree();
    apply_tree_change(&mut t, &TreeChange::Delete { path: "a".to_string() });
    assert!(t.get("a").is_none());
    assert!(t.get("a/b.txt").is_none());
    assert!(t.get("a/c/d.txt").is_none());
    assert!(t.get("ab.txt").is_some());
    assert!(t.get("e.txt").is_some());
    assert_eq!(t.len(), 2);
}

#[test]
fn test_upsert_then_file_entry() {
    let mut t = sample_tree();
    apply_tree_changes(&mut t, &vec![upsert(file("new.txt", 9)), upsert(file("e.txt", 7))]);
    let e = file_entry(&t, "/new.txt").unwrap();
    assert_eq!(e.id, ObjectId::new([9u8; 32]));
    assert_eq!(file_entry(&t, "e.txt").unwrap().id, ObjectId::new([7u8; 32]));
    assert_eq!(file_entry(&t, "/a").unwrap_err(), "Path not found: /a");
    assert_eq!(file_entry(&t, "missing").unwrap_err(), "Path not found: missing");
}

#[test]
fn test_list_dir_names() {
    let t = sample_tree();
    assert_eq!(list_dir_names(&t, "/").unwrap(), vec!["a", "ab.txt", "e.txt"]);
    assert_eq!(list_dir_names(&t, "").unwrap(), vec!["a", "ab.txt", "e.txt"]);
    assert_eq!(list_dir_names(&t, "/a/").unwrap(), vec!["b.txt", "c"]);
    assert_eq!(list_dir_names(&t, "a/c").unwrap(), vec!["d.txt"]);
    assert_eq!(list_dir_names(&t, "zz").unwrap_err(), "Directory not found: zz");
    assert_eq!(list_dir_names(&t, "e.txt").unwrap_err(), "Directory not found: e.txt");
}

#[test]
fn test_listing_after_delete_is_not_found() {
    let mut t = sample_tree();
    apply_tree_change(&mut t, &TreeChange::Delete { path: "a".to_string() });
    assert_eq!(list_dir_names(&t, "a").unwrap_err(), "Directory not found: a");
}

#[test]
fn test_delta_chain_applies_oldest_first() {
    let add = DeltaTree::new(0, vec![upsert(file("x", 1))], 1);
    let del = DeltaTree::new(1, vec![TreeChange::Delete { path: "x".to_string() }], 0);
    let mut t: StrMap<TreeEntry> = StrMap::new();
    apply_delta_chain(&mut t, &vec![del.clone(), add.clone()]);
    assert!(t.get("x").is_none());
    let mut u: StrMap<TreeEntry> = StrMap::new();
    apply_delta_chain(&mut u, &vec![add, del]);
    assert!(u.get("x").is_some());
}

#[test]
fn test_commit_plan() {
    assert_eq!(commit_plan(0), (1, 0, false));
    assert_eq!(commit_plan(1), (2, 1, false));
    assert_eq!(commit_plan(999), (1000, 999, true));
}

#[test]
fn test_commit_hook_files() {
    let files = commit_hook_files(&vec![upsert(file("a.txt", 1)), TreeChange::Delete { path: "b".to_string() }]);
    assert_eq!(files, vec![("A".to_string(), "a.txt".to_string()), ("D".to_string(), "b".to_string())]);
}

#[test]
fn test_chain_reconstructs_each_revision() {
    let d1 = DeltaTree::new(0, vec![upsert(file("a.txt", 1))], 1);
    let d2 = DeltaTree::new(1, vec![upsert(file("b.txt", 2))], 2);
    let d3 = DeltaTree::new(2, vec![upsert(file("c.txt", 3))], 3);
    let mut t1: StrMap<TreeEntry> = StrMap::new();
    apply_delta_chain(&mut t1, &vec![d1.clone()]);
    assert_eq!(t1.len(), 1);
    assert!(t1.get("a.txt").is_some());
    let mut t3: StrMap<TreeEntry> = StrMap::new();
    apply_delta_chain(&mut t3, &vec![d3, d2, d1]);
    assert_eq!(t3.len(), 3);
    assert!(t3.get("a.txt").is_some() && t3.get("b.txt").is_some() && t3.get("c.txt").is_some());
}

#[test]
fn test_chain_with_deletes() {
    let d1 = DeltaTree::new(0, vec![upsert(file("a.txt", 1)), upsert(file("b.txt", 2))], 2);
    let d2 = DeltaTree::new(1, vec![TreeChange::Delete { path: "a.txt".to_string() }], 1);
    let mut t2: StrMap<TreeEntry> = StrMap::new();
    apply_delta_chain(&mut t2, &vec![d2, d1]);
    assert_eq!(t2.len(), 1);
    assert!(t2.get("b.txt").is_some());
    assert!(t2.get("a.txt").is_none());
}
