use dsvn::object::{Commit, ObjectId, ObjectKind, TreeChange, TreeEntry};
use dsvn::replay::{push_repl_log_entry, replay_ops, ReplayOp};

fn upsert(path: &str, id: u8, kind: ObjectKind, mode: u32) -> TreeChange {
    TreeChange::Upsert {
        path: path.to_string(),
        entry: TreeEntry::new(path.to_string(), ObjectId::new([id; 32]), kind, mode),
    }
}

fn describe(ops: &[ReplayOp]) -> Vec<String> {
    ops.iter()
        .map(|o| match o {
            ReplayOp::AddFile { path, content, executable } => format!("add {} {:?} {}", path, content, executable),
            ReplayOp::MakeDir { path } => format!("mkdir {}", path),
            ReplayOp::Delete { path } => format!("delete {}", path),
        })
        .collect()
}

#[test]
fn test_replay_ops_with_and_without_missing_objects() {
    let changes = vec![
        upsert("a.sh", 1, ObjectKind::Blob, 0o755),
        upsert("b", 2, ObjectKind::Blob, 0o644),
        upsert("dir", 3, ObjectKind::Tree, 0o755),
        TreeChange::Delete { path: "old".to_string() },
    ];
    let objects = vec![(ObjectId::new([1; 32]), b"x".to_vec()), (ObjectId::new([1; 32]), b"y".to_vec())];
    assert_eq!(
        describe(&replay_ops(&changes, &objects, true)),
        vec!["add a.sh [120] true", "add b [] false", "mkdir dir", "delete old"]
    );
    assert_eq!(describe(&replay_ops(&changes, &objects, false)), vec!["add a.sh [120] true", "mkdir dir", "delete old"]);
}

#[test]
fn test_repl_log_entry() {
    let commit = Commit::new(ObjectId::new([0; 32]), vec![], "alice".to_string(), "msg".to_string(), 0, 0);
    let mut out = String::new();
    push_repl_log_entry(&mut out, 3, &commit, &Some(vec![upsert("f", 1, ObjectKind::Blob, 0o644), upsert("d", 2, ObjectKind::Tree, 0o755), TreeChange::Delete { path: "g".to_string() }]));
    assert_eq!(
        out,
        "---\nRevision: 3\nAuthor: alice\nDate: 1970-01-01T00:00:00.000000Z\nLog: msg\nChanges: 3\n  A f (file)\n  A d (dir)\n  D g\n"
    );
    let mut out = String::new();
    push_repl_log_entry(&mut out, 4, &commit, &None);
    assert_eq!(out, "---\nRevision: 4\nAuthor: alice\nDate: 1970-01-01T00:00:00.000000Z\nLog: msg\n");
}
