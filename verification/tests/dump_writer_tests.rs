use dsvn::dump_format::{NodeAction, NodeKind};
use dsvn::dump_handlers::DumpParams;
use dsvn::dump_stream::parse_dump_stream;
use dsvn::dump_writer::{
    generate_dump, node_action_for, push_delete_node, push_dir_node, push_dump_header, push_file_node,
    push_revision_record, write_revision, ChangeInput, RevisionInput,
};
use dsvn::object::{Commit, ObjectId, ObjectKind, TreeChange, TreeEntry};

fn upsert(path: &str, kind: ObjectKind, mode: u32) -> TreeChange {
    TreeChange::Upsert {
        path: path.to_string(),
        entry: TreeEntry::new(path.to_string(), ObjectId::new([7u8; 32]), kind, mode),
    }
}

fn commit(author: &str, message: &str, timestamp: i64) -> Commit {
    Commit::new(ObjectId::new([0u8; 32]), vec![], author.to_string(), message.to_string(), timestamp, 0)
}

#[test]
fn test_push_dump_header_full_and_incremental() {
    let mut b = Vec::new();
    push_dump_header(&mut b, 3, Some("abc"));
    assert_eq!(String::from_utf8(b).unwrap(), "SVN-fs-dump-format-version: 3\n\nUUID: abc\n\n");
    let mut b = Vec::new();
    push_dump_header(&mut b, 2, None);
    assert_eq!(String::from_utf8(b).unwrap(), "SVN-fs-dump-format-version: 2\n\n");
}

#[test]
fn test_push_revision_record() {
    let mut b = Vec::new();
    push_revision_record(&mut b, 5, b"PROPS-END\n");
    assert_eq!(
        String::from_utf8(b).unwrap(),
        "Revision-number: 5\nProp-content-length: 10\nContent-length: 10\n\nPROPS-END\n\n"
    );
}

#[test]
fn test_push_nodes() {
    let mut b = Vec::new();
    push_file_node(&mut b, "a.txt", "add", b"PROPS-END\n", b"hi", Some("md5"), true);
    assert_eq!(
        String::from_utf8(b).unwrap(),
        "Node-path: a.txt\nNode-kind: file\nNode-action: add\nProp-content-length: 10\nText-content-length: 2\nText-content-md5: md5\nContent-length: 12\n\nPROPS-END\nhi\n\n"
    );
    let mut b = Vec::new();
    push_dir_node(&mut b, "d", "change", b"PROPS-END\n", false);
    assert_eq!(
        String::from_utf8(b).unwrap(),
        "Node-path: d\nNode-kind: dir\nNode-action: change\nProp-content-length: 10\nContent-length: 10\n\nPROPS-END\n\n"
    );
    let mut b = Vec::new();
    push_delete_node(&mut b, "gone");
    assert_eq!(String::from_utf8(b).unwrap(), "Node-path: gone\nNode-action: delete\n\n");
}

#[test]
fn test_node_action_for() {
    assert_eq!(node_action_for(1, true), "add");
    assert_eq!(node_action_for(2, false), "add");
    assert_eq!(node_action_for(2, true), "change");
}

fn sample_revisions() -> Vec<RevisionInput> {
    vec![
        RevisionInput { rev: 0, commit: None, changes: vec![] },
        RevisionInput {
            rev: 1,
            commit: Some(commit("alice", "hi", 0)),
            changes: vec![
                ChangeInput { change: upsert("a.txt", ObjectKind::Blob, 0o755), existed_before: false, content: Some(b"hello".to_vec()) },
                ChangeInput { change: upsert("d", ObjectKind::Tree, 0o755), existed_before: false, content: None },
                ChangeInput { change: upsert("missing.txt", ObjectKind::Blob, 0o644), existed_before: false, content: None },
            ],
        },
        RevisionInput {
            rev: 2,
            commit: Some(commit("", "", 0)),
            changes: vec![
                ChangeInput { change: upsert("a.txt", ObjectKind::Blob, 0o644), existed_before: true, content: Some(b"bye".to_vec()) },
                ChangeInput { change: TreeChange::Delete { path: "d".to_string() }, existed_before: true, content: None },
            ],
        },
    ]
}

#[test]
fn test_generate_dump_bytes() {
    let params = DumpParams { start_rev: 0, end_rev: 2, incremental: false, format_version: 3 };
    let out = generate_dump(&params, "uuid-1", &sample_revisions());
    let date = "1970-01-01T00:00:00.000000Z";
    let props1 = format!("K 10\nsvn:author\nV 5\nalice\nK 7\nsvn:log\nV 2\nhi\nK 8\nsvn:date\nV 27\n{}\nPROPS-END\n", date);
    let props2 = format!("K 8\nsvn:date\nV 27\n{}\nPROPS-END\n", date);
    let np = "K 14\nsvn:executable\nV 1\n*\nPROPS-END\n";
    let mut e = String::new();
    e.push_str("SVN-fs-dump-format-version: 3\n\nUUID: uuid-1\n\n");
    e.push_str("Revision-number: 0\nProp-content-length: 10\nContent-length: 10\n\nPROPS-END\n\n");
    e.push_str(&format!("Revision-number: 1\nProp-content-length: {0}\nContent-length: {0}\n\n{1}\n", props1.len(), props1));
    e.push_str(&format!(
        "Node-path: a.txt\nNode-kind: file\nNode-action: add\nProp-content-length: {}\nText-content-length: 5\nText-content-md5: 5d41402abc4b2a76b9719d911017c592\nContent-length: {}\n\n{}hello\n\n",
        np.len(),
        np.len() + 5,
        np
    ));
    e.push_str("Node-path: d\nNode-kind: dir\nNode-action: add\nProp-content-length: 10\nContent-length: 10\n\nPROPS-END\n\n\n");
    e.push_str(&format!("Revision-number: 2\nProp-content-length: {0}\nContent-length: {0}\n\n{1}\n", props2.len(), props2));
    e.push_str("Node-path: a.txt\nNode-kind: file\nNode-action: change\nProp-content-length: 10\nText-content-length: 3\nText-content-md5: bfa99df33b137bc8fb5f5407d7e58da8\nContent-length: 13\n\nPROPS-END\nbye\n\n");
    e.push_str("Node-path: d\nNode-action: delete\n\n");
    assert_eq!(String::from_utf8(out).unwrap(), e);
}

#[test]
fn test_generate_dump_incremental_has_no_uuid() {
    let params = DumpParams { start_rev: 0, end_rev: 0, incremental: true, format_version: 2 };
    let out = generate_dump(&params, "uuid-1", &vec![RevisionInput { rev: 0, commit: None, changes: vec![] }]);
    assert_eq!(
        String::from_utf8(out).unwrap(),
        "SVN-fs-dump-format-version: 2\n\nRevision-number: 0\nProp-content-length: 10\nContent-length: 10\n\nPROPS-END\n\n"
    );
}

#[test]
fn test_generated_dump_reads_back() {
    let params = DumpParams { start_rev: 0, end_rev: 2, incremental: false, format_version: 3 };
    let out = generate_dump(&params, "uuid-1", &sample_revisions());
    let (revs, err) = parse_dump_stream(&out);
    assert!(err.is_none());
    assert_eq!(revs.len(), 3);
    assert_eq!(revs[1].revision_number, 1);
    assert_eq!(revs[1].author, "alice");
    assert_eq!(revs[1].message, "hi");
    assert_eq!(revs[1].nodes.len(), 2);
    assert_eq!(revs[1].nodes[0].path, "a.txt");
    assert_eq!(revs[1].nodes[0].content, b"hello".to_vec());
    assert_eq!(revs[2].nodes.len(), 2);
    assert_eq!(revs[2].nodes[0].content, b"bye".to_vec());
    assert_eq!(revs[0].revision_number, 0);
    assert_eq!(revs[0].author, "unknown");
    assert_eq!(revs[0].timestamp, None);
    assert!(revs[0].nodes.is_empty());
    assert_eq!(revs[1].timestamp, Some(0));
    assert_eq!(revs[1].nodes[0].kind, Some(NodeKind::File));
    assert_eq!(revs[1].nodes[0].action, Some(NodeAction::Add));
    assert_eq!(revs[1].nodes[1].path, "d");
    assert_eq!(revs[1].nodes[1].kind, Some(NodeKind::Dir));
    assert_eq!(revs[2].author, "unknown");
    assert_eq!(revs[2].message, "");
    assert_eq!(revs[2].nodes[0].action, Some(NodeAction::Change));
    assert_eq!(revs[2].nodes[1].kind, None);
    assert_eq!(revs[2].nodes[1].action, Some(NodeAction::Delete));
}

#[test]
fn test_write_revision_cli() {
    let mut b = Vec::new();
    let changes = vec![
        ChangeInput { change: upsert("f", ObjectKind::Blob, 0o755), existed_before: true, content: Some(b"xy".to_vec()) },
        ChangeInput { change: upsert("g", ObjectKind::Blob, 0o644), existed_before: false, content: None },
        ChangeInput { change: upsert("dir", ObjectKind::Tree, 0o755), existed_before: true, content: None },
        ChangeInput { change: TreeChange::Delete { path: "h".to_string() }, existed_before: true, content: None },
    ];
    write_revision(&mut b, 3, &None, &changes);
    assert_eq!(
        String::from_utf8(b).unwrap(),
        "Revision-number: 3\nProp-content-length: 10\nContent-length: 10\n\nPROPS-END\n\n\
Node-path: f\nNode-kind: file\nNode-action: add\nProp-content-length: 10\nText-content-length: 2\nContent-length: 12\n\nPROPS-END\nxy\n\
Node-path: g\nNode-kind: file\nNode-action: add\n\
Node-path: dir\nNode-kind: dir\nNode-action: add\nProp-content-length: 10\nContent-length: 10\n\nPROPS-END\n\n\
Node-path: h\nNode-action: delete\n\n"
    );
}

#[test]
fn test_write_revision_zero_skips_changes() {
    let mut b = Vec::new();
    let changes = vec![ChangeInput { change: TreeChange::Delete { path: "h".to_string() }, existed_before: true, content: None }];
    write_revision(&mut b, 0, &None, &changes);
    assert_eq!(
        String::from_utf8(b).unwrap(),
        "Revision-number: 0\nProp-content-length: 10\nContent-length: 10\n\nPROPS-END\n\n"
    );
}
