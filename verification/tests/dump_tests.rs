use dsvn::dump::{parse_dump_file, parse_dump_with};
use dsvn::dump_format::{DumpEntry, DumpFormat, NodeAction, NodeKind};

#[test]
fn test_parse_simple_dump() {
    let dump_data = b"SVN-fs-dump-format-version: 2\n\
UUID: test-uuid-1234\n\
\n\
Revision-number: 0\n\
Prop-content-length: 10\n\
Content-length: 10\n\
\n\
PROPS-END\n\
\n\
Revision-number: 1\n\
Prop-content-length: 56\n\
Content-length: 56\n\
\n\
K 7\n\
svn:log\n\
V 4\n\
test\n\
K 10\n\
svn:author\n\
V 4\n\
user\n\
PROPS-END\n\
\n\
Node-path: test.txt\n\
Node-kind: file\n\
Node-action: add\n\
Prop-content-length: 10\n\
Text-content-length: 5\n\
Content-length: 15\n\
\n\
PROPS-END\n\
hello\n";

    let dump = parse_dump_file(&dump_data[..]).unwrap();

    assert_eq!(dump.format_version, "2");
    assert_eq!(dump.uuid, "test-uuid-1234");
    // Should have: rev0 entry, rev1 entry, node entry
    assert!(dump.entries.len() >= 2);

    // Find the node entry
    let node = dump.entries.iter().find(|e| e.is_node());
    assert!(node.is_some(), "Should have a node entry");
    let node = node.unwrap();
    assert_eq!(node.node_path.as_deref(), Some("test.txt"));
    assert_eq!(node.node_kind, Some(NodeKind::File));
    assert_eq!(node.node_action, Some(NodeAction::Add));
    assert_eq!(node.content, b"hello");
}

#[test]
fn test_dump_format_new() {
    let dump = DumpFormat::new();
    assert_eq!(dump.format_version, "3");
    assert!(!dump.uuid.is_empty());
    assert_eq!(dump.entries.len(), 0);
}

#[test]
fn test_dump_entry_new() {
    let entry = DumpEntry::new(1);
    assert_eq!(entry.revision_number, 1);
    assert!(entry.is_revision());
    assert!(!entry.is_node());
}

#[test]
fn test_node_entry() {
    let mut entry = DumpEntry::new(1);
    entry.node_path = Some("/trunk".to_string());
    entry.node_kind = Some(NodeKind::Dir);
    entry.node_action = Some(NodeAction::Add);

    assert!(!entry.is_revision());
    assert!(entry.is_node());
}

const SIMPLE: &[u8] = b"SVN-fs-dump-format-version: 2\n\
UUID: test-uuid-1234\n\
\n\
Revision-number: 0\n\
Prop-content-length: 10\n\
Content-length: 10\n\
\n\
PROPS-END\n\
\n\
Revision-number: 1\n\
Prop-content-length: 56\n\
Content-length: 56\n\
\n\
K 7\n\
svn:log\n\
V 4\n\
test\n\
K 10\n\
svn:author\n\
V 4\n\
user\n\
PROPS-END\n\
\n\
Node-path: test.txt\n\
Node-kind: file\n\
Node-action: add\n\
Prop-content-length: 10\n\
Text-content-length: 5\n\
Content-length: 15\n\
\n\
PROPS-END\n\
hello\n";

#[test]
fn dump_entries_put_each_revision_before_its_nodes() {
    let dump = parse_dump_file(SIMPLE).unwrap();
    // rev0 entry, rev1 entry, then the node of revision 1.
    assert_eq!(dump.entries.len(), 3);
    assert!(dump.entries[0].is_revision());
    assert_eq!(dump.entries[0].revision_number, 0);
    assert!(dump.entries[1].is_revision());
    assert_eq!(dump.entries[1].revision_number, 1);
    assert_eq!(dump.entries[1].props.get("svn:log").map(|s| s.as_str()), Some("test"));
    assert_eq!(dump.entries[1].props.get("svn:author").map(|s| s.as_str()), Some("user"));
    assert_eq!(dump.entries[1].props.len(), 2);
    assert!(dump.entries[2].is_node());
    assert_eq!(dump.entries[2].revision_number, 1);
}

#[test]
fn dump_headers_replace_the_initial_values() {
    let init = DumpFormat { format_version: "3".to_string(), uuid: "u".to_string(), entries: Vec::new() };
    let d = parse_dump_with(b"Revision-number: 4\n\n", init).unwrap();
    assert_eq!(d.format_version, "3");
    assert_eq!(d.uuid, "u");
    assert_eq!(d.entries.len(), 1);
    assert_eq!(d.entries[0].revision_number, 4);
}

#[test]
fn dump_rejects_invalid_utf8_line() {
    let r = parse_dump_file(b"UUID: a\n\xff\xfe\n");
    assert_eq!(r.err().unwrap(), "stream did not contain valid UTF-8");
}

#[test]
fn dump_rejects_truncated_block() {
    let r = parse_dump_file(b"Revision-number: 1\nProp-content-length: 100\nContent-length: 100\n\nPROPS-END\n");
    assert_eq!(r.err().unwrap(), "failed to fill whole buffer");
}

#[test]
fn dump_node_with_text_only_and_copy_headers() {
    let data = b"Revision-number: 2\n\n\
Node-path: b.txt\n\
Node-kind: file\n\
Node-action: replace\n\
Node-copyfrom-rev: 1\n\
Node-copyfrom-path: a.txt\n\
Text-content-md5: abc\n\
Text-content-length: 3\n\
\n\
xyz\n\
Node-path: gone\n\
Node-action: delete\n\
\n";
    let d = parse_dump_file(data).unwrap();
    assert_eq!(d.entries.len(), 3);
    assert!(d.entries[0].is_revision());
    let n = &d.entries[1];
    assert_eq!(n.revision_number, 2);
    assert_eq!(n.node_action, Some(NodeAction::Replace));
    assert_eq!(n.copy_from_rev, Some(1));
    assert_eq!(n.copy_from_path.as_deref(), Some("a.txt"));
    assert_eq!(n.md5_checksum.as_deref(), Some("abc"));
    assert_eq!(n.content, b"xyz");
    let g = &d.entries[2];
    assert_eq!(g.node_path.as_deref(), Some("gone"));
    assert_eq!(g.node_action, Some(NodeAction::Delete));
    assert_eq!(g.node_kind, None);
}

#[test]
fn dump_unknown_kind_and_bad_numbers() {
    let d = parse_dump_file(b"Revision-number: x\n\nNode-path: p\nNode-kind: link\nNode-copyfrom-rev: y\n\n").unwrap();
    assert!(d.entries[0].is_revision());
    assert_eq!(d.entries[1].node_kind, None);
    assert_eq!(d.entries[1].copy_from_rev, Some(0));
    assert_eq!(d.entries[0].revision_number, 0);
    assert_eq!(d.entries[1].revision_number, 0);
}

#[test]
fn dump_empty_input_gives_fresh_dump() {
    let d = parse_dump_file(b"").unwrap();
    assert_eq!(d.format_version, "3");
    assert_eq!(d.uuid.len(), 36);
    assert_eq!(d.entries.len(), 0);
}
