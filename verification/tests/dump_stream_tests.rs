use dsvn::dump_format::{NodeAction, NodeKind};
use dsvn::dump_stream::parse_dump_stream;

#[test]
fn test_parse_dump_roundtrip() {
    // Create a minimal dumpfile
    let dump = b"SVN-fs-dump-format-version: 3\n\
\n\
UUID: test-uuid-1234\n\
\n\
Revision-number: 0\n\
Prop-content-length: 10\n\
Content-length: 10\n\
\n\
PROPS-END\n\
\n\
Revision-number: 1\n\
Prop-content-length: 56\n\
Content-length: 56\n\
\n\
K 7\n\
svn:log\n\
V 4\n\
test\n\
K 10\n\
svn:author\n\
V 4\n\
user\n\
PROPS-END\n\
\n\
Node-path: hello.txt\n\
Node-kind: file\n\
Node-action: add\n\
Prop-content-length: 10\n\
Text-content-length: 5\n\
Content-length: 15\n\
\n\
PROPS-END\n\
hello\n";

    let (revs, err) = parse_dump_stream(&dump[..]);
    assert!(err.is_none());
    let revisions: Vec<(u64, String, usize)> =
        revs.iter().map(|rev| (rev.revision_number, rev.author.clone(), rev.nodes.len())).collect();

    assert_eq!(revisions.len(), 2);
    assert_eq!(revisions[0].0, 0); // rev 0
    assert_eq!(revisions[1].0, 1); // rev 1
    assert_eq!(revisions[1].1, "user");
    assert_eq!(revisions[1].2, 1); // 1 node
    assert_eq!(revs[1].message, "test");
    assert_eq!(revs[0].author, "unknown");
    let node = &revs[1].nodes[0];
    assert_eq!(node.path, "hello.txt");
    assert_eq!(node.kind, Some(NodeKind::File));
    assert_eq!(node.action, Some(NodeAction::Add));
    assert_eq!(node.content, b"hello");
}

#[test]
fn stream_errors_keep_delivered_revisions() {
    let data = b"Revision-number: 1\n\nNode-path: a\nNode-action: delete\n\nRevision-number: 2\nProp-content-length: 50\n\nK";
    let (revs, err) = parse_dump_stream(data);
    assert_eq!(revs.len(), 1);
    assert_eq!(revs[0].revision_number, 1);
    assert_eq!(revs[0].nodes.len(), 1);
    assert_eq!(err.as_deref(), Some("failed to fill whole buffer"));
    let (none, err2) = parse_dump_stream(b"Revision-number: 1\n\n\xc3\x28\n");
    assert!(none.is_empty());
    assert_eq!(err2.as_deref(), Some("stream did not contain valid UTF-8"));
}

#[test]
fn stream_text_without_props_and_dates() {
    let data = b"Node-path: early\n\n\
Revision-number: 4\n\
Prop-content-length: 49\n\
\n\
K 8\n\
svn:date\n\
V 20\n\
2024-01-01T00:00:00Z\n\
PROPS-END\n\
Node-path: t\n\
Text-content-length: 3\n\
Content-length: 3\n\
\n\
abc\n";
    let (revs, err) = parse_dump_stream(data);
    assert!(err.is_none());
    assert_eq!(revs.len(), 1);
    assert_eq!(revs[0].timestamp, Some(1704067200));
    assert_eq!(revs[0].nodes.len(), 1);
    assert_eq!(revs[0].nodes[0].content, b"abc");
}

#[test]
fn test_props_read_from_lossy_text() {
    let props: &[u8] = b"K 10\nsvn:author\nV 3\n\xffab\nPROPS-END\n";
    let mut dump: Vec<u8> = Vec::new();
    dump.extend_from_slice(b"SVN-fs-dump-format-version: 2\n\nRevision-number: 1\n");
    dump.extend_from_slice(format!("Prop-content-length: {0}\nContent-length: {0}\n\n", props.len()).as_bytes());
    dump.extend_from_slice(props);
    dump.extend_from_slice(b"\n");
    let (revs, err) = parse_dump_stream(&dump);
    assert!(err.is_none());
    assert_eq!(revs.len(), 1);
    assert_eq!(revs[0].author, "\u{FFFD}");
}
