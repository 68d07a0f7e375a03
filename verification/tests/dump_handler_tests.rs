use dsvn::checksum::{md5_compute, md5_hex};
use dsvn::dump_format::{NodeAction, NodeKind};
use dsvn::dump_handlers::{
    build_empty_props, build_node_props, build_rev_props, is_dump_request, is_load_request, load_op,
    loads_revision, revision_load_plan, DumpParams, LoadOp, LoadStats,
};
use dsvn::dump_stream::{ParsedNode, ParsedRevision};

#[test]
fn test_dump_params_default() {
    let p = DumpParams::from_query("", 10);
    assert_eq!(p.start_rev, 0);
    assert_eq!(p.end_rev, 10);
    assert!(!p.incremental);
    assert_eq!(p.format_version, 3);
}

#[test]
fn test_dump_params_range() {
    let p = DumpParams::from_query("r=3:7", 10);
    assert_eq!(p.start_rev, 3);
    assert_eq!(p.end_rev, 7);
}

#[test]
fn test_dump_params_head() {
    let p = DumpParams::from_query("r=5:HEAD", 20);
    assert_eq!(p.start_rev, 5);
    assert_eq!(p.end_rev, 20);
}

#[test]
fn test_dump_params_incremental() {
    let p = DumpParams::from_query("r=3:5&incremental=true", 10);
    assert_eq!(p.start_rev, 3);
    assert_eq!(p.end_rev, 5);
    assert!(p.incremental);
}

#[test]
fn test_dump_params_format() {
    let p = DumpParams::from_query("format=2", 10);
    assert_eq!(p.format_version, 2);
}

#[test]
fn test_dump_params_clamp() {
    let p = DumpParams::from_query("r=0:100", 5);
    assert_eq!(p.end_rev, 5);
}

#[test]
fn test_build_rev_props() {
    let props = build_rev_props("alice", "test commit", "2024-01-01T00:00:00.000000Z");
    let s = String::from_utf8(props).unwrap();
    assert!(s.contains("svn:author"));
    assert!(s.contains("alice"));
    assert!(s.contains("svn:log"));
    assert!(s.contains("test commit"));
    assert!(s.contains("svn:date"));
    assert!(s.contains("PROPS-END"));
}

#[test]
fn test_is_dump_request() {
    assert!(is_dump_request("application/vnd.svn-dumpfile"));
    assert!(is_dump_request("text/html, application/vnd.svn-dumpfile"));
    assert!(!is_dump_request("text/html"));
}

#[test]
fn test_is_load_request() {
    assert!(is_load_request("application/vnd.svn-dumpfile"));
    assert!(!is_load_request("application/json"));
}

#[test]
fn dump_params_swap_and_other_keys() {
    let p = DumpParams::from_query("start=9&end=2&dump-format=2&incremental", 10);
    assert_eq!(p.start_rev, 2);
    assert_eq!(p.end_rev, 9);
    assert_eq!(p.format_version, 2);
    assert!(p.incremental);
    let q = DumpParams::from_query("rev=4&format=x&end=head&incremental=no&zzz=1", 8);
    assert_eq!(q.start_rev, 4);
    assert_eq!(q.end_rev, 8);
    assert_eq!(q.format_version, 3);
    assert!(!q.incremental);
    let r = DumpParams::from_query("revision=abc:def", 6);
    assert_eq!(r.start_rev, 0);
    assert_eq!(r.end_rev, 6);
}

#[test]
fn rev_props_exact_bytes() {
    assert_eq!(
        build_rev_props("bob", "", "d"),
        b"K 10\nsvn:author\nV 3\nbob\nK 8\nsvn:date\nV 1\nd\nPROPS-END\n".to_vec()
    );
    assert_eq!(build_rev_props("", "", ""), b"PROPS-END\n".to_vec());
    // Lengths count bytes, not characters.
    assert_eq!(build_rev_props("é", "", ""), "K 10\nsvn:author\nV 2\né\nPROPS-END\n".as_bytes().to_vec());
}

#[test]
fn node_and_empty_props() {
    assert_eq!(build_empty_props(), b"PROPS-END\n".to_vec());
    assert_eq!(build_node_props(false), b"PROPS-END\n".to_vec());
    assert_eq!(build_node_props(true), b"K 14\nsvn:executable\nV 1\n*\nPROPS-END\n".to_vec());
}

#[test]
fn load_ops_and_stats() {
    assert_eq!(load_op(Some(NodeAction::Add), Some(NodeKind::File), false), LoadOp::AddFile);
    assert_eq!(load_op(Some(NodeAction::Replace), Some(NodeKind::Dir), true), LoadOp::MakeDir);
    assert_eq!(load_op(Some(NodeAction::Add), None, false), LoadOp::Skip);
    assert_eq!(load_op(Some(NodeAction::Add), None, true), LoadOp::AddFile);
    assert_eq!(load_op(Some(NodeAction::Delete), None, false), LoadOp::Delete);
    assert_eq!(load_op(Some(NodeAction::Change), Some(NodeKind::File), false), LoadOp::Skip);
    assert_eq!(load_op(Some(NodeAction::Change), Some(NodeKind::File), true), LoadOp::ModifyFile);
    assert_eq!(load_op(None, Some(NodeKind::File), true), LoadOp::Skip);
    assert!(!loads_revision(0, 3));
    assert!(!loads_revision(2, 0));
    assert!(loads_revision(2, 1));
    let mut st = LoadStats::default();
    assert!(st.record(LoadOp::AddFile));
    assert!(!st.record(LoadOp::Skip));
    assert!(st.record(LoadOp::Delete));
    st.finish_revision(Some(7));
    st.finish_revision(None);
    assert_eq!(st.nodes_processed, 3);
    assert_eq!(st.files_added, 1);
    assert_eq!(st.files_deleted, 1);
    assert_eq!(st.revisions_loaded, 2);
    assert_eq!(st.final_revision, 7);
}

#[test]
fn test_md5_hex_known() {
    // MD5("") = d41d8cd98f00b204e9800998ecf8427e
    assert_eq!(md5_hex(b""), "d41d8cd98f00b204e9800998ecf8427e");
    // MD5("hello") = 5d41402abc4b2a76b9719d911017c592
    assert_eq!(md5_hex(b"hello"), "5d41402abc4b2a76b9719d911017c592");
}

#[test]
fn md5_across_block_boundaries() {
    assert_eq!(md5_hex(&vec![b'a'; 64]), "014842d480b571495a4a0363793f7367");
    assert_eq!(md5_hex(&vec![b'x'; 200]), "30a83621ce5422fbdfdd539777458c78");
    assert_eq!(md5_hex(&vec![b'a'; 55]), "ef1772b6dff9a122358552954ad0df65");
    assert_eq!(md5_hex(&vec![b'a'; 56]), "3b0c8ac703f828b04c6c197006d17218");
    assert_eq!(md5_compute(b"The quick brown fox jumps over the lazy dog"), [158, 16, 125, 157, 55, 43, 182, 130, 107, 216, 29, 53, 66, 164, 25, 214]);
}

#[test]
fn revision_load_plan_composes_node_ops() {
    let node = |path: &str, kind: Option<NodeKind>, action: Option<NodeAction>, content: &[u8]| ParsedNode {
        path: path.to_string(),
        kind,
        action,
        content: content.to_vec(),
    };
    let rev = ParsedRevision {
        revision_number: 3,
        author: "a".to_string(),
        message: String::new(),
        timestamp: None,
        nodes: vec![
            node("f", Some(NodeKind::File), Some(NodeAction::Add), b"x"),
            node("g", None, Some(NodeAction::Change), b""),
            node("d", Some(NodeKind::Dir), Some(NodeAction::Add), b""),
        ],
    };
    let (ops, commit) = revision_load_plan(&rev);
    assert_eq!(ops, vec![LoadOp::AddFile, LoadOp::Skip, LoadOp::MakeDir]);
    assert!(commit);
    let only_skips = ParsedRevision {
        revision_number: 4,
        author: String::new(),
        message: String::new(),
        timestamp: None,
        nodes: vec![node("g", None, Some(NodeAction::Change), b"")],
    };
    assert_eq!(revision_load_plan(&only_skips), (vec![LoadOp::Skip], false));
    let rev0 = ParsedRevision { revision_number: 0, author: String::new(), message: String::new(), timestamp: None, nodes: vec![node("f", Some(NodeKind::File), Some(NodeAction::Add), b"x")] };
    assert_eq!(revision_load_plan(&rev0), (vec![], false));
}
