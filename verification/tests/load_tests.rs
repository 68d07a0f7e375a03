use dsvn::dump::parse_dump_file;
use dsvn::load::{plan_client_load, plan_load, LoadStep};

#[test]
fn load_plan_follows_the_dump() {
    let data = b"Revision-number: 1\n\
Prop-content-length: 73\n\
Content-length: 73\n\
\n\
K 10\n\
svn:author\n\
V 3\n\
bob\n\
K 8\n\
svn:date\n\
V 20\n\
2024-01-01T00:00:10Z\n\
PROPS-END\n\
\n\
Node-path: d\n\
Node-kind: dir\n\
Node-action: add\n\
\n\
Node-path: d/f\n\
Node-kind: file\n\
Node-action: add\n\
Text-content-length: 2\n\
\n\
hi\n\
Revision-number: 2\n\
\n\
Node-path: d/f\n\
Node-action: delete\n\
\n\
Node-path: g\n\
Node-action: add\n\
Node-copyfrom-path: d\n\
Node-copyfrom-rev: 1\n\
\n";
    let dump = parse_dump_file(data).unwrap();
    // Each revision's entry comes before its nodes, so each revision with nodes is
    // committed once its nodes are staged.
    let plan = plan_load(&dump.entries);
    match &plan[0] {
        LoadStep::MakeDir { path } => assert_eq!(path, "d"),
        other => panic!("unexpected {:?}", other),
    }
    match &plan[1] {
        LoadStep::AddFile { path, entry } => {
            assert_eq!(path, "d/f");
            assert_eq!(dump.entries[*entry].content, b"hi");
        }
        other => panic!("unexpected {:?}", other),
    }
    match &plan[2] {
        LoadStep::Commit { author, message, timestamp } => {
            assert_eq!(author, "bob");
            assert_eq!(message, "");
            assert_eq!(*timestamp, Some(1704067210));
        }
        other => panic!("unexpected {:?}", other),
    }
    match &plan[3] {
        LoadStep::Delete { path } => assert_eq!(path, "d/f"),
        other => panic!("unexpected {:?}", other),
    }
    match &plan[4] {
        LoadStep::Copy { path, from_path, from_rev } => {
            assert_eq!(path, "g");
            assert_eq!(from_path, "d");
            assert_eq!(*from_rev, 1);
        }
        other => panic!("unexpected {:?}", other),
    }
    match &plan[5] {
        LoadStep::Commit { author, message, timestamp } => {
            assert_eq!(author, "unknown");
            assert_eq!(message, "");
            assert_eq!(*timestamp, None);
        }
        other => panic!("unexpected {:?}", other),
    }
    assert_eq!(plan.len(), 6);
}

#[test]
fn load_plan_defaults() {
    let dump = parse_dump_file(b"Revision-number: 3\n\nNode-path: x\nNode-action: change\n\nRevision-number: 4\n\n").unwrap();
    // Entries: revision 3, node x (of revision 3), revision 4.
    let plan = plan_load(&dump.entries);
    // A change without content does nothing, but revision 3 had a node, so it is
    // committed; revision 4 has none.
    assert_eq!(plan.len(), 1);
    match &plan[0] {
        LoadStep::Commit { author, .. } => assert_eq!(author, "unknown"),
        other => panic!("unexpected {:?}", other),
    }
}

#[test]
fn client_load_plan_commits_at_each_revision() {
    let dump = parse_dump_file(
        b"Revision-number: 1\n\nNode-path: d\nNode-kind: dir\nNode-action: add\nText-content-length: 1\n\nx\nNode-path: e\nNode-kind: dir\nNode-action: add\n\nNode-path: f\nNode-action: delete\n\nNode-path: g\nNode-kind: file\nNode-action: change\nText-content-length: 2\n\nhi\n",
    )
    .unwrap();
    let plan = plan_client_load(&dump.entries);
    let kinds: Vec<String> = plan
        .iter()
        .map(|s| match s {
            LoadStep::Commit { author, .. } => format!("commit {}", author),
            LoadStep::AddFile { path, .. } => format!("add {}", path),
            LoadStep::MakeDir { path } => format!("mkdir {}", path),
            LoadStep::Delete { path } => format!("delete {}", path),
            LoadStep::Copy { path, .. } => format!("copy {}", path),
            LoadStep::Modify { path, .. } => format!("modify {}", path),
        })
        .collect();
    // The revision entry comes before its nodes and commits at once; the directory
    // with content is made, the empty one and the deletion do nothing, and the change
    // with content is written.
    assert_eq!(kinds, vec!["commit unknown", "mkdir d", "modify g"]);
}
