//! Replaying a replicated revision on a destination repository: the repository
//! operations its tree changes ask for, with the content its objects carry; and the
//! text of the replication log that svnsync-style tools read.
use vstd::prelude::*;
use crate::object::{ObjectId, ObjectKind, TreeChange, Commit};
use crate::text::{decimal, u64_to_string, to_owned, concat2};
use crate::dump_writer::{svn_date, format_svn_date};

verus! {

/// A repository operation of a replay.
#[derive(Debug, Clone)]
pub enum ReplayOp {
    /// Write a file, executable or not.
    AddFile { path: String, content: Vec<u8>, executable: bool },
    /// Create a directory.
    MakeDir { path: String },
    /// Delete a path.
    Delete { path: String },
}

/// An operation as plain values: its kind, the path, the content, executable.
pub open spec fn op_view(o: ReplayOp) -> (nat, Seq<char>, Seq<u8>, bool) {
    match o {
        ReplayOp::AddFile { path, content, executable } => (0, path@, content@, executable),
        ReplayOp::MakeDir { path } => (1, path@, Seq::empty(), false),
        ReplayOp::Delete { path } => (2, path@, Seq::empty(), false),
    }
}

/// The plain values of operations.
pub open spec fn ops_view(s: Seq<ReplayOp>) -> Seq<(nat, Seq<char>, Seq<u8>, bool)> {
    s.map_values(|o: ReplayOp| op_view(o))
}

/// The plain values of objects: id and content.
pub open spec fn objects_view(s: Seq<(ObjectId, Vec<u8>)>) -> Seq<(Seq<u8>, Seq<u8>)> {
    s.map_values(|o: (ObjectId, Vec<u8>)| (o.0@, o.1@))
}

/// The content of the first object of `objs` with id `id`.
pub open spec fn first_object(objs: Seq<(Seq<u8>, Seq<u8>)>, id: Seq<u8>) -> Option<Seq<u8>>
    decreases objs.len(),
{
    if objs.len() == 0 {
        None
    } else if objs[0].0 == id {
        Some(objs[0].1)
    } else {
        first_object(objs.drop_first(), id)
    }
}

/// The operations of one change: a file is written with the content of its object
/// (mode `0o755` makes it executable); where its object is not among the revision's,
/// it is written empty when `missing_as_empty`, else skipped; a directory is made; a
/// deletion deletes.
pub open spec fn change_ops(c: TreeChange, objs: Seq<(Seq<u8>, Seq<u8>)>, missing_as_empty: bool) -> Seq<(nat, Seq<char>, Seq<u8>, bool)> {
    match c {
        TreeChange::Upsert { path, entry } => if entry.kind == ObjectKind::Blob {
            match first_object(objs, entry.id@) {
                Some(d) => seq![(0nat, path@, d, entry.mode == 0o755)],
                None => if missing_as_empty {
                    seq![(0nat, path@, Seq::<u8>::empty(), entry.mode == 0o755)]
                } else {
                    Seq::empty()
                },
            }
        } else {
            seq![(1nat, path@, Seq::<u8>::empty(), false)]
        },
        TreeChange::Delete { path } => seq![(2nat, path@, Seq::<u8>::empty(), false)],
    }
}

/// The operations of the changes `cs`, in order.
pub open spec fn changes_ops(cs: Seq<TreeChange>, objs: Seq<(Seq<u8>, Seq<u8>)>, missing_as_empty: bool) -> Seq<(nat, Seq<char>, Seq<u8>, bool)>
    decreases cs.len(),
{
    if cs.len() == 0 {
        Seq::empty()
    } else {
        changes_ops(cs.drop_last(), objs, missing_as_empty) + change_ops(cs.last(), objs, missing_as_empty)
    }
}

/// The content of the first object with id `id`.
fn find_object(objects: &Vec<(ObjectId, Vec<u8>)>, id: &ObjectId) -> (r: Option<Vec<u8>>)
    ensures
        match first_object(objects_view(objects@), id@) {
            Some(d) => r matches Some(x) && x@ == d,
            None => r is None,
        },
{
    let ghost ov = objects_view(objects@);
    let mut i: usize = 0;
    assert(ov.subrange(0, ov.len() as int) =~= ov);
    while i < objects.len()
        invariant
            i <= objects@.len(),
            ov == objects_view(objects@),
            first_object(ov.subrange(i as int, ov.len() as int), id@) == first_object(ov, id@),
        decreases objects@.len() - i,
    {
        let ghost rest = ov.subrange(i as int, ov.len() as int);
        assert(rest[0] == ov[i as int]);
        assert(rest.drop_first() =~= ov.subrange(i + 1, ov.len() as int));
        if objects[i].0 == *id {
            return Some(crate::codec::copy_range(objects[i].1.as_slice(), 0, objects[i].1.len()));
        }
        i = i + 1;
    }
    None
}

/// The operations that replay the changes `changes` with the revision's objects.
pub fn replay_ops(changes: &Vec<TreeChange>, objects: &Vec<(ObjectId, Vec<u8>)>, missing_as_empty: bool) -> (ops: Vec<ReplayOp>)
    ensures
        ops_view(ops@) == changes_ops(changes@, objects_view(objects@), missing_as_empty),
{
    let ghost ov = objects_view(objects@);
    let mut ops: Vec<ReplayOp> = Vec::new();
    let mut i: usize = 0;
    assert(ops_view(ops@) =~= changes_ops(changes@.subrange(0, 0), ov, missing_as_empty));
    while i < changes.len()
        invariant
            i <= changes@.len(),
            ov == objects_view(objects@),
            ops_view(ops@) == changes_ops(changes@.subrange(0, i as int), ov, missing_as_empty),
        decreases changes@.len() - i,
    {
        let ghost before = ops_view(ops@);
        assert(changes@.subrange(0, i + 1).drop_last() =~= changes@.subrange(0, i as int));
        match &changes[i] {
            TreeChange::Upsert { path, entry } => {
                if entry.kind == ObjectKind::Blob {
                    let executable = entry.mode == 0o755;
                    match find_object(objects, &entry.id) {
                        Some(d) => {
                            ops.push(ReplayOp::AddFile { path: to_owned(path.as_str()), content: d, executable });
                        },
                        None => {
                            if missing_as_empty {
                                ops.push(ReplayOp::AddFile { path: to_owned(path.as_str()), content: Vec::new(), executable });
                            }
                        },
                    }
                } else {
                    ops.push(ReplayOp::MakeDir { path: to_owned(path.as_str()) });
                }
            },
            TreeChange::Delete { path } => {
                ops.push(ReplayOp::Delete { path: to_owned(path.as_str()) });
            },
        }
        assert(ops_view(ops@) =~= before + change_ops(changes@[i as int], ov, missing_as_empty));
        i = i + 1;
    }
    assert(changes@.subrange(0, i as int) =~= changes@);
    ops
}

// ─────────────────────────── replication log ───────────────────────────

/// The change lines of a replication log entry.
pub open spec fn change_lines(cs: Seq<TreeChange>) -> Seq<char>
    decreases cs.len(),
{
    if cs.len() == 0 {
        Seq::empty()
    } else {
        change_lines(cs.drop_last()) + match cs.last() {
            TreeChange::Upsert { path, entry } => "  A "@ + path@ + " ("@ + (if entry.kind == ObjectKind::Blob {
                "file"@
            } else {
                "dir"@
            }) + ")\n"@,
            TreeChange::Delete { path } => "  D "@ + path@ + "\n"@,
        }
    }
}

/// The replication log entry of revision `rev`: its commit's author, date and log
/// message, and its changes where its delta tree could be read.
pub open spec fn repl_log_entry(rev: u64, commit: Commit, changes: Option<Seq<TreeChange>>) -> Seq<char> {
    "---\nRevision: "@ + decimal(rev as nat) + "\nAuthor: "@ + commit.author@ + "\nDate: "@ + svn_date(commit.timestamp)
        + "\nLog: "@ + commit.message@ + "\n"@ + match changes {
        Some(cs) => "Changes: "@ + decimal(cs.len()) + "\n"@ + change_lines(cs),
        None => Seq::empty(),
    }
}

/// Appends the replication log entry of revision `rev`.
pub fn push_repl_log_entry(out: &mut String, rev: u64, commit: &Commit, changes: &Option<Vec<TreeChange>>)
    ensures
        final(out)@ == old(out)@ + repl_log_entry(rev, *commit, match changes {
            Some(cs) => Some(cs@),
            None => None,
        }),
{
    out.append("---\nRevision: ");
    let r = u64_to_string(rev);
    out.append(r.as_str());
    out.append("\nAuthor: ");
    out.append(commit.author.as_str());
    out.append("\nDate: ");
    let d = format_svn_date(commit.timestamp);
    out.append(d.as_str());
    out.append("\nLog: ");
    out.append(commit.message.as_str());
    out.append("\n");
    let ghost head = out@;
    match changes {
        Some(cs) => {
            out.append("Changes: ");
            let n = u64_to_string(cs.len() as u64);
            out.append(n.as_str());
            out.append("\n");
            let ghost start = out@;
            let mut i: usize = 0;
            while i < cs.len()
                invariant
                    i <= cs@.len(),
                    out@ == start + change_lines(cs@.subrange(0, i as int)),
                decreases cs@.len() - i,
            {
                assert(cs@.subrange(0, i + 1).drop_last() =~= cs@.subrange(0, i as int));
                match &cs[i] {
                    TreeChange::Upsert { path, entry } => {
                        out.append("  A ");
                        out.append(path.as_str());
                        out.append(" (");
                        if entry.kind == ObjectKind::Blob {
                            out.append("file");
                        } else {
                            out.append("dir");
                        }
                        out.append(")\n");
                    },
                    TreeChange::Delete { path } => {
                        out.append("  D ");
                        out.append(path.as_str());
                        out.append("\n");
                    },
                }
                i = i + 1;
            }
            assert(cs@.subrange(0, i as int) =~= cs@);
        },
        None => {},
    }
    assert(out@ =~= old(out)@ + repl_log_entry(rev, *commit, match changes {
        Some(cs) => Some(cs@),
        None => None,
    }));
}

} // verus!
