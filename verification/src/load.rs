//! Loading a parsed dump into a repository: the repository operations that a dump
//! asks for, in order. Revision entries open groups; each node entry is an operation;
//! a group that had nodes and is not revision 0 is committed when the next revision
//! starts and at the end.
use vstd::prelude::*;
use crate::dump_format::{DumpEntry, NodeAction, NodeKind};
use crate::strmap::first_value;
use crate::text::to_owned;

verus! {

/// Seconds since the epoch of an RFC 3339 date, as `chrono` reads it.
pub uninterp spec fn rfc3339_seconds(s: Seq<char>) -> Option<i64>;

/// `chrono::DateTime::parse_from_rfc3339` followed by `timestamp()`: the seconds of
/// the date, `None` where the text is not RFC 3339. Claimed: a function of the text.
#[verifier::external_body]
pub(crate) fn parse_rfc3339(s: &str) -> (r: Option<i64>)
    ensures
        r == rfc3339_seconds(s@),
{
    match chrono::DateTime::parse_from_rfc3339(s) {
        Ok(dt) => Some(dt.timestamp()),
        Err(_) => None,
    }
}

/// A repository operation of a load.
#[derive(Debug, Clone)]
pub enum LoadStep {
    /// Commit what was staged, with author, message and the date's seconds (the
    /// caller takes the current time where there is none).
    Commit { author: String, message: String, timestamp: Option<i64> },
    /// Write the content of entry `entry` as the file `path`.
    AddFile { path: String, entry: usize },
    /// Create the directory `path`.
    MakeDir { path: String },
    /// Delete `path`.
    Delete { path: String },
    /// Copy `path` from `from_path` at `from_rev` (announced only).
    Copy { path: String, from_path: String, from_rev: u64 },
    /// Rewrite the file `path` with the content of entry `entry`.
    Modify { path: String, entry: usize },
}

/// A load operation as plain values.
pub enum StepSpec {
    Commit(Seq<char>, Seq<char>, Option<i64>),
    AddFile(Seq<char>, nat),
    MakeDir(Seq<char>),
    Delete(Seq<char>),
    Copy(Seq<char>, Seq<char>, u64),
    Modify(Seq<char>, nat),
}

/// The plain value of an operation.
pub open spec fn step_view(s: LoadStep) -> StepSpec {
    match s {
        LoadStep::Commit { author, message, timestamp } => StepSpec::Commit(author@, message@, timestamp),
        LoadStep::AddFile { path, entry } => StepSpec::AddFile(path@, entry as nat),
        LoadStep::MakeDir { path } => StepSpec::MakeDir(path@),
        LoadStep::Delete { path } => StepSpec::Delete(path@),
        LoadStep::Copy { path, from_path, from_rev } => StepSpec::Copy(path@, from_path@, from_rev),
        LoadStep::Modify { path, entry } => StepSpec::Modify(path@, entry as nat),
    }
}

/// A revision being loaded: its number, commit data, and whether nodes followed it.
pub struct Group {
    pub rev: u64,
    pub author: Seq<char>,
    pub message: Seq<char>,
    pub timestamp: Option<i64>,
    pub has_nodes: bool,
}

/// The text of an optional property, or `d`.
pub open spec fn text_or(o: Option<String>, d: Seq<char>) -> Seq<char> {
    match o {
        Some(s) => s@,
        None => d,
    }
}

/// The group a revision entry opens: author (`unknown` where missing), log message
/// (empty where missing), and the seconds of its date.
pub open spec fn group_of(e: DumpEntry) -> Group {
    Group {
        rev: e.revision_number,
        author: text_or(first_value(e.props.entries_view(), "svn:author"@, 0), "unknown"@),
        message: text_or(first_value(e.props.entries_view(), "svn:log"@, 0), Seq::empty()),
        timestamp: match first_value(e.props.entries_view(), "svn:date"@, 0) {
            Some(d) => rfc3339_seconds(d@),
            None => None,
        },
        has_nodes: false,
    }
}

/// The commit that closes a group, where it had nodes and is not revision 0.
pub open spec fn close_group(g: Option<Group>) -> Seq<StepSpec> {
    match g {
        Some(g) => if g.has_nodes && g.rev > 0 {
            seq![StepSpec::Commit(g.author, g.message, g.timestamp)]
        } else {
            Seq::empty()
        },
        None => Seq::empty(),
    }
}

/// The operation of the node entry `e`, entry number `i`.
pub open spec fn node_steps(e: DumpEntry, i: nat) -> Seq<StepSpec> {
    let path = e.node_path.unwrap()@;
    match e.node_action {
        Some(NodeAction::Add) | Some(NodeAction::Replace) => if e.copy_from_path is Some && e.copy_from_rev is Some {
            seq![StepSpec::Copy(path, e.copy_from_path.unwrap()@, e.copy_from_rev.unwrap())]
        } else {
            match e.node_kind {
                Some(NodeKind::File) => seq![StepSpec::AddFile(path, i)],
                Some(NodeKind::Dir) => seq![StepSpec::MakeDir(path)],
                None => if e.content@.len() > 0 { seq![StepSpec::AddFile(path, i)] } else { Seq::empty() },
            }
        },
        Some(NodeAction::Delete) => seq![StepSpec::Delete(path)],
        Some(NodeAction::Change) => if e.content@.len() > 0 { seq![StepSpec::Modify(path, i)] } else { Seq::empty() },
        None => Seq::empty(),
    }
}

/// A group that has seen a node.
pub open spec fn with_node(g: Option<Group>) -> Option<Group> {
    match g {
        Some(g) => Some(Group { has_nodes: true, ..g }),
        None => None,
    }
}

/// The operations of the entries from `i` on, with the group `g` open.
pub open spec fn plan_from(es: Seq<DumpEntry>, i: nat, g: Option<Group>) -> Seq<StepSpec>
    decreases es.len() - i,
{
    if i >= es.len() {
        close_group(g)
    } else if es[i as int].node_path is None {
        close_group(g) + plan_from(es, i + 1, Some(group_of(es[i as int])))
    } else {
        node_steps(es[i as int], i) + plan_from(es, i + 1, with_node(g))
    }
}

/// The exec form of an open group.
struct OpenGroup {
    rev: u64,
    author: String,
    message: String,
    timestamp: Option<i64>,
    has_nodes: bool,
}

/// The plain value of an open group.
spec fn open_view(g: Option<OpenGroup>) -> Option<Group> {
    match g {
        Some(g) => Some(Group { rev: g.rev, author: g.author@, message: g.message@, timestamp: g.timestamp, has_nodes: g.has_nodes }),
        None => None,
    }
}

/// Appends the commit that closes `g`, if any.
fn close_into(out: &mut Vec<LoadStep>, g: Option<OpenGroup>)
    ensures
        final(out)@.map_values(|s: LoadStep| step_view(s)) == old(out)@.map_values(|s: LoadStep| step_view(s))
            + close_group(open_view(g)),
{
    let ghost before = out@;
    match g {
        Some(g) => {
            if g.has_nodes && g.rev > 0 {
                out.push(LoadStep::Commit { author: g.author, message: g.message, timestamp: g.timestamp });
            }
        },
        None => {},
    }
    assert(out@.map_values(|s: LoadStep| step_view(s)) =~= before.map_values(|s: LoadStep| step_view(s))
        + close_group(open_view(g)));
}

/// The group a revision entry opens.
fn open_group(e: &DumpEntry) -> (g: OpenGroup)
    ensures
        open_view(Some(g)) == Some(group_of(*e)),
{
    let author = match e.props.get_first("svn:author") {
        Some(a) => a.clone(),
        None => to_owned("unknown"),
    };
    let message = match e.props.get_first("svn:log") {
        Some(m) => m.clone(),
        None => String::new(),
    };
    let timestamp = match e.props.get_first("svn:date") {
        Some(d) => parse_rfc3339(d.as_str()),
        None => None,
    };
    let g = OpenGroup { rev: e.revision_number, author, message, timestamp, has_nodes: false };
    assert(open_view(Some(g)).unwrap().message =~= group_of(*e).message);
    g
}

/// Appends the operation of the node entry `e`, entry number `i`.
fn push_node_steps(out: &mut Vec<LoadStep>, e: &DumpEntry, i: usize)
    requires
        e.node_path is Some,
    ensures
        final(out)@.map_values(|s: LoadStep| step_view(s)) == old(out)@.map_values(|s: LoadStep| step_view(s))
            + node_steps(*e, i as nat),
{
    let ghost before = out@;
    let path = match &e.node_path {
        Some(p) => p.clone(),
        None => String::new(),
    };
    let has_content = e.content.len() > 0;
    match e.node_action {
        Some(NodeAction::Add) | Some(NodeAction::Replace) => {
            match (&e.copy_from_path, e.copy_from_rev) {
                (Some(fp), Some(fr)) => {
                    out.push(LoadStep::Copy { path, from_path: fp.clone(), from_rev: fr });
                },
                _ => {
                    match e.node_kind {
                        Some(NodeKind::File) => out.push(LoadStep::AddFile { path, entry: i }),
                        Some(NodeKind::Dir) => out.push(LoadStep::MakeDir { path }),
                        None => {
                            if has_content {
                                out.push(LoadStep::AddFile { path, entry: i });
                            }
                        },
                    }
                },
            }
        },
        Some(NodeAction::Delete) => out.push(LoadStep::Delete { path }),
        Some(NodeAction::Change) => {
            if has_content {
                out.push(LoadStep::Modify { path, entry: i });
            }
        },
        None => {},
    }
    assert(out@.map_values(|s: LoadStep| step_view(s)) =~= before.map_values(|s: LoadStep| step_view(s))
        + node_steps(*e, i as nat));
}

/// The repository operations that loading the entries `entries` performs, in order.
pub fn plan_load(entries: &Vec<DumpEntry>) -> (r: Vec<LoadStep>)
    ensures
        r@.map_values(|s: LoadStep| step_view(s)) == plan_from(entries@, 0, None),
{
    let mut out: Vec<LoadStep> = Vec::new();
    let mut group: Option<OpenGroup> = None;
    let mut i: usize = 0;
    assert(out@.map_values(|s: LoadStep| step_view(s)) =~= Seq::<StepSpec>::empty());
    while i < entries.len()
        invariant
            i <= entries@.len(),
            out@.map_values(|s: LoadStep| step_view(s)) + plan_from(entries@, i as nat, open_view(group))
                == plan_from(entries@, 0, None),
        decreases entries@.len() - i,
    {
        let e = &entries[i];
        let ghost before = out@.map_values(|s: LoadStep| step_view(s));
        let ghost g0 = open_view(group);
        if e.node_path.is_none() {
            close_into(&mut out, group);
            group = Some(open_group(e));
            proof {
                assert(out@.map_values(|s: LoadStep| step_view(s)) + plan_from(entries@, (i + 1) as nat, open_view(group))
                    =~= before + plan_from(entries@, i as nat, g0));
            }
        } else {
            push_node_steps(&mut out, e, i);
            group = match group {
                Some(g) => Some(OpenGroup { has_nodes: true, ..g }),
                None => None,
            };
            proof {
                assert(open_view(group) == with_node(g0));
                assert(out@.map_values(|s: LoadStep| step_view(s)) + plan_from(entries@, (i + 1) as nat, open_view(group))
                    =~= before + plan_from(entries@, i as nat, g0));
            }
        }
        i = i + 1;
    }
    let ghost before = out@.map_values(|s: LoadStep| step_view(s));
    let ghost g0 = open_view(group);
    close_into(&mut out, group);
    assert(out@.map_values(|s: LoadStep| step_view(s)) =~= before + plan_from(entries@, i as nat, g0));
    out
}

// ─────────────────────────── the client's load ───────────────────────────

/// The operation of a node entry when the client loads a dump: a copy is announced;
/// an addition with content writes a file, or makes a directory where the node is
/// not a file; a change with content rewrites the file; a deletion and anything else
/// do nothing.
pub open spec fn client_node_steps(e: DumpEntry, i: nat) -> Seq<StepSpec> {
    let path = e.node_path.unwrap()@;
    match e.node_action {
        Some(NodeAction::Add) | Some(NodeAction::Replace) => if e.copy_from_path is Some && e.copy_from_rev is Some {
            seq![StepSpec::Copy(path, e.copy_from_path.unwrap()@, e.copy_from_rev.unwrap())]
        } else if e.content@.len() > 0 {
            if e.node_kind == Some(NodeKind::File) {
                seq![StepSpec::AddFile(path, i)]
            } else {
                seq![StepSpec::MakeDir(path)]
            }
        } else {
            Seq::empty()
        },
        Some(NodeAction::Change) => if e.content@.len() > 0 { seq![StepSpec::Modify(path, i)] } else { Seq::empty() },
        _ => Seq::empty(),
    }
}

/// The operations when the client loads the entries from `i` on: each revision
/// entry commits at once (with the author, message and date of its group), each node
/// entry does its operation.
pub open spec fn client_plan_from(es: Seq<DumpEntry>, i: nat) -> Seq<StepSpec>
    decreases es.len() - i,
{
    if i >= es.len() {
        Seq::empty()
    } else if es[i as int].node_path is None {
        let g = group_of(es[i as int]);
        seq![StepSpec::Commit(g.author, g.message, g.timestamp)] + client_plan_from(es, i + 1)
    } else {
        client_node_steps(es[i as int], i) + client_plan_from(es, i + 1)
    }
}

/// The repository operations that the client's load of `entries` performs, in order.
pub fn plan_client_load(entries: &Vec<DumpEntry>) -> (r: Vec<LoadStep>)
    ensures
        r@.map_values(|s: LoadStep| step_view(s)) == client_plan_from(entries@, 0),
{
    let mut out: Vec<LoadStep> = Vec::new();
    let mut i: usize = 0;
    assert(out@.map_values(|s: LoadStep| step_view(s)) =~= Seq::<StepSpec>::empty());
    while i < entries.len()
        invariant
            i <= entries@.len(),
            out@.map_values(|s: LoadStep| step_view(s)) + client_plan_from(entries@, i as nat) == client_plan_from(
                entries@,
                0,
            ),
        decreases entries@.len() - i,
    {
        let e = &entries[i];
        let ghost before = out@.map_values(|s: LoadStep| step_view(s));
        if e.node_path.is_none() {
            let g = open_group(e);
            out.push(LoadStep::Commit { author: g.author, message: g.message, timestamp: g.timestamp });
            proof {
                assert(out@.map_values(|s: LoadStep| step_view(s)) + client_plan_from(entries@, (i + 1) as nat)
                    =~= before + client_plan_from(entries@, i as nat));
            }
        } else {
            let path = match &e.node_path {
                Some(p) => p.clone(),
                None => String::new(),
            };
            let has_content = e.content.len() > 0;
            match e.node_action {
                Some(NodeAction::Add) | Some(NodeAction::Replace) => {
                    match (&e.copy_from_path, e.copy_from_rev) {
                        (Some(fp), Some(fr)) => {
                            out.push(LoadStep::Copy { path, from_path: fp.clone(), from_rev: fr });
                        },
                        _ => {
                            if has_content {
                                match e.node_kind {
                                    Some(NodeKind::File) => out.push(LoadStep::AddFile { path, entry: i }),
                                    _ => out.push(LoadStep::MakeDir { path }),
                                }
                            }
                        },
                    }
                },
                Some(NodeAction::Change) => {
                    if has_content {
                        out.push(LoadStep::Modify { path, entry: i });
                    }
                },
                _ => {},
            }
            proof {
                assert(out@.map_values(|s: LoadStep| step_view(s)) =~= before + client_node_steps(*e, i as nat));
                assert(out@.map_values(|s: LoadStep| step_view(s)) + client_plan_from(entries@, (i + 1) as nat)
                    =~= before + client_plan_from(entries@, i as nat));
            }
        }
        i = i + 1;
    }
    assert(out@.map_values(|s: LoadStep| step_view(s)) =~= out@.map_values(|s: LoadStep| step_view(s))
        + client_plan_from(entries@, i as nat));
    out
}

} // verus!
