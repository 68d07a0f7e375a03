//! Writing dump files: the header, revision records and node records, as the dump
//! command and the dump endpoint write them.
use vstd::prelude::*;
use vstd::utf8::{encode_utf8, is_ascii_chars, is_ascii_chars_encode_utf8};
use crate::text::{decimal, u64_to_string};
use crate::codec::push_all;
use crate::checksum::{md5_hex, md5_digest};
use crate::dump_handlers::{
    DumpParams, build_rev_props, build_empty_props, build_node_props, rev_props_text, prop_text,
};
use crate::object::{Commit, ObjectKind, TreeChange, hex_lower};

verus! {

/// Appends the UTF-8 bytes of `s`.
fn push_str(buf: &mut Vec<u8>, s: &str)
    ensures
        final(buf)@ == old(buf)@ + encode_utf8(s@),
{
    let b = s.as_bytes();
    push_all(buf, b);
}

/// Appends the decimal digits of `n`.
fn push_num(buf: &mut Vec<u8>, n: u64)
    ensures
        final(buf)@ == old(buf)@ + encode_utf8(decimal(n as nat)),
{
    let s = u64_to_string(n);
    push_str(buf, s.as_str());
}

/// A `Key: value` line whose value is a number.
pub open spec fn num_line(key: Seq<char>, n: nat) -> Seq<u8> {
    encode_utf8(key + ": "@ + decimal(n) + "\n"@)
}

/// A `Key: value` line.
pub open spec fn text_line(key: Seq<char>, v: Seq<char>) -> Seq<u8> {
    encode_utf8(key + ": "@ + v + "\n"@)
}

/// A newline.
pub open spec fn nl() -> Seq<u8> {
    encode_utf8("\n"@)
}

/// Appends `key: n` and a newline.
fn push_num_line(buf: &mut Vec<u8>, key: &str, n: u64)
    ensures
        final(buf)@ == old(buf)@ + num_line(key@, n as nat),
{
    push_str(buf, key);
    push_str(buf, ": ");
    push_num(buf, n);
    push_str(buf, "\n");
    proof {
        crate::text::lemma_encode_utf8_concat(key@, ": "@);
        crate::text::lemma_encode_utf8_concat(key@ + ": "@, decimal(n as nat));
        crate::text::lemma_encode_utf8_concat(key@ + ": "@ + decimal(n as nat), "\n"@);
    }
    assert(buf@ =~= old(buf)@ + num_line(key@, n as nat));
}

/// Appends `key: v` and a newline.
fn push_text_line(buf: &mut Vec<u8>, key: &str, v: &str)
    ensures
        final(buf)@ == old(buf)@ + text_line(key@, v@),
{
    push_str(buf, key);
    push_str(buf, ": ");
    push_str(buf, v);
    push_str(buf, "\n");
    proof {
        crate::text::lemma_encode_utf8_concat(key@, ": "@);
        crate::text::lemma_encode_utf8_concat(key@ + ": "@, v@);
        crate::text::lemma_encode_utf8_concat(key@ + ": "@ + v@, "\n"@);
    }
    assert(buf@ =~= old(buf)@ + text_line(key@, v@));
}

/// The header of a dump: its format version, and the repository UUID unless the
/// dump is incremental; each followed by an empty line.
pub open spec fn dump_header(format_version: u32, uuid: Option<Seq<char>>) -> Seq<u8> {
    num_line("SVN-fs-dump-format-version"@, format_version as nat) + nl() + match uuid {
        Some(u) => text_line("UUID"@, u) + nl(),
        None => Seq::empty(),
    }
}

/// Appends the header of a dump.
pub fn push_dump_header(buf: &mut Vec<u8>, format_version: u32, uuid: Option<&str>)
    ensures
        final(buf)@ == old(buf)@ + dump_header(format_version, match uuid { Some(u) => Some(u@), None => None }),
{
    push_num_line(buf, "SVN-fs-dump-format-version", format_version as u64);
    push_str(buf, "\n");
    match uuid {
        Some(u) => {
            push_text_line(buf, "UUID", u);
            push_str(buf, "\n");
        },
        None => {},
    }
    assert(buf@ =~= old(buf)@ + dump_header(format_version, match uuid { Some(u) => Some(u@), None => None }));
}

/// A revision record: its number, the property block's length twice (property and
/// content length), an empty line, the block, and a newline.
pub open spec fn revision_record(rev: u64, props: Seq<u8>) -> Seq<u8> {
    num_line("Revision-number"@, rev as nat) + num_line("Prop-content-length"@, props.len()) + num_line(
        "Content-length"@,
        props.len(),
    ) + nl() + props + nl()
}

/// Appends a revision record.
pub fn push_revision_record(buf: &mut Vec<u8>, rev: u64, props: &[u8])
    ensures
        final(buf)@ == old(buf)@ + revision_record(rev, props@),
{
    push_num_line(buf, "Revision-number", rev);
    push_num_line(buf, "Prop-content-length", props.len() as u64);
    push_num_line(buf, "Content-length", props.len() as u64);
    push_str(buf, "\n");
    push_all(buf, props);
    push_str(buf, "\n");
    assert(buf@ =~= old(buf)@ + revision_record(rev, props@));
}

/// The headers of a file node record up to its content length: path, kind `file`,
/// action, the property and text lengths, and the MD5 where given.
pub open spec fn file_node_head(
    path: Seq<char>,
    action: Seq<char>,
    props_len: nat,
    content_len: nat,
    md5: Option<Seq<char>>,
) -> Seq<u8> {
    text_line("Node-path"@, path) + text_line("Node-kind"@, "file"@) + text_line("Node-action"@, action) + num_line(
        "Prop-content-length"@,
        props_len,
    ) + num_line("Text-content-length"@, content_len) + match md5 {
        Some(m) => text_line("Text-content-md5"@, m),
        None => Seq::empty(),
    }
}

/// A file node record: its headers, their lengths' sum as content length, an empty
/// line, the properties, the text, and `tail` (the newlines that end the record).
pub open spec fn file_node_record(
    path: Seq<char>,
    action: Seq<char>,
    props: Seq<u8>,
    content: Seq<u8>,
    md5: Option<Seq<char>>,
    tail: Seq<u8>,
) -> Seq<u8> {
    file_node_head(path, action, props.len(), content.len(), md5) + num_line(
        "Content-length"@,
        props.len() + content.len(),
    ) + nl() + props + content + tail
}

/// Appends the headers of a file node record up to its content length.
fn push_file_node_head(
    buf: &mut Vec<u8>,
    path: &str,
    action: &str,
    props_len: u64,
    content_len: u64,
    md5: Option<&str>,
)
    ensures
        final(buf)@ == old(buf)@ + file_node_head(
            path@,
            action@,
            props_len as nat,
            content_len as nat,
            match md5 { Some(m) => Some(m@), None => None },
        ),
{
    push_text_line(buf, "Node-path", path);
    push_text_line(buf, "Node-kind", "file");
    push_text_line(buf, "Node-action", action);
    push_num_line(buf, "Prop-content-length", props_len);
    push_num_line(buf, "Text-content-length", content_len);
    match md5 {
        Some(m) => push_text_line(buf, "Text-content-md5", m),
        None => {},
    }
    assert(buf@ =~= old(buf)@ + file_node_head(
        path@,
        action@,
        props_len as nat,
        content_len as nat,
        match md5 { Some(m) => Some(m@), None => None },
    ));
}

/// Appends a file node record; `blank_after` adds an empty line after the record's
/// newline.
pub fn push_file_node(
    buf: &mut Vec<u8>,
    path: &str,
    action: &str,
    props: &[u8],
    content: &[u8],
    md5: Option<&str>,
    blank_after: bool,
)
    requires
        props@.len() + content@.len() <= u64::MAX,
    ensures
        final(buf)@ == old(buf)@ + file_node_record(
            path@,
            action@,
            props@,
            content@,
            match md5 { Some(m) => Some(m@), None => None },
            if blank_after { nl() + nl() } else { nl() },
        ),
{
    let plen = props.len() as u64;
    let clen = content.len() as u64;
    push_file_node_head(buf, path, action, plen, clen, md5);
    push_num_line(buf, "Content-length", plen + clen);
    push_body(buf, props, content, blank_after);
    assert(buf@ =~= old(buf)@ + file_node_record(
        path@,
        action@,
        props@,
        content@,
        match md5 { Some(m) => Some(m@), None => None },
        if blank_after { nl() + nl() } else { nl() },
    ));
}

/// Appends an empty line, the properties, the text, a newline, and with
/// `blank_after` one more.
fn push_body(buf: &mut Vec<u8>, props: &[u8], content: &[u8], blank_after: bool)
    ensures
        final(buf)@ == old(buf)@ + nl() + props@ + content@ + if blank_after { nl() + nl() } else { nl() },
{
    push_str(buf, "\n");
    push_all(buf, props);
    push_all(buf, content);
    push_str(buf, "\n");
    if blank_after {
        push_str(buf, "\n");
    }
    assert(buf@ =~= old(buf)@ + nl() + props@ + content@ + if blank_after { nl() + nl() } else { nl() });
}

/// A directory node record: path, kind `dir`, action, the property block's length
/// twice, an empty line, the block, and `tail`.
pub open spec fn dir_node_record(path: Seq<char>, action: Seq<char>, props: Seq<u8>, tail: Seq<u8>) -> Seq<u8> {
    text_line("Node-path"@, path) + text_line("Node-kind"@, "dir"@) + text_line("Node-action"@, action) + num_line(
        "Prop-content-length"@,
        props.len(),
    ) + num_line("Content-length"@, props.len()) + nl() + props + tail
}

/// Appends a directory node record; `blank_after` adds an empty line after the
/// record's newline.
pub fn push_dir_node(buf: &mut Vec<u8>, path: &str, action: &str, props: &[u8], blank_after: bool)
    ensures
        final(buf)@ == old(buf)@ + dir_node_record(path@, action@, props@, if blank_after { nl() + nl() } else { nl() }),
{
    push_text_line(buf, "Node-path", path);
    push_text_line(buf, "Node-kind", "dir");
    push_text_line(buf, "Node-action", action);
    push_num_line(buf, "Prop-content-length", props.len() as u64);
    push_num_line(buf, "Content-length", props.len() as u64);
    push_str(buf, "\n");
    push_all(buf, props);
    push_str(buf, "\n");
    if blank_after {
        push_str(buf, "\n");
    }
    assert(buf@ =~= old(buf)@ + dir_node_record(path@, action@, props@, if blank_after { nl() + nl() } else { nl() }));
}

/// A deletion record: path, action `delete`, an empty line.
pub open spec fn delete_node_record(path: Seq<char>) -> Seq<u8> {
    text_line("Node-path"@, path) + text_line("Node-action"@, "delete"@) + nl()
}

/// Appends a deletion record.
pub fn push_delete_node(buf: &mut Vec<u8>, path: &str)
    ensures
        final(buf)@ == old(buf)@ + delete_node_record(path@),
{
    push_text_line(buf, "Node-path", path);
    push_text_line(buf, "Node-action", "delete");
    push_str(buf, "\n");
    assert(buf@ =~= old(buf)@ + delete_node_record(path@));
}

/// The action a change is dumped with: `change` where the path existed in the
/// previous revision and the revision is after 1, else `add`.
pub open spec fn change_action(rev: u64, existed_before: bool) -> Seq<char> {
    if rev > 1 && existed_before { "change"@ } else { "add"@ }
}

/// The action a change is dumped with.
pub fn node_action_for(rev: u64, existed_before: bool) -> (a: &'static str)
    ensures
        a@ == change_action(rev, existed_before),
{
    if rev > 1 && existed_before { "change" } else { "add" }
}


// ─────────────────────────── whole revisions ───────────────────────────

/// The date text `chrono` gives a timestamp in the `svn:date` format (UTC, with
/// six zero digits of fraction), empty where the timestamp is out of its range.
pub uninterp spec fn svn_date(timestamp: i64) -> Seq<char>;

/// `chrono::DateTime::from_timestamp(ts, 0)` formatted as
/// `%Y-%m-%dT%H:%M:%S.000000Z`, or the empty string where `chrono` has no such
/// date. Claimed: a function of the timestamp alone (the date is in UTC).
#[verifier::external_body]
pub(crate) fn format_svn_date(timestamp: i64) -> (s: String)
    ensures
        s@ == svn_date(timestamp),
{
    chrono::DateTime::from_timestamp(timestamp, 0).map(|dt| dt.format("%Y-%m-%dT%H:%M:%S.000000Z").to_string()).unwrap_or_default()
}

/// The property block of a revision: author, message and date of its commit, or an
/// empty block where the revision has no commit.
pub open spec fn revision_props(commit: Option<Commit>) -> Seq<u8> {
    match commit {
        Some(c) => encode_utf8(rev_props_text(c.author@, c.message@, svn_date(c.timestamp))),
        None => encode_utf8("PROPS-END\n"@),
    }
}

/// The property block of a file node.
pub open spec fn node_props(executable: bool) -> Seq<u8> {
    encode_utf8(if executable { prop_text("svn:executable"@, "*"@) + "PROPS-END\n"@ } else { "PROPS-END\n"@ })
}

proof fn lemma_node_props_len(executable: bool)
    ensures
        node_props(executable).len() <= 64,
{
    reveal_strlit("svn:executable");
    reveal_strlit("*");
    reveal_strlit("PROPS-END\n");
    reveal_strlit("K ");
    reveal_strlit("V ");
    reveal_strlit("\n");
    is_ascii_chars_encode_utf8("svn:executable"@);
    is_ascii_chars_encode_utf8("*"@);
    assert(decimal(14) =~= seq!['1', '4']) by {
        reveal_with_fuel(decimal, 2);
    }
    assert(decimal(1) =~= seq!['1']);
    let t = if executable { prop_text("svn:executable"@, "*"@) + "PROPS-END\n"@ } else { "PROPS-END\n"@ };
    assert(is_ascii_chars(t));
    is_ascii_chars_encode_utf8(t);
}

/// One change of a revision with what the repository gave for it: whether its path
/// existed in the previous revision, and, for a file, its content where it could be
/// read.
#[derive(Debug, Clone)]
pub struct ChangeInput {
    pub change: TreeChange,
    pub existed_before: bool,
    pub content: Option<Vec<u8>>,
}

/// The content of a change is small enough for its MD5.
pub open spec fn hashable(c: ChangeInput) -> bool {
    match c.content {
        Some(d) => d@.len() * 8 <= u64::MAX,
        None => true,
    }
}

/// What a change adds to a dump of the server: a file node with its MD5 and an
/// empty line after it (nothing where its content could not be read), a directory
/// node with an empty line after it, or a deletion.
pub open spec fn change_record(rev: u64, c: ChangeInput) -> Seq<u8> {
    match c.change {
        TreeChange::Upsert { path, entry } => {
            let action = change_action(rev, c.existed_before);
            if entry.kind == ObjectKind::Blob {
                match c.content {
                    Some(d) => file_node_record(
                        path@,
                        action,
                        node_props(entry.mode & 0o111 != 0),
                        d@,
                        Some(hex_lower(md5_digest(d@))),
                        nl() + nl(),
                    ),
                    None => Seq::empty(),
                }
            } else {
                dir_node_record(path@, action, encode_utf8("PROPS-END\n"@), nl() + nl())
            }
        },
        TreeChange::Delete { path } => delete_node_record(path@),
    }
}

/// Appends what a change adds to a dump of the server.
pub fn write_change_to_buf(buf: &mut Vec<u8>, rev: u64, c: &ChangeInput)
    requires
        hashable(*c),
    ensures
        final(buf)@ == old(buf)@ + change_record(rev, *c),
{
    match &c.change {
        TreeChange::Upsert { path, entry } => {
            let action = node_action_for(rev, c.existed_before);
            if entry.kind == ObjectKind::Blob {
                match &c.content {
                    Some(d) => {
                        let executable = entry.mode & 0o111 != 0;
                        let np = build_node_props(executable);
                        proof {
                            lemma_node_props_len(executable);
                        }
                        let md5 = md5_hex(d.as_slice());
                        push_file_node(buf, path.as_str(), action, np.as_slice(), d.as_slice(), Some(md5.as_str()), true);
                    },
                    None => {},
                }
            } else {
                let np = build_empty_props();
                push_dir_node(buf, path.as_str(), action, np.as_slice(), true);
            }
        },
        TreeChange::Delete { path } => {
            push_delete_node(buf, path.as_str());
        },
    }
}

/// What the changes `cs` add to a dump of the server, in order.
pub open spec fn changes_record(rev: u64, cs: Seq<ChangeInput>) -> Seq<u8>
    decreases cs.len(),
{
    if cs.len() == 0 {
        Seq::empty()
    } else {
        changes_record(rev, cs.drop_last()) + change_record(rev, cs.last())
    }
}

/// One revision of a dump with what the repository gave for it: its commit, and the
/// changes of its delta tree (none where there is no delta tree).
#[derive(Debug, Clone)]
pub struct RevisionInput {
    pub rev: u64,
    pub commit: Option<Commit>,
    pub changes: Vec<ChangeInput>,
}

/// The changes of every revision are small enough for their MD5s.
pub open spec fn revisions_hashable(rs: Seq<RevisionInput>) -> bool {
    forall|i: int, j: int| 0 <= i < rs.len() && 0 <= j < rs[i].changes@.len() ==> hashable(#[trigger] rs[i].changes@[j])
}

/// What a revision adds to a dump of the server: its record, then, after revision 0,
/// its changes.
pub open spec fn revision_dump(r: RevisionInput) -> Seq<u8> {
    revision_record(r.rev, revision_props(r.commit)) + if r.rev > 0 {
        changes_record(r.rev, r.changes@)
    } else {
        Seq::empty()
    }
}

/// What the revisions `rs` add to a dump of the server, in order.
pub open spec fn revisions_dump(rs: Seq<RevisionInput>) -> Seq<u8>
    decreases rs.len(),
{
    if rs.len() == 0 {
        Seq::empty()
    } else {
        revisions_dump(rs.drop_last()) + revision_dump(rs.last())
    }
}

/// The property block of a revision.
fn revision_props_of(commit: &Option<Commit>) -> (b: Vec<u8>)
    ensures
        b@ == revision_props(*commit),
{
    match commit {
        Some(c) => {
            let date = format_svn_date(c.timestamp);
            build_rev_props(c.author.as_str(), c.message.as_str(), date.as_str())
        },
        None => build_empty_props(),
    }
}

/// Appends what a revision adds to a dump of the server.
fn write_revision_to_buf(buf: &mut Vec<u8>, r: &RevisionInput)
    requires
        forall|j: int| 0 <= j < r.changes@.len() ==> hashable(#[trigger] r.changes@[j]),
    ensures
        final(buf)@ == old(buf)@ + revision_dump(*r),
{
    let props = revision_props_of(&r.commit);
    push_revision_record(buf, r.rev, props.as_slice());
    if r.rev > 0 {
        let ghost start = buf@;
        let mut j: usize = 0;
        while j < r.changes.len()
            invariant
                j <= r.changes@.len(),
                forall|k: int| 0 <= k < r.changes@.len() ==> hashable(#[trigger] r.changes@[k]),
                buf@ == start + changes_record(r.rev, r.changes@.subrange(0, j as int)),
            decreases r.changes@.len() - j,
        {
            write_change_to_buf(buf, r.rev, &r.changes[j]);
            assert(r.changes@.subrange(0, j + 1).drop_last() =~= r.changes@.subrange(0, j as int));
            j = j + 1;
        }
        assert(r.changes@.subrange(0, j as int) =~= r.changes@);
    }
    assert(buf@ =~= old(buf)@ + revision_dump(*r));
}

/// The dump the server gives for `params`: the header (with `uuid` unless the dump
/// is incremental), then each revision of `revisions`, which holds what the
/// repository gave for the revisions `params` asks for: one for each revision from
/// `start_rev` to `end_rev`, in order.
pub fn generate_dump(params: &DumpParams, uuid: &str, revisions: &Vec<RevisionInput>) -> (b: Vec<u8>)
    requires
        revisions_hashable(revisions@),
        revisions@.len() == (if params.start_rev <= params.end_rev {
            params.end_rev - params.start_rev + 1
        } else {
            0int
        }),
        forall|i: int| 0 <= i < revisions@.len() ==> #[trigger] revisions@[i].rev == params.start_rev + i,
    ensures
        b@ == dump_header(params.format_version, if params.incremental { None } else { Some(uuid@) })
            + revisions_dump(revisions@),
{
    let mut buf: Vec<u8> = Vec::new();
    push_dump_header(&mut buf, params.format_version, if params.incremental { None } else { Some(uuid) });
    let ghost start = buf@;
    let mut i: usize = 0;
    while i < revisions.len()
        invariant
            i <= revisions@.len(),
            revisions_hashable(revisions@),
            buf@ == start + revisions_dump(revisions@.subrange(0, i as int)),
        decreases revisions@.len() - i,
    {
        let r = &revisions[i];
        assert forall|j: int| 0 <= j < r.changes@.len() implies hashable(#[trigger] r.changes@[j]) by {
            assert(hashable(revisions@[i as int].changes@[j]));
        }
        write_revision_to_buf(&mut buf, r);
        assert(revisions@.subrange(0, i + 1).drop_last() =~= revisions@.subrange(0, i as int));
        i = i + 1;
    }
    assert(revisions@.subrange(0, i as int) =~= revisions@);
    buf
}

// ─────────────────────────── the dump command ───────────────────────────

proof fn lemma_props_end_len()
    ensures
        encode_utf8("PROPS-END\n"@).len() == 10,
{
    reveal_strlit("PROPS-END\n");
    is_ascii_chars_encode_utf8("PROPS-END\n"@);
}

/// A change's content leaves room for the length of an empty property block.
pub open spec fn cli_writable(c: ChangeInput) -> bool {
    match c.content {
        Some(d) => d@.len() + 10 <= u64::MAX,
        None => true,
    }
}

/// What a change adds to the dump command's output: every change is an `add`; a file
/// node (its headers alone where its content could not be read) and a directory node
/// carry an empty property block and end with one newline; a deletion as the server
/// writes it.
pub open spec fn cli_change_record(c: ChangeInput) -> Seq<u8> {
    match c.change {
        TreeChange::Upsert { path, entry } => {
            if entry.kind == ObjectKind::Blob {
                match c.content {
                    Some(d) => file_node_record(path@, "add"@, encode_utf8("PROPS-END\n"@), d@, None, nl()),
                    None => text_line("Node-path"@, path@) + text_line("Node-kind"@, "file"@) + text_line(
                        "Node-action"@,
                        "add"@,
                    ),
                }
            } else {
                dir_node_record(path@, "add"@, encode_utf8("PROPS-END\n"@), nl())
            }
        },
        TreeChange::Delete { path } => delete_node_record(path@),
    }
}

/// Appends what a change adds to the dump command's output.
fn write_cli_change(buf: &mut Vec<u8>, c: &ChangeInput)
    requires
        cli_writable(*c),
    ensures
        final(buf)@ == old(buf)@ + cli_change_record(*c),
{
    match &c.change {
        TreeChange::Upsert { path, entry } => {
            if entry.kind == ObjectKind::Blob {
                match &c.content {
                    Some(d) => {
                        let pe = build_empty_props();
                        proof {
                            lemma_props_end_len();
                        }
                        push_file_node(buf, path.as_str(), "add", pe.as_slice(), d.as_slice(), None, false);
                    },
                    None => {
                        push_text_line(buf, "Node-path", path.as_str());
                        push_text_line(buf, "Node-kind", "file");
                        push_text_line(buf, "Node-action", "add");
                        assert(buf@ =~= old(buf)@ + cli_change_record(*c));
                    },
                }
            } else {
                let pe = build_empty_props();
                push_dir_node(buf, path.as_str(), "add", pe.as_slice(), false);
            }
        },
        TreeChange::Delete { path } => {
            push_delete_node(buf, path.as_str());
        },
    }
}

/// What the changes `cs` add to the dump command's output, in order.
pub open spec fn cli_changes_record(cs: Seq<ChangeInput>) -> Seq<u8>
    decreases cs.len(),
{
    if cs.len() == 0 {
        Seq::empty()
    } else {
        cli_changes_record(cs.drop_last()) + cli_change_record(cs.last())
    }
}

/// What the dump command writes for a revision: its record, then, after revision 0,
/// its changes.
pub open spec fn cli_revision_dump(rev: u64, commit: Option<Commit>, changes: Seq<ChangeInput>) -> Seq<u8> {
    revision_record(rev, revision_props(commit)) + if rev > 0 {
        cli_changes_record(changes)
    } else {
        Seq::empty()
    }
}

/// Appends what the dump command writes for revision `rev`, given its commit and the
/// changes of its delta tree (none where there is none).
pub fn write_revision(buf: &mut Vec<u8>, rev: u64, commit: &Option<Commit>, changes: &Vec<ChangeInput>)
    requires
        forall|j: int| 0 <= j < changes@.len() ==> cli_writable(#[trigger] changes@[j]),
    ensures
        final(buf)@ == old(buf)@ + cli_revision_dump(rev, *commit, changes@),
{
    let props = revision_props_of(commit);
    push_revision_record(buf, rev, props.as_slice());
    if rev > 0 {
        let ghost start = buf@;
        let mut j: usize = 0;
        while j < changes.len()
            invariant
                j <= changes@.len(),
                forall|k: int| 0 <= k < changes@.len() ==> cli_writable(#[trigger] changes@[k]),
                buf@ == start + cli_changes_record(changes@.subrange(0, j as int)),
            decreases changes@.len() - j,
        {
            write_cli_change(buf, &changes[j]);
            assert(changes@.subrange(0, j + 1).drop_last() =~= changes@.subrange(0, j as int));
            j = j + 1;
        }
        assert(changes@.subrange(0, j as int) =~= changes@);
    }
    assert(buf@ =~= old(buf)@ + cli_revision_dump(rev, *commit, changes@));
}

} // verus!
