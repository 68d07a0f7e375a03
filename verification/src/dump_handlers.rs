//! The decisions behind the dump and load endpoints: what a dump request asks for,
//! which requests are dumps or loads, the property blocks a dump writes, and what
//! loading a node does.
use vstd::prelude::*;
use vstd::utf8::encode_utf8;
use crate::dump_format::{NodeAction, NodeKind};
use crate::text::{
    split, split_once, parse_u64, parse_u32, eq_ignore_ascii_case, decimal, contains, chars_of,
    split_ranges, find_sub, range_eq, chars_eq_ignore_ascii_case, parse_u64_range, parse_u32_range,
    str_contains, u64_to_string, to_owned,
};

verus! {

/// The media type of a dump file.
pub const DUMPFILE_MIME: &'static str = "application/vnd.svn-dumpfile";

/// What a dump request asks for.
#[derive(Debug)]
pub struct DumpParams {
    pub start_rev: u64,
    pub end_rev: u64,
    pub incremental: bool,
    pub format_version: u32,
}

/// A query pair's key and value: what stands before and after its first `=`; the
/// value is empty where there is no `=`.
pub open spec fn key_val(pair: Seq<char>) -> (Seq<char>, Seq<char>) {
    match split_once(pair, seq!['=']) {
        Some((k, v)) => (k, v),
        None => (pair, Seq::empty()),
    }
}

/// A revision number, 0 where the text is not one.
pub open spec fn rev_or_zero(s: Seq<char>) -> u64 {
    match parse_u64(s) {
        Some(x) => x,
        None => 0,
    }
}

/// An end revision: `head` (any case) or a number is taken, anything else is `head`.
pub open spec fn end_or_head(s: Seq<char>, head: u64) -> u64 {
    if eq_ignore_ascii_case(s, "head"@) {
        head
    } else {
        match parse_u64(s) {
            Some(x) => x,
            None => head,
        }
    }
}

/// Start, end, incremental, format: the parameters as the query is read.
pub type QueryState = (u64, u64, bool, u32);

/// The parameters after one query pair.
pub open spec fn apply_pair(st: QueryState, pair: Seq<char>, head: u64) -> QueryState {
    let (k, v) = key_val(pair);
    if k == "r"@ || k == "revision"@ || k == "rev"@ {
        match split_once(v, seq![':']) {
            Some((a, b)) => (rev_or_zero(a), end_or_head(b, head), st.2, st.3),
            None => (rev_or_zero(v), st.1, st.2, st.3),
        }
    } else if k == "incremental"@ {
        (st.0, st.1, v == "true"@ || v == "1"@ || v.len() == 0, st.3)
    } else if k == "format"@ || k == "dump-format"@ {
        (st.0, st.1, st.2, match parse_u32(v) { Some(x) => x, None => 3 })
    } else if k == "start"@ {
        (rev_or_zero(v), st.1, st.2, st.3)
    } else if k == "end"@ {
        (st.0, end_or_head(v, head), st.2, st.3)
    } else {
        st
    }
}

/// The parameters after the pairs `pairs`, in order.
pub open spec fn apply_pairs(st: QueryState, pairs: Seq<Seq<char>>, head: u64) -> QueryState
    decreases pairs.len(),
{
    if pairs.len() == 0 {
        st
    } else {
        apply_pairs(apply_pair(st, pairs[0], head), pairs.drop_first(), head)
    }
}

/// The parameters of a query with `&`-separated pairs: from revision 0 to `head`, not
/// incremental, format 3, as the pairs change them; then the end is at most `head`, and
/// a start after the end swaps the two.
pub open spec fn query_params(query: Seq<char>, head: u64) -> QueryState {
    let st = apply_pairs((0, head, false, 3), split(query, '&'), head);
    let e = if st.1 < head { st.1 } else { head };
    if st.0 > e {
        (e, st.0, st.2, st.3)
    } else {
        (st.0, e, st.2, st.3)
    }
}

/// A dump range is never reversed and never starts after the head revision; it ends
/// after the head only where the query asked to start after it.
pub proof fn law_dump_params_ordered(query: Seq<char>, head: u64)
    ensures
        query_params(query, head).0 <= query_params(query, head).1,
        query_params(query, head).0 <= head,
        query_params(query, head).1 > head ==> query_params(query, head).1 == apply_pairs(
            (0, head, false, 3),
            split(query, '&'),
            head,
        ).0,
{
}

/// Whether `v[from..to]` is the text `p`.
fn piece_is(v: &Vec<char>, from: usize, to: usize, p: &str) -> (b: bool)
    requires
        from <= to <= v@.len(),
    ensures
        b == (v@.subrange(from as int, to as int) == p@),
{
    let q = chars_of(p);
    range_eq(v, from, to, &q)
}

/// Where the first `c` is in `v[from..to]`, as `split_once` finds it.
fn find_char(v: &Vec<char>, from: usize, to: usize, c: char) -> (r: Option<usize>)
    requires
        from <= to <= v@.len(),
    ensures
        match split_once(v@.subrange(from as int, to as int), seq![c]) {
            Some((a, b)) => r matches Some(i) && from <= i < to && a == v@.subrange(from as int, i as int)
                && b == v@.subrange(i + 1, to as int),
            None => r is None,
        },
{
    let mut p: Vec<char> = Vec::new();
    p.push(c);
    assert(p@ =~= seq![c]);
    let r = find_sub(v, &p, from, to);
    proof {
        let s = v@.subrange(from as int, to as int);
        if let Some(k) = crate::text::find(s, seq![c]) {
            let i = r.unwrap();
            assert(s.subrange(0, k) =~= v@.subrange(from as int, i as int));
            assert(s.subrange(k + 1, s.len() as int) =~= v@.subrange(i + 1, to as int));
        }
    }
    r
}

/// A revision number in `v[from..to]`, 0 where it is not one.
fn rev_at(v: &Vec<char>, from: usize, to: usize) -> (n: u64)
    requires
        from <= to <= v@.len(),
    ensures
        n == rev_or_zero(v@.subrange(from as int, to as int)),
{
    match parse_u64_range(v, from, to) {
        Some(x) => x,
        None => 0,
    }
}

/// An end revision in `v[from..to]`.
fn end_at(v: &Vec<char>, from: usize, to: usize, head: u64) -> (n: u64)
    requires
        from <= to <= v@.len(),
    ensures
        n == end_or_head(v@.subrange(from as int, to as int), head),
{
    let h = chars_of("head");
    if chars_eq_ignore_ascii_case(v, from, to, &h) {
        head
    } else {
        match parse_u64_range(v, from, to) {
            Some(x) => x,
            None => head,
        }
    }
}

impl DumpParams {
    /// The parameters of a dump request's query, for a repository at `head_rev`.
    pub fn from_query(query: &str, head_rev: u64) -> (p: Self)
        ensures
            (p.start_rev, p.end_rev, p.incremental, p.format_version) == query_params(query@, head_rev),
    {
        let v = chars_of(query);
        assert(v@.subrange(0, v@.len() as int) =~= v@);
        let pairs = split_ranges(&v, 0, v.len(), '&');
        let ghost ps = split(query@, '&');
        let mut start_rev: u64 = 0;
        let mut end_rev: u64 = head_rev;
        let mut incremental = false;
        let mut format_version: u32 = 3;
        let mut i: usize = 0;
        assert(ps.subrange(0, ps.len() as int) =~= ps);
        while i < pairs.len()
            invariant
                i <= pairs@.len(),
                v@ == query@,
                ps == split(query@, '&'),
                pairs@.len() == ps.len(),
                forall|j: int| 0 <= j < pairs@.len() ==> #[trigger] pairs@[j].0 <= pairs@[j].1 <= v@.len()
                    && v@.subrange(pairs@[j].0 as int, pairs@[j].1 as int) == ps[j],
                apply_pairs((start_rev, end_rev, incremental, format_version), ps.subrange(i as int, ps.len() as int), head_rev)
                    == apply_pairs((0, head_rev, false, 3), ps, head_rev),
            decreases pairs@.len() - i,
        {
            let (f, t) = pairs[i];
            let ghost pair = ps[i as int];
            assert(v@.subrange(f as int, t as int) == pair);
            let (kf, kt, vf, vt) = match find_char(&v, f, t, '=') {
                Some(e) => (f, e, e + 1, t),
                None => (f, t, t, t),
            };
            assert(key_val(pair) == (v@.subrange(kf as int, kt as int), v@.subrange(vf as int, vt as int)));
            if piece_is(&v, kf, kt, "r") || piece_is(&v, kf, kt, "revision") || piece_is(&v, kf, kt, "rev") {
                match find_char(&v, vf, vt, ':') {
                    Some(c) => {
                        start_rev = rev_at(&v, vf, c);
                        end_rev = end_at(&v, c + 1, vt, head_rev);
                    },
                    None => {
                        start_rev = rev_at(&v, vf, vt);
                    },
                }
            } else if piece_is(&v, kf, kt, "incremental") {
                incremental = piece_is(&v, vf, vt, "true") || piece_is(&v, vf, vt, "1") || vf == vt;
            } else if piece_is(&v, kf, kt, "format") || piece_is(&v, kf, kt, "dump-format") {
                format_version = match parse_u32_range(&v, vf, vt) {
                    Some(x) => x,
                    None => 3,
                };
            } else if piece_is(&v, kf, kt, "start") {
                start_rev = rev_at(&v, vf, vt);
            } else if piece_is(&v, kf, kt, "end") {
                end_rev = end_at(&v, vf, vt, head_rev);
            }
            proof {
                assert(ps.subrange(i as int, ps.len() as int).drop_first() =~= ps.subrange(i + 1, ps.len() as int));
            }
            i = i + 1;
        }
        assert(ps.subrange(i as int, ps.len() as int) =~= Seq::<Seq<char>>::empty());
        if end_rev > head_rev {
            end_rev = head_rev;
        }
        if start_rev > end_rev {
            let t = start_rev;
            start_rev = end_rev;
            end_rev = t;
        }
        DumpParams { start_rev, end_rev, incremental, format_version }
    }
}

/// An `Accept` header that asks for a dump file.
pub fn is_dump_request(accept: &str) -> (b: bool)
    ensures
        b == (contains(accept@, DUMPFILE_MIME@) || contains(accept@, "svn-dumpfile"@)),
{
    str_contains(accept, DUMPFILE_MIME) || str_contains(accept, "svn-dumpfile")
}

/// A `Content-Type` header that carries a dump file.
pub fn is_load_request(content_type: &str) -> (b: bool)
    ensures
        b == (contains(content_type@, DUMPFILE_MIME@) || contains(content_type@, "svn-dumpfile"@)),
{
    str_contains(content_type, DUMPFILE_MIME) || str_contains(content_type, "svn-dumpfile")
}

// ─────────────────────────── property blocks ───────────────────────────

/// One property in a dump's property block: `K <key bytes>`, the key, `V <value
/// bytes>`, the value, each on a line of its own.
pub open spec fn prop_text(key: Seq<char>, val: Seq<char>) -> Seq<char> {
    "K "@ + decimal(encode_utf8(key).len()) + "\n"@ + key + "\n"@ + "V "@ + decimal(encode_utf8(val).len())
        + "\n"@ + val + "\n"@
}

/// The property `key` set to `val` where `val` is not empty.
pub open spec fn prop_if(key: Seq<char>, val: Seq<char>) -> Seq<char> {
    if val.len() > 0 {
        prop_text(key, val)
    } else {
        Seq::empty()
    }
}

/// A revision's property block: author, log message and date, each where it is not
/// empty, then `PROPS-END`.
pub open spec fn rev_props_text(author: Seq<char>, message: Seq<char>, date: Seq<char>) -> Seq<char> {
    prop_if("svn:author"@, author) + prop_if("svn:log"@, message) + prop_if("svn:date"@, date) + "PROPS-END\n"@
}

/// Appends one property.
fn push_prop(buf: &mut String, key: &str, val: &str)
    ensures
        final(buf)@ == old(buf)@ + prop_text(key@, val@),
{
    let kb = key.as_bytes();
    let vb = val.as_bytes();
    let kl = u64_to_string(kb.len() as u64);
    let vl = u64_to_string(vb.len() as u64);
    buf.append("K ");
    buf.append(kl.as_str());
    buf.append("\n");
    buf.append(key);
    buf.append("\n");
    buf.append("V ");
    buf.append(vl.as_str());
    buf.append("\n");
    buf.append(val);
    buf.append("\n");
    assert(buf@ =~= old(buf)@ + prop_text(key@, val@));
}

/// The property block of a revision.
pub fn build_rev_props(author: &str, message: &str, date: &str) -> (b: Vec<u8>)
    ensures
        b@ == encode_utf8(rev_props_text(author@, message@, date@)),
{
    let mut p = String::new();
    if !author.is_empty() {
        push_prop(&mut p, "svn:author", author);
    }
    if !message.is_empty() {
        push_prop(&mut p, "svn:log", message);
    }
    if !date.is_empty() {
        push_prop(&mut p, "svn:date", date);
    }
    p.append("PROPS-END\n");
    assert(p@ =~= rev_props_text(author@, message@, date@));
    p.as_str().as_bytes_vec()
}

/// An empty property block.
pub fn build_empty_props() -> (b: Vec<u8>)
    ensures
        b@ == encode_utf8("PROPS-END\n"@),
{
    "PROPS-END\n".as_bytes_vec()
}

/// The property block of a file node: `svn:executable` set to `*` where the file is
/// executable.
pub fn build_node_props(executable: bool) -> (b: Vec<u8>)
    ensures
        b@ == encode_utf8(
            if executable { prop_text("svn:executable"@, "*"@) + "PROPS-END\n"@ } else { "PROPS-END\n"@ },
        ),
{
    let mut p = String::new();
    if executable {
        push_prop(&mut p, "svn:executable", "*");
    }
    p.append("PROPS-END\n");
    assert(p@ =~= if executable { prop_text("svn:executable"@, "*"@) + "PROPS-END\n"@ } else { "PROPS-END\n"@ });
    p.as_str().as_bytes_vec()
}

// ─────────────────────────── load ───────────────────────────

/// What a load did.
#[derive(Debug)]
pub struct LoadStats {
    pub revisions_loaded: u64,
    pub nodes_processed: u64,
    pub files_added: u64,
    pub dirs_created: u64,
    pub files_deleted: u64,
    pub files_modified: u64,
    pub final_revision: u64,
    pub elapsed_ms: u64,
}

impl Default for LoadStats {
    fn default() -> (s: Self)
        ensures
            s.revisions_loaded == 0 && s.nodes_processed == 0 && s.files_added == 0 && s.dirs_created == 0
                && s.files_deleted == 0 && s.files_modified == 0 && s.final_revision == 0 && s.elapsed_ms == 0,
    {
        LoadStats {
            revisions_loaded: 0,
            nodes_processed: 0,
            files_added: 0,
            dirs_created: 0,
            files_deleted: 0,
            files_modified: 0,
            final_revision: 0,
            elapsed_ms: 0,
        }
    }
}

/// What loading one node does to the repository.
#[derive(Debug, Clone, Copy, PartialEq, Eq, Structural)]
pub enum LoadOp {
    /// Write the node's content as a new file.
    AddFile,
    /// Create the directory.
    MakeDir,
    /// Delete the path.
    Delete,
    /// Write the node's content over the file.
    ModifyFile,
    /// Nothing.
    Skip,
}

/// The operation of a node: an added or replaced file, or a node of no kind with
/// content, is written; an added directory is made; a deletion deletes; a change with
/// content rewrites the file; anything else does nothing.
pub open spec fn load_op_of(action: Option<NodeAction>, kind: Option<NodeKind>, has_content: bool) -> LoadOp {
    match action {
        Some(NodeAction::Add) | Some(NodeAction::Replace) => match kind {
            Some(NodeKind::File) => LoadOp::AddFile,
            Some(NodeKind::Dir) => LoadOp::MakeDir,
            None => if has_content { LoadOp::AddFile } else { LoadOp::Skip },
        },
        Some(NodeAction::Delete) => LoadOp::Delete,
        Some(NodeAction::Change) => if has_content { LoadOp::ModifyFile } else { LoadOp::Skip },
        None => LoadOp::Skip,
    }
}

/// The operation that loading a node performs.
pub fn load_op(action: Option<NodeAction>, kind: Option<NodeKind>, has_content: bool) -> (op: LoadOp)
    ensures
        op == load_op_of(action, kind, has_content),
{
    match action {
        Some(NodeAction::Add) | Some(NodeAction::Replace) => match kind {
            Some(NodeKind::File) => LoadOp::AddFile,
            Some(NodeKind::Dir) => LoadOp::MakeDir,
            None => if has_content { LoadOp::AddFile } else { LoadOp::Skip },
        },
        Some(NodeAction::Delete) => LoadOp::Delete,
        Some(NodeAction::Change) => if has_content { LoadOp::ModifyFile } else { LoadOp::Skip },
        None => LoadOp::Skip,
    }
}

/// What loading a revision does: where it is loaded (not revision 0, with nodes),
/// the operation of each of its nodes, in order, and whether it is committed (one of
/// them changes something); nothing otherwise.
pub fn revision_load_plan(rev: &crate::dump_stream::ParsedRevision) -> (r: (Vec<LoadOp>, bool))
    ensures
        !(rev.revision_number != 0 && rev.nodes@.len() != 0) ==> r.0@.len() == 0 && !r.1,
        (rev.revision_number != 0 && rev.nodes@.len() != 0) ==> {
            &&& r.0@.len() == rev.nodes@.len()
            &&& forall|i: int| 0 <= i < r.0@.len() ==> #[trigger] r.0@[i] == load_op_of(
                rev.nodes@[i].action,
                rev.nodes@[i].kind,
                rev.nodes@[i].content@.len() > 0,
            )
            &&& r.1 == exists|i: int| 0 <= i < r.0@.len() && #[trigger] r.0@[i] != LoadOp::Skip
        },
{
    let mut ops: Vec<LoadOp> = Vec::new();
    if !loads_revision(rev.revision_number, rev.nodes.len()) {
        return (ops, false);
    }
    let mut changed = false;
    let mut i: usize = 0;
    while i < rev.nodes.len()
        invariant
            i <= rev.nodes@.len(),
            ops@.len() == i,
            forall|k: int| 0 <= k < i ==> #[trigger] ops@[k] == load_op_of(
                rev.nodes@[k].action,
                rev.nodes@[k].kind,
                rev.nodes@[k].content@.len() > 0,
            ),
            changed == (exists|k: int| 0 <= k < i && #[trigger] ops@[k] != LoadOp::Skip),
        decreases rev.nodes@.len() - i,
    {
        let n = &rev.nodes[i];
        let op = load_op(n.action, n.kind, n.content.len() > 0);
        let ghost before = ops@;
        let ghost was = changed;
        ops.push(op);
        if op != LoadOp::Skip {
            changed = true;
        }
        proof {
            assert(forall|k: int| 0 <= k < i ==> ops@[k] == before[k]);
            if was {
                let k = choose|k: int| 0 <= k < i && #[trigger] before[k] != LoadOp::Skip;
                assert(ops@[k] == before[k]);
                assert(exists|k2: int| 0 <= k2 < i + 1 && #[trigger] ops@[k2] != LoadOp::Skip);
            }
            if ops@[i as int] != LoadOp::Skip {
                assert(exists|k: int| 0 <= k < i + 1 && #[trigger] ops@[k] != LoadOp::Skip);
            }
            if exists|k: int| 0 <= k < i + 1 && #[trigger] ops@[k] != LoadOp::Skip {
                let k = choose|k: int| 0 <= k < i + 1 && #[trigger] ops@[k] != LoadOp::Skip;
                if k < i {
                    assert(before[k] != LoadOp::Skip);
                    assert(exists|k2: int| 0 <= k2 < i && #[trigger] before[k2] != LoadOp::Skip);
                }
            }
        }
        i = i + 1;
    }
    (ops, changed)
}

/// A revision is loaded unless it is revision 0 or has no nodes.
pub fn loads_revision(revision_number: u64, node_count: usize) -> (b: bool)
    ensures
        b == (revision_number != 0 && node_count != 0),
{
    revision_number != 0 && node_count != 0
}

impl LoadStats {
    /// Counts a processed node and what it did; returns whether it changed anything.
    pub fn record(&mut self, op: LoadOp) -> (changed: bool)
        requires
            old(self).nodes_processed < u64::MAX,
            old(self).files_added < u64::MAX,
            old(self).dirs_created < u64::MAX,
            old(self).files_deleted < u64::MAX,
            old(self).files_modified < u64::MAX,
        ensures
            changed == (op != LoadOp::Skip),
            final(self).nodes_processed == old(self).nodes_processed + 1,
            final(self).files_added == old(self).files_added + (if op == LoadOp::AddFile { 1int } else { 0 }),
            final(self).dirs_created == old(self).dirs_created + (if op == LoadOp::MakeDir { 1int } else { 0 }),
            final(self).files_deleted == old(self).files_deleted + (if op == LoadOp::Delete { 1int } else { 0 }),
            final(self).files_modified == old(self).files_modified + (if op == LoadOp::ModifyFile { 1int } else { 0 }),
            final(self).revisions_loaded == old(self).revisions_loaded,
            final(self).final_revision == old(self).final_revision,
            final(self).elapsed_ms == old(self).elapsed_ms,
    {
        self.nodes_processed = self.nodes_processed + 1;
        match op {
            LoadOp::AddFile => {
                self.files_added = self.files_added + 1;
                true
            },
            LoadOp::MakeDir => {
                self.dirs_created = self.dirs_created + 1;
                true
            },
            LoadOp::Delete => {
                self.files_deleted = self.files_deleted + 1;
                true
            },
            LoadOp::ModifyFile => {
                self.files_modified = self.files_modified + 1;
                true
            },
            LoadOp::Skip => false,
        }
    }

    /// Counts a loaded revision; where it changed anything, the commit it made is the
    /// final revision.
    pub fn finish_revision(&mut self, committed: Option<u64>)
        requires
            old(self).revisions_loaded < u64::MAX,
        ensures
            final(self).revisions_loaded == old(self).revisions_loaded + 1,
            final(self).final_revision == match committed { Some(r) => r, None => old(self).final_revision },
            final(self).nodes_processed == old(self).nodes_processed,
            final(self).files_added == old(self).files_added,
            final(self).dirs_created == old(self).dirs_created,
            final(self).files_deleted == old(self).files_deleted,
            final(self).files_modified == old(self).files_modified,
            final(self).elapsed_ms == old(self).elapsed_ms,
    {
        if let Some(r) = committed {
            self.final_revision = r;
        }
        self.revisions_loaded = self.revisions_loaded + 1;
    }
}

} // verus!
