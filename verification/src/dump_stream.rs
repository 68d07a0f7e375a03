//! The reader that the load endpoint uses: a dump read revision by revision, each with
//! its commit data and the nodes that follow it.
use vstd::prelude::*;
use crate::text::starts_with;
use crate::dump::{
    LineRead, read_line, line_end, header_value, num_usize, num_u64, read_headers, lemma_line_end,
    lemma_read_headers_pos, HeaderMode, parse_props, kind_of, action_of, utf8_error, eof_error, NextLine,
    next_line, header_value_of, header_usize, header_u64, read_header_lines, parse_prop_block,
    utf8_error_text, eof_error_text, kind_named, action_named, text_map,
};
use crate::dump_format::{NodeKind, NodeAction};
use crate::load::{rfc3339_seconds, parse_rfc3339};
use crate::codec::copy_range;
use crate::text::{str_starts_with, to_owned};

verus! {

/// A node of a revision being loaded.
#[derive(Debug)]
pub struct ParsedNode {
    pub path: String,
    pub kind: Option<NodeKind>,
    pub action: Option<NodeAction>,
    pub content: Vec<u8>,
}

/// A revision being loaded: its number, author (`unknown` where missing), log
/// message, the seconds of its date where it has one that reads as RFC 3339 (the
/// caller takes the current time otherwise), and its nodes.
#[derive(Debug)]
pub struct ParsedRevision {
    pub revision_number: u64,
    pub author: String,
    pub message: String,
    pub timestamp: Option<i64>,
    pub nodes: Vec<ParsedNode>,
}

/// A node as plain values.
pub type NodeSpec = (Seq<char>, Option<NodeKind>, Option<NodeAction>, Seq<u8>);

/// A revision as plain values.
pub struct RevSpec {
    pub revision_number: u64,
    pub author: Seq<char>,
    pub message: Seq<char>,
    pub timestamp: Option<i64>,
    pub nodes: Seq<NodeSpec>,
}

/// The plain value of a node.
pub open spec fn node_view(n: ParsedNode) -> NodeSpec {
    (n.path@, n.kind, n.action, n.content@)
}

/// The plain value of a revision.
pub open spec fn rev_view(r: ParsedRevision) -> RevSpec {
    RevSpec {
        revision_number: r.revision_number,
        author: r.author@,
        message: r.message@,
        timestamp: r.timestamp,
        nodes: r.nodes@.map_values(|n: ParsedNode| node_view(n)),
    }
}

/// The lengths of a node's block: property, text and content length.
pub type Lengths = (nat, nat, nat);

/// The lengths after the header line `t`.
pub open spec fn absorb_length(acc: Lengths, t: Seq<char>) -> Lengths {
    if starts_with(t, "Prop-content-length:"@) {
        (num_usize(t), acc.1, acc.2)
    } else if starts_with(t, "Text-content-length:"@) {
        (acc.0, num_usize(t), acc.2)
    } else if starts_with(t, "Content-length:"@) {
        (acc.0, acc.1, num_usize(t))
    } else {
        acc
    }
}

/// Reads header lines from `pos` up to the end or an empty line, recording the
/// lengths; `None` for a line that is not valid UTF-8.
pub open spec fn length_headers(data: Seq<u8>, pos: nat, acc: Lengths) -> Option<(Lengths, nat)>
    decreases data.len() - pos,
{
    match read_line(data, pos) {
        LineRead::Eof => Some((acc, pos)),
        LineRead::Invalid => None,
        LineRead::Text(t, next) => if t.len() == 0 {
            Some((acc, next))
        } else {
            proof {
                lemma_line_end(data, pos);
            }
            length_headers(data, next, absorb_length(acc, t))
        },
    }
}

/// Reading length headers never moves backwards nor past the end.
pub proof fn lemma_length_headers_pos(data: Seq<u8>, pos: nat, acc: Lengths)
    requires
        pos <= data.len(),
    ensures
        length_headers(data, pos, acc) matches Some((_, p)) ==> pos <= p <= data.len(),
    decreases data.len() - pos,
{
    lemma_line_end(data, pos);
    if let LineRead::Text(t, next) = read_line(data, pos) {
        if t.len() != 0 {
            lemma_length_headers_pos(data, next, absorb_length(acc, t));
        }
    }
}

/// A node's block, after the first length header `first`: the other headers, the
/// block, and one line more. The text is taken after the properties where both fit,
/// else from the start of the block.
pub open spec fn node_content(data: Seq<u8>, pos: nat, first: Seq<char>, nd: NodeSpec) -> Result<(NodeSpec, nat), Seq<char>> {
    match length_headers(data, pos, absorb_length((0, 0, 0), first)) {
        None => Err(utf8_error()),
        Some(((pl, tl, tcl), p)) => {
            let rl = if tcl > 0 { tcl } else { pl + tl };
            if rl == 0 {
                Ok((nd, line_end(data, p)))
            } else if p + rl > data.len() {
                Err(eof_error())
            } else {
                let content = if tl > 0 && pl + tl <= rl {
                    data.subrange(p as int + pl, p as int + pl + tl)
                } else if tl > 0 {
                    data.subrange(p as int, p as int + if tl < rl { tl } else { rl })
                } else {
                    nd.3
                };
                Ok(((nd.0, nd.1, nd.2, content), line_end(data, p + rl)))
            }
        },
    }
}

/// The headers of a node up to an empty line or the end of its block.
pub open spec fn stream_node(data: Seq<u8>, pos: nat, nd: NodeSpec) -> Result<(NodeSpec, nat), Seq<char>>
    decreases data.len() - pos,
{
    match read_line(data, pos) {
        LineRead::Eof => Ok((nd, pos)),
        LineRead::Invalid => Err(utf8_error()),
        LineRead::Text(t, next) => {
            proof {
                lemma_line_end(data, pos);
            }
            if t.len() == 0 {
                Ok((nd, next))
            } else if starts_with(t, "Node-kind:"@) {
                stream_node(data, next, (nd.0, kind_of(header_value(t)), nd.2, nd.3))
            } else if starts_with(t, "Node-action:"@) {
                stream_node(data, next, (nd.0, nd.1, action_of(header_value(t)), nd.3))
            } else if starts_with(t, "Prop-content-length:"@) || starts_with(t, "Text-content-length:"@)
                || starts_with(t, "Content-length:"@) {
                node_content(data, next, t, nd)
            } else {
                stream_node(data, next, nd)
            }
        },
    }
}

/// Reading a node never moves backwards nor past the end.
pub proof fn lemma_stream_node_pos(data: Seq<u8>, pos: nat, nd: NodeSpec)
    requires
        pos <= data.len(),
    ensures
        stream_node(data, pos, nd) matches Ok((_, q)) ==> pos <= q <= data.len(),
    decreases data.len() - pos,
{
    lemma_line_end(data, pos);
    if let LineRead::Text(t, next) = read_line(data, pos) {
        lemma_stream_node_pos(data, next, (nd.0, kind_of(header_value(t)), nd.2, nd.3));
        lemma_stream_node_pos(data, next, (nd.0, nd.1, action_of(header_value(t)), nd.3));
        lemma_stream_node_pos(data, next, nd);
        lemma_length_headers_pos(data, next, absorb_length((0, 0, 0), t));
        if let Some((a, p)) = length_headers(data, next, absorb_length((0, 0, 0), t)) {
            lemma_line_end(data, p);
            let rl = if a.2 > 0 { a.2 } else { a.0 + a.1 };
            if p + rl <= data.len() {
                lemma_line_end(data, p + rl);
            }
        }
    }
}

/// The value of a property, or `d`.
pub open spec fn prop_or(m: Map<Seq<char>, Seq<char>>, k: Seq<char>, d: Seq<char>) -> Seq<char> {
    if m.contains_key(k) { m[k] } else { d }
}

/// The revision of number `rn` whose headers end at `p` with property length `pl` and
/// content length `cl`, and where its block ends; `None` where the block runs past the
/// end.
pub open spec fn stream_revision(data: Seq<u8>, p: nat, rn: u64, pl: nat, cl: nat) -> Option<(RevSpec, nat)> {
    let total = if cl > 0 { cl } else { pl };
    if p + total > data.len() {
        None
    } else {
        let props = if total > 0 && pl > 0 {
            parse_props(data.subrange(p as int, p as int + if pl < total { pl } else { total }))
        } else {
            Map::empty()
        };
        Some((
            RevSpec {
                revision_number: rn,
                author: prop_or(props, "svn:author"@, "unknown"@),
                message: prop_or(props, "svn:log"@, Seq::empty()),
                timestamp: if props.contains_key("svn:date"@) { rfc3339_seconds(props["svn:date"@]) } else { None },
                nodes: Seq::empty(),
            },
            p + total,
        ))
    }
}

/// The revision `cur`, if any, delivered after `done`.
pub open spec fn deliver(done: Seq<RevSpec>, cur: Option<RevSpec>) -> Seq<RevSpec> {
    match cur {
        Some(r) => done.push(r),
        None => done,
    }
}

/// Reading from `pos` with the revision `cur` open and the revisions `done`
/// delivered: the revisions delivered in the end, and the error that stopped the
/// reading, if any. A revision is delivered when the next starts or at the end; nodes
/// before the first revision are dropped.
pub open spec fn stream_from(data: Seq<u8>, pos: nat, cur: Option<RevSpec>, done: Seq<RevSpec>) -> (Seq<RevSpec>, Option<Seq<char>>)
    decreases data.len() - pos,
{
    if pos > data.len() {
        (deliver(done, cur), None)
    } else {
        match read_line(data, pos) {
            LineRead::Eof => (deliver(done, cur), None),
            LineRead::Invalid => (done, Some(utf8_error())),
            LineRead::Text(t, next) => {
                proof {
                    lemma_line_end(data, pos);
                }
                if starts_with(t, "SVN-fs-dump-format-version:"@) || starts_with(t, "UUID:"@) || t.len() == 0 {
                    stream_from(data, next, cur, done)
                } else if starts_with(t, "Revision-number:"@) {
                    let d1 = deliver(done, cur);
                    match read_headers(data, next, HeaderMode::Revision, (0, 0, None)) {
                        None => (d1, Some(utf8_error())),
                        Some(((pl, cl, _), p)) => match stream_revision(data, p, num_u64(t), pl, cl) {
                            None => (d1, Some(eof_error())),
                            Some((r, q)) => {
                                proof {
                                    lemma_read_headers_pos(data, next, HeaderMode::Revision, (0, 0, None));
                                }
                                stream_from(data, q, Some(r), d1)
                            },
                        },
                    }
                } else if starts_with(t, "Node-path:"@) {
                    match stream_node(data, next, (header_value(t), None, None, Seq::empty())) {
                        Err(m) => (done, Some(m)),
                        Ok((n, q)) => {
                            proof {
                                lemma_stream_node_pos(data, next, (header_value(t), None, None, Seq::empty()));
                            }
                            let c = match cur {
                                Some(r) => Some(RevSpec { nodes: r.nodes.push(n), ..r }),
                                None => None,
                            };
                            stream_from(data, q, c, done)
                        },
                    }
                } else {
                    stream_from(data, next, cur, done)
                }
            },
        }
    }
}

// ─────────────────────────── exec ───────────────────────────

/// The lengths after the header line `t`.
fn absorb_length_line(acc: (usize, usize, usize), t: &str) -> (r: (usize, usize, usize))
    ensures
        (r.0 as nat, r.1 as nat, r.2 as nat) == absorb_length((acc.0 as nat, acc.1 as nat, acc.2 as nat), t@),
{
    if str_starts_with(t, "Prop-content-length:") {
        (header_usize(t), acc.1, acc.2)
    } else if str_starts_with(t, "Text-content-length:") {
        (acc.0, header_usize(t), acc.2)
    } else if str_starts_with(t, "Content-length:") {
        (acc.0, acc.1, header_usize(t))
    } else {
        acc
    }
}

/// Reads length headers from `pos`.
fn read_lengths(data: &[u8], pos: usize, acc: (usize, usize, usize)) -> (r: Option<((usize, usize, usize), usize)>)
    requires
        pos <= data@.len(),
    ensures
        r is Some <==> length_headers(data@, pos as nat, (acc.0 as nat, acc.1 as nat, acc.2 as nat)) is Some,
        r matches Some((a, p)) ==> length_headers(data@, pos as nat, (acc.0 as nat, acc.1 as nat, acc.2 as nat))
            == Some(((a.0 as nat, a.1 as nat, a.2 as nat), p as nat)),
{
    let mut cur = acc;
    let mut at = pos;
    loop
        invariant
            at <= data@.len(),
            length_headers(data@, at as nat, (cur.0 as nat, cur.1 as nat, cur.2 as nat)) == length_headers(
                data@,
                pos as nat,
                (acc.0 as nat, acc.1 as nat, acc.2 as nat),
            ),
        decreases data@.len() - at,
    {
        proof {
            lemma_line_end(data@, at as nat);
        }
        match next_line(data, at) {
            NextLine::Eof => {
                return Some((cur, at));
            },
            NextLine::Invalid => {
                return None;
            },
            NextLine::Text(t, next) => {
                if t.as_str().is_empty() {
                    return Some((cur, next));
                }
                cur = absorb_length_line(cur, t.as_str());
                at = next;
            },
        }
    }
}

/// The plain value of a node being read.
pub open spec fn nd_view(n: &ParsedNode) -> NodeSpec {
    node_view(*n)
}

/// Reads a node's block after its first length header `first`.
fn read_node_content(data: &[u8], pos: usize, first: &str, nd: ParsedNode) -> (r: Result<(ParsedNode, usize), String>)
    requires
        pos <= data@.len(),
    ensures
        match r {
            Ok((n, q)) => node_content(data@, pos as nat, first@, node_view(nd)) == Ok::<(NodeSpec, nat), Seq<char>>((node_view(n), q as nat)),
            Err(m) => node_content(data@, pos as nat, first@, node_view(nd)) == Err::<(NodeSpec, nat), Seq<char>>(m@),
        },
{
    let mut n = nd;
    let acc0 = absorb_length_line((0, 0, 0), first);
    match read_lengths(data, pos, acc0) {
        None => Err(utf8_error_text()),
        Some(((pl, tl, tcl), p)) => {
            proof {
                lemma_length_headers_pos(data@, pos as nat, (acc0.0 as nat, acc0.1 as nat, acc0.2 as nat));
            }
            let rl: u128 = if tcl > 0 { tcl as u128 } else { pl as u128 + tl as u128 };
            if rl == 0 {
                return Ok((n, crate::dump::find_line_end(data, p)));
            }
            if rl > (data.len() - p) as u128 {
                return Err(eof_error_text());
            }
            let rlu = rl as usize;
            if tl > 0 && (pl as u128 + tl as u128) <= rl {
                n.content = copy_range(data, p + pl, p + pl + tl);
            } else if tl > 0 {
                let m = if tl < rlu { tl } else { rlu };
                n.content = copy_range(data, p, p + m);
            }
            proof {
                lemma_line_end(data@, (p + rlu) as nat);
            }
            Ok((n, crate::dump::find_line_end(data, p + rlu)))
        },
    }
}

/// Reads a node's headers and block.
fn read_stream_node(data: &[u8], pos: usize, nd: ParsedNode) -> (r: Result<(ParsedNode, usize), String>)
    requires
        pos <= data@.len(),
    ensures
        match r {
            Ok((n, q)) => stream_node(data@, pos as nat, node_view(nd)) == Ok::<(NodeSpec, nat), Seq<char>>((node_view(n), q as nat)),
            Err(m) => stream_node(data@, pos as nat, node_view(nd)) == Err::<(NodeSpec, nat), Seq<char>>(m@),
        },
{
    let mut cur = nd;
    let mut at = pos;
    loop
        invariant
            at <= data@.len(),
            stream_node(data@, at as nat, node_view(cur)) == stream_node(data@, pos as nat, node_view(nd)),
        decreases data@.len() - at,
    {
        proof {
            lemma_line_end(data@, at as nat);
        }
        match next_line(data, at) {
            NextLine::Eof => {
                return Ok((cur, at));
            },
            NextLine::Invalid => {
                return Err(utf8_error_text());
            },
            NextLine::Text(t, next) => {
                let ts = t.as_str();
                if ts.is_empty() {
                    return Ok((cur, next));
                }
                if str_starts_with(ts, "Node-kind:") {
                    let v = header_value_of(ts);
                    cur.kind = kind_named(v.as_str());
                } else if str_starts_with(ts, "Node-action:") {
                    let v = header_value_of(ts);
                    cur.action = action_named(v.as_str());
                } else if str_starts_with(ts, "Prop-content-length:") || str_starts_with(ts, "Text-content-length:")
                    || str_starts_with(ts, "Content-length:") {
                    return read_node_content(data, next, ts, cur);
                }
                at = next;
            },
        }
    }
}

/// The revision whose headers end at `p`.
fn read_stream_revision(data: &[u8], p: usize, rn: u64, pl: usize, cl: usize) -> (r: Option<(ParsedRevision, usize)>)
    requires
        p <= data@.len(),
    ensures
        match r {
            Some((x, q)) => stream_revision(data@, p as nat, rn, pl as nat, cl as nat) == Some((rev_view(x), q as nat)),
            None => stream_revision(data@, p as nat, rn, pl as nat, cl as nat) is None,
        },
{
    let total = if cl > 0 { cl } else { pl };
    if total > data.len() - p {
        return None;
    }
    let props = if total > 0 && pl > 0 {
        let n = if pl < total { pl } else { total };
        let pb = copy_range(data, p, p + n);
        parse_prop_block(pb.as_slice())
    } else {
        let m = crate::strmap::StrMap::new();
        assert(text_map(m@) =~= Map::<Seq<char>, Seq<char>>::empty());
        m
    };
    let ghost pm = text_map(props@);
    let author = match props.get("svn:author") {
        Some(a) => a.clone(),
        None => to_owned("unknown"),
    };
    let message = match props.get("svn:log") {
        Some(m) => m.clone(),
        None => String::new(),
    };
    let timestamp = match props.get("svn:date") {
        Some(d) => parse_rfc3339(d.as_str()),
        None => None,
    };
    let r = ParsedRevision { revision_number: rn, author, message, timestamp, nodes: Vec::new() };
    assert(rev_view(r).nodes =~= Seq::<NodeSpec>::empty());
    assert(rev_view(r).message =~= prop_or(pm, "svn:log"@, Seq::empty()));
    Some((r, p + total))
}

/// The plain values of revisions.
pub open spec fn revs_view(v: Seq<ParsedRevision>) -> Seq<RevSpec> {
    v.map_values(|r: ParsedRevision| rev_view(r))
}

/// The plain value of the open revision.
pub open spec fn open_rev(o: Option<ParsedRevision>) -> Option<RevSpec> {
    match o {
        Some(r) => Some(rev_view(r)),
        None => None,
    }
}

/// Delivers the open revision, if any.
fn deliver_into(done: &mut Vec<ParsedRevision>, cur: Option<ParsedRevision>)
    ensures
        revs_view(final(done)@) == deliver(revs_view(old(done)@), open_rev(cur)),
{
    match cur {
        Some(r) => {
            let ghost rv = rev_view(r);
            done.push(r);
            assert(revs_view(done@) =~= revs_view(old(done)@).push(rv));
        },
        None => {},
    }
}

/// Reads a dump revision by revision: the revisions read, in order, each with the
/// nodes that follow it, and the error that stopped the reading, if any.
pub fn parse_dump_stream(data: &[u8]) -> (r: (Vec<ParsedRevision>, Option<String>))
    ensures
        (revs_view(r.0@), match r.1 { Some(m) => Some(m@), None => None }) == stream_from(data@, 0, None, Seq::empty()),
{
    let mut done: Vec<ParsedRevision> = Vec::new();
    let mut cur: Option<ParsedRevision> = None;
    let mut at: usize = 0;
    assert(revs_view(done@) =~= Seq::<RevSpec>::empty());
    loop
        invariant
            at <= data@.len(),
            stream_from(data@, at as nat, open_rev(cur), revs_view(done@)) == stream_from(data@, 0, None, Seq::empty()),
        decreases data@.len() - at,
    {
        proof {
            lemma_line_end(data@, at as nat);
        }
        match next_line(data, at) {
            NextLine::Eof => {
                deliver_into(&mut done, cur);
                return (done, None);
            },
            NextLine::Invalid => {
                return (done, Some(utf8_error_text()));
            },
            NextLine::Text(t, next) => {
                let ts = t.as_str();
                if str_starts_with(ts, "SVN-fs-dump-format-version:") || str_starts_with(ts, "UUID:") || ts.is_empty() {
                    at = next;
                } else if str_starts_with(ts, "Revision-number:") {
                    deliver_into(&mut done, cur);
                    cur = None;
                    let rn = header_u64(ts);
                    match read_header_lines(data, next, HeaderMode::Revision, (0, 0, None)) {
                        None => {
                            return (done, Some(utf8_error_text()));
                        },
                        Some(((pl, cl, _), p)) => {
                            proof {
                                lemma_read_headers_pos(data@, next as nat, HeaderMode::Revision, (0, 0, None));
                            }
                            match read_stream_revision(data, p, rn, pl, cl) {
                                None => {
                                    return (done, Some(eof_error_text()));
                                },
                                Some((r, q)) => {
                                    cur = Some(r);
                                    at = q;
                                },
                            }
                        },
                    }
                } else if str_starts_with(ts, "Node-path:") {
                    let nd = ParsedNode { path: header_value_of(ts), kind: None, action: None, content: Vec::new() };
                    assert(node_view(nd) =~= (header_value(ts@), None::<NodeKind>, None::<NodeAction>, Seq::<u8>::empty()));
                    proof {
                        lemma_stream_node_pos(data@, next as nat, node_view(nd));
                    }
                    match read_stream_node(data, next, nd) {
                        Err(m) => {
                            return (done, Some(m));
                        },
                        Ok((n, q)) => {
                            let ghost nv = node_view(n);
                            cur = match cur {
                                Some(mut r) => {
                                    let ghost before = rev_view(r);
                                    r.nodes.push(n);
                                    assert(rev_view(r).nodes =~= before.nodes.push(nv));
                                    Some(r)
                                },
                                None => None,
                            };
                            at = q;
                        },
                    }
                } else {
                    at = next;
                }
            },
        }
    }
}

} // verus!
