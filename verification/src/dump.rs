//! Parser of Subversion dump files (format versions 2 and 3).
//!
//! The input is read line by line; a line is the bytes up to and including the next
//! newline, and must be valid UTF-8. Headers are `Key: value` lines. Property and text
//! blocks are read as raw bytes of the length their headers give.
use vstd::prelude::*;
use crate::text::{trim, starts_with, split_once, parse_unsigned, parse_u64, lossy_text, find, chars_of, find_sub, trimmed_string, str_starts_with, str_eq, parse_u64_str, utf8_text, utf8_lossy_text};
use crate::codec::copy_range;
use crate::strmap::StrMap;
use crate::dump_format::{DumpEntry, DumpFormat, opt_text};
use crate::dump_format::{EntrySpec, FormatSpec, NodeKind, NodeAction, new_entry};

verus! {

/// The message of a line that is not valid UTF-8.
pub open spec fn utf8_error() -> Seq<char> {
    "stream did not contain valid UTF-8"@
}

/// The message of a block that runs past the end of the input.
pub open spec fn eof_error() -> Seq<char> {
    "failed to fill whole buffer"@
}

// ─────────────────────────── lines ───────────────────────────

/// The position just after the line that starts at `pos`: after its newline, or the
/// end of the input.
pub open spec fn line_end(data: Seq<u8>, pos: nat) -> nat
    decreases data.len() - pos,
{
    if pos >= data.len() {
        data.len()
    } else if data[pos as int] == 10 {
        pos + 1
    } else {
        line_end(data, pos + 1)
    }
}

/// The outcome of reading a line.
pub enum LineRead {
    /// No bytes are left.
    Eof,
    /// The line is not valid UTF-8.
    Invalid,
    /// The line's text, trimmed, and where the next line starts.
    Text(Seq<char>, nat),
}

/// Reads the line at `pos`.
pub open spec fn read_line(data: Seq<u8>, pos: nat) -> LineRead {
    if pos >= data.len() {
        LineRead::Eof
    } else {
        let e = line_end(data, pos);
        let b = data.subrange(pos as int, e as int);
        if vstd::utf8::valid_utf8(b) {
            LineRead::Text(trim(vstd::utf8::decode_utf8(b)), e)
        } else {
            LineRead::Invalid
        }
    }
}

/// A line ends after its start and within the input.
pub proof fn lemma_line_end(data: Seq<u8>, pos: nat)
    requires
        pos <= data.len(),
    ensures
        pos <= line_end(data, pos) <= data.len(),
        pos < data.len() ==> pos < line_end(data, pos),
    decreases data.len() - pos,
{
    if pos < data.len() && data[pos as int] != 10 {
        lemma_line_end(data, pos + 1);
    }
}

// ─────────────────────────── headers ───────────────────────────

/// The value of a `Key: value` header: what follows the first `": "`, trimmed; empty
/// where there is none.
pub open spec fn header_value(t: Seq<char>) -> Seq<char> {
    match split_once(t, seq![':', ' ']) {
        Some((_, rest)) => trim(rest),
        None => Seq::empty(),
    }
}

/// A header's value read as a `usize`, 0 where it is not one.
pub open spec fn num_usize(t: Seq<char>) -> nat {
    match parse_unsigned(header_value(t), usize::MAX as nat) {
        Some(v) => v,
        None => 0,
    }
}

/// A header's value read as a `u64`, 0 where it is not one.
pub open spec fn num_u64(t: Seq<char>) -> u64 {
    match parse_u64(header_value(t)) {
        Some(v) => v,
        None => 0,
    }
}

/// Which headers a block of header lines records.
#[derive(Clone, Copy, PartialEq, Eq, Structural)]
pub enum HeaderMode {
    /// After a revision line: property length and content length.
    Revision,
    /// After a node's property length: text length, content length and text MD5.
    AfterProps,
    /// After a node's text length: content length.
    AfterText,
    /// Nothing: the lines are skipped.
    Skip,
}

/// What a block of headers records: two lengths and a checksum.
pub type HeaderAcc = (nat, nat, Option<Seq<char>>);

/// The record after the header line `t`.
pub open spec fn absorb(mode: HeaderMode, acc: HeaderAcc, t: Seq<char>) -> HeaderAcc {
    match mode {
        HeaderMode::Revision => if starts_with(t, "Prop-content-length:"@) {
            (num_usize(t), acc.1, acc.2)
        } else if starts_with(t, "Content-length:"@) {
            (acc.0, num_usize(t), acc.2)
        } else {
            acc
        },
        HeaderMode::AfterProps => if starts_with(t, "Text-content-length:"@) {
            (num_usize(t), acc.1, acc.2)
        } else if starts_with(t, "Content-length:"@) {
            (acc.0, num_usize(t), acc.2)
        } else if starts_with(t, "Text-content-md5:"@) {
            (acc.0, acc.1, Some(header_value(t)))
        } else {
            acc
        },
        HeaderMode::AfterText => if starts_with(t, "Content-length:"@) {
            (acc.0, num_usize(t), acc.2)
        } else {
            acc
        },
        HeaderMode::Skip => acc,
    }
}

/// Reads header lines from `pos` up to the end of the input or an empty line (which
/// is consumed): the record, and where reading stopped; `None` for a line that is not
/// valid UTF-8.
pub open spec fn read_headers(data: Seq<u8>, pos: nat, mode: HeaderMode, acc: HeaderAcc) -> Option<(HeaderAcc, nat)>
    decreases data.len() - pos,
{
    match read_line(data, pos) {
        LineRead::Eof => Some((acc, pos)),
        LineRead::Invalid => None,
        LineRead::Text(t, next) => if t.len() == 0 {
            Some((acc, next))
        } else {
            proof {
                lemma_line_end(data, pos);
            }
            read_headers(data, next, mode, absorb(mode, acc, t))
        },
    }
}

/// Reading headers never moves backwards nor past the end.
pub proof fn lemma_read_headers_pos(data: Seq<u8>, pos: nat, mode: HeaderMode, acc: HeaderAcc)
    requires
        pos <= data.len(),
    ensures
        read_headers(data, pos, mode, acc) matches Some((_, p)) ==> pos <= p <= data.len(),
    decreases data.len() - pos,
{
    lemma_line_end(data, pos);
    if let LineRead::Text(t, next) = read_line(data, pos) {
        if t.len() != 0 {
            lemma_read_headers_pos(data, next, mode, absorb(mode, acc, t));
        }
    }
}

// ─────────────────────────── properties ───────────────────────────

/// The text of the line at `pos` without its line ending (`str::lines`: a line ends
/// at `\n`, and a `\r` just before it is dropped too).
pub open spec fn line_text(b: Seq<u8>, pos: nat) -> Seq<u8> {
    let e = line_end(b, pos);
    if e > pos && b[e - 1] == 10 {
        let l = b.subrange(pos as int, e - 1);
        if l.len() > 0 && l.last() == 13 {
            l.drop_last()
        } else {
            l
        }
    } else {
        b.subrange(pos as int, e as int)
    }
}

/// The lines of `b` from `pos` on, as `str::lines` gives them.
pub open spec fn lines_from(b: Seq<u8>, pos: nat) -> Seq<Seq<u8>>
    decreases b.len() - pos,
{
    if pos >= b.len() {
        Seq::empty()
    } else {
        proof {
            lemma_line_end(b, pos);
        }
        seq![line_text(b, pos)] + lines_from(b, line_end(b, pos))
    }
}

/// The lines of `b`, as `str::lines` gives them.
pub open spec fn byte_lines(b: Seq<u8>) -> Seq<Seq<u8>> {
    lines_from(b, 0)
}

/// Bytes read one for one as characters.
pub open spec fn byte_chars(b: Seq<u8>) -> Seq<char> {
    Seq::new(b.len(), |i: int| b[i] as char)
}

/// The number after the two-byte prefix of a `K n` or `V n` line, 0 where there is none.
pub open spec fn len_after_tag(l: Seq<u8>) -> nat {
    match parse_unsigned(byte_chars(l.subrange(2, l.len() as int)), usize::MAX as nat) {
        Some(v) => v,
        None => 0,
    }
}

/// The first `n` bytes of `l`, or all of it where it is shorter.
pub open spec fn prefix_upto(l: Seq<u8>, n: nat) -> Seq<u8> {
    if n < l.len() {
        l.subrange(0, n as int)
    } else {
        l
    }
}

/// `l` begins with the bytes of `tag` followed by a space.
pub open spec fn tagged(l: Seq<u8>, tag: u8) -> bool {
    l.len() >= 2 && l[0] == tag && l[1] == 32
}

/// The `PROPS-END` line.
pub open spec fn props_end() -> Seq<u8> {
    seq![80u8, 82, 79, 80, 83, 45, 69, 78, 68]
}

/// The properties in the lines from `i` on: `K n` / key / `V n` / value groups, up to
/// `PROPS-END`; lines that start no group are skipped.
pub open spec fn props_from(ls: Seq<Seq<u8>>, i: nat, m: Map<Seq<char>, Seq<char>>) -> Map<Seq<char>, Seq<char>>
    decreases ls.len() - i,
{
    if i >= ls.len() || ls[i as int] == props_end() {
        m
    } else if tagged(ls[i as int], 75) {
        if i + 1 >= ls.len() || i + 2 >= ls.len() {
            m
        } else if tagged(ls[i as int + 2], 86) {
            if i + 3 >= ls.len() {
                m
            } else {
                let key = prefix_upto(ls[i as int + 1], len_after_tag(ls[i as int]));
                let val = prefix_upto(ls[i as int + 3], len_after_tag(ls[i as int + 2]));
                props_from(ls, i + 4, m.insert(lossy_text(key), lossy_text(val)))
            }
        } else {
            props_from(ls, i + 3, m)
        }
    } else {
        props_from(ls, i + 1, m)
    }
}

/// The properties of a property block, read from the lines of its lossy text.
pub open spec fn parse_props(b: Seq<u8>) -> Map<Seq<char>, Seq<char>> {
    props_from(byte_lines(vstd::utf8::encode_utf8(lossy_text(b))), 0, Map::empty())
}

// ─────────────────────────── nodes ───────────────────────────

/// The node kind a header value names.
pub open spec fn kind_of(v: Seq<char>) -> Option<NodeKind> {
    if v == "file"@ {
        Some(NodeKind::File)
    } else if v == "dir"@ {
        Some(NodeKind::Dir)
    } else {
        None
    }
}

/// The node action a header value names.
pub open spec fn action_of(v: Seq<char>) -> Option<NodeAction> {
    if v == "add"@ {
        Some(NodeAction::Add)
    } else if v == "delete"@ {
        Some(NodeAction::Delete)
    } else if v == "change"@ {
        Some(NodeAction::Change)
    } else if v == "replace"@ {
        Some(NodeAction::Replace)
    } else {
        None
    }
}

/// After a node's property length `pl`: the remaining headers, then the block of
/// properties and text, then one line more.
pub open spec fn props_block(data: Seq<u8>, pos: nat, e: EntrySpec, pl: nat) -> Result<(EntrySpec, nat), Seq<char>> {
    match read_headers(data, pos, HeaderMode::AfterProps, (0, 0, e.md5_checksum)) {
        None => Err(utf8_error()),
        Some(((tl, total, md5), p)) => {
            let e1 = EntrySpec { md5_checksum: md5, ..e };
            let rl = if total > 0 { total } else { pl + tl };
            if rl == 0 {
                Ok((e1, line_end(data, p)))
            } else if p + rl > data.len() {
                Err(eof_error())
            } else {
                let buf = data.subrange(p as int, p as int + rl);
                let e2 = if pl > 0 && pl <= rl { EntrySpec { props: parse_props(buf.subrange(0, pl as int)), ..e1 } } else { e1 };
                let e3 = if tl > 0 && pl + tl <= rl { EntrySpec { content: buf.subrange(pl as int, pl as int + tl), ..e2 } } else { e2 };
                Ok((e3, line_end(data, p + rl)))
            }
        },
    }
}

/// After a node's text length `tl` (with no property length before it): the
/// remaining headers, then the text, then one line more.
pub open spec fn text_block(data: Seq<u8>, pos: nat, e: EntrySpec, tl: nat) -> Result<(EntrySpec, nat), Seq<char>> {
    match read_headers(data, pos, HeaderMode::AfterText, (0, 0, None)) {
        None => Err(utf8_error()),
        Some(((_, total, _), p)) => {
            let rl = if total > 0 { total } else { tl };
            if rl == 0 {
                Ok((e, line_end(data, p)))
            } else if p + rl > data.len() {
                Err(eof_error())
            } else {
                let n = if tl < rl { tl } else { rl };
                Ok((EntrySpec { content: data.subrange(p as int, p as int + n), ..e }, line_end(data, p + rl)))
            }
        },
    }
}

/// After a node's bare content length `cl`: the remaining headers, the content
/// (skipped), then one line more.
pub open spec fn skip_block(data: Seq<u8>, pos: nat, e: EntrySpec, cl: nat) -> Result<(EntrySpec, nat), Seq<char>> {
    match read_headers(data, pos, HeaderMode::Skip, (0, 0, None)) {
        None => Err(utf8_error()),
        Some((_, p)) => if cl == 0 {
            Ok((e, line_end(data, p)))
        } else if p + cl > data.len() {
            Err(eof_error())
        } else {
            Ok((e, line_end(data, p + cl)))
        },
    }
}

/// The headers of a node, from the line after its `Node-path`, up to an empty line or
/// to the end of the first length header's block: the node, and where it ends.
pub open spec fn node_headers(data: Seq<u8>, pos: nat, e: EntrySpec) -> Result<(EntrySpec, nat), Seq<char>>
    decreases data.len() - pos,
{
    match read_line(data, pos) {
        LineRead::Eof => Ok((e, pos)),
        LineRead::Invalid => Err(utf8_error()),
        LineRead::Text(t, next) => {
            proof {
                lemma_line_end(data, pos);
            }
            let v = header_value(t);
            if t.len() == 0 {
                Ok((e, next))
            } else if starts_with(t, "Node-kind:"@) {
                node_headers(data, next, EntrySpec { node_kind: kind_of(v), ..e })
            } else if starts_with(t, "Node-action:"@) {
                node_headers(data, next, EntrySpec { node_action: action_of(v), ..e })
            } else if starts_with(t, "Node-copyfrom-path:"@) {
                node_headers(data, next, EntrySpec { copy_from_path: Some(v), ..e })
            } else if starts_with(t, "Node-copyfrom-rev:"@) {
                node_headers(data, next, EntrySpec { copy_from_rev: Some(num_u64(t)), ..e })
            } else if starts_with(t, "Text-content-md5:"@) {
                node_headers(data, next, EntrySpec { md5_checksum: Some(v), ..e })
            } else if starts_with(t, "Prop-content-length:"@) {
                props_block(data, next, e, num_usize(t))
            } else if starts_with(t, "Text-content-length:"@) {
                text_block(data, next, e, num_usize(t))
            } else if starts_with(t, "Content-length:"@) {
                skip_block(data, next, e, num_usize(t))
            } else {
                node_headers(data, next, e)
            }
        },
    }
}

/// The block readers end after where they start and within the input.
pub proof fn lemma_blocks_pos(data: Seq<u8>, pos: nat, e: EntrySpec, n: nat)
    requires
        pos <= data.len(),
    ensures
        props_block(data, pos, e, n) matches Ok((_, q)) ==> pos <= q <= data.len(),
        text_block(data, pos, e, n) matches Ok((_, q)) ==> pos <= q <= data.len(),
        skip_block(data, pos, e, n) matches Ok((_, q)) ==> pos <= q <= data.len(),
{
    lemma_read_headers_pos(data, pos, HeaderMode::AfterProps, (0, 0, e.md5_checksum));
    lemma_read_headers_pos(data, pos, HeaderMode::AfterText, (0, 0, None));
    lemma_read_headers_pos(data, pos, HeaderMode::Skip, (0, 0, None));
    if let Some((_, p)) = read_headers(data, pos, HeaderMode::AfterProps, (0, 0, e.md5_checksum)) {
        lemma_line_end(data, p);
        let rl = props_block_len(data, pos, e, n);
        if p + rl <= data.len() {
            lemma_line_end(data, p + rl);
        }
    }
    if let Some((a, p)) = read_headers(data, pos, HeaderMode::AfterText, (0, 0, None)) {
        lemma_line_end(data, p);
        let rl = if a.1 > 0 { a.1 } else { n };
        if p + rl <= data.len() {
            lemma_line_end(data, p + rl);
        }
    }
    if let Some((_, p)) = read_headers(data, pos, HeaderMode::Skip, (0, 0, None)) {
        lemma_line_end(data, p);
        if p + n <= data.len() {
            lemma_line_end(data, p + n);
        }
    }
}

/// The length of the block that `props_block` reads.
pub open spec fn props_block_len(data: Seq<u8>, pos: nat, e: EntrySpec, pl: nat) -> nat {
    match read_headers(data, pos, HeaderMode::AfterProps, (0, 0, e.md5_checksum)) {
        None => 0,
        Some(((tl, total, _), _)) => if total > 0 { total } else { pl + tl },
    }
}

/// A node's headers end after where they start and within the input.
pub proof fn lemma_node_headers_pos(data: Seq<u8>, pos: nat, e: EntrySpec)
    requires
        pos <= data.len(),
    ensures
        node_headers(data, pos, e) matches Ok((_, q)) ==> pos <= q <= data.len(),
    decreases data.len() - pos,
{
    lemma_line_end(data, pos);
    if let LineRead::Text(t, next) = read_line(data, pos) {
        let v = header_value(t);
        lemma_blocks_pos(data, next, e, num_usize(t));
        lemma_node_headers_pos(data, next, EntrySpec { node_kind: kind_of(v), ..e });
        lemma_node_headers_pos(data, next, EntrySpec { node_action: action_of(v), ..e });
        lemma_node_headers_pos(data, next, EntrySpec { copy_from_path: Some(v), ..e });
        lemma_node_headers_pos(data, next, EntrySpec { copy_from_rev: Some(num_u64(t)), ..e });
        lemma_node_headers_pos(data, next, EntrySpec { md5_checksum: Some(v), ..e });
        lemma_node_headers_pos(data, next, e);
    }
}

// ─────────────────────────── dump ───────────────────────────

/// The parser's state between lines: the dump so far, the pending revision and node
/// entries, and the current revision number.
pub struct ParseState {
    pub dump: FormatSpec,
    pub rev: Option<EntrySpec>,
    pub node: Option<EntrySpec>,
    pub rev_num: u64,
}

/// `d` with the pending entry `o`, if any, appended.
pub open spec fn flush(d: FormatSpec, o: Option<EntrySpec>) -> FormatSpec {
    match o {
        Some(e) => FormatSpec { entries: d.entries.push(e), ..d },
        None => d,
    }
}

/// The revision entry of number `rn` whose headers end at `p` with property length
/// `pl` and content length `cl`, and where its block ends; `None` where the block runs
/// past the end of the input.
pub open spec fn revision_block(data: Seq<u8>, p: nat, rn: u64, pl: nat, cl: nat) -> Option<(EntrySpec, nat)> {
    if cl == 0 && pl == 0 {
        Some((new_entry(rn), p))
    } else {
        let total = if cl > 0 { cl } else { pl };
        if p + total > data.len() {
            None
        } else if pl > 0 {
            let n = if pl < total { pl } else { total };
            Some((EntrySpec { props: parse_props(data.subrange(p as int, p as int + n)), ..new_entry(rn) }, p + total))
        } else {
            Some((new_entry(rn), p + total))
        }
    }
}

/// Parses the lines from `pos` on, from the state `st`.
pub open spec fn parse_from(data: Seq<u8>, pos: nat, st: ParseState) -> Result<ParseState, Seq<char>>
    decreases data.len() - pos,
{
    if pos > data.len() {
        Ok(st)
    } else {
        match read_line(data, pos) {
            LineRead::Eof => Ok(st),
            LineRead::Invalid => Err(utf8_error()),
            LineRead::Text(t, next) => {
                proof {
                    lemma_line_end(data, pos);
                }
                let v = header_value(t);
                if starts_with(t, "SVN-fs-dump-format-version:"@) {
                    parse_from(data, next, ParseState { dump: FormatSpec { format_version: v, ..st.dump }, ..st })
                } else if starts_with(t, "UUID:"@) {
                    parse_from(data, next, ParseState { dump: FormatSpec { uuid: v, ..st.dump }, ..st })
                } else if starts_with(t, "Revision-number:"@) {
                    let d1 = flush(flush(st.dump, st.node), st.rev);
                    let rn = num_u64(t);
                    match read_headers(data, next, HeaderMode::Revision, (0, 0, None)) {
                        None => Err(utf8_error()),
                        Some(((pl, cl, _), p)) => match revision_block(data, p, rn, pl, cl) {
                            None => Err(eof_error()),
                            Some((e, q)) => {
                                proof {
                                    lemma_read_headers_pos(data, next, HeaderMode::Revision, (0, 0, None));
                                }
                                parse_from(data, q, ParseState { dump: d1, rev: Some(e), node: None, rev_num: rn })
                            },
                        },
                    }
                } else if starts_with(t, "Node-path:"@) {
                    let d1 = flush(flush(st.dump, st.rev), st.node);
                    let e0 = EntrySpec { node_path: Some(v), ..new_entry(st.rev_num) };
                    match node_headers(data, next, e0) {
                        Err(m) => Err(m),
                        Ok((e, q)) => {
                            proof {
                                lemma_node_headers_pos(data, next, e0);
                            }
                            parse_from(data, q, ParseState { dump: d1, rev: None, node: Some(e), ..st })
                        },
                    }
                } else {
                    parse_from(data, next, st)
                }
            },
        }
    }
}

/// The dump that the bytes `data` describe, starting from `init`: its format version
/// and UUID where the headers give them, and its entries in input order, each
/// revision's entry before the entries of its nodes (a revision's entry is written
/// out when its first node starts, or when the next revision starts, or at the end);
/// or the error at the first line that is not UTF-8 or block that runs past the end.
pub open spec fn parse_dump(data: Seq<u8>, init: FormatSpec) -> Result<FormatSpec, Seq<char>> {
    match parse_from(data, 0, ParseState { dump: init, rev: None, node: None, rev_num: 0 }) {
        Ok(st) => Ok(flush(flush(st.dump, st.node), st.rev)),
        Err(m) => Err(m),
    }
}

// ─────────────────────────── reading ───────────────────────────

/// Where the line at `pos` ends.
pub(crate) fn find_line_end(data: &[u8], pos: usize) -> (e: usize)
    requires
        pos <= data@.len(),
    ensures
        e == line_end(data@, pos as nat),
{
    let mut i = pos;
    while i < data.len() && data[i] != 10
        invariant
            pos <= i <= data@.len(),
            line_end(data@, pos as nat) == line_end(data@, i as nat),
        decreases data.len() - i,
    {
        i = i + 1;
    }
    if i < data.len() {
        i + 1
    } else {
        i
    }
}

/// A line as read: nothing left, invalid UTF-8, or the trimmed text and the next
/// position.
pub enum NextLine {
    Eof,
    Invalid,
    Text(String, usize),
}

/// Reads the line at `pos`.
pub(crate) fn next_line(data: &[u8], pos: usize) -> (r: NextLine)
    requires
        pos <= data@.len(),
    ensures
        match (r, read_line(data@, pos as nat)) {
            (NextLine::Eof, LineRead::Eof) => true,
            (NextLine::Invalid, LineRead::Invalid) => true,
            (NextLine::Text(t, n), LineRead::Text(u, m)) => t@ == u && n == m,
            _ => false,
        },
{
    if pos >= data.len() {
        return NextLine::Eof;
    }
    let e = find_line_end(data, pos);
    proof {
        lemma_line_end(data@, pos as nat);
    }
    let bytes = copy_range(data, pos, e);
    match utf8_text(bytes.as_slice()) {
        None => NextLine::Invalid,
        Some(s) => {
            let v = chars_of(s.as_str());
            let t = trimmed_string(&v, 0, v.len());
            assert(v@.subrange(0, v@.len() as int) =~= v@);
            NextLine::Text(t, e)
        },
    }
}

/// The value of a `Key: value` header.
pub(crate) fn header_value_of(t: &str) -> (v: String)
    ensures
        v@ == header_value(t@),
{
    let c = chars_of(t);
    let sep = chars_of(": ");
    proof {
        reveal_strlit(": ");
        assert(sep@ =~= seq![':', ' ']);
        assert(c@.subrange(0, c@.len() as int) =~= c@);
    }
    match find_sub(&c, &sep, 0, c.len()) {
        Some(i) => trimmed_string(&c, i + 2, c.len()),
        None => {
            let r = String::new();
            assert(r@ =~= Seq::<char>::empty());
            r
        },
    }
}

/// A header's value as a `usize`, 0 where it is not one.
pub(crate) fn header_usize(t: &str) -> (n: usize)
    ensures
        n == num_usize(t@),
{
    let v = header_value_of(t);
    match parse_u64_str(v.as_str()) {
        Some(x) => {
            if x <= usize::MAX as u64 {
                x as usize
            } else {
                0
            }
        },
        None => 0,
    }
}

/// A header's value as a `u64`, 0 where it is not one.
pub(crate) fn header_u64(t: &str) -> (n: u64)
    ensures
        n == num_u64(t@),
{
    let v = header_value_of(t);
    match parse_u64_str(v.as_str()) {
        Some(x) => x,
        None => 0,
    }
}

/// The plain value of a header record.
pub open spec fn acc_view(a: (usize, usize, Option<String>)) -> HeaderAcc {
    (a.0 as nat, a.1 as nat, opt_text(a.2))
}

/// The record after the header line `t`.
fn absorb_line(mode: HeaderMode, acc: (usize, usize, Option<String>), t: &str) -> (r: (usize, usize, Option<String>))
    ensures
        acc_view(r) == absorb(mode, acc_view(acc), t@),
{
    let (a, b, c) = acc;
    match mode {
        HeaderMode::Revision => {
            if str_starts_with(t, "Prop-content-length:") {
                (header_usize(t), b, c)
            } else if str_starts_with(t, "Content-length:") {
                (a, header_usize(t), c)
            } else {
                (a, b, c)
            }
        },
        HeaderMode::AfterProps => {
            if str_starts_with(t, "Text-content-length:") {
                (header_usize(t), b, c)
            } else if str_starts_with(t, "Content-length:") {
                (a, header_usize(t), c)
            } else if str_starts_with(t, "Text-content-md5:") {
                (a, b, Some(header_value_of(t)))
            } else {
                (a, b, c)
            }
        },
        HeaderMode::AfterText => {
            if str_starts_with(t, "Content-length:") {
                (a, header_usize(t), c)
            } else {
                (a, b, c)
            }
        },
        HeaderMode::Skip => (a, b, c),
    }
}

/// Reads header lines from `pos` up to the end or an empty line.
pub(crate) fn read_header_lines(data: &[u8], pos: usize, mode: HeaderMode, acc: (usize, usize, Option<String>))
    -> (r: Option<((usize, usize, Option<String>), usize)>)
    requires
        pos <= data@.len(),
    ensures
        r is Some <==> read_headers(data@, pos as nat, mode, acc_view(acc)) is Some,
        r matches Some((a, p)) ==> read_headers(data@, pos as nat, mode, acc_view(acc)) == Some((acc_view(a), p as nat)),
{
    let mut cur = acc;
    let mut at = pos;
    loop
        invariant
            at <= data@.len(),
            read_headers(data@, at as nat, mode, acc_view(cur)) == read_headers(data@, pos as nat, mode, acc_view(acc)),
        decreases data@.len() - at,
    {
        proof {
            lemma_line_end(data@, at as nat);
        }
        match next_line(data, at) {
            NextLine::Eof => {
                return Some((cur, at));
            },
            NextLine::Invalid => {
                return None;
            },
            NextLine::Text(t, next) => {
                if t.as_str().is_empty() {
                    return Some((cur, next));
                }
                cur = absorb_line(mode, cur, t.as_str());
                at = next;
            },
        }
    }
}

/// The text of the lines that `r` marks in `b`.
pub open spec fn ranges_text(b: Seq<u8>, r: Seq<(usize, usize)>) -> Seq<Seq<u8>> {
    Seq::new(r.len(), |i: int| b.subrange(r[i].0 as int, r[i].1 as int))
}

/// Where the lines of `b` are: for each, where its text starts and ends.
fn line_ranges(b: &[u8]) -> (r: Vec<(usize, usize)>)
    ensures
        ranges_text(b@, r@) == byte_lines(b@),
        forall|i: int| 0 <= i < r@.len() ==> (#[trigger] r@[i]).0 <= r@[i].1 <= b@.len(),
{
    let mut r: Vec<(usize, usize)> = Vec::new();
    let mut pos: usize = 0;
    while pos < b.len()
        invariant
            pos <= b@.len(),
            ranges_text(b@, r@) + lines_from(b@, pos as nat) == byte_lines(b@),
            forall|i: int| 0 <= i < r@.len() ==> (#[trigger] r@[i]).0 <= r@[i].1 <= b@.len(),
        decreases b@.len() - pos,
    {
        let e = find_line_end(b, pos);
        proof {
            lemma_line_end(b@, pos as nat);
        }
        let mut t = e;
        if t > pos && b[t - 1] == 10 {
            t = t - 1;
            if t > pos && b[t - 1] == 13 {
                t = t - 1;
            }
        }
        let ghost old_r = r@;
        r.push((pos, t));
        proof {
            let lt = line_text(b@, pos as nat);
            assert(b@.subrange(pos as int, t as int) =~= lt);
            assert(ranges_text(b@, r@) =~= ranges_text(b@, old_r).push(lt));
            assert(lines_from(b@, pos as nat) == seq![lt] + lines_from(b@, e as nat));
            assert(ranges_text(b@, r@) + lines_from(b@, e as nat) =~= ranges_text(b@, old_r) + lines_from(b@, pos as nat));
        }
        pos = e;
    }
    assert(ranges_text(b@, r@) + lines_from(b@, pos as nat) =~= ranges_text(b@, r@));
    r
}

/// Whether `b[from..to]` equals `pat`.
fn bytes_eq_at(b: &[u8], from: usize, to: usize, pat: &[u8]) -> (r: bool)
    requires
        from <= to <= b@.len(),
    ensures
        r == (b@.subrange(from as int, to as int) == pat@),
{
    if to - from != pat.len() {
        return false;
    }
    let mut i: usize = 0;
    while i < pat.len()
        invariant
            to - from == pat@.len(),
            from <= to <= b@.len(),
            i <= pat@.len(),
            forall|j: int| 0 <= j < i ==> b@[from + j] == pat@[j],
        decreases pat@.len() - i,
    {
        if b[from + i] != pat[i] {
            assert(b@.subrange(from as int, to as int)[i as int] != pat@[i as int]);
            return false;
        }
        i = i + 1;
    }
    assert(b@.subrange(from as int, to as int) =~= pat@);
    true
}

/// The number after the two-byte tag of the line `b[from..to]`.
fn tag_len(b: &[u8], from: usize, to: usize) -> (n: usize)
    requires
        from + 2 <= to <= b@.len(),
    ensures
        n == len_after_tag(b@.subrange(from as int, to as int)),
{
    let mut v: Vec<char> = Vec::new();
    let mut i = from + 2;
    while i < to
        invariant
            from + 2 <= i <= to <= b@.len(),
            v@ == byte_chars(b@.subrange(from + 2, i as int)),
        decreases to - i,
    {
        v.push(b[i] as char);
        i = i + 1;
        assert(v@ =~= byte_chars(b@.subrange(from + 2, i as int)));
    }
    let ghost l = b@.subrange(from as int, to as int);
    assert(l.subrange(2, l.len() as int) =~= b@.subrange(from + 2, to as int));
    assert(v@.subrange(0, v@.len() as int) =~= v@);
    match crate::text::parse_u64_range(&v, 0, v.len()) {
        Some(x) => {
            if x <= usize::MAX as u64 {
                x as usize
            } else {
                0
            }
        },
        None => 0,
    }
}

/// The lossy text of the first `n` bytes of `b[from..to]`, or of all of it.
fn prefix_text(b: &[u8], from: usize, to: usize, n: usize) -> (s: String)
    requires
        from <= to <= b@.len(),
    ensures
        s@ == lossy_text(prefix_upto(b@.subrange(from as int, to as int), n as nat)),
{
    let end = if n < to - from { from + n } else { to };
    let bytes = copy_range(b, from, end);
    assert(bytes@ =~= prefix_upto(b@.subrange(from as int, to as int), n as nat));
    utf8_lossy_text(bytes.as_slice())
}

/// The text values of a string map.
pub open spec fn text_map(m: Map<Seq<char>, String>) -> Map<Seq<char>, Seq<char>> {
    m.map_values(|v: String| v@)
}

/// Parses a property block: its lossy text, line by line.
pub(crate) fn parse_prop_block(b: &[u8]) -> (m: StrMap<String>)
    ensures
        m.wf(),
        text_map(m@) == parse_props(b@),
{
    let text = utf8_lossy_text(b);
    assert(text@ == lossy_text(b@));
    parse_prop_lines(text.as_str().as_bytes())
}

/// Reads the properties from the lines of a property block's text.
fn parse_prop_lines(b: &[u8]) -> (m: StrMap<String>)
    ensures
        m.wf(),
        text_map(m@) == props_from(byte_lines(b@), 0, Map::empty()),
{
    let ls = line_ranges(b);
    let ghost lines = byte_lines(b@);
    let mut m: StrMap<String> = StrMap::new();
    let end_pat: [u8; 9] = [80u8, 82, 79, 80, 83, 45, 69, 78, 68];
    assert(end_pat@ =~= props_end());
    assert(text_map(m@) =~= Map::<Seq<char>, Seq<char>>::empty());
    let mut i: usize = 0;
    while i < ls.len()
        invariant
            m.wf(),
            end_pat@ == props_end(),
            lines == byte_lines(b@),
            ranges_text(b@, ls@) == lines,
            forall|k: int| 0 <= k < ls@.len() ==> (#[trigger] ls@[k]).0 <= ls@[k].1 <= b@.len(),
            props_from(lines, i as nat, text_map(m@)) == props_from(byte_lines(b@), 0, Map::empty()),
        decreases ls@.len() - i,
    {
        let (f, t) = ls[i];
        assert(b@.subrange(f as int, t as int) == lines[i as int]);
        if bytes_eq_at(b, f, t, vstd::array::array_as_slice(&end_pat)) {
            return m;
        }
        if t - f >= 2 && b[f] == 75 && b[f + 1] == 32 {
            if i + 1 >= ls.len() || i + 2 >= ls.len() {
                return m;
            }
            let (vf, vt) = ls[i + 2];
            assert(b@.subrange(vf as int, vt as int) == lines[i + 2]);
            if vt - vf >= 2 && b[vf] == 86 && b[vf + 1] == 32 {
                if i + 3 >= ls.len() {
                    return m;
                }
                let (kf, kt) = ls[i + 1];
                let (wf, wt) = ls[i + 3];
                assert(b@.subrange(kf as int, kt as int) == lines[i + 1]);
                assert(b@.subrange(wf as int, wt as int) == lines[i + 3]);
                let kl = tag_len(b, f, t);
                let vl = tag_len(b, vf, vt);
                let key = prefix_text(b, kf, kt, kl);
                let val = prefix_text(b, wf, wt, vl);
                let ghost before = m@;
                m.insert(key, val);
                proof {
                    assert(text_map(m@) =~= text_map(before).insert(key@, val@));
                }
                i = i + 4;
            } else {
                i = i + 3;
            }
        } else {
            i = i + 1;
        }
    }
    m
}

/// The text of the UTF-8 error.
pub(crate) fn utf8_error_text() -> (s: String)
    ensures
        s@ == utf8_error(),
{
    crate::text::to_owned("stream did not contain valid UTF-8")
}

/// The text of the end-of-input error.
pub(crate) fn eof_error_text() -> (s: String)
    ensures
        s@ == eof_error(),
{
    crate::text::to_owned("failed to fill whole buffer")
}

/// A node block's outcome matches its spec.
pub open spec fn block_matches(r: Result<(DumpEntry, usize), String>, s: Result<(EntrySpec, nat), Seq<char>>) -> bool {
    match r {
        Ok((x, q)) => s == Ok::<(EntrySpec, nat), Seq<char>>((x@, q as nat)),
        Err(m) => s == Err::<(EntrySpec, nat), Seq<char>>(m@),
    }
}

/// Reads a node's property and text block (after its property length `pl`).
fn read_props_block(data: &[u8], pos: usize, e: DumpEntry, pl: usize) -> (r: Result<(DumpEntry, usize), String>)
    requires
        pos <= data@.len(),
    ensures
        block_matches(r, props_block(data@, pos as nat, e@, pl as nat)),
{
    let ghost e0 = e@;
    let mut ent = e;
    let md5 = ent.md5_checksum;
    ent.md5_checksum = None;
    match read_header_lines(data, pos, HeaderMode::AfterProps, (0, 0, md5)) {
        None => Err(utf8_error_text()),
        Some(((tl, total, md5b), p)) => {
            proof {
                lemma_read_headers_pos(data@, pos as nat, HeaderMode::AfterProps, (0, 0, e0.md5_checksum));
            }
            ent.md5_checksum = md5b;
            let rl: u128 = if total > 0 { total as u128 } else { pl as u128 + tl as u128 };
            if rl == 0 {
                return Ok((ent, find_line_end(data, p)));
            }
            if rl > (data.len() - p) as u128 {
                return Err(eof_error_text());
            }
            let rlu = rl as usize;
            let ghost buf = data@.subrange(p as int, p + rlu);
            if pl > 0 && pl <= rlu {
                let pb = copy_range(data, p, p + pl);
                assert(pb@ =~= buf.subrange(0, pl as int));
                ent.props = parse_prop_block(pb.as_slice());
            }
            if tl > 0 && (pl as u128 + tl as u128) <= rl {
                let cb = copy_range(data, p + pl, p + pl + tl);
                assert(cb@ =~= buf.subrange(pl as int, pl + tl));
                ent.content = cb;
            }
            proof {
                lemma_line_end(data@, (p + rlu) as nat);
            }
            Ok((ent, find_line_end(data, p + rlu)))
        },
    }
}

/// Reads a node's text block (after its text length `tl`).
fn read_text_block(data: &[u8], pos: usize, e: DumpEntry, tl: usize) -> (r: Result<(DumpEntry, usize), String>)
    requires
        pos <= data@.len(),
    ensures
        block_matches(r, text_block(data@, pos as nat, e@, tl as nat)),
{
    let mut ent = e;
    match read_header_lines(data, pos, HeaderMode::AfterText, (0, 0, None)) {
        None => Err(utf8_error_text()),
        Some(((_, total, _), p)) => {
            proof {
                lemma_read_headers_pos(data@, pos as nat, HeaderMode::AfterText, (0, 0, None));
            }
            let rl = if total > 0 { total } else { tl };
            if rl == 0 {
                return Ok((ent, find_line_end(data, p)));
            }
            if rl > data.len() - p {
                return Err(eof_error_text());
            }
            let n = if tl < rl { tl } else { rl };
            ent.content = copy_range(data, p, p + n);
            proof {
                lemma_line_end(data@, (p + rl) as nat);
            }
            Ok((ent, find_line_end(data, p + rl)))
        },
    }
}

/// Skips a node's content block (after its bare content length `cl`).
fn read_skip_block(data: &[u8], pos: usize, e: DumpEntry, cl: usize) -> (r: Result<(DumpEntry, usize), String>)
    requires
        pos <= data@.len(),
    ensures
        block_matches(r, skip_block(data@, pos as nat, e@, cl as nat)),
{
    match read_header_lines(data, pos, HeaderMode::Skip, (0, 0, None)) {
        None => Err(utf8_error_text()),
        Some((_, p)) => {
            proof {
                lemma_read_headers_pos(data@, pos as nat, HeaderMode::Skip, (0, 0, None));
            }
            if cl == 0 {
                return Ok((e, find_line_end(data, p)));
            }
            if cl > data.len() - p {
                return Err(eof_error_text());
            }
            proof {
                lemma_line_end(data@, (p + cl) as nat);
            }
            Ok((e, find_line_end(data, p + cl)))
        },
    }
}

/// The node kind a header value names.
pub(crate) fn kind_named(v: &str) -> (k: Option<NodeKind>)
    ensures
        k == kind_of(v@),
{
    if str_eq(v, "file") {
        Some(NodeKind::File)
    } else if str_eq(v, "dir") {
        Some(NodeKind::Dir)
    } else {
        None
    }
}

/// The node action a header value names.
pub(crate) fn action_named(v: &str) -> (a: Option<NodeAction>)
    ensures
        a == action_of(v@),
{
    if str_eq(v, "add") {
        Some(NodeAction::Add)
    } else if str_eq(v, "delete") {
        Some(NodeAction::Delete)
    } else if str_eq(v, "change") {
        Some(NodeAction::Change)
    } else if str_eq(v, "replace") {
        Some(NodeAction::Replace)
    } else {
        None
    }
}

/// Reads a node's headers, and its block where a length header starts one.
fn read_node(data: &[u8], pos: usize, e: DumpEntry) -> (r: Result<(DumpEntry, usize), String>)
    requires
        pos <= data@.len(),
    ensures
        block_matches(r, node_headers(data@, pos as nat, e@)),
{
    let mut cur = e;
    let mut at = pos;
    loop
        invariant
            at <= data@.len(),
            node_headers(data@, at as nat, cur@) == node_headers(data@, pos as nat, e@),
        decreases data@.len() - at,
    {
        proof {
            lemma_line_end(data@, at as nat);
        }
        match next_line(data, at) {
            NextLine::Eof => {
                return Ok((cur, at));
            },
            NextLine::Invalid => {
                return Err(utf8_error_text());
            },
            NextLine::Text(t, next) => {
                let ts = t.as_str();
                if ts.is_empty() {
                    return Ok((cur, next));
                }
                if str_starts_with(ts, "Node-kind:") {
                    let v = header_value_of(ts);
                    cur.node_kind = kind_named(v.as_str());
                } else if str_starts_with(ts, "Node-action:") {
                    let v = header_value_of(ts);
                    cur.node_action = action_named(v.as_str());
                } else if str_starts_with(ts, "Node-copyfrom-path:") {
                    cur.copy_from_path = Some(header_value_of(ts));
                } else if str_starts_with(ts, "Node-copyfrom-rev:") {
                    cur.copy_from_rev = Some(header_u64(ts));
                } else if str_starts_with(ts, "Text-content-md5:") {
                    cur.md5_checksum = Some(header_value_of(ts));
                } else if str_starts_with(ts, "Prop-content-length:") {
                    let n = header_usize(ts);
                    return read_props_block(data, next, cur, n);
                } else if str_starts_with(ts, "Text-content-length:") {
                    let n = header_usize(ts);
                    return read_text_block(data, next, cur, n);
                } else if str_starts_with(ts, "Content-length:") {
                    let n = header_usize(ts);
                    return read_skip_block(data, next, cur, n);
                }
                at = next;
            },
        }
    }
}

/// The plain value of a pending entry.
pub open spec fn opt_entry(o: Option<DumpEntry>) -> Option<EntrySpec> {
    match o {
        Some(e) => Some(e@),
        None => None,
    }
}

/// Appends the pending entry `o`, if any.
fn flush_into(d: &mut DumpFormat, o: Option<DumpEntry>)
    ensures
        final(d)@ == flush(old(d)@, opt_entry(o)),
{
    match o {
        Some(e) => {
            let ghost ev = e@;
            let ghost before = d.entries@;
            d.entries.push(e);
            assert(d.entries@.map_values(|x: DumpEntry| x@) =~= before.map_values(|x: DumpEntry| x@).push(ev));
        },
        None => {},
    }
}

/// The revision entry of number `rn` whose headers end at `p`.
fn read_revision(data: &[u8], p: usize, rn: u64, pl: usize, cl: usize) -> (r: Option<(DumpEntry, usize)>)
    requires
        p <= data@.len(),
    ensures
        match r {
            Some((e, q)) => revision_block(data@, p as nat, rn, pl as nat, cl as nat) == Some((e@, q as nat)),
            None => revision_block(data@, p as nat, rn, pl as nat, cl as nat) is None,
        },
{
    let mut e = DumpEntry::new(rn);
    if cl == 0 && pl == 0 {
        return Some((e, p));
    }
    let total = if cl > 0 { cl } else { pl };
    if total > data.len() - p {
        return None;
    }
    if pl > 0 {
        let n = if pl < total { pl } else { total };
        let pb = copy_range(data, p, p + n);
        e.props = parse_prop_block(pb.as_slice());
    }
    Some((e, p + total))
}

/// The parser's state as plain values.
pub open spec fn state_view(d: DumpFormat, rev: Option<DumpEntry>, node: Option<DumpEntry>, rn: u64) -> ParseState {
    ParseState { dump: d@, rev: opt_entry(rev), node: opt_entry(node), rev_num: rn }
}

/// Parses a dump from its bytes, starting from the dump `init`: the format version and
/// UUID headers replace `init`'s, and the entries are appended to `init`'s.
pub fn parse_dump_with(data: &[u8], init: DumpFormat) -> (r: Result<DumpFormat, String>)
    ensures
        r matches Ok(d) ==> parse_dump(data@, init@) == Ok::<FormatSpec, Seq<char>>(d@),
        r matches Err(m) ==> parse_dump(data@, init@) == Err::<FormatSpec, Seq<char>>(m@),
{
    let ghost st0 = ParseState { dump: init@, rev: None, node: None, rev_num: 0 };
    let mut dump = init;
    let mut rev: Option<DumpEntry> = None;
    let mut node: Option<DumpEntry> = None;
    let mut rn: u64 = 0;
    let mut at: usize = 0;
    loop
        invariant
            at <= data@.len(),
            st0 == (ParseState { dump: init@, rev: None, node: None, rev_num: 0 }),
            parse_from(data@, at as nat, state_view(dump, rev, node, rn)) == parse_from(data@, 0, st0),
        decreases data@.len() - at,
    {
        proof {
            lemma_line_end(data@, at as nat);
        }
        match next_line(data, at) {
            NextLine::Eof => {
                let ghost st = state_view(dump, rev, node, rn);
                assert(parse_from(data@, at as nat, st) == Ok::<ParseState, Seq<char>>(st));
                flush_into(&mut dump, node);
                flush_into(&mut dump, rev);
                assert(dump@ == flush(flush(st.dump, st.node), st.rev));
                return Ok(dump);
            },
            NextLine::Invalid => {
                return Err(utf8_error_text());
            },
            NextLine::Text(t, next) => {
                let ts = t.as_str();
                if str_starts_with(ts, "SVN-fs-dump-format-version:") {
                    dump.format_version = header_value_of(ts);
                    at = next;
                } else if str_starts_with(ts, "UUID:") {
                    dump.uuid = header_value_of(ts);
                    at = next;
                } else if str_starts_with(ts, "Revision-number:") {
                    flush_into(&mut dump, node);
                    node = None;
                    flush_into(&mut dump, rev);
                    rev = None;
                    let n = header_u64(ts);
                    match read_header_lines(data, next, HeaderMode::Revision, (0, 0, None)) {
                        None => {
                            return Err(utf8_error_text());
                        },
                        Some(((pl, cl, _), p)) => {
                            proof {
                                lemma_read_headers_pos(data@, next as nat, HeaderMode::Revision, (0, 0, None));
                            }
                            match read_revision(data, p, n, pl, cl) {
                                None => {
                                    return Err(eof_error_text());
                                },
                                Some((e, q)) => {
                                    rev = Some(e);
                                    rn = n;
                                    at = q;
                                },
                            }
                        },
                    }
                } else if str_starts_with(ts, "Node-path:") {
                    flush_into(&mut dump, rev);
                    rev = None;
                    flush_into(&mut dump, node);
                    node = None;
                    let mut e0 = DumpEntry::new(rn);
                    e0.node_path = Some(header_value_of(ts));
                    proof {
                        lemma_node_headers_pos(data@, next as nat, e0@);
                    }
                    match read_node(data, next, e0) {
                        Err(m) => {
                            return Err(m);
                        },
                        Ok((e, q)) => {
                            node = Some(e);
                            at = q;
                        },
                    }
                } else {
                    at = next;
                }
            },
        }
    }
}

/// Parses a dump from its bytes. The dump starts as `DumpFormat::new()` does: format
/// version 3 and a fresh random UUID, which headers of the input replace.
pub fn parse_dump_file(data: &[u8]) -> (r: Result<DumpFormat, String>)
    ensures
        exists|u: Seq<char>| #[trigger] crate::dump_format::uuid_text(u) && match r {
            Ok(d) => parse_dump(data@, FormatSpec { format_version: seq!['3'], uuid: u, entries: Seq::empty() })
                == Ok::<FormatSpec, Seq<char>>(d@),
            Err(m) => parse_dump(data@, FormatSpec { format_version: seq!['3'], uuid: u, entries: Seq::empty() })
                == Err::<FormatSpec, Seq<char>>(m@),
        },
{
    let init = DumpFormat::new();
    let ghost u = init.uuid@;
    assert(init@.entries =~= Seq::<EntrySpec>::empty());
    assert(init@ == FormatSpec { format_version: seq!['3'], uuid: u, entries: Seq::empty() });
    let r = parse_dump_with(data, init);
    assert(crate::dump_format::uuid_text(u));
    r
}

} // verus!
