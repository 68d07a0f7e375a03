//! Structures of the Subversion dump format: a dump is a format version, a
//! repository UUID and a list of entries, each either a revision or a node.
use vstd::prelude::*;
use crate::strmap::StrMap;

verus! {

/// Lower-case hexadecimal digit.
pub open spec fn is_lower_hex(c: char) -> bool {
    ('0' <= c && c <= '9') || ('a' <= c && c <= 'f')
}

/// Text in the hyphenated UUID layout: 36 characters, hyphens at 8, 13, 18 and 23,
/// lower-case hexadecimal digits elsewhere.
pub open spec fn uuid_text(s: Seq<char>) -> bool {
    &&& s.len() == 36
    &&& forall|i: int| 0 <= i < 36 ==> if i == 8 || i == 13 || i == 18 || i == 23 {
        #[trigger] s[i] == '-'
    } else {
        is_lower_hex(s[i])
    }
}

/// `uuid::Uuid::new_v4().to_string()`: a random UUID. Whatever the random bytes, the
/// text has the hyphenated lower-case layout (uuid's `Display` writes
/// `format_hyphenated` with lower-case digits); nothing is claimed of the digits.
#[verifier::external_body]
pub(crate) fn new_uuid_v4() -> (s: String)
    ensures
        uuid_text(s@),
{
    uuid::Uuid::new_v4().to_string()
}

/// Whether `uuid::Uuid::parse_str` accepts a text (it takes the hyphenated, simple,
/// braced and URN forms, in either case); a function of the text alone.
pub uninterp spec fn uuid_parses(s: Seq<char>) -> bool;

/// `uuid::Uuid::parse_str(s).is_ok()`.
#[verifier::external_body]
pub(crate) fn uuid_accepts(s: &str) -> (b: bool)
    ensures
        b == uuid_parses(s@),
{
    uuid::Uuid::parse_str(s).is_ok()
}

/// Node kind.
#[derive(Debug, Clone, Copy, PartialEq, Eq, Structural)]
pub enum NodeKind {
    File,
    Dir,
}

/// Node action.
#[derive(Debug, Clone, Copy, PartialEq, Eq, Structural)]
pub enum NodeAction {
    Add,
    Delete,
    Replace,
    Change,
}

/// What a dump entry holds, as plain values.
pub struct EntrySpec {
    pub revision_number: u64,
    pub node_path: Option<Seq<char>>,
    pub node_kind: Option<NodeKind>,
    pub node_action: Option<NodeAction>,
    pub copy_from_path: Option<Seq<char>>,
    pub copy_from_rev: Option<u64>,
    pub md5_checksum: Option<Seq<char>>,
    pub props: Map<Seq<char>, Seq<char>>,
    pub content: Seq<u8>,
}

/// What a dump holds, as plain values.
pub struct FormatSpec {
    pub format_version: Seq<char>,
    pub uuid: Seq<char>,
    pub entries: Seq<EntrySpec>,
}

/// The text of an optional string.
pub open spec fn opt_text(o: Option<String>) -> Option<Seq<char>> {
    match o {
        Some(s) => Some(s@),
        None => None,
    }
}

/// Dump entry (revision or node).
#[derive(Debug)]
pub struct DumpEntry {
    /// Revision number.
    pub revision_number: u64,
    /// Node path (if this is a node entry).
    pub node_path: Option<String>,
    /// Node kind.
    pub node_kind: Option<NodeKind>,
    /// Node action.
    pub node_action: Option<NodeAction>,
    /// Copy-from path.
    pub copy_from_path: Option<String>,
    /// Copy-from revision.
    pub copy_from_rev: Option<u64>,
    /// MD5 checksum.
    pub md5_checksum: Option<String>,
    /// Properties.
    pub props: StrMap<String>,
    /// Content data.
    pub content: Vec<u8>,
}

impl View for DumpEntry {
    type V = EntrySpec;

    open spec fn view(&self) -> EntrySpec {
        EntrySpec {
            revision_number: self.revision_number,
            node_path: opt_text(self.node_path),
            node_kind: self.node_kind,
            node_action: self.node_action,
            copy_from_path: opt_text(self.copy_from_path),
            copy_from_rev: self.copy_from_rev,
            md5_checksum: opt_text(self.md5_checksum),
            props: self.props@.map_values(|v: String| v@),
            content: self.content@,
        }
    }
}

/// A fresh entry of revision `n`: no node, no properties, no content.
pub open spec fn new_entry(n: u64) -> EntrySpec {
    EntrySpec {
        revision_number: n,
        node_path: None,
        node_kind: None,
        node_action: None,
        copy_from_path: None,
        copy_from_rev: None,
        md5_checksum: None,
        props: Map::empty(),
        content: Seq::empty(),
    }
}

impl DumpEntry {
    /// A revision entry with nothing but its number.
    pub fn new(revision_number: u64) -> (e: Self)
        ensures
            e@ == new_entry(revision_number),
            e.props.wf(),
    {
        let e = DumpEntry {
            revision_number,
            node_path: None,
            node_kind: None,
            node_action: None,
            copy_from_path: None,
            copy_from_rev: None,
            md5_checksum: None,
            props: StrMap::new(),
            content: Vec::new(),
        };
        assert(e@.props =~= Map::<Seq<char>, Seq<char>>::empty());
        assert(e@.content =~= Seq::<u8>::empty());
        e
    }

    /// A revision entry has no node path.
    pub fn is_revision(&self) -> (b: bool)
        ensures
            b == (self.node_path is None),
    {
        self.node_path.is_none()
    }

    /// A node entry has a node path.
    pub fn is_node(&self) -> (b: bool)
        ensures
            b == (self.node_path is Some),
    {
        self.node_path.is_some()
    }
}

/// SVN dump file format.
#[derive(Debug)]
pub struct DumpFormat {
    /// Format version (usually 2 or 3).
    pub format_version: String,
    /// Repository UUID.
    pub uuid: String,
    /// Dump entries (revisions and nodes).
    pub entries: Vec<DumpEntry>,
}

impl View for DumpFormat {
    type V = FormatSpec;

    open spec fn view(&self) -> FormatSpec {
        FormatSpec {
            format_version: self.format_version@,
            uuid: self.uuid@,
            entries: self.entries@.map_values(|e: DumpEntry| e@),
        }
    }
}

impl DumpFormat {
    /// An empty dump of format version 3 with a fresh random UUID.
    pub fn new() -> (d: Self)
        ensures
            d.format_version@ == seq!['3'],
            uuid_text(d.uuid@),
            d.entries@.len() == 0,
    {
        let v = crate::text::to_owned("3");
        proof {
            reveal_strlit("3");
        }
        DumpFormat { format_version: v, uuid: new_uuid_v4(), entries: Vec::new() }
    }
}

} // verus!
