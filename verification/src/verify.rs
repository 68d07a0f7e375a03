//! Verifying a repository: which revisions are checked, what each revision's
//! findings count as, the verdict, and fetching missing objects from a server's
//! objects endpoint (the request URL and the download's records).
use vstd::prelude::*;
use crate::object::{ObjectId, hex_lower};
use crate::text::{chars_of, push_chars, u64_to_string, decimal, concat2};
use crate::sync_handlers::be32;

verus! {

/// The first and last revision checked: `start_rev` defaults to 0 and `end_rev` to
/// `head`, and the end is never past `head`.
pub open spec fn verify_bounds(start_rev: Option<u64>, end_rev: Option<u64>, head: u64) -> (u64, u64) {
    let end = match end_rev {
        Some(e) => e,
        None => head,
    };
    (
        match start_rev {
            Some(s) => s,
            None => 0,
        },
        if end < head { end } else { head },
    )
}

/// The first and last revision a verification checks.
pub fn verify_range(start_rev: Option<u64>, end_rev: Option<u64>, head: u64) -> (r: (u64, u64))
    ensures
        r == verify_bounds(start_rev, end_rev, head),
{
    let start = match start_rev {
        Some(s) => s,
        None => 0,
    };
    let end = match end_rev {
        Some(e) => e,
        None => head,
    };
    (start, if end < head { end } else { head })
}

/// A file of a revision's tree and whether its content could be read.
#[derive(Debug, Clone)]
pub struct BlobCheck {
    pub path: String,
    pub id: ObjectId,
    pub readable: bool,
}

/// What the repository gave for a revision that has a commit.
#[derive(Debug)]
pub struct CommitFindings {
    /// The commit's author is empty.
    pub author_empty: bool,
    /// The files of the revision's tree, or why the tree could not be rebuilt.
    pub tree: Result<Vec<BlobCheck>, String>,
    /// The revision's delta tree is on disk.
    pub delta_present: bool,
}

/// What the repository gave for one revision: its commit's findings, or nothing
/// where the commit is missing.
#[derive(Debug)]
pub struct RevisionFindings {
    pub rev: u64,
    pub commit: Option<CommitFindings>,
}

/// The counters of a verification and the ids of the objects found missing.
#[derive(Debug)]
pub struct VerifyTally {
    pub errors: u64,
    pub warnings: u64,
    pub verified_revs: u64,
    pub verified_objects: u64,
    pub missing: Vec<ObjectId>,
}

/// The number of unreadable files among `bs`.
pub open spec fn unreadable_count(bs: Seq<BlobCheck>) -> nat
    decreases bs.len(),
{
    if bs.len() == 0 {
        0
    } else {
        unreadable_count(bs.drop_last()) + if bs.last().readable { 0nat } else { 1nat }
    }
}

/// The ids of the unreadable files among `bs`, in order.
pub open spec fn unreadable_ids(bs: Seq<BlobCheck>) -> Seq<Seq<u8>>
    decreases bs.len(),
{
    if bs.len() == 0 {
        Seq::empty()
    } else {
        unreadable_ids(bs.drop_last()) + if bs.last().readable { Seq::empty() } else { seq![bs.last().id@] }
    }
}

/// A message of a verification: `  KIND: r<rev>` and the text.
pub open spec fn diagnostic(kind: Seq<char>, rev: u64, text: Seq<char>) -> Seq<char> {
    "  "@ + kind + ": r"@ + decimal(rev as nat) + text
}

/// The messages about the unreadable files among `bs` of revision `rev`.
pub open spec fn missing_messages(rev: u64, bs: Seq<BlobCheck>) -> Seq<Seq<char>>
    decreases bs.len(),
{
    if bs.len() == 0 {
        Seq::empty()
    } else {
        missing_messages(rev, bs.drop_last()) + if bs.last().readable {
            Seq::empty()
        } else {
            seq![diagnostic("ERROR"@, rev, " object missing for '"@ + bs.last().path@ + "'"@)]
        }
    }
}

/// The errors a revision's findings count: a missing commit, each unreadable file,
/// a tree that could not be rebuilt.
pub open spec fn revision_errors(f: RevisionFindings) -> nat {
    match f.commit {
        None => 1,
        Some(c) => match c.tree {
            Ok(bs) => unreadable_count(bs@),
            Err(_) => 1,
        },
    }
}

/// The warnings a revision's findings count: an empty author after revision 0, and
/// a delta tree missing after revision 0.
pub open spec fn revision_warnings(f: RevisionFindings) -> nat {
    match f.commit {
        None => 0,
        Some(c) => (if c.author_empty && f.rev > 0 { 1nat } else { 0nat }) + (if f.rev > 0 && !c.delta_present {
            1nat
        } else {
            0nat
        }),
    }
}

/// The objects a revision's findings count as verified: each readable file, and the
/// delta tree where it is present after revision 0.
pub open spec fn revision_objects(f: RevisionFindings) -> nat {
    match f.commit {
        None => 0,
        Some(c) => (match c.tree {
            Ok(bs) => (bs@.len() - unreadable_count(bs@)) as nat,
            Err(_) => 0,
        }) + (if f.rev > 0 && c.delta_present { 1nat } else { 0nat }),
    }
}

/// The ids a revision's findings add to the missing objects.
pub open spec fn revision_missing(f: RevisionFindings) -> Seq<Seq<u8>> {
    match f.commit {
        Some(c) => match c.tree {
            Ok(bs) => unreadable_ids(bs@),
            Err(_) => Seq::empty(),
        },
        None => Seq::empty(),
    }
}

/// The messages a revision's findings give, in the order they are found.
pub open spec fn revision_messages(f: RevisionFindings) -> Seq<Seq<char>> {
    match f.commit {
        None => seq![diagnostic("ERROR"@, f.rev, " commit not found"@)],
        Some(c) => (if c.author_empty && f.rev > 0 {
            seq![diagnostic("WARNING"@, f.rev, " has empty author"@)]
        } else {
            Seq::empty()
        }) + match c.tree {
            Ok(bs) => missing_messages(f.rev, bs@),
            Err(e) => seq![diagnostic("ERROR"@, f.rev, " tree reconstruction failed: "@ + e@)],
        } + if f.rev > 0 && !c.delta_present {
            seq![diagnostic("WARNING"@, f.rev, " has no delta tree"@)]
        } else {
            Seq::empty()
        },
    }
}

/// The number of files a revision's findings list.
pub open spec fn findings_size(f: RevisionFindings) -> nat {
    match f.commit {
        Some(c) => match c.tree {
            Ok(bs) => bs@.len(),
            Err(_) => 0,
        },
        None => 0,
    }
}

proof fn lemma_unreadable_bounds(bs: Seq<BlobCheck>)
    ensures
        unreadable_count(bs) <= bs.len(),
        unreadable_ids(bs).len() == unreadable_count(bs),
    decreases bs.len(),
{
    if bs.len() > 0 {
        lemma_unreadable_bounds(bs.drop_last());
    }
}

/// `"  " + kind + ": r" + rev + text`.
fn message(kind: &str, rev: u64, text: &str) -> (s: String)
    ensures
        s@ == diagnostic(kind@, rev, text@),
{
    let mut s = concat2("  ", kind);
    s.append(": r");
    let r = u64_to_string(rev);
    s.append(r.as_str());
    s.append(text);
    s
}

impl VerifyTally {
    /// Counters at zero and no missing objects.
    pub fn new() -> (t: Self)
        ensures
            t.errors == 0 && t.warnings == 0 && t.verified_revs == 0 && t.verified_objects == 0,
            t.missing@.len() == 0,
    {
        VerifyTally { errors: 0, warnings: 0, verified_revs: 0, verified_objects: 0, missing: Vec::new() }
    }

    /// Counts one revision's findings: its errors, warnings and verified objects, the
    /// revision itself, and the ids of its unreadable files; returns the messages it
    /// gives.
    pub fn record_revision(&mut self, f: &RevisionFindings) -> (msgs: Vec<String>)
        requires
            old(self).errors + findings_size(*f) + 1 <= u64::MAX,
            old(self).warnings + 2 <= u64::MAX,
            old(self).verified_objects + findings_size(*f) + 1 <= u64::MAX,
            old(self).verified_revs < u64::MAX,
        ensures
            final(self).errors == old(self).errors + revision_errors(*f),
            final(self).warnings == old(self).warnings + revision_warnings(*f),
            final(self).verified_objects == old(self).verified_objects + revision_objects(*f),
            final(self).verified_revs == old(self).verified_revs + 1,
            final(self).missing@.map_values(|id: ObjectId| id@) == old(self).missing@.map_values(|id: ObjectId| id@)
                + revision_missing(*f),
            msgs@.map_values(|m: String| m@) == revision_messages(*f),
    {
        let ghost missing0 = self.missing@.map_values(|id: ObjectId| id@);
        let mut msgs: Vec<String> = Vec::new();
        let rev = f.rev;
        match &f.commit {
            None => {
                self.errors = self.errors + 1;
                msgs.push(message("ERROR", rev, " commit not found"));
                assert(msgs@.map_values(|m: String| m@) =~= revision_messages(*f));
            },
            Some(c) => {
                if c.author_empty && rev > 0 {
                    self.warnings = self.warnings + 1;
                    msgs.push(message("WARNING", rev, " has empty author"));
                }
                let ghost before = msgs@.map_values(|m: String| m@);
                assert(before =~= if c.author_empty && rev > 0 {
                    seq![diagnostic("WARNING"@, rev, " has empty author"@)]
                } else {
                    Seq::empty()
                });
                match &c.tree {
                    Ok(bs) => {
                        assert(bs@.subrange(0, 0) =~= Seq::<BlobCheck>::empty());
                        assert(self.missing@.map_values(|id: ObjectId| id@) =~= missing0 + Seq::empty());
                        assert(msgs@.map_values(|m: String| m@) =~= before + Seq::empty());
                        let ghost e0 = self.errors;
                        let ghost o0 = self.verified_objects;
                        let mut i: usize = 0;
                        while i < bs.len()
                            invariant
                                i <= bs@.len(),
                                e0 + bs@.len() + 1 <= u64::MAX,
                                o0 + bs@.len() + 1 <= u64::MAX,
                                self.errors == e0 + unreadable_count(bs@.subrange(0, i as int)),
                                self.verified_objects == o0 + (i - unreadable_count(bs@.subrange(0, i as int))),
                                self.missing@.map_values(|id: ObjectId| id@) == missing0 + unreadable_ids(
                                    bs@.subrange(0, i as int),
                                ),
                                msgs@.map_values(|m: String| m@) == before + missing_messages(rev, bs@.subrange(0, i as int)),
                                self.warnings == old(self).warnings + (if c.author_empty && rev > 0 { 1nat } else { 0nat }),
                                self.verified_revs == old(self).verified_revs,
                            decreases bs@.len() - i,
                        {
                            let ghost mv = self.missing@.map_values(|id: ObjectId| id@);
                            let ghost ms = msgs@.map_values(|m: String| m@);
                            proof {
                                lemma_unreadable_bounds(bs@.subrange(0, i as int));
                                assert(bs@.subrange(0, i + 1).drop_last() =~= bs@.subrange(0, i as int));
                                assert(bs@.subrange(0, i + 1).last() == bs@[i as int]);
                            }
                            if bs[i].readable {
                                self.verified_objects = self.verified_objects + 1;
                                assert(self.missing@.map_values(|id: ObjectId| id@) =~= mv + Seq::empty());
                                assert(msgs@.map_values(|m: String| m@) =~= ms + Seq::empty());
                            } else {
                                self.missing.push(bs[i].id);
                                let a = concat2(" object missing for '", bs[i].path.as_str());
                                let b = concat2(a.as_str(), "'");
                                let m = message("ERROR", rev, b.as_str());
                                msgs.push(m);
                                self.errors = self.errors + 1;
                                assert(self.missing@.map_values(|id: ObjectId| id@) =~= mv + seq![bs@[i as int].id@]);
                                assert(msgs@.map_values(|m: String| m@) =~= ms + seq![
                                    diagnostic("ERROR"@, rev, " object missing for '"@ + bs@[i as int].path@ + "'"@),
                                ]);
                            }
                            i = i + 1;
                        }
                        assert(bs@.subrange(0, i as int) =~= bs@);
                        proof {
                            lemma_unreadable_bounds(bs@);
                        }
                    },
                    Err(e) => {
                        self.errors = self.errors + 1;
                        let t = concat2(" tree reconstruction failed: ", e.as_str());
                        msgs.push(message("ERROR", rev, t.as_str()));
                        assert(msgs@.map_values(|m: String| m@) =~= before + seq![
                            diagnostic("ERROR"@, rev, " tree reconstruction failed: "@ + e@),
                        ]);
                    },
                }
                let ghost after_tree = msgs@.map_values(|m: String| m@);
                assert(after_tree == before + match c.tree {
                    Ok(bs) => missing_messages(rev, bs@),
                    Err(e) => seq![diagnostic("ERROR"@, rev, " tree reconstruction failed: "@ + e@)],
                });
                if rev > 0 {
                    if !c.delta_present {
                        self.warnings = self.warnings + 1;
                        msgs.push(message("WARNING", rev, " has no delta tree"));
                    } else {
                        self.verified_objects = self.verified_objects + 1;
                    }
                }
                assert(msgs@.map_values(|m: String| m@) =~= after_tree + if rev > 0 && !c.delta_present {
                    seq![diagnostic("WARNING"@, rev, " has no delta tree"@)]
                } else {
                    Seq::empty()
                });
            },
        }
        self.verified_revs = self.verified_revs + 1;
        assert(self.missing@.map_values(|id: ObjectId| id@) =~= missing0 + revision_missing(*f));
        assert(msgs@.map_values(|m: String| m@) =~= revision_messages(*f));
        msgs
    }
}

/// The verdict of a verification: success where no error was counted.
pub fn verify_outcome(errors: u64) -> (r: Result<(), String>)
    ensures
        errors == 0 ==> r is Ok,
        errors > 0 ==> (r matches Err(m) && m@ == "Repository verification failed with "@ + decimal(errors as nat)
            + " error(s)"@),
{
    if errors > 0 {
        let n = u64_to_string(errors);
        let a = concat2("Repository verification failed with ", n.as_str());
        Err(concat2(a.as_str(), " error(s)"))
    } else {
        Ok(())
    }
}

// ─────────────────────────── fetching missing objects ───────────────────────────

/// `s` without the slashes at its end.
pub open spec fn trim_end_slashes(s: Seq<char>) -> Seq<char>
    decreases s.len(),
{
    if s.len() > 0 && s.last() == '/' {
        trim_end_slashes(s.drop_last())
    } else {
        s
    }
}

/// The query of an objects request: `?id=` before the first id's hex digits and
/// `&id=` before each other's.
pub open spec fn ids_query(ids: Seq<Seq<u8>>) -> Seq<char>
    decreases ids.len(),
{
    if ids.len() == 0 {
        Seq::empty()
    } else {
        ids_query(ids.drop_last()) + (if ids.len() == 1 { "?"@ } else { "&"@ }) + "id="@ + hex_lower(ids.last())
    }
}

/// The URL that asks a server for the objects `ids`.
pub fn objects_url(base_url: &str, ids: &[ObjectId]) -> (u: String)
    ensures
        u@ == trim_end_slashes(base_url@) + "/objects"@ + ids_query(ids@.map_values(|id: ObjectId| id@)),
{
    let cs = chars_of(base_url);
    let mut n = cs.len();
    assert(cs@.subrange(0, n as int) =~= base_url@);
    while n > 0 && cs[n - 1] == '/'
        invariant
            n <= cs@.len(),
            cs@ == base_url@,
            trim_end_slashes(cs@.subrange(0, n as int)) == trim_end_slashes(base_url@),
        decreases n,
    {
        assert(cs@.subrange(0, n as int).drop_last() =~= cs@.subrange(0, n - 1));
        n = n - 1;
    }
    let mut u = String::new();
    push_chars(&mut u, &cs, 0, n);
    u.append("/objects");
    let ghost idv = ids@.map_values(|id: ObjectId| id@);
    let ghost base = u@;
    assert(base == trim_end_slashes(base_url@) + "/objects"@);
    let mut i: usize = 0;
    while i < ids.len()
        invariant
            i <= ids@.len(),
            idv == ids@.map_values(|id: ObjectId| id@),
            u@ == base + ids_query(idv.subrange(0, i as int)),
        decreases ids@.len() - i,
    {
        if i == 0 {
            u.append("?");
        } else {
            u.append("&");
        }
        u.append("id=");
        let h = ids[i].to_hex();
        u.append(h.as_str());
        proof {
            assert(idv.subrange(0, i + 1).drop_last() =~= idv.subrange(0, i as int));
        }
        i = i + 1;
    }
    assert(idv.subrange(0, i as int) =~= idv);
    u
}

/// The number that 4 bytes spell, most significant first.
pub open spec fn be32_value(b: Seq<u8>) -> nat {
    (b[0] as nat) * 16777216 + (b[1] as nat) * 65536 + (b[2] as nat) * 256 + (b[3] as nat)
}

/// One object of a download: its id, and its bytes, or `None` where the server did
/// not have it.
#[derive(Debug, Clone)]
pub struct FetchedObject {
    pub id: ObjectId,
    pub data: Option<Vec<u8>>,
}

/// The plain value of a downloaded object.
pub open spec fn fetched_view(o: FetchedObject) -> (Seq<u8>, Option<Seq<u8>>) {
    (o.id@, match o.data {
        Some(d) => Some(d@),
        None => None,
    })
}

/// The records of a download, read while at least 36 bytes are left: 32 bytes of
/// id, a length of 4 bytes most significant first, then that many bytes, where the
/// length `0xFFFFFFFF` marks an object the server did not have and is followed by
/// nothing. The flag says that a length ran past the end: the records before it
/// are kept.
pub open spec fn object_records(data: Seq<u8>) -> (Seq<(Seq<u8>, Option<Seq<u8>>)>, bool)
    decreases data.len(),
{
    if data.len() < 36 {
        (Seq::empty(), false)
    } else {
        let id = data.subrange(0, 32);
        let n = be32_value(data.subrange(32, 36)) as int;
        if n == 0xFFFF_FFFF {
            let rest = object_records(data.subrange(36, data.len() as int));
            (seq![(id, None::<Seq<u8>>)] + rest.0, rest.1)
        } else if 36 + n > data.len() {
            (Seq::empty(), true)
        } else {
            let rest = object_records(data.subrange(36 + n, data.len() as int));
            (seq![(id, Some(data.subrange(36, 36 + n)))] + rest.0, rest.1)
        }
    }
}

/// Reads the records of a download; the flag says that a length ran past the end.
pub fn parse_object_records(data: &[u8]) -> (r: (Vec<FetchedObject>, bool))
    ensures
        (r.0@.map_values(|o: FetchedObject| fetched_view(o)), r.1) == object_records(data@),
{
    let mut out: Vec<FetchedObject> = Vec::new();
    let mut pos: usize = 0;
    let len = data.len();
    let mut truncated = false;
    assert(data@.subrange(0, len as int) =~= data@);
    assert(out@.map_values(|o: FetchedObject| fetched_view(o)) + object_records(data@).0 =~= object_records(data@).0);
    while len >= 36 && pos <= len - 36
        invariant
            len == data@.len(),
            pos <= len,
            !truncated,
            ({
                let rest = object_records(data@.subrange(pos as int, len as int));
                (out@.map_values(|o: FetchedObject| fetched_view(o)) + rest.0, rest.1) == object_records(data@)
            }),
        decreases len - pos,
    {
        let ghost d = data@.subrange(pos as int, len as int);
        let ghost before = out@.map_values(|o: FetchedObject| fetched_view(o));
        let ghost p0 = pos as int;
        let mut id = [0u8; 32];
        let mut k: usize = 0;
        while k < 32
            invariant
                k <= 32,
                pos + 36 <= len,
                len == data@.len(),
                forall|j: int| 0 <= j < k ==> id@[j] == data@[pos + j],
            decreases 32 - k,
        {
            id.set(k, data[pos + k]);
            k = k + 1;
        }
        assert(id@ =~= d.subrange(0, 32));
        let n: u64 = (data[pos + 32] as u64) * 16777216 + (data[pos + 33] as u64) * 65536 + (data[pos + 34] as u64) * 256
            + (data[pos + 35] as u64);
        assert(d.subrange(32, 36) =~= data@.subrange(pos + 32, pos + 36));
        assert(n == be32_value(d.subrange(32, 36)));
        let oid = ObjectId::new(id);
        let ghost next: int;
        if n == 0xFFFF_FFFF {
            out.push(FetchedObject { id: oid, data: None });
            proof {
                next = pos + 36;
            }
            pos = pos + 36;
        } else {
            if n > (len - pos - 36) as u64 {
                truncated = true;
                assert(object_records(d) == (Seq::<(Seq<u8>, Option<Seq<u8>>)>::empty(), true));
                assert(before + Seq::empty() =~= before);
                return (out, truncated);
            }
            let end = pos + 36 + n as usize;
            let mut bytes: Vec<u8> = Vec::new();
            let mut q = pos + 36;
            while q < end
                invariant
                    pos + 36 <= q <= end <= len,
                    len == data@.len(),
                    bytes@ == data@.subrange(pos + 36, q as int),
                decreases end - q,
            {
                bytes.push(data[q]);
                assert(data@.subrange(pos + 36, q + 1) =~= data@.subrange(pos + 36, q as int).push(data@[q as int]));
                q = q + 1;
            }
            assert(bytes@ =~= d.subrange(36, 36 + n));
            out.push(FetchedObject { id: oid, data: Some(bytes) });
            proof {
                next = end as int;
            }
            pos = end;
        }
        proof {
            let rest = object_records(data@.subrange(pos as int, len as int));
            assert(d.subrange(next - p0, d.len() as int) =~= data@.subrange(pos as int, len as int));
            let x = fetched_view(out@.last());
            assert(out@.map_values(|o: FetchedObject| fetched_view(o)) =~= before.push(x));
            assert(object_records(d) == (seq![x] + rest.0, rest.1));
            assert(before.push(x) + rest.0 =~= before + (seq![x] + rest.0));
        }
    }
    assert(data@.subrange(pos as int, len as int).len() < 36);
    assert(out@.map_values(|o: FetchedObject| fetched_view(o)) + Seq::empty() =~= out@.map_values(
        |o: FetchedObject| fetched_view(o),
    ));
    (out, truncated)
}

/// What fetching a download gave: the objects stored, their bytes, and the objects
/// the server did not have.
#[derive(Debug)]
pub struct TransferResult {
    pub fetched: u64,
    pub bytes: u64,
    pub errors: u64,
}

/// The number of objects among `rs` that the server had.
pub open spec fn had_count(rs: Seq<(Seq<u8>, Option<Seq<u8>>)>) -> nat
    decreases rs.len(),
{
    if rs.len() == 0 {
        0
    } else {
        had_count(rs.drop_last()) + if rs.last().1 is Some { 1nat } else { 0nat }
    }
}

/// The total length of the objects among `rs` that the server had.
pub open spec fn had_bytes(rs: Seq<(Seq<u8>, Option<Seq<u8>>)>) -> nat
    decreases rs.len(),
{
    if rs.len() == 0 {
        0
    } else {
        had_bytes(rs.drop_last()) + match rs.last().1 {
            Some(d) => d.len(),
            None => 0nat,
        }
    }
}

proof fn lemma_had_bytes_prefix(rs: Seq<(Seq<u8>, Option<Seq<u8>>)>, i: int)
    requires
        0 <= i <= rs.len(),
    ensures
        had_bytes(rs.subrange(0, i)) <= had_bytes(rs),
    decreases rs.len() - i,
{
    if i < rs.len() {
        lemma_had_bytes_prefix(rs, i + 1);
        assert(rs.subrange(0, i + 1).drop_last() =~= rs.subrange(0, i));
    } else {
        assert(rs.subrange(0, i) =~= rs);
    }
}

/// Counts what a download gave: the objects the server had, their bytes, and the
/// objects it did not have.
pub fn fetch_result(objects: &Vec<FetchedObject>) -> (r: TransferResult)
    requires
        had_bytes(objects@.map_values(|o: FetchedObject| fetched_view(o))) <= u64::MAX,
    ensures
        r.fetched == had_count(objects@.map_values(|o: FetchedObject| fetched_view(o))),
        r.bytes == had_bytes(objects@.map_values(|o: FetchedObject| fetched_view(o))),
        r.fetched + r.errors == objects@.len(),
{
    let ghost v = objects@.map_values(|o: FetchedObject| fetched_view(o));
    let mut r = TransferResult { fetched: 0, bytes: 0, errors: 0 };
    let mut i: usize = 0;
    while i < objects.len()
        invariant
            i <= objects@.len(),
            v == objects@.map_values(|o: FetchedObject| fetched_view(o)),
            had_bytes(v) <= u64::MAX,
            r.fetched == had_count(v.subrange(0, i as int)),
            r.bytes == had_bytes(v.subrange(0, i as int)),
            r.fetched + r.errors == i,
        decreases objects@.len() - i,
    {
        proof {
            assert(v.subrange(0, i + 1).drop_last() =~= v.subrange(0, i as int));
            assert(v.subrange(0, i + 1).last() == v[i as int]);
            lemma_had_bytes_prefix(v, i + 1);
        }
        match &objects[i].data {
            Some(d) => {
                r.fetched = r.fetched + 1;
                r.bytes = r.bytes + d.len() as u64;
            },
            None => {
                r.errors = r.errors + 1;
            },
        }
        i = i + 1;
    }
    assert(v.subrange(0, i as int) =~= v);
    r
}

/// The bytes of one object of a download, as the objects endpoint writes them.
pub open spec fn object_record_bytes(id: Seq<u8>, data: Option<Seq<u8>>) -> Seq<u8> {
    id + match data {
        Some(d) => be32(d.len() as u32) + d,
        None => be32(0xFFFF_FFFF),
    }
}

/// The bytes of the objects `rs` of a download, in order.
pub open spec fn records_bytes(rs: Seq<(Seq<u8>, Option<Seq<u8>>)>) -> Seq<u8>
    decreases rs.len(),
{
    if rs.len() == 0 {
        Seq::empty()
    } else {
        object_record_bytes(rs[0].0, rs[0].1) + records_bytes(rs.drop_first())
    }
}

proof fn lemma_be32_value(x: u32)
    ensures
        be32(x).len() == 4,
        be32_value(be32(x)) == x,
{
    let b = be32(x);
    assert(b[0] == (x / 16777216) % 256);
    assert(b[1] == (x / 65536) % 256);
    assert(b[2] == (x / 256) % 256);
    assert(b[3] == x % 256);
    assert(((x / 16777216) % 256) * 16777216 + ((x / 65536) % 256) * 65536 + ((x / 256) % 256) * 256 + x % 256
        == x) by (nonlinear_arith)
        requires
            x < 4294967296,
    {
        assert(x / 16777216 < 256);
        assert(x / 65536 == (x / 16777216) * 256 + (x / 65536) % 256);
        assert(x / 256 == (x / 65536) * 256 + (x / 256) % 256);
        assert(x == (x / 256) * 256 + x % 256);
    }
}

/// An object a download can carry: a 32-byte id, and a length below `0xFFFFFFFF`.
pub open spec fn well_sized(r: (Seq<u8>, Option<Seq<u8>>)) -> bool {
    r.0.len() == 32 && match r.1 {
        Some(d) => d.len() < 0xFFFF_FFFF,
        None => true,
    }
}

proof fn lemma_record_step(id: Seq<u8>, data: Option<Seq<u8>>, tail: Seq<u8>)
    requires
        well_sized((id, data)),
    ensures
        object_records(object_record_bytes(id, data) + tail) == (
            seq![(id, data)] + object_records(tail).0,
            object_records(tail).1,
        ),
{
    let b = object_record_bytes(id, data) + tail;
    match data {
        Some(d) => {
            lemma_be32_value(d.len() as u32);
            assert(b.subrange(0, 32) =~= id);
            assert(b.subrange(32, 36) =~= be32(d.len() as u32));
            assert(b.subrange(36, 36 + d.len() as int) =~= d);
            assert(b.subrange(36 + d.len() as int, b.len() as int) =~= tail);
        },
        None => {
            lemma_be32_value(0xFFFF_FFFF);
            assert(b.subrange(0, 32) =~= id);
            assert(b.subrange(32, 36) =~= be32(0xFFFF_FFFF));
            assert(b.subrange(36, b.len() as int) =~= tail);
        },
    }
}

/// What the objects endpoint writes, fetching reads back: the records of a download
/// made of objects of 32-byte ids whose lengths fit below `0xFFFFFFFF` are those
/// objects, in order, and nothing runs past the end.
pub proof fn law_object_records_roundtrip(rs: Seq<(Seq<u8>, Option<Seq<u8>>)>)
    requires
        forall|i: int| 0 <= i < rs.len() ==> well_sized(#[trigger] rs[i]),
    ensures
        object_records(records_bytes(rs)) == (rs, false),
    decreases rs.len(),
{
    if rs.len() == 0 {
        assert(records_bytes(rs).len() == 0);
        assert(rs =~= Seq::<(Seq<u8>, Option<Seq<u8>>)>::empty());
    } else {
        let rest = rs.drop_first();
        assert forall|i: int| 0 <= i < rest.len() implies well_sized(#[trigger] rest[i]) by {
            assert(rest[i] == rs[i + 1]);
        }
        law_object_records_roundtrip(rest);
        assert(well_sized(rs[0]));
        lemma_record_step(rs[0].0, rs[0].1, records_bytes(rest));
        assert(seq![(rs[0].0, rs[0].1)] + rest =~= rs);
    }
}

} // verus!
