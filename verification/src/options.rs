//! The answer to OPTIONS: the capabilities the server announces, and, where the
//! client asks for the activity collection set, the repository's stubs and the set
//! itself. Also the POST that creates a transaction.
use vstd::prelude::*;
use crate::text::{contains, ends_with, decimal, str_contains, u64_to_string, to_owned, chars_of, string_of_range, str_eq};

verus! {

/// An OPTIONS request asks for the activity collection set where its body names it.
pub open spec fn wants_activity_set(body: Seq<char>) -> bool {
    contains(body, "activity-collection-set"@)
}

/// Whether an OPTIONS body asks for the activity collection set.
pub fn options_has_body(body: &str) -> (b: bool)
    ensures
        b == wants_activity_set(body@),
{
    str_contains(body, "activity-collection-set")
}

/// The headers every OPTIONS answer has.
pub open spec fn base_headers() -> Seq<(Seq<char>, Seq<char>)> {
    seq![
        ("Allow"@, "OPTIONS,GET,HEAD,POST,DELETE,TRACE,PROPFIND,PROPPATCH,COPY,MOVE,LOCK,UNLOCK,CHECKOUT"@),
        ("DAV"@, "1,2"@),
        ("DAV"@, "version-control,checkout,working-resource"@),
        ("DAV"@, "merge,baseline,activity,version-controlled-collection"@),
        ("DAV"@, "http://subversion.tigris.org/xmlns/dav/svn/depth"@),
        ("DAV"@, "http://subversion.tigris.org/xmlns/dav/svn/log-revprops"@),
        ("DAV"@, "http://subversion.tigris.org/xmlns/dav/svn/atomic-revprops"@),
        ("DAV"@, "http://subversion.tigris.org/xmlns/dav/svn/partial-replay"@),
        ("DAV"@, "http://subversion.tigris.org/xmlns/dav/svn/inherited-props"@),
        ("DAV"@, "http://subversion.tigris.org/xmlns/dav/svn/inline-props"@),
        ("DAV"@, "http://subversion.tigris.org/xmlns/dav/svn/reverse-file-revs"@),
        ("DAV"@, "http://subversion.tigris.org/xmlns/dav/svn/mergeinfo"@),
        ("DAV"@, "<http://apache.org/dav/propset/fs/1>"@),
        ("MS-Author-Via"@, "DAV"@),
    ]
}

/// The headers an OPTIONS answer adds for a client that asks for the activity
/// collection set: the youngest revision, the UUID and the resource stubs.
pub open spec fn repository_headers(current_rev: u64, uuid: Seq<char>) -> Seq<(Seq<char>, Seq<char>)> {
    seq![
        ("DAV"@, "http://subversion.tigris.org/xmlns/dav/svn/ephemeral-txnprops"@),
        ("SVN-Youngest-Rev"@, decimal(current_rev as nat)),
        ("SVN-Repository-UUID"@, uuid),
        ("SVN-Repository-MergeInfo"@, "yes"@),
        ("DAV"@, "http://subversion.tigris.org/xmlns/dav/svn/replay-rev-resource"@),
        ("SVN-Repository-Root"@, "/svn"@),
        ("SVN-Me-Resource"@, "/svn/!svn/me"@),
        ("SVN-Rev-Root-Stub"@, "/svn/!svn/rvr"@),
        ("SVN-Rev-Stub"@, "/svn/!svn/rev"@),
        ("SVN-Txn-Root-Stub"@, "/svn/!svn/txr"@),
        ("SVN-Txn-Stub"@, "/svn/!svn/txn"@),
        ("SVN-VTxn-Root-Stub"@, "/svn/!svn/vtxr"@),
        ("SVN-VTxn-Stub"@, "/svn/!svn/vtxn"@),
        ("SVN-Allow-Bulk-Updates"@, "On"@),
        ("SVN-Supported-Posts"@, "create-txn"@),
        ("Content-Type"@, "text/xml; charset=\"utf-8\""@),
    ]
}

/// The plain values of headers.
pub open spec fn headers_view(h: Seq<(String, String)>) -> Seq<(Seq<char>, Seq<char>)> {
    h.map_values(|p: (String, String)| (p.0@, p.1@))
}

fn push_header(h: &mut Vec<(String, String)>, name: &str, value: &str)
    ensures
        headers_view(final(h)@) == headers_view(old(h)@).push((name@, value@)),
{
    h.push((to_owned(name), to_owned(value)));
    assert(headers_view(h@) =~= headers_view(old(h)@).push((name@, value@)));
}

/// The headers of the answer to OPTIONS, in order.
pub fn options_headers(has_body: bool, current_rev: u64, uuid: &str) -> (h: Vec<(String, String)>)
    ensures
        headers_view(h@) == base_headers() + if has_body { repository_headers(current_rev, uuid@) } else { Seq::empty() },
{
    let mut h: Vec<(String, String)> = Vec::new();
    assert(headers_view(h@) =~= Seq::empty());
    push_header(&mut h, "Allow", "OPTIONS,GET,HEAD,POST,DELETE,TRACE,PROPFIND,PROPPATCH,COPY,MOVE,LOCK,UNLOCK,CHECKOUT");
    push_header(&mut h, "DAV", "1,2");
    push_header(&mut h, "DAV", "version-control,checkout,working-resource");
    push_header(&mut h, "DAV", "merge,baseline,activity,version-controlled-collection");
    push_header(&mut h, "DAV", "http://subversion.tigris.org/xmlns/dav/svn/depth");
    push_header(&mut h, "DAV", "http://subversion.tigris.org/xmlns/dav/svn/log-revprops");
    push_header(&mut h, "DAV", "http://subversion.tigris.org/xmlns/dav/svn/atomic-revprops");
    push_header(&mut h, "DAV", "http://subversion.tigris.org/xmlns/dav/svn/partial-replay");
    push_header(&mut h, "DAV", "http://subversion.tigris.org/xmlns/dav/svn/inherited-props");
    push_header(&mut h, "DAV", "http://subversion.tigris.org/xmlns/dav/svn/inline-props");
    push_header(&mut h, "DAV", "http://subversion.tigris.org/xmlns/dav/svn/reverse-file-revs");
    push_header(&mut h, "DAV", "http://subversion.tigris.org/xmlns/dav/svn/mergeinfo");
    push_header(&mut h, "DAV", "<http://apache.org/dav/propset/fs/1>");
    push_header(&mut h, "MS-Author-Via", "DAV");
    let ghost base = headers_view(h@);
    assert(base =~= base_headers());
    if has_body {
        push_header(&mut h, "DAV", "http://subversion.tigris.org/xmlns/dav/svn/ephemeral-txnprops");
        let rev = u64_to_string(current_rev);
        push_header(&mut h, "SVN-Youngest-Rev", rev.as_str());
        push_header(&mut h, "SVN-Repository-UUID", uuid);
        push_header(&mut h, "SVN-Repository-MergeInfo", "yes");
        push_header(&mut h, "DAV", "http://subversion.tigris.org/xmlns/dav/svn/replay-rev-resource");
        push_header(&mut h, "SVN-Repository-Root", "/svn");
        push_header(&mut h, "SVN-Me-Resource", "/svn/!svn/me");
        push_header(&mut h, "SVN-Rev-Root-Stub", "/svn/!svn/rvr");
        push_header(&mut h, "SVN-Rev-Stub", "/svn/!svn/rev");
        push_header(&mut h, "SVN-Txn-Root-Stub", "/svn/!svn/txr");
        push_header(&mut h, "SVN-Txn-Stub", "/svn/!svn/txn");
        push_header(&mut h, "SVN-VTxn-Root-Stub", "/svn/!svn/vtxr");
        push_header(&mut h, "SVN-VTxn-Stub", "/svn/!svn/vtxn");
        push_header(&mut h, "SVN-Allow-Bulk-Updates", "On");
        push_header(&mut h, "SVN-Supported-Posts", "create-txn");
        push_header(&mut h, "Content-Type", "text/xml; charset=\"utf-8\"");
        assert(headers_view(h@) =~= base + repository_headers(current_rev, uuid@));
    } else {
        assert(headers_view(h@) =~= base + Seq::empty());
    }
    h
}

/// The body of the answer to OPTIONS: the activity collection set where the client
/// asks for it, else nothing.
pub fn options_body(has_body: bool) -> (b: String)
    ensures
        b@ == if has_body {
            "<?xml version=\"1.0\" encoding=\"utf-8\"?>\n<D:options-response xmlns:D=\"DAV:\">\n<D:activity-collection-set><D:href>/svn/!svn/act/</D:href></D:activity-collection-set></D:options-response>"@
        } else {
            Seq::empty()
        },
{
    if has_body {
        to_owned(
            "<?xml version=\"1.0\" encoding=\"utf-8\"?>\n<D:options-response xmlns:D=\"DAV:\">\n<D:activity-collection-set><D:href>/svn/!svn/act/</D:href></D:activity-collection-set></D:options-response>",
        )
    } else {
        String::new()
    }
}

/// A POST creates a transaction where it goes to the `!svn/me` resource and its body
/// asks for `create-txn`.
pub open spec fn creates_txn(path: Seq<char>, body: Seq<char>) -> bool {
    ends_with(path, "/!svn/me"@) && contains(body, "create-txn"@)
}

/// Whether a POST creates a transaction.
pub fn is_create_txn(path: &str, body: &str) -> (b: bool)
    ensures
        b == creates_txn(path@, body@),
{
    let cs = chars_of(path);
    let me = chars_of("/!svn/me");
    let mut ends = false;
    if me.len() <= cs.len() {
        let t = string_of_range(&cs, cs.len() - me.len(), cs.len());
        ends = str_eq(t.as_str(), "/!svn/me");
    }
    ends && str_contains(body, "create-txn")
}

} // verus!
