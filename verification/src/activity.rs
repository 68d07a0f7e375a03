//! Activities and transaction resources of a commit over WebDAV: what a request path
//! names below the repository prefix (an activity, a transaction, a file of a
//! transaction), the names of new activities, and the responses about them.
use vstd::prelude::*;
use crate::text::{
    starts_with, find, chars_of, string_of_range, str_starts_with, u64_to_string, concat2, to_owned, find_in,
};
use crate::verify::trim_end_slashes;
use crate::proppatch::{escaped, escape_xml};
use crate::text::{decimal, contains, ends_with, str_contains, str_eq, chars_eq};
use crate::report::{text_between, extract_text_between};
use crate::dump_writer::{svn_date, format_svn_date};

verus! {

/// The part of a request path after the repository prefix `/svn`; the whole path
/// where it does not start with it.
pub open spec fn special_of(path: Seq<char>) -> Seq<char> {
    if starts_with(path, "/svn"@) {
        path.subrange(4, path.len() as int)
    } else {
        path
    }
}

/// What follows `prefix` in the special part of `path`, where that starts with it.
pub open spec fn after_special(path: Seq<char>, prefix: Seq<char>) -> Option<Seq<char>> {
    let s = special_of(path);
    if starts_with(s, prefix) {
        Some(s.subrange(prefix.len() as int, s.len() as int))
    } else {
        None
    }
}

/// The text of `path` after the special prefix `prefix` (given as characters),
/// where the path's special part starts with it.
pub(crate) fn after_prefix(path: &str, prefix: &str) -> (r: Option<String>)
    ensures
        match after_special(path@, prefix@) {
            Some(t) => r matches Some(x) && x@ == t,
            None => r is None,
        },
{
    let p = chars_of(path);
    proof {
        reveal_strlit("/svn");
    }
    let start: usize = if str_starts_with(path, "/svn") { 4 } else { 0 };
    assert(p@.subrange(start as int, p@.len() as int) == special_of(path@));
    let pre = chars_of(prefix);
    let s = string_of_range(&p, start, p.len());
    if str_starts_with(s.as_str(), prefix) {
        Some(string_of_range(&p, start + pre.len(), p.len()))
    } else {
        None
    }
}

/// The id an activity path gives: what follows `/!svn/act/`, without slashes at its
/// end; `None` where the path names no activity.
pub open spec fn activity_of(path: Seq<char>) -> Option<Seq<char>> {
    match after_special(path, "/!svn/act/"@) {
        Some(rest) => Some(trim_end_slashes(rest)),
        None => None,
    }
}

/// The id an activity path gives (empty for the activity collection itself).
pub fn activity_id(path: &str) -> (r: Option<String>)
    ensures
        match activity_of(path@) {
            Some(t) => r matches Some(x) && x@ == t,
            None => r is None,
        },
{
    match after_prefix(path, "/!svn/act/") {
        Some(rest) => {
            let cs = chars_of(rest.as_str());
            let mut n = cs.len();
            assert(cs@.subrange(0, n as int) =~= rest@);
            while n > 0 && cs[n - 1] == '/'
                invariant
                    n <= cs@.len(),
                    cs@ == rest@,
                    trim_end_slashes(cs@.subrange(0, n as int)) == trim_end_slashes(rest@),
                decreases n,
            {
                assert(cs@.subrange(0, n as int).drop_last() =~= cs@.subrange(0, n - 1));
                n = n - 1;
            }
            Some(string_of_range(&cs, 0, n))
        },
        None => None,
    }
}

/// The name of a new activity: the id the client gave, or `<revision>-<sequence>`
/// where it gave none.
pub open spec fn activity_name_of(client_id: Seq<char>, current_rev: u64, seq: u64) -> Seq<char> {
    if client_id.len() == 0 {
        decimal(current_rev as nat) + "-"@ + decimal(seq as nat)
    } else {
        client_id
    }
}

/// The name of a new activity.
pub fn activity_name(client_id: &str, current_rev: u64, seq: u64) -> (r: String)
    ensures
        r@ == activity_name_of(client_id@, current_rev, seq),
{
    if client_id.is_empty() {
        let a = u64_to_string(current_rev);
        let b = u64_to_string(seq);
        let mut s = concat2(a.as_str(), "-");
        s.append(b.as_str());
        s
    } else {
        to_owned(client_id)
    }
}

/// The transaction and file a PUT stages: what follows `/!svn/txr/`, split at its
/// first slash; `None` where there is no such path or no slash.
pub open spec fn put_target_of(path: Seq<char>) -> Option<(Seq<char>, Seq<char>)> {
    match after_special(path, "/!svn/txr/"@) {
        Some(rest) => match find(rest, "/"@) {
            Some(i) => Some((rest.subrange(0, i), rest.subrange(i + 1, rest.len() as int))),
            None => None,
        },
        None => None,
    }
}

/// Splits `s` at its first `/`.
fn split_at_slash(s: &String) -> (r: Option<(String, String)>)
    ensures
        match find(s@, "/"@) {
            Some(i) => r matches Some((a, b)) && a@ == s@.subrange(0, i) && b@ == s@.subrange(i + 1, s@.len() as int),
            None => r is None,
        },
{
    let cs = chars_of(s.as_str());
    let slash = chars_of("/");
    proof {
        reveal_strlit("/");
    }
    assert(slash@ =~= "/"@);
    assert(cs@.subrange(0, cs@.len() as int) =~= cs@);
    match find_in(&cs, &slash, 0, cs.len()) {
        Some(i) => {
            proof {
                crate::text::lemma_find_from_sound(cs@, "/"@, 0);
            }
            assert(i + 1 <= cs@.len());
            Some((string_of_range(&cs, 0, i), string_of_range(&cs, i + 1, cs.len())))
        },
        None => None,
    }
}

/// The transaction and file a PUT stages.
pub fn put_target(path: &str) -> (r: Option<(String, String)>)
    ensures
        match put_target_of(path@) {
            Some((t, f)) => r matches Some((a, b)) && a@ == t && b@ == f,
            None => r is None,
        },
{
    match after_prefix(path, "/!svn/txr/") {
        Some(rest) => split_at_slash(&rest),
        None => None,
    }
}

/// What a PROPPATCH changes.
#[derive(Debug, Clone, PartialEq, Eq)]
pub enum PropPatchTarget {
    /// A file of a transaction: the transaction and the file (empty where the path
    /// has no slash after the transaction).
    TxrFile(String, String),
    /// A transaction, whose log message the body may set.
    Txn(String),
    /// Any other resource: its properties in the property store.
    Resource,
}

/// What a PROPPATCH on `path` changes, as plain values.
pub open spec fn proppatch_target_of(path: Seq<char>) -> (nat, Seq<char>, Seq<char>) {
    match after_special(path, "/!svn/txr/"@) {
        Some(rest) => match find(rest, "/"@) {
            Some(i) => (0, rest.subrange(0, i), rest.subrange(i + 1, rest.len() as int)),
            None => (0, rest, Seq::empty()),
        },
        None => match after_special(path, "/!svn/txn/"@) {
            Some(t) => (1, t, Seq::empty()),
            None => (2, Seq::empty(), Seq::empty()),
        },
    }
}

/// The plain value of a PROPPATCH target.
pub open spec fn proppatch_target_view(t: PropPatchTarget) -> (nat, Seq<char>, Seq<char>) {
    match t {
        PropPatchTarget::TxrFile(a, b) => (0, a@, b@),
        PropPatchTarget::Txn(a) => (1, a@, Seq::empty()),
        PropPatchTarget::Resource => (2, Seq::empty(), Seq::empty()),
    }
}

/// What a PROPPATCH on `path` changes.
pub fn proppatch_target(path: &str) -> (r: PropPatchTarget)
    ensures
        proppatch_target_view(r) == proppatch_target_of(path@),
{
    match after_prefix(path, "/!svn/txr/") {
        Some(rest) => match split_at_slash(&rest) {
            Some((a, b)) => PropPatchTarget::TxrFile(a, b),
            None => PropPatchTarget::TxrFile(rest, String::new()),
        },
        None => match after_prefix(path, "/!svn/txn/") {
            Some(t) => PropPatchTarget::Txn(t),
            None => PropPatchTarget::Resource,
        },
    }
}

/// The start of a PROPPATCH multistatus.
pub open spec fn multistatus_head() -> Seq<char> {
    "<?xml version=\"1.0\" encoding=\"utf-8\"?>\n<D:multistatus xmlns:D=\"DAV:\" xmlns:ns3=\"http://subversion.tigris.org/xmlns/dav/\" xmlns:ns2=\"http://subversion.tigris.org/xmlns/custom/\" xmlns:ns1=\"http://subversion.tigris.org/xmlns/svn/\" xmlns:ns0=\"DAV:\">\n<D:response>\n<D:href>"@
}

/// The answer to a PROPPATCH on a file of a transaction: success, with no property.
pub fn txr_proppatch_xml(path: &str) -> (x: String)
    ensures
        x@ == multistatus_head() + path@
            + "</D:href>\n<D:propstat>\n<D:prop/>\n<D:status>HTTP/1.1 200 OK</D:status>\n</D:propstat>\n</D:response>\n</D:multistatus>"@,
{
    let mut x = to_owned(
        "<?xml version=\"1.0\" encoding=\"utf-8\"?>\n<D:multistatus xmlns:D=\"DAV:\" xmlns:ns3=\"http://subversion.tigris.org/xmlns/dav/\" xmlns:ns2=\"http://subversion.tigris.org/xmlns/custom/\" xmlns:ns1=\"http://subversion.tigris.org/xmlns/svn/\" xmlns:ns0=\"DAV:\">\n<D:response>\n<D:href>",
    );
    x.append(path);
    x.append("</D:href>\n<D:propstat>\n<D:prop/>\n<D:status>HTTP/1.1 200 OK</D:status>\n</D:propstat>\n</D:response>\n</D:multistatus>");
    x
}

/// The answer to a PROPPATCH on a transaction: its log property set.
pub fn txn_proppatch_xml(txn: &str) -> (x: String)
    ensures
        x@ == multistatus_head() + "/svn/!svn/txn/"@ + txn@
            + "</D:href>\n<D:propstat>\n<D:prop>\n<ns1:log/>\n</D:prop>\n<D:status>HTTP/1.1 200 OK</D:status>\n</D:propstat>\n</D:response>\n</D:multistatus>"@,
{
    let mut x = to_owned(
        "<?xml version=\"1.0\" encoding=\"utf-8\"?>\n<D:multistatus xmlns:D=\"DAV:\" xmlns:ns3=\"http://subversion.tigris.org/xmlns/dav/\" xmlns:ns2=\"http://subversion.tigris.org/xmlns/custom/\" xmlns:ns1=\"http://subversion.tigris.org/xmlns/svn/\" xmlns:ns0=\"DAV:\">\n<D:response>\n<D:href>",
    );
    x.append("/svn/!svn/txn/");
    x.append(txn);
    x.append("</D:href>\n<D:propstat>\n<D:prop>\n<ns1:log/>\n</D:prop>\n<D:status>HTTP/1.1 200 OK</D:status>\n</D:propstat>\n</D:response>\n</D:multistatus>");
    x
}

/// An activity error: the error code and the sentence about activity `name`.
pub open spec fn activity_error(code: Seq<char>, name: Seq<char>, what: Seq<char>) -> Seq<char> {
    "<?xml version=\"1.0\" encoding=\"utf-8\"?>\n<D:error xmlns:D=\"DAV:\" xmlns:m=\"http://apache.org/dav/xmlns\" xmlns:C=\"svn:\">\n<C:error/>\n<m:human-readable errcode=\""@
        + code + "\">\nActivity '"@ + escaped(name) + "' "@ + what + ".\n</m:human-readable>\n</D:error>"@
}

fn activity_error_xml(code: &str, name: &str, what: &str) -> (x: String)
    ensures
        x@ == activity_error(code@, name@, what@),
{
    let mut x = to_owned(
        "<?xml version=\"1.0\" encoding=\"utf-8\"?>\n<D:error xmlns:D=\"DAV:\" xmlns:m=\"http://apache.org/dav/xmlns\" xmlns:C=\"svn:\">\n<C:error/>\n<m:human-readable errcode=\"",
    );
    x.append(code);
    x.append("\">\nActivity '");
    let n = escape_xml(name);
    x.append(n.as_str());
    x.append("' ");
    x.append(what);
    x.append(".\n</m:human-readable>\n</D:error>");
    x
}

/// The answer to a MKACTIVITY for an activity that exists.
pub fn activity_exists_xml(name: &str) -> (x: String)
    ensures
        x@ == activity_error("160024"@, name@, "already exists"@),
{
    activity_error_xml("160024", name, "already exists")
}

/// The answer to a DELETE of an activity that does not exist.
pub fn activity_not_found_xml(name: &str) -> (x: String)
    ensures
        x@ == activity_error("160007"@, name@, "not found"@),
{
    activity_error_xml("160007", name, "not found")
}

/// The answer to a MKACTIVITY that created activity `name`.
pub fn activity_created_xml(name: &str) -> (x: String)
    ensures
        x@ == "<?xml version=\"1.0\" encoding=\"utf-8\"?>\n<D:mkactivity-response xmlns:D=\"DAV:\">\n<D:href>/svn/!svn/act/"@
            + name@ + "</D:href>\n</D:mkactivity-response>"@,
{
    let mut x = to_owned(
        "<?xml version=\"1.0\" encoding=\"utf-8\"?>\n<D:mkactivity-response xmlns:D=\"DAV:\">\n<D:href>/svn/!svn/act/",
    );
    x.append(name);
    x.append("</D:href>\n</D:mkactivity-response>");
    x
}

// ─────────────────────────── committing and listing ───────────────────────────

/// The transaction a MERGE commits: the text between `/!svn/txn/` and `</D:href>` in
/// its body, empty where there is none.
pub fn merge_txn_name(body: &str) -> (r: String)
    ensures
        r@ == match text_between(body@, "/!svn/txn/"@, "</D:href>"@) {
            Some(t) => t,
            None => Seq::empty(),
        },
{
    match extract_text_between(body, "/!svn/txn/", "</D:href>") {
        Some(t) => t,
        None => String::new(),
    }
}

/// A staged file is committed executable where its path ends with `.sh` or has a
/// `/bin/` directory.
pub open spec fn executable_path(path: Seq<char>) -> bool {
    ends_with(path, ".sh"@) || contains(path, "/bin/"@)
}

/// Whether a staged file is committed executable.
pub fn is_executable_path(path: &str) -> (b: bool)
    ensures
        b == executable_path(path@),
{
    let cs = chars_of(path);
    let sh = chars_of(".sh");
    let mut ends = false;
    if sh.len() <= cs.len() {
        let t = string_of_range(&cs, cs.len() - sh.len(), cs.len());
        ends = str_eq(t.as_str(), ".sh");
    }
    ends || str_contains(path, "/bin/")
}

/// The author a commit is made with: the transaction's, `anonymous` where it has
/// none.
pub fn commit_author(author: &str) -> (r: String)
    ensures
        r@ == if author@.len() == 0 { "anonymous"@ } else { author@ },
{
    if author.is_empty() {
        to_owned("anonymous")
    } else {
        to_owned(author)
    }
}

/// The message a commit is made with: the transaction's log message, `No log
/// message` where it has none.
pub fn commit_message(message: &str) -> (r: String)
    ensures
        r@ == if message@.len() == 0 { "No log message"@ } else { message@ },
{
    if message.is_empty() {
        to_owned("No log message")
    } else {
        to_owned(message)
    }
}

/// The answer to a MERGE that committed revision `rev` at `timestamp` by `author`.
pub open spec fn merge_response(rev: u64, timestamp: i64, author: Seq<char>) -> Seq<char> {
    "<?xml version=\"1.0\" encoding=\"utf-8\"?>\n<D:merge-response xmlns:D=\"DAV:\">\n<D:updated-set>\n<D:response>\n<D:href>/svn/!svn/vcc/default</D:href>\n<D:propstat><D:prop>\n<D:resourcetype><D:baseline/></D:resourcetype>\n<D:version-name>"@
        + decimal(rev as nat) + "</D:version-name>\n<D:creationdate>"@ + svn_date(timestamp)
        + "</D:creationdate>\n<D:creator-displayname>"@ + escaped(author)
        + "</D:creator-displayname>\n</D:prop>\n<D:status>HTTP/1.1 200 OK</D:status>\n</D:propstat>\n</D:response>\n</D:updated-set>\n</D:merge-response>"@
}

/// The answer to a MERGE that committed revision `rev`.
pub fn merge_response_xml(rev: u64, timestamp: i64, author: &str) -> (x: String)
    ensures
        x@ == merge_response(rev, timestamp, author@),
{
    let mut x = to_owned(
        "<?xml version=\"1.0\" encoding=\"utf-8\"?>\n<D:merge-response xmlns:D=\"DAV:\">\n<D:updated-set>\n<D:response>\n<D:href>/svn/!svn/vcc/default</D:href>\n<D:propstat><D:prop>\n<D:resourcetype><D:baseline/></D:resourcetype>\n<D:version-name>",
    );
    let r = u64_to_string(rev);
    x.append(r.as_str());
    x.append("</D:version-name>\n<D:creationdate>");
    let d = format_svn_date(timestamp);
    x.append(d.as_str());
    x.append("</D:creationdate>\n<D:creator-displayname>");
    let a = escape_xml(author);
    x.append(a.as_str());
    x.append(
        "</D:creator-displayname>\n</D:prop>\n<D:status>HTTP/1.1 200 OK</D:status>\n</D:propstat>\n</D:response>\n</D:updated-set>\n</D:merge-response>",
    );
    x
}

/// The hrefs of the activities `names`, one line each.
pub open spec fn activity_hrefs(names: Seq<Seq<char>>) -> Seq<char>
    decreases names.len(),
{
    if names.len() == 0 {
        Seq::empty()
    } else {
        activity_hrefs(names.drop_last()) + "  <D:href>/svn/!svn/act/"@ + names.last() + "</D:href>\n"@
    }
}

/// The list of the activities `names`.
pub fn activity_list_xml(names: &Vec<String>) -> (x: String)
    ensures
        x@ == "<?xml version=\"1.0\" encoding=\"utf-8\"?>\n<D:activity-collection-set xmlns:D=\"DAV:\">\n"@
            + activity_hrefs(names@.map_values(|s: String| s@)) + "</D:activity-collection-set>"@,
{
    let ghost nv = names@.map_values(|s: String| s@);
    let mut x = to_owned("<?xml version=\"1.0\" encoding=\"utf-8\"?>\n<D:activity-collection-set xmlns:D=\"DAV:\">\n");
    let ghost head = x@;
    let mut i: usize = 0;
    while i < names.len()
        invariant
            i <= names@.len(),
            nv == names@.map_values(|s: String| s@),
            x@ == head + activity_hrefs(nv.subrange(0, i as int)),
        decreases names@.len() - i,
    {
        assert(nv.subrange(0, i + 1).drop_last() =~= nv.subrange(0, i as int));
        x.append("  <D:href>/svn/!svn/act/");
        x.append(names[i].as_str());
        x.append("</D:href>\n");
        i = i + 1;
    }
    assert(nv.subrange(0, i as int) =~= nv);
    x.append("</D:activity-collection-set>");
    x
}

/// What a GET on a path gives.
#[derive(Debug, Clone, Copy, PartialEq, Eq, Structural)]
pub enum GetTarget {
    /// The list of activities.
    ListActivities,
    /// 404: a special resource.
    NotFound,
    /// 405: a collection, to be read with PROPFIND.
    UsePropfind,
    /// The file's content at the current revision.
    File,
}

/// What a GET on `path` gives: the activity collection lists the activities, other
/// special resources are not found, collections ask for PROPFIND, anything else is a
/// file.
pub open spec fn get_target_of(path: Seq<char>) -> GetTarget {
    let s = special_of(path);
    if s == "/!svn/act/"@ || s == "/!svn/act"@ {
        GetTarget::ListActivities
    } else if contains(path, "!svn"@) {
        GetTarget::NotFound
    } else if ends_with(path, "/"@) || path == "/svn"@ {
        GetTarget::UsePropfind
    } else {
        GetTarget::File
    }
}

/// What a GET on `path` gives.
pub fn get_target(path: &str) -> (t: GetTarget)
    ensures
        t == get_target_of(path@),
{
    let p = chars_of(path);
    proof {
        reveal_strlit("/svn");
    }
    let start: usize = if str_starts_with(path, "/svn") { 4 } else { 0 };
    let s = string_of_range(&p, start, p.len());
    assert(s@ == special_of(path@));
    if str_eq(s.as_str(), "/!svn/act/") || str_eq(s.as_str(), "/!svn/act") {
        GetTarget::ListActivities
    } else if str_contains(path, "!svn") {
        GetTarget::NotFound
    } else {
        let slash_end = p.len() > 0 && p[p.len() - 1] == '/';
        proof {
            reveal_strlit("/");
            if p@.len() > 0 {
                if p@[p@.len() - 1] == '/' {
                    assert(p@.subrange(p@.len() - 1, p@.len() as int) =~= "/"@);
                } else {
                    assert(p@.subrange(p@.len() - 1, p@.len() as int)[0] == p@[p@.len() - 1]);
                }
            }
        }
        if slash_end || str_eq(path, "/svn") {
            GetTarget::UsePropfind
        } else {
            GetTarget::File
        }
    }
}


// ─────────────────────────── the activity table ───────────────────────────

/// What the server keeps of an open activity: the revision it is based on and when it
/// was created.
#[derive(Debug, Clone, Copy)]
pub struct ActivityRecord {
    pub base_revision: u64,
    pub created_at: i64,
}

/// The open activities (transactions), by name.
pub struct ActivityTable {
    table: crate::strmap::StrMap<ActivityRecord>,
}

impl ActivityTable {
    /// The activities, by name: base revision and creation time.
    pub closed spec fn view(&self) -> Map<Seq<char>, (u64, i64)> {
        self.table@.map_values(|r: ActivityRecord| (r.base_revision, r.created_at))
    }

    /// The table's invariant: each name once.
    pub closed spec fn wf(&self) -> bool {
        self.table.wf()
    }

    /// No activity is open.
    pub fn new() -> (t: Self)
        ensures
            t.wf(),
            t@ == Map::<Seq<char>, (u64, i64)>::empty(),
    {
        let t = ActivityTable { table: crate::strmap::StrMap::new() };
        assert(t@ =~= Map::<Seq<char>, (u64, i64)>::empty());
        t
    }

    /// Opens the activity `name` based on `base_revision`; an activity of that name
    /// that is already open is refused with the MKACTIVITY error for it (answered
    /// with status 405), and the table is left as it was.
    pub fn create(&mut self, name: &str, base_revision: u64, created_at: i64) -> (r: Result<(), String>)
        requires
            old(self).wf(),
        ensures
            final(self).wf(),
            old(self)@.contains_key(name@) ==> (r matches Err(x) && x@ == activity_error(
                "160024"@,
                name@,
                "already exists"@,
            )) && final(self)@ == old(self)@,
            !old(self)@.contains_key(name@) ==> r is Ok && final(self)@ == old(self)@.insert(
                name@,
                (base_revision, created_at),
            ),
    {
        if self.table.contains_key(name) {
            return Err(activity_exists_xml(name));
        }
        self.table.insert(to_owned(name), ActivityRecord { base_revision, created_at });
        assert(self@ =~= old(self)@.insert(name@, (base_revision, created_at)));
        Ok(())
    }

    /// Whether the activity `name` is open.
    pub fn contains(&self, name: &str) -> (b: bool)
        requires
            self.wf(),
        ensures
            b == self@.contains_key(name@),
    {
        self.table.contains_key(name)
    }

    /// Closes the activity `name`: `true` where it was open.
    pub fn remove(&mut self, name: &str) -> (b: bool)
        requires
            old(self).wf(),
        ensures
            final(self).wf(),
            b == old(self)@.contains_key(name@),
            final(self)@ == old(self)@.remove(name@),
    {
        let r = self.table.remove(name);
        assert(self@ =~= old(self)@.remove(name@));
        r.is_some()
    }

    /// The names of the open activities, each once.
    pub fn names(&self) -> (r: Vec<String>)
        requires
            self.wf(),
        ensures
            forall|i: int, j: int| 0 <= i < j < r@.len() ==> r@[i]@ != r@[j]@,
            forall|i: int| 0 <= i < r@.len() ==> #[trigger] self@.contains_key(r@[i]@),
            forall|k: Seq<char>| #[trigger] self@.contains_key(k) ==> exists|i: int| 0 <= i < r@.len() && r@[i]@ == k,
    {
        let r = self.table.keys();
        proof {
            let es = self.table.entries_view();
            assert forall|i: int| 0 <= i < r@.len() implies #[trigger] self@.contains_key(r@[i]@) by {
                assert(es[i].0@ == r@[i]@);
            }
            assert forall|i: int, j: int| 0 <= i < j < r@.len() implies r@[i]@ != r@[j]@ by {
                assert(es[i].0@ == r@[i]@);
                assert(es[j].0@ == r@[j]@);
            }
            assert forall|k: Seq<char>| #[trigger] self@.contains_key(k) implies exists|i: int| 0 <= i < r@.len() && r@[i]@ == k by {
                let j = choose|j: int| 0 <= j < es.len() && #[trigger] es[j].0@ == k;
                assert(r@[j]@ == k);
            }
        }
        r
    }
}

} // verus!
