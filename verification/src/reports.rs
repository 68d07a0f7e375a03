//! The REPORT requests besides log and update: which report a body asks for, what
//! the get-locations, dated-rev, replay and deleted-rev reports ask for and decide,
//! and their XML.
use vstd::prelude::*;
use crate::text::{
    contains, str_contains, chars_of, string_of_range, parse_u64, parse_u64_str, decimal, u64_to_string, to_owned,
    starts_with, str_eq, str_starts_with, concat2,
};
use crate::report::{text_between, extract_text_between, all_between_from, find_all_between};
use crate::proppatch::{escaped, escape_xml};
use crate::load::{rfc3339_seconds, parse_rfc3339};
use crate::object::TreeChange;

verus! {

/// The kinds of report.
#[derive(Debug, Clone, Copy, PartialEq, Eq, Structural)]
pub enum ReportKind {
    Update,
    Log,
    GetLocations,
    DatedRev,
    Mergeinfo,
    GetLocks,
    Replay,
    DeletedRev,
    InheritedProps,
    Unsupported,
}

/// The report a body asks for, by the first of these that it mentions: an update
/// report, a log report (or any `log` that is no get-locations report), then
/// get-locations, dated-rev, mergeinfo, get-locks, replay, deleted-rev and
/// inherited-props reports.
pub open spec fn report_kind_of(b: Seq<char>) -> ReportKind {
    if contains(b, "update-report"@) || contains(b, "<S:update"@) {
        ReportKind::Update
    } else if contains(b, "log-report"@) || contains(b, "log-item"@) || (contains(b, "log"@) && !contains(
        b,
        "get-locations"@,
    )) {
        ReportKind::Log
    } else if contains(b, "get-locations"@) {
        ReportKind::GetLocations
    } else if contains(b, "get-dated-rev"@) {
        ReportKind::DatedRev
    } else if contains(b, "mergeinfo-report"@) {
        ReportKind::Mergeinfo
    } else if contains(b, "get-locks-report"@) {
        ReportKind::GetLocks
    } else if contains(b, "replay-report"@) {
        ReportKind::Replay
    } else if contains(b, "get-deleted-rev"@) {
        ReportKind::DeletedRev
    } else if contains(b, "inherited-props-report"@) {
        ReportKind::InheritedProps
    } else {
        ReportKind::Unsupported
    }
}

/// The report a body asks for.
pub fn report_kind(body: &str) -> (k: ReportKind)
    ensures
        k == report_kind_of(body@),
{
    if str_contains(body, "update-report") || str_contains(body, "<S:update") {
        ReportKind::Update
    } else if str_contains(body, "log-report") || str_contains(body, "log-item") || (str_contains(body, "log")
        && !str_contains(body, "get-locations")) {
        ReportKind::Log
    } else if str_contains(body, "get-locations") {
        ReportKind::GetLocations
    } else if str_contains(body, "get-dated-rev") {
        ReportKind::DatedRev
    } else if str_contains(body, "mergeinfo-report") {
        ReportKind::Mergeinfo
    } else if str_contains(body, "get-locks-report") {
        ReportKind::GetLocks
    } else if str_contains(body, "replay-report") {
        ReportKind::Replay
    } else if str_contains(body, "get-deleted-rev") {
        ReportKind::DeletedRev
    } else if str_contains(body, "inherited-props-report") {
        ReportKind::InheritedProps
    } else {
        ReportKind::Unsupported
    }
}

/// The XML of the reports that need no repository: empty mergeinfo, get-locks and
/// inherited-props reports, and the error for a report of no known kind.
pub open spec fn fixed_report(k: ReportKind) -> Option<Seq<char>> {
    match k {
        ReportKind::Mergeinfo => Some(
            "<?xml version=\"1.0\" encoding=\"utf-8\"?>\n<S:mergeinfo-report xmlns:S=\"svn:\">\n</S:mergeinfo-report>"@,
        ),
        ReportKind::GetLocks => Some(
            "<?xml version=\"1.0\" encoding=\"utf-8\"?>\n<S:get-locks-report xmlns:S=\"svn:\">\n</S:get-locks-report>"@,
        ),
        ReportKind::InheritedProps => Some(
            "<?xml version=\"1.0\" encoding=\"utf-8\"?>\n<S:inherited-props-report xmlns:S=\"svn:\" xmlns:D=\"DAV:\">\n</S:inherited-props-report>"@,
        ),
        ReportKind::Unsupported => Some(
            "<?xml version=\"1.0\" encoding=\"utf-8\"?>\n<D:error xmlns:D=\"DAV:\" xmlns:m=\"http://apache.org/dav/xmlns\" xmlns:C=\"svn:\">\n<C:error/>\n<m:human-readable errcode=\"200007\">\nUnsupported report type.\n</m:human-readable>\n</D:error>"@,
        ),
        _ => None,
    }
}

/// The XML of a report that needs no repository.
pub fn fixed_report_xml(k: ReportKind) -> (r: Option<String>)
    ensures
        match fixed_report(k) {
            Some(t) => r matches Some(x) && x@ == t,
            None => r is None,
        },
{
    match k {
        ReportKind::Mergeinfo => Some(
            to_owned("<?xml version=\"1.0\" encoding=\"utf-8\"?>\n<S:mergeinfo-report xmlns:S=\"svn:\">\n</S:mergeinfo-report>"),
        ),
        ReportKind::GetLocks => Some(
            to_owned("<?xml version=\"1.0\" encoding=\"utf-8\"?>\n<S:get-locks-report xmlns:S=\"svn:\">\n</S:get-locks-report>"),
        ),
        ReportKind::InheritedProps => Some(
            to_owned(
                "<?xml version=\"1.0\" encoding=\"utf-8\"?>\n<S:inherited-props-report xmlns:S=\"svn:\" xmlns:D=\"DAV:\">\n</S:inherited-props-report>",
            ),
        ),
        ReportKind::Unsupported => Some(
            to_owned(
                "<?xml version=\"1.0\" encoding=\"utf-8\"?>\n<D:error xmlns:D=\"DAV:\" xmlns:m=\"http://apache.org/dav/xmlns\" xmlns:C=\"svn:\">\n<C:error/>\n<m:human-readable errcode=\"200007\">\nUnsupported report type.\n</m:human-readable>\n</D:error>",
            ),
        ),
        _ => None,
    }
}

// ─────────────────────────── shared pieces ───────────────────────────

/// `s` without the slashes at its start.
pub open spec fn trim_start_slashes(s: Seq<char>) -> Seq<char>
    decreases s.len(),
{
    if s.len() > 0 && s[0] == '/' {
        trim_start_slashes(s.drop_first())
    } else {
        s
    }
}

/// `s` without the slashes at its start.
fn trim_leading_slashes(s: &str) -> (r: String)
    ensures
        r@ == trim_start_slashes(s@),
{
    let cs = chars_of(s);
    let mut i: usize = 0;
    assert(cs@.subrange(0, cs@.len() as int) =~= s@);
    while i < cs.len() && cs[i] == '/'
        invariant
            i <= cs@.len(),
            cs@ == s@,
            trim_start_slashes(cs@.subrange(i as int, cs@.len() as int)) == trim_start_slashes(s@),
        decreases cs@.len() - i,
    {
        assert(cs@.subrange(i as int, cs@.len() as int).drop_first() =~= cs@.subrange(i + 1, cs@.len() as int));
        i = i + 1;
    }
    string_of_range(&cs, i, cs.len())
}

/// The text between the first of two pairs of tags that the body has: `a1..b1`, else
/// `a2..b2`.
pub open spec fn between_either(body: Seq<char>, a1: Seq<char>, b1: Seq<char>, a2: Seq<char>, b2: Seq<char>) -> Option<Seq<char>> {
    match text_between(body, a1, b1) {
        Some(t) => Some(t),
        None => text_between(body, a2, b2),
    }
}

fn extract_either(body: &str, a1: &str, b1: &str, a2: &str, b2: &str) -> (r: Option<String>)
    ensures
        match between_either(body@, a1@, b1@, a2@, b2@) {
            Some(t) => r matches Some(x) && x@ == t,
            None => r is None,
        },
{
    match extract_text_between(body, a1, b1) {
        Some(t) => Some(t),
        None => extract_text_between(body, a2, b2),
    }
}

/// A revision number given between tags, `default` where there is none or it is
/// no number.
pub open spec fn rev_or(t: Option<Seq<char>>, default: u64) -> u64 {
    match t {
        Some(s) => match parse_u64(s) {
            Some(x) => x,
            None => default,
        },
        None => default,
    }
}

fn rev_or_exec(t: &Option<String>, default: u64) -> (r: u64)
    ensures
        r == rev_or(match t { Some(s) => Some(s@), None => None }, default),
{
    match t {
        Some(s) => match parse_u64_str(s.as_str()) {
            Some(x) => x,
            None => default,
        },
        None => default,
    }
}

/// `<?xml ...?>` and a newline.
pub open spec fn xml_decl() -> Seq<char> {
    "<?xml version=\"1.0\" encoding=\"utf-8\"?>\n"@
}

// ─────────────────────────── get-locations ───────────────────────────

/// What a get-locations report asks for.
#[derive(Debug, Clone)]
pub struct LocationsRequest {
    /// The path, without leading slashes.
    pub path: String,
    pub peg_rev: u64,
    /// The revisions asked about, each no later than the current one.
    pub revs: Vec<u64>,
}

/// The revisions of location-revision elements: each one's number where it is one,
/// no later than `current`.
pub open spec fn location_revs(pieces: Seq<Seq<char>>, current: u64) -> Seq<u64>
    decreases pieces.len(),
{
    if pieces.len() == 0 {
        Seq::empty()
    } else {
        location_revs(pieces.drop_last(), current) + match text_between(
            pieces.last(),
            "<S:location-revision>"@,
            "</S:location-revision>"@,
        ) {
            Some(t) => match parse_u64(t) {
                Some(x) => seq![if x < current { x } else { current }],
                None => Seq::empty(),
            },
            None => Seq::empty(),
        }
    }
}

impl LocationsRequest {
    /// Reads a get-locations report: the path (`S:path` or `path`), the peg revision
    /// (`S:peg-revision` or `peg-revision`, the current one by default) and the
    /// location revisions.
    pub fn parse(body: &str, current_rev: u64) -> (r: Self)
        ensures
            r.path@ == trim_start_slashes(
                match between_either(body@, "<S:path>"@, "</S:path>"@, "<path>"@, "</path>"@) {
                    Some(t) => t,
                    None => Seq::empty(),
                },
            ),
            r.peg_rev == rev_or(
                between_either(body@, "<S:peg-revision>"@, "</S:peg-revision>"@, "<peg-revision>"@, "</peg-revision>"@),
                current_rev,
            ),
            r.revs@ == location_revs(
                all_between_from(body@, "<S:location-revision>"@, "</S:location-revision>"@, 0),
                current_rev,
            ),
    {
        let p = extract_either(body, "<S:path>", "</S:path>", "<path>", "</path>");
        let path = match p {
            Some(t) => trim_leading_slashes(t.as_str()),
            None => String::new(),
        };
        let peg = extract_either(body, "<S:peg-revision>", "</S:peg-revision>", "<peg-revision>", "</peg-revision>");
        let peg_rev = rev_or_exec(&peg, current_rev);
        let pieces = find_all_between(body, "<S:location-revision>", "</S:location-revision>");
        let ghost ps = pieces@.map_values(|x: String| x@);
        let mut revs: Vec<u64> = Vec::new();
        let mut i: usize = 0;
        while i < pieces.len()
            invariant
                i <= pieces@.len(),
                ps == pieces@.map_values(|x: String| x@),
                revs@ == location_revs(ps.subrange(0, i as int), current_rev),
            decreases pieces@.len() - i,
        {
            assert(ps.subrange(0, i + 1).drop_last() =~= ps.subrange(0, i as int));
            assert(ps[i as int] == pieces@[i as int]@);
            match extract_text_between(pieces[i].as_str(), "<S:location-revision>", "</S:location-revision>") {
                Some(t) => match parse_u64_str(t.as_str()) {
                    Some(x) => {
                        revs.push(if x < current_rev { x } else { current_rev });
                    },
                    None => {},
                },
                None => {},
            }
            assert(revs@ =~= location_revs(ps.subrange(0, i + 1), current_rev));
            i = i + 1;
        }
        assert(ps.subrange(0, i as int) =~= ps);
        LocationsRequest { path, peg_rev, revs }
    }
}

/// The locations of the report: for each revision asked about whose tree could be
/// read, the path where the tree has it, and the root where the path is empty and
/// the revision is not after the peg revision.
pub open spec fn locations(path: Seq<char>, peg: u64, revs: Seq<u64>, found: Seq<Option<bool>>) -> Seq<char>
    decreases revs.len(),
{
    if revs.len() == 0 || found.len() == 0 {
        Seq::empty()
    } else {
        let r = revs.last();
        locations(path, peg, revs.drop_last(), found.drop_last()) + match found.last() {
            Some(has) => if has || (path.len() == 0 && r <= peg) {
                "<S:location rev=\""@ + decimal(r as nat) + "\" path=\""@ + escaped(
                    if path.len() == 0 { "/"@ } else { "/"@ + path },
                ) + "\"/>\n"@
            } else {
                Seq::empty()
            },
            None => Seq::empty(),
        }
    }
}

/// The get-locations report; `found[i]` says whether the tree at `req.revs[i]` has
/// the path (`None` where that tree could not be read).
pub fn locations_report_xml(req: &LocationsRequest, found: &Vec<Option<bool>>) -> (x: String)
    requires
        found@.len() == req.revs@.len(),
    ensures
        x@ == xml_decl() + "<S:get-locations-report xmlns:S=\"svn:\" xmlns:D=\"DAV:\">\n"@ + locations(
            req.path@,
            req.peg_rev,
            req.revs@,
            found@,
        ) + "</S:get-locations-report>"@,
{
    let mut x = to_owned("<?xml version=\"1.0\" encoding=\"utf-8\"?>\n");
    x.append("<S:get-locations-report xmlns:S=\"svn:\" xmlns:D=\"DAV:\">\n");
    let ghost head = x@;
    let shown = if req.path.as_str().is_empty() {
        to_owned("/")
    } else {
        concat2("/", req.path.as_str())
    };
    let esc = escape_xml(shown.as_str());
    let mut i: usize = 0;
    while i < found.len()
        invariant
            i <= found@.len(),
            found@.len() == req.revs@.len(),
            esc@ == escaped(if req.path@.len() == 0 { "/"@ } else { "/"@ + req.path@ }),
            x@ == head + locations(req.path@, req.peg_rev, req.revs@.subrange(0, i as int), found@.subrange(0, i as int)),
        decreases found@.len() - i,
    {
        assert(req.revs@.subrange(0, i + 1).drop_last() =~= req.revs@.subrange(0, i as int));
        assert(found@.subrange(0, i + 1).drop_last() =~= found@.subrange(0, i as int));
        let r = req.revs[i];
        match found[i] {
            Some(has) => {
                if has || (req.path.as_str().is_empty() && r <= req.peg_rev) {
                    x.append("<S:location rev=\"");
                    let n = u64_to_string(r);
                    x.append(n.as_str());
                    x.append("\" path=\"");
                    x.append(esc.as_str());
                    x.append("\"/>\n");
                }
            },
            None => {},
        }
        i = i + 1;
    }
    assert(req.revs@.subrange(0, i as int) =~= req.revs@);
    assert(found@.subrange(0, i as int) =~= found@);
    x.append("</S:get-locations-report>");
    x
}

// ─────────────────────────── dated-rev ───────────────────────────

/// The time a dated-rev report asks about: the seconds of its creation date (`D:`
/// or `S:`), and the end of time where there is none or it is no RFC 3339 date.
pub open spec fn dated_target_of(body: Seq<char>) -> i64 {
    let d = match between_either(body, "<D:creationdate>"@, "</D:creationdate>"@, "<S:creationdate>"@, "</S:creationdate>"@) {
        Some(t) => t,
        None => Seq::empty(),
    };
    if d.len() > 0 {
        match rfc3339_seconds(d) {
            Some(t) => t,
            None => i64::MAX,
        }
    } else {
        i64::MAX
    }
}

/// The time a dated-rev report asks about.
pub fn dated_target(body: &str) -> (t: i64)
    ensures
        t == dated_target_of(body@),
{
    let d = extract_either(body, "<D:creationdate>", "</D:creationdate>", "<S:creationdate>", "</S:creationdate>");
    let s = match d {
        Some(t) => t,
        None => String::new(),
    };
    if !s.as_str().is_empty() {
        match parse_rfc3339(s.as_str()) {
            Some(t) => t,
            None => i64::MAX,
        }
    } else {
        i64::MAX
    }
}

/// The latest revision among `0..times.len()` whose commit is not after `target`
/// (`times[r]` is the time of revision `r`'s commit, `None` where it has none); 0
/// where there is none.
pub open spec fn dated_rev_of(times: Seq<Option<i64>>, target: i64) -> nat
    decreases times.len(),
{
    if times.len() == 0 {
        0
    } else {
        match times.last() {
            Some(t) if t <= target => (times.len() - 1) as nat,
            _ => dated_rev_of(times.drop_last(), target),
        }
    }
}

/// The revision a dated-rev report answers.
pub fn dated_rev(times: &Vec<Option<i64>>, target: i64) -> (r: u64)
    ensures
        r == dated_rev_of(times@, target),
{
    let mut n = times.len();
    assert(times@.subrange(0, n as int) =~= times@);
    while n > 0
        invariant
            n <= times@.len(),
            dated_rev_of(times@.subrange(0, n as int), target) == dated_rev_of(times@, target),
        decreases n,
    {
        assert(times@.subrange(0, n as int).drop_last() =~= times@.subrange(0, n - 1));
        assert(times@.subrange(0, n as int).last() == times@[n - 1]);
        match times[n - 1] {
            Some(t) => {
                if t <= target {
                    return (n - 1) as u64;
                }
            },
            None => {},
        }
        n = n - 1;
    }
    0
}

/// A report that names one revision: `<S:name ...>` with a version name.
pub open spec fn version_name_report(name: Seq<char>, rev: u64) -> Seq<char> {
    xml_decl() + "<S:"@ + name + " xmlns:S=\"svn:\" xmlns:D=\"DAV:\">\n<D:version-name>"@ + decimal(rev as nat)
        + "</D:version-name>\n</S:"@ + name + ">"@
}

fn version_name_xml(name: &str, rev: u64) -> (x: String)
    ensures
        x@ == version_name_report(name@, rev),
{
    let mut x = to_owned("<?xml version=\"1.0\" encoding=\"utf-8\"?>\n");
    x.append("<S:");
    x.append(name);
    x.append(" xmlns:S=\"svn:\" xmlns:D=\"DAV:\">\n<D:version-name>");
    let n = u64_to_string(rev);
    x.append(n.as_str());
    x.append("</D:version-name>\n</S:");
    x.append(name);
    x.append(">");
    x
}

/// The dated-rev report for revision `rev`.
pub fn dated_rev_xml(rev: u64) -> (x: String)
    ensures
        x@ == version_name_report("dated-rev-report"@, rev),
{
    version_name_xml("dated-rev-report", rev)
}

// ─────────────────────────── replay ───────────────────────────

/// The revision a replay report asks for, the current one by default.
pub fn replay_rev(body: &str, current_rev: u64) -> (r: u64)
    ensures
        r == rev_or(text_between(body@, "<S:revision>"@, "</S:revision>"@), current_rev),
{
    let t = extract_text_between(body, "<S:revision>", "</S:revision>");
    rev_or_exec(&t, current_rev)
}

/// The editor entries of a revision's changes: an added file for each upsert, a
/// deleted entry for each deletion.
pub open spec fn replay_entries(changes: Seq<TreeChange>) -> Seq<char>
    decreases changes.len(),
{
    if changes.len() == 0 {
        Seq::empty()
    } else {
        replay_entries(changes.drop_last()) + match changes.last() {
            TreeChange::Upsert { path, .. } => "<S:add-file name=\""@ + escaped(path@) + "\">\n</S:add-file>\n"@,
            TreeChange::Delete { path } => "<S:delete-entry name=\""@ + escaped(path@) + "\"/>\n"@,
        }
    }
}

/// The replay report of revision `rev`, with its changes where its delta tree could
/// be read.
pub fn replay_report_xml(rev: u64, changes: &Option<Vec<TreeChange>>) -> (x: String)
    ensures
        x@ == xml_decl() + "<S:editor-report xmlns:S=\"svn:\">\n<S:target-revision>"@ + decimal(rev as nat)
            + "</S:target-revision>\n"@ + match changes {
            Some(cs) => "<S:open-root>\n"@ + replay_entries(cs@) + "</S:open-root>\n"@,
            None => Seq::empty(),
        } + "</S:editor-report>"@,
{
    let mut x = to_owned("<?xml version=\"1.0\" encoding=\"utf-8\"?>\n");
    x.append("<S:editor-report xmlns:S=\"svn:\">\n<S:target-revision>");
    let n = u64_to_string(rev);
    x.append(n.as_str());
    x.append("</S:target-revision>\n");
    let ghost head = x@;
    match changes {
        Some(cs) => {
            x.append("<S:open-root>\n");
            let ghost start = x@;
            let mut i: usize = 0;
            while i < cs.len()
                invariant
                    i <= cs@.len(),
                    x@ == start + replay_entries(cs@.subrange(0, i as int)),
                decreases cs@.len() - i,
            {
                assert(cs@.subrange(0, i + 1).drop_last() =~= cs@.subrange(0, i as int));
                match &cs[i] {
                    TreeChange::Upsert { path, .. } => {
                        x.append("<S:add-file name=\"");
                        let e = escape_xml(path.as_str());
                        x.append(e.as_str());
                        x.append("\">\n</S:add-file>\n");
                    },
                    TreeChange::Delete { path } => {
                        x.append("<S:delete-entry name=\"");
                        let e = escape_xml(path.as_str());
                        x.append(e.as_str());
                        x.append("\"/>\n");
                    },
                }
                i = i + 1;
            }
            assert(cs@.subrange(0, i as int) =~= cs@);
            x.append("</S:open-root>\n");
        },
        None => {},
    }
    x.append("</S:editor-report>");
    x
}

// ─────────────────────────── deleted-rev ───────────────────────────

/// What a get-deleted-rev report asks for.
#[derive(Debug, Clone)]
pub struct DeletedRevRequest {
    /// The path, without leading slashes.
    pub path: String,
    pub peg_rev: u64,
    pub end_rev: u64,
}

impl DeletedRevRequest {
    /// Reads a get-deleted-rev report; the revisions default to the current one.
    pub fn parse(body: &str, current_rev: u64) -> (r: Self)
        ensures
            r.path@ == trim_start_slashes(
                match text_between(body@, "<S:path>"@, "</S:path>"@) {
                    Some(t) => t,
                    None => Seq::empty(),
                },
            ),
            r.peg_rev == rev_or(text_between(body@, "<S:peg-revision>"@, "</S:peg-revision>"@), current_rev),
            r.end_rev == rev_or(text_between(body@, "<S:end-revision>"@, "</S:end-revision>"@), current_rev),
    {
        let path = match extract_text_between(body, "<S:path>", "</S:path>") {
            Some(t) => trim_leading_slashes(t.as_str()),
            None => String::new(),
        };
        let peg = extract_text_between(body, "<S:peg-revision>", "</S:peg-revision>");
        let end = extract_text_between(body, "<S:end-revision>", "</S:end-revision>");
        DeletedRevRequest { path, peg_rev: rev_or_exec(&peg, current_rev), end_rev: rev_or_exec(&end, current_rev) }
    }

    /// The revisions searched for the deletion: after the peg revision, up to the
    /// end revision and the current one; `None` where there is none.
    pub fn search_range(&self, current_rev: u64) -> (r: Option<(u64, u64)>)
        ensures
            ({
                let last = if self.end_rev < current_rev { self.end_rev } else { current_rev };
                &&& (self.peg_rev < last) ==> r == Some(((self.peg_rev + 1) as u64, last))
                &&& !(self.peg_rev < last) ==> r is None
            }),
    {
        let last = if self.end_rev < current_rev { self.end_rev } else { current_rev };
        if self.peg_rev < last {
            Some((self.peg_rev + 1, last))
        } else {
            None
        }
    }
}

/// A deletion of `deleted` removes `path`: the same path, or a directory above it.
pub open spec fn removes(deleted: Seq<char>, path: Seq<char>) -> bool {
    deleted == path || starts_with(path, deleted + "/"@)
}

/// Some deletion among `ds` removes `path`.
pub open spec fn any_removes(ds: Seq<Seq<char>>, path: Seq<char>) -> bool {
    exists|i: int| 0 <= i < ds.len() && removes(#[trigger] ds[i], path)
}

/// The first revision among `revs` (each with the paths its delta tree deletes, or
/// `None` where it could not be read) that deletes `path`; 0 where none does.
pub open spec fn deleted_rev_of(revs: Seq<(u64, Option<Seq<Seq<char>>>)>, path: Seq<char>) -> u64
    decreases revs.len(),
{
    if revs.len() == 0 {
        0
    } else {
        match revs[0].1 {
            Some(ds) => if any_removes(ds, path) {
                revs[0].0
            } else {
                deleted_rev_of(revs.drop_first(), path)
            },
            None => deleted_rev_of(revs.drop_first(), path),
        }
    }
}

/// The plain value of what the repository gave for the revisions searched.
pub open spec fn deletions_view(revs: Seq<(u64, Option<Vec<String>>)>) -> Seq<(u64, Option<Seq<Seq<char>>>)> {
    revs.map_values(
        |r: (u64, Option<Vec<String>>)|
            (r.0, match r.1 {
                Some(v) => Some(v@.map_values(|s: String| s@)),
                None => None,
            }),
    )
}

/// Whether deleting `deleted` removes `path`.
fn removes_exec(deleted: &str, path: &str) -> (b: bool)
    ensures
        b == removes(deleted@, path@),
{
    if str_eq(deleted, path) {
        return true;
    }
    let d = concat2(deleted, "/");
    str_starts_with(path, d.as_str())
}

/// The revision a get-deleted-rev report answers; `revs` holds, for each revision
/// of the search range in order, the paths its delta tree deletes (`None` where it
/// could not be read).
pub fn deleted_rev(path: &str, revs: &Vec<(u64, Option<Vec<String>>)>) -> (r: u64)
    ensures
        r == deleted_rev_of(deletions_view(revs@), path@),
{
    let ghost dv = deletions_view(revs@);
    let mut i: usize = 0;
    assert(dv.subrange(0, dv.len() as int) =~= dv);
    while i < revs.len()
        invariant
            i <= revs@.len(),
            dv == deletions_view(revs@),
            deleted_rev_of(dv.subrange(i as int, dv.len() as int), path@) == deleted_rev_of(dv, path@),
        decreases revs@.len() - i,
    {
        let ghost rest = dv.subrange(i as int, dv.len() as int);
        assert(rest[0] == dv[i as int]);
        assert(rest.drop_first() =~= dv.subrange(i + 1, dv.len() as int));
        match &revs[i].1 {
            Some(ds) => {
                let ghost dsv = ds@.map_values(|s: String| s@);
                assert(dv[i as int].1 == Some(dsv));
                let mut j: usize = 0;
                while j < ds.len()
                    invariant
                        j <= ds@.len(),
                        i < revs@.len(),
                        dv == deletions_view(revs@),
                        rest == dv.subrange(i as int, dv.len() as int),
                        rest[0] == dv[i as int],
                        deleted_rev_of(rest, path@) == deleted_rev_of(dv, path@),
                        dv[i as int].1 == Some(dsv),
                        dv[i as int].0 == revs@[i as int].0,
                        dsv == ds@.map_values(|s: String| s@),
                        forall|k: int| 0 <= k < j ==> !removes(#[trigger] dsv[k], path@),
                    decreases ds@.len() - j,
                {
                    if removes_exec(ds[j].as_str(), path) {
                        assert(removes(dsv[j as int], path@));
                        assert(any_removes(dsv, path@));
                        return revs[i].0;
                    }
                    j = j + 1;
                }
                assert(!any_removes(dsv, path@));
            },
            None => {},
        }
        i = i + 1;
    }
    assert(dv.subrange(i as int, dv.len() as int).len() == 0);
    0
}

/// The deleted-rev report for revision `rev` (0: not deleted).
pub fn deleted_rev_xml(rev: u64) -> (x: String)
    ensures
        x@ == version_name_report("get-deleted-rev-report"@, rev),
{
    version_name_xml("get-deleted-rev-report", rev)
}

} // verus!
