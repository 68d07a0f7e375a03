//! PROPFIND answers that need no repository walk: the special `!svn` resources
//! (version-controlled configuration, baselines, baseline collections, revision
//! roots, versions) and the list of repositories at the root.
use vstd::prelude::*;
use crate::text::{
    starts_with, ends_with, find, parse_u64, decimal, chars_of, string_of_range, str_starts_with, parse_u64_str,
    u64_to_string, to_owned, concat2, str_eq, find_in,
};
use crate::activity::{after_special, after_prefix};
use crate::proppatch::{escaped, escape_xml};
use crate::dump_writer::{svn_date, format_svn_date};
use crate::sync::now_timestamp;

verus! {

/// The root of the repositories: `/svn/`, `/svn`, `/` or the empty path.
pub open spec fn is_root_of(path: Seq<char>) -> bool {
    path == "/svn/"@ || path == "/svn"@ || path == "/"@ || path.len() == 0
}

/// Whether `path` is the root of the repositories.
pub fn is_repository_root(path: &str) -> (b: bool)
    ensures
        b == is_root_of(path@),
{
    str_eq(path, "/svn/") || str_eq(path, "/svn") || str_eq(path, "/") || path.is_empty()
}

/// The start of every special PROPFIND answer, up to the response element's start.
pub open spec fn ms_head() -> Seq<char> {
    "<?xml version=\"1.0\" encoding=\"utf-8\"?>\n<D:multistatus xmlns:D=\"DAV:\" xmlns:ns0=\"DAV:\">\n"@
}

/// The end of every special PROPFIND answer, after its properties.
pub open spec fn ms_tail() -> Seq<char> {
    "</D:prop>\n<D:status>HTTP/1.1 200 OK</D:status>\n</D:propstat>\n</D:response>\n</D:multistatus>"@
}

/// The response element that binds `lp1` and `lp3`.
pub open spec fn resp_lp13() -> Seq<char> {
    "<D:response xmlns:lp1=\"DAV:\" xmlns:lp3=\"http://subversion.tigris.org/xmlns/dav/\">\n"@
}

/// A revision number where the text is one, else 0.
pub open spec fn rev_or_zero(s: Seq<char>) -> u64 {
    match parse_u64(s) {
        Some(x) => x,
        None => 0,
    }
}

/// The revision text and the sub-path of `rest`: split before its first `/`; where
/// there is none, the whole text and `none`.
pub open spec fn rev_and_sub(rest: Seq<char>, none: Seq<char>) -> (Seq<char>, Seq<char>) {
    match find(rest, "/"@) {
        Some(i) => (rest.subrange(0, i), rest.subrange(i, rest.len() as int)),
        None => (rest, none),
    }
}

/// The answer to a PROPFIND on a special resource, `None` where the path names none
/// of those that are answered.
pub open spec fn special_propfind(path: Seq<char>, current_rev: u64, uuid: Seq<char>) -> Option<Seq<char>> {
    if let Some(_) = after_special(path, "/!svn/vcc/"@) {
        Some(ms_head() + resp_lp13() + "<D:href>/svn/!svn/vcc/default</D:href>\n<D:propstat>\n<D:prop>\n<lp1:checked-in><D:href>/svn/!svn/bln/"@
            + decimal(current_rev as nat) + "</D:href></lp1:checked-in>\n"@ + ms_tail())
    } else if let Some(rest) = after_special(path, "/!svn/bln/"@) {
        let r = decimal(rev_or_zero(rest) as nat);
        Some(ms_head() + resp_lp13() + "<D:href>/svn/!svn/bln/"@ + r
            + "</D:href>\n<D:propstat>\n<D:prop>\n<lp1:baseline-collection><D:href>/svn/!svn/bc/"@ + r
            + "/</D:href></lp1:baseline-collection>\n<lp1:version-name>"@ + r + "</lp1:version-name>\n"@ + ms_tail())
    } else if let Some(rest) = after_special(path, "/!svn/bc/"@) {
        let (r, sub) = rev_and_sub(rest, "/"@);
        Some(ms_head() + resp_lp13() + "<D:href>/svn/!svn/bc/"@ + r + sub
            + "</D:href>\n<D:propstat>\n<D:prop>\n<lp1:resourcetype><D:collection/></lp1:resourcetype>\n<lp1:version-name>"@
            + r + "</lp1:version-name>\n<lp3:repository-uuid>"@ + uuid + "</lp3:repository-uuid>\n"@ + ms_tail())
    } else if let Some(rest) = after_special(path, "/!svn/rvr/"@) {
        let (r, sub) = rev_and_sub(rest, Seq::empty());
        let href = if sub.len() == 0 { "/svn/!svn/rvr/"@ + r + "/"@ } else { "/svn/!svn/rvr/"@ + r + sub };
        let rt = if sub.len() == 0 || ends_with(sub, "/"@) { "<D:collection/>"@ } else { Seq::empty() };
        Some(ms_head() + "<D:response xmlns:lp1=\"DAV:\">\n"@ + "<D:href>"@ + href
            + "</D:href>\n<D:propstat>\n<D:prop>\n<lp1:resourcetype>"@ + rt + "</lp1:resourcetype>\n"@ + ms_tail())
    } else if let Some(_) = after_special(path, "/!svn/ver/"@) {
        Some(ms_head() + resp_lp13() + "<D:href>"@ + path
            + "</D:href>\n<D:propstat>\n<D:prop>\n<lp1:resourcetype><D:collection/></lp1:resourcetype>\n"@ + ms_tail())
    } else {
        None
    }
}

fn split_rev(rest: &String, none: &str) -> (r: (String, String))
    ensures
        (r.0@, r.1@) == rev_and_sub(rest@, none@),
{
    let cs = chars_of(rest.as_str());
    let slash = chars_of("/");
    proof {
        reveal_strlit("/");
    }
    assert(slash@ =~= "/"@);
    assert(cs@.subrange(0, cs@.len() as int) =~= cs@);
    match find_in(&cs, &slash, 0, cs.len()) {
        Some(i) => {
            proof {
                crate::text::lemma_find_from_sound(cs@, "/"@, 0);
            }
            (string_of_range(&cs, 0, i), string_of_range(&cs, i, cs.len()))
        },
        None => (to_owned(rest.as_str()), to_owned(none)),
    }
}

fn push_head(x: &mut String, lp13: bool)
    ensures
        final(x)@ == old(x)@ + ms_head() + if lp13 { resp_lp13() } else { "<D:response xmlns:lp1=\"DAV:\">\n"@ },
{
    x.append("<?xml version=\"1.0\" encoding=\"utf-8\"?>\n<D:multistatus xmlns:D=\"DAV:\" xmlns:ns0=\"DAV:\">\n");
    if lp13 {
        x.append("<D:response xmlns:lp1=\"DAV:\" xmlns:lp3=\"http://subversion.tigris.org/xmlns/dav/\">\n");
    } else {
        x.append("<D:response xmlns:lp1=\"DAV:\">\n");
    }
}

fn push_tail(x: &mut String)
    ensures
        final(x)@ == old(x)@ + ms_tail(),
{
    x.append("</D:prop>\n<D:status>HTTP/1.1 200 OK</D:status>\n</D:propstat>\n</D:response>\n</D:multistatus>");
}

/// The answer to a PROPFIND on a special resource of the repository at revision
/// `current_rev` with UUID `uuid`; `None` answers 404.
pub fn svn_special_propfind(path: &str, current_rev: u64, uuid: &str) -> (r: Option<String>)
    ensures
        match special_propfind(path@, current_rev, uuid@) {
            Some(t) => r matches Some(x) && x@ == t,
            None => r is None,
        },
{
    let mut x = String::new();
    if let Some(_) = after_prefix(path, "/!svn/vcc/") {
        push_head(&mut x, true);
        x.append("<D:href>/svn/!svn/vcc/default</D:href>\n<D:propstat>\n<D:prop>\n<lp1:checked-in><D:href>/svn/!svn/bln/");
        let r = u64_to_string(current_rev);
        x.append(r.as_str());
        x.append("</D:href></lp1:checked-in>\n");
        push_tail(&mut x);
        assert(x@ =~= special_propfind(path@, current_rev, uuid@).unwrap());
        Some(x)
    } else if let Some(rest) = after_prefix(path, "/!svn/bln/") {
        let rv = match parse_u64_str(rest.as_str()) {
            Some(v) => v,
            None => 0,
        };
        let r = u64_to_string(rv);
        push_head(&mut x, true);
        x.append("<D:href>/svn/!svn/bln/");
        x.append(r.as_str());
        x.append("</D:href>\n<D:propstat>\n<D:prop>\n<lp1:baseline-collection><D:href>/svn/!svn/bc/");
        x.append(r.as_str());
        x.append("/</D:href></lp1:baseline-collection>\n<lp1:version-name>");
        x.append(r.as_str());
        x.append("</lp1:version-name>\n");
        push_tail(&mut x);
        assert(x@ =~= special_propfind(path@, current_rev, uuid@).unwrap());
        Some(x)
    } else if let Some(rest) = after_prefix(path, "/!svn/bc/") {
        let (r, sub) = split_rev(&rest, "/");
        push_head(&mut x, true);
        x.append("<D:href>/svn/!svn/bc/");
        x.append(r.as_str());
        x.append(sub.as_str());
        x.append(
            "</D:href>\n<D:propstat>\n<D:prop>\n<lp1:resourcetype><D:collection/></lp1:resourcetype>\n<lp1:version-name>",
        );
        x.append(r.as_str());
        x.append("</lp1:version-name>\n<lp3:repository-uuid>");
        x.append(uuid);
        x.append("</lp3:repository-uuid>\n");
        push_tail(&mut x);
        assert(x@ =~= special_propfind(path@, current_rev, uuid@).unwrap());
        Some(x)
    } else if let Some(rest) = after_prefix(path, "/!svn/rvr/") {
        let (r, sub) = split_rev(&rest, "");
        proof {
            reveal_strlit("");
        }
        push_head(&mut x, false);
        x.append("<D:href>");
        x.append("/svn/!svn/rvr/");
        x.append(r.as_str());
        let is_dir = if sub.as_str().is_empty() {
            x.append("/");
            true
        } else {
            x.append(sub.as_str());
            let sc = chars_of(sub.as_str());
            sc[sc.len() - 1] == '/'
        };
        proof {
            reveal_strlit("/");
            if sub@.len() > 0 {
                assert(ends_with(sub@, "/"@) == (sub@[sub@.len() - 1] == '/')) by {
                    if sub@[sub@.len() - 1] == '/' {
                        assert(sub@.subrange(sub@.len() - 1, sub@.len() as int) =~= "/"@);
                    } else {
                        assert(sub@.subrange(sub@.len() - 1, sub@.len() as int)[0] == sub@[sub@.len() - 1]);
                        assert("/"@[0] == '/');
                    }
                }
            }
        }
        x.append("</D:href>\n<D:propstat>\n<D:prop>\n<lp1:resourcetype>");
        if is_dir {
            x.append("<D:collection/>");
        }
        x.append("</lp1:resourcetype>\n");
        push_tail(&mut x);
        assert(x@ =~= special_propfind(path@, current_rev, uuid@).unwrap());
        Some(x)
    } else if let Some(_) = after_prefix(path, "/!svn/ver/") {
        push_head(&mut x, true);
        x.append("<D:href>");
        x.append(path);
        x.append("</D:href>\n<D:propstat>\n<D:prop>\n<lp1:resourcetype><D:collection/></lp1:resourcetype>\n");
        push_tail(&mut x);
        assert(x@ =~= special_propfind(path@, current_rev, uuid@).unwrap());
        Some(x)
    } else {
        None
    }
}

/// One repository of the root listing.
pub open spec fn repo_entry(name: Seq<char>, display: Seq<char>) -> Seq<char> {
    "  <D:response>\n    <D:href>"@ + escaped("/svn/"@ + name + "/"@)
        + "</D:href>\n    <D:propstat>\n      <D:prop>\n        <D:displayname>"@ + escaped(display)
        + "</D:displayname>\n        <D:resourcetype><D:collection/></D:resourcetype>\n      </D:prop>\n      <D:status>HTTP/1.1 200 OK</D:status>\n    </D:propstat>\n  </D:response>"@
}

/// The entries of the root listing, in order.
pub open spec fn repo_entries(repos: Seq<(Seq<char>, Seq<char>)>) -> Seq<char>
    decreases repos.len(),
{
    if repos.len() == 0 {
        Seq::empty()
    } else {
        repo_entries(repos.drop_last()) + repo_entry(repos.last().0, repos.last().1)
    }
}

/// The plain values of the repositories listed: name and display name.
pub open spec fn repos_view(repos: Seq<(String, String)>) -> Seq<(Seq<char>, Seq<char>)> {
    repos.map_values(|r: (String, String)| (r.0@, r.1@))
}

/// The answer to a PROPFIND at the root: each repository with its name and display
/// name (its name where it has none configured).
pub fn repository_list_xml(repos: &Vec<(String, String)>) -> (x: String)
    ensures
        x@ == "<?xml version=\"1.0\" encoding=\"utf-8\"?>\n<D:multistatus xmlns:D=\"DAV:\" xmlns:S=\"http://subversion.tigris.org/xmlns/dav/\">\n"@
            + repo_entries(repos_view(repos@)) + "\n</D:multistatus>"@,
{
    let ghost rv = repos_view(repos@);
    let mut body = String::new();
    let mut i: usize = 0;
    while i < repos.len()
        invariant
            i <= repos@.len(),
            rv == repos_view(repos@),
            body@ == repo_entries(rv.subrange(0, i as int)),
        decreases repos@.len() - i,
    {
        assert(rv.subrange(0, i + 1).drop_last() =~= rv.subrange(0, i as int));
        let (name, display) = &repos[i];
        body.append("  <D:response>\n    <D:href>");
        let mut href = concat2("/svn/", name.as_str());
        href.append("/");
        let h = escape_xml(href.as_str());
        body.append(h.as_str());
        body.append("</D:href>\n    <D:propstat>\n      <D:prop>\n        <D:displayname>");
        let d = escape_xml(display.as_str());
        body.append(d.as_str());
        body.append(
            "</D:displayname>\n        <D:resourcetype><D:collection/></D:resourcetype>\n      </D:prop>\n      <D:status>HTTP/1.1 200 OK</D:status>\n    </D:propstat>\n  </D:response>",
        );
        i = i + 1;
    }
    assert(rv.subrange(0, i as int) =~= rv);
    let mut x = to_owned(
        "<?xml version=\"1.0\" encoding=\"utf-8\"?>\n<D:multistatus xmlns:D=\"DAV:\" xmlns:S=\"http://subversion.tigris.org/xmlns/dav/\">\n",
    );
    x.append(body.as_str());
    x.append("\n</D:multistatus>");
    x
}

// ─────────────────────────── an ordinary resource ───────────────────────────

/// The date text `chrono` gives a timestamp in the HTTP date format
/// (`%a, %d %b %Y %H:%M:%S GMT`, UTC).
pub uninterp spec fn http_date(timestamp: i64) -> Seq<char>;

/// `chrono::DateTime::from_timestamp(ts, 0)` formatted as `%a, %d %b %Y %H:%M:%S
/// GMT`, or the empty string where `chrono` has no such date. Claimed: a function
/// of the timestamp alone.
#[verifier::external_body]
fn format_http_date(timestamp: i64) -> (s: String)
    ensures
        s@ == http_date(timestamp),
{
    chrono::DateTime::from_timestamp(timestamp, 0).map(|dt| dt.format("%a, %d %b %Y %H:%M:%S GMT").to_string()).unwrap_or_default()
}

/// The answer to a PROPFIND on an ordinary resource: the repository root as a
/// collection at `current_rev`, created and last modified at `now`.
pub open spec fn resource_propfind(current_rev: u64, uuid: Seq<char>, now: i64) -> Seq<char> {
    let r = decimal(current_rev as nat);
    "<?xml version=\"1.0\" encoding=\"utf-8\"?>\n<D:multistatus xmlns:D=\"DAV:\" xmlns:ns0=\"DAV:\">\n<D:response xmlns:S=\"http://subversion.tigris.org/xmlns/svn/\" xmlns:C=\"http://subversion.tigris.org/xmlns/custom/\" xmlns:V=\"http://subversion.tigris.org/xmlns/dav/\" xmlns:lp1=\"DAV:\" xmlns:lp3=\"http://subversion.tigris.org/xmlns/dav/\" xmlns:lp2=\"http://apache.org/dav/props/\">\n<D:href>/svn/</D:href>\n<D:propstat>\n<D:prop>\n<lp1:resourcetype><D:collection/></lp1:resourcetype>\n<lp1:getcontenttype>text/html; charset=UTF-8</lp1:getcontenttype>\n<lp1:getetag>W/\""@
        + r + "//\"</lp1:getetag>\n<lp1:creationdate>"@ + svn_date(now) + "</lp1:creationdate>\n<lp1:getlastmodified>"@
        + http_date(now) + "</lp1:getlastmodified>\n<lp1:checked-in><D:href>/svn/!svn/ver/"@ + r
        + "/</D:href></lp1:checked-in>\n<lp1:version-controlled-configuration><D:href>/svn/!svn/vcc/default</D:href></lp1:version-controlled-configuration>\n<lp1:version-name>"@
        + r + "</lp1:version-name>\n<lp3:baseline-relative-path/>\n<lp3:repository-uuid>"@ + uuid
        + "</lp3:repository-uuid>\n<lp3:deadprop-count>0</lp3:deadprop-count>\n<D:lockdiscovery/>\n</D:prop>\n<D:status>HTTP/1.1 200 OK</D:status>\n</D:propstat>\n</D:response>\n</D:multistatus>"@
}

/// The answer to a PROPFIND on an ordinary resource, with the dates of `now`.
pub fn resource_propfind_xml(current_rev: u64, uuid: &str, now: i64) -> (x: String)
    ensures
        x@ == resource_propfind(current_rev, uuid@, now),
{
    let r = u64_to_string(current_rev);
    let mut x = to_owned(
        "<?xml version=\"1.0\" encoding=\"utf-8\"?>\n<D:multistatus xmlns:D=\"DAV:\" xmlns:ns0=\"DAV:\">\n<D:response xmlns:S=\"http://subversion.tigris.org/xmlns/svn/\" xmlns:C=\"http://subversion.tigris.org/xmlns/custom/\" xmlns:V=\"http://subversion.tigris.org/xmlns/dav/\" xmlns:lp1=\"DAV:\" xmlns:lp3=\"http://subversion.tigris.org/xmlns/dav/\" xmlns:lp2=\"http://apache.org/dav/props/\">\n<D:href>/svn/</D:href>\n<D:propstat>\n<D:prop>\n<lp1:resourcetype><D:collection/></lp1:resourcetype>\n<lp1:getcontenttype>text/html; charset=UTF-8</lp1:getcontenttype>\n<lp1:getetag>W/\"",
    );
    x.append(r.as_str());
    x.append("//\"</lp1:getetag>\n<lp1:creationdate>");
    let c = format_svn_date(now);
    x.append(c.as_str());
    x.append("</lp1:creationdate>\n<lp1:getlastmodified>");
    let m = format_http_date(now);
    x.append(m.as_str());
    x.append("</lp1:getlastmodified>\n<lp1:checked-in><D:href>/svn/!svn/ver/");
    x.append(r.as_str());
    x.append(
        "/</D:href></lp1:checked-in>\n<lp1:version-controlled-configuration><D:href>/svn/!svn/vcc/default</D:href></lp1:version-controlled-configuration>\n<lp1:version-name>",
    );
    x.append(r.as_str());
    x.append("</lp1:version-name>\n<lp3:baseline-relative-path/>\n<lp3:repository-uuid>");
    x.append(uuid);
    x.append(
        "</lp3:repository-uuid>\n<lp3:deadprop-count>0</lp3:deadprop-count>\n<D:lockdiscovery/>\n</D:prop>\n<D:status>HTTP/1.1 200 OK</D:status>\n</D:propstat>\n</D:response>\n</D:multistatus>",
    );
    x
}

/// The answer to a PROPFIND on an ordinary resource, dated now.
pub fn resource_propfind_now(current_rev: u64, uuid: &str) -> (x: String)
    ensures
        exists|t: i64| x@ == resource_propfind(current_rev, uuid@, t),
{
    let now = now_timestamp();
    resource_propfind_xml(current_rev, uuid, now)
}

} // verus!
