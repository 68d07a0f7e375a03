//! The update report (checkout): what the request asks for, the order the tree's
//! entries are sent in, and the report's XML, with the directories each file needs
//! opened before it.
use vstd::prelude::*;
use vstd::seq_lib::{to_multiset_insert, to_multiset_contains};
use crate::object::{lex_lt, compare_names, Rel, lemma_lex_total, lemma_lex_trans, hex_lower, Commit};
use crate::text::{
    chars_of, decimal, parse_u64, parse_u64_str, split, split_ranges, string_of_range, str_eq, u64_to_string,
    lemma_split_nonempty, to_owned,
};
use crate::report::{text_between, extract_text_between};
use crate::proppatch::{escaped, escape_xml};
use crate::auth::{base64_std, base64_encode};
use crate::checksum::md5_digest;
use crate::dump_writer::{svn_date, format_svn_date};
use crate::sync::now_timestamp;

verus! {

/// An entry of the tree at the target revision: its path, whether it is a file, and
/// for a file the content the repository gave, where it could be read.
#[derive(Debug)]
pub struct TreeItem {
    pub path: String,
    pub is_blob: bool,
    pub content: Option<Vec<u8>>,
}

/// The plain value of a tree entry.
pub open spec fn item_view(t: TreeItem) -> (Seq<char>, bool, Option<Seq<u8>>) {
    (t.path@, t.is_blob, match t.content {
        Some(c) => Some(c@),
        None => None,
    })
}

/// The plain values of tree entries.
pub open spec fn items_view(s: Seq<TreeItem>) -> Seq<(Seq<char>, bool, Option<Seq<u8>>)> {
    s.map_values(|t: TreeItem| item_view(t))
}

/// No two entries share a path.
pub open spec fn distinct_paths(s: Seq<TreeItem>) -> bool {
    forall|i: int, j: int| 0 <= i < s.len() && 0 <= j < s.len() && i != j ==> #[trigger] s[i].path@ != #[trigger] s[j].path@
}

/// Paths strictly increase along `s`.
pub open spec fn sorted_paths(s: Seq<TreeItem>) -> bool {
    forall|i: int, j: int| 0 <= i < j < s.len() ==> lex_lt(#[trigger] s[i].path@, #[trigger] s[j].path@)
}

proof fn lemma_view_contains(s: Seq<TreeItem>, k: int)
    requires
        0 <= k < s.len(),
    ensures
        items_view(s).to_multiset().count(item_view(s[k])) > 0,
{
    to_multiset_contains(items_view(s), item_view(s[k]));
    assert(items_view(s)[k] == item_view(s[k]));
}

proof fn lemma_view_index(s: Seq<TreeItem>, v: (Seq<char>, bool, Option<Seq<u8>>))
    requires
        items_view(s).to_multiset().count(v) > 0,
    ensures
        exists|j: int| 0 <= j < s.len() && item_view(#[trigger] s[j]) == v,
{
    to_multiset_contains(items_view(s), v);
    let j = choose|j: int| 0 <= j < items_view(s).len() && items_view(s)[j] == v;
    assert(item_view(s[j]) == v);
}

/// The entries in path order.
pub fn sort_by_path(items: Vec<TreeItem>) -> (r: Vec<TreeItem>)
    requires
        distinct_paths(items@),
    ensures
        sorted_paths(r@),
        items_view(r@).to_multiset() == items_view(items@).to_multiset(),
{
    let ghost all = items@;
    let mut rest = items;
    let mut out: Vec<TreeItem> = Vec::new();
    assert(items_view(out@) =~= items_view(all.subrange(all.len() as int, all.len() as int)));
    assert(all.subrange(0, all.len() as int) =~= all);
    while rest.len() > 0
        invariant
            distinct_paths(all),
            rest@ == all.subrange(0, rest@.len() as int),
            rest@.len() <= all.len(),
            sorted_paths(out@),
            items_view(out@).to_multiset() == items_view(all.subrange(rest@.len() as int, all.len() as int)).to_multiset(),
        decreases rest@.len(),
    {
        let ghost n = rest@.len();
        let e = rest.pop().unwrap();
        assert(e == all[n - 1]);
        let ec = chars_of(e.path.as_str());
        let mut k: usize = 0;
        while k < out.len()
            invariant
                k <= out@.len(),
                ec@ == e.path@,
                sorted_paths(out@),
                forall|m: int| 0 <= m < k ==> lex_lt(#[trigger] out@[m].path@, e.path@),
            ensures
                k <= out@.len(),
                forall|m: int| 0 <= m < k ==> lex_lt(#[trigger] out@[m].path@, e.path@),
                k < out@.len() ==> !lex_lt(out@[k as int].path@, e.path@),
            decreases out@.len() - k,
        {
            let oc = chars_of(out[k].path.as_str());
            match compare_names(&oc, &ec) {
                Rel::Lt => {
                    k = k + 1;
                },
                _ => {
                    break;
                },
            }
        }
        let ghost old_out = out@;
        proof {
            // `e` differs from every entry already placed
            assert forall|m: int| 0 <= m < old_out.len() implies #[trigger] old_out[m].path@ != e.path@ by {
                lemma_view_contains(old_out, m);
                let suffix = all.subrange(n as int, all.len() as int);
                lemma_view_index(suffix, item_view(old_out[m]));
                let j = choose|j: int| 0 <= j < suffix.len() && item_view(#[trigger] suffix[j]) == item_view(old_out[m]);
                assert(suffix[j] == all[n + j]);
                assert(all[n + j].path@ != all[n - 1].path@);
            }
            assert forall|m: int| k <= m < old_out.len() implies lex_lt(e.path@, #[trigger] old_out[m].path@) by {
                lemma_lex_total(old_out[m].path@, e.path@);
                if k < old_out.len() {
                    lemma_lex_total(old_out[k as int].path@, e.path@);
                    if lex_lt(old_out[m].path@, e.path@) && m > k {
                        lemma_lex_trans(old_out[k as int].path@, old_out[m].path@, e.path@);
                    }
                }
            }
        }
        out.insert(k, e);
        proof {
            let s = out@;
            assert(s == old_out.insert(k as int, all[n - 1]));
            assert forall|i: int, j: int| 0 <= i < j < s.len() implies lex_lt(#[trigger] s[i].path@, #[trigger] s[j].path@) by {
                if j < k {
                    assert(s[i] == old_out[i] && s[j] == old_out[j]);
                } else if j == k {
                    assert(s[i] == old_out[i]);
                } else if i < k {
                    assert(s[i] == old_out[i] && s[j] == old_out[j - 1]);
                    lemma_lex_trans(old_out[i].path@, e.path@, old_out[j - 1].path@);
                } else if i == k {
                    assert(s[j] == old_out[j - 1]);
                } else {
                    assert(s[i] == old_out[i - 1] && s[j] == old_out[j - 1]);
                }
            }
            assert(items_view(s) =~= items_view(old_out).insert(k as int, item_view(all[n - 1])));
            to_multiset_insert(items_view(old_out), k as int, item_view(all[n - 1]));
            let suffix = all.subrange(n - 1, all.len() as int);
            assert(items_view(suffix) =~= items_view(all.subrange(n as int, all.len() as int)).insert(0, item_view(all[n - 1])));
            to_multiset_insert(items_view(all.subrange(n as int, all.len() as int)), 0, item_view(all[n - 1]));
            assert(rest@ =~= all.subrange(0, n - 1));
        }
    }
    assert(all.subrange(0, all.len() as int) =~= all);
    out
}

// ─────────────────────────── the request ───────────────────────────

/// What an update report asks for.
#[derive(Debug, Clone, Copy)]
pub struct UpdateRequest {
    /// The revision to send, the current one where none is given or it is no number.
    pub target_rev: u64,
    /// The revision the client has, where it names a source path and a `rev`.
    pub src_rev: Option<u64>,
    /// No source revision, or revision 0: everything is sent.
    pub is_fresh_checkout: bool,
}

/// The target revision of an update report.
pub open spec fn update_target(body: Seq<char>, current_rev: u64) -> u64 {
    match text_between(body, "<S:target-revision>"@, "</S:target-revision>"@) {
        Some(t) => match parse_u64(t) {
            Some(x) => x,
            None => current_rev,
        },
        None => current_rev,
    }
}

/// The source revision of an update report: the first `rev="..."` of the body where
/// it has a source path.
pub open spec fn update_source(body: Seq<char>) -> Option<u64> {
    match text_between(body, "<S:src-path>"@, "</S:src-path>"@) {
        Some(_) => match text_between(body, "rev=\""@, "\""@) {
            Some(t) => parse_u64(t),
            None => None,
        },
        None => None,
    }
}

impl UpdateRequest {
    /// Reads an update report's body.
    pub fn parse(body: &str, current_rev: u64) -> (r: Self)
        ensures
            r.target_rev == update_target(body@, current_rev),
            r.src_rev == update_source(body@),
            r.is_fresh_checkout == (r.src_rev is None || r.src_rev == Some(0u64)),
    {
        let target_rev = match extract_text_between(body, "<S:target-revision>", "</S:target-revision>") {
            Some(t) => match parse_u64_str(t.as_str()) {
                Some(x) => x,
                None => current_rev,
            },
            None => current_rev,
        };
        let src_rev = match extract_text_between(body, "<S:src-path>", "</S:src-path>") {
            Some(_) => match extract_text_between(body, "rev=\"", "\"") {
                Some(t) => parse_u64_str(t.as_str()),
                None => None,
            },
            None => None,
        };
        let is_fresh_checkout = match src_rev {
            None => true,
            Some(x) => x == 0,
        };
        UpdateRequest { target_rev, src_rev, is_fresh_checkout }
    }
}

// ─────────────────────────── the report ───────────────────────────

/// `md5::compute` printed with `{:x}`. Claimed: the RFC 1321 digest of the bytes in
/// lower-case hexadecimal.
#[verifier::external_body]
fn md5_checksum(data: &[u8]) -> (s: String)
    requires
        data@.len() * 8 <= u64::MAX,
    ensures
        s@ == hex_lower(md5_digest(data@)),
{
    format!("{:x}", md5::compute(data))
}

/// The date a report shows: the commit's date, or the current time's where there is
/// no commit or no date for its timestamp.
pub fn report_date(commit: &Option<Commit>) -> (d: String)
    ensures
        (commit matches Some(c) && svn_date(c.timestamp).len() > 0) ==> d@ == svn_date(commit->0.timestamp),
        !(commit matches Some(c) && svn_date(c.timestamp).len() > 0) ==> exists|t: i64| d@ == svn_date(t),
{
    match commit {
        Some(c) => {
            let d = format_svn_date(c.timestamp);
            if !d.as_str().is_empty() {
                return d;
            }
        },
        None => {},
    }
    let t = now_timestamp();
    format_svn_date(t)
}

/// The four entry properties every directory and file of the report carries.
pub open spec fn entry_props(rev: Seq<char>, date: Seq<char>, author: Seq<char>, uuid: Seq<char>) -> Seq<char> {
    "<S:set-prop name=\"svn:entry:committed-rev\">"@ + rev + "</S:set-prop>\n<S:set-prop name=\"svn:entry:committed-date\">"@
        + date + "</S:set-prop>\n<S:set-prop name=\"svn:entry:last-author\">"@ + escaped(author)
        + "</S:set-prop>\n<S:set-prop name=\"svn:entry:uuid\">"@ + uuid + "</S:set-prop>"@
}

/// The start of the report: the target revision and the opened root directory.
pub open spec fn report_head(rev: Seq<char>, props: Seq<char>) -> Seq<char> {
    "<?xml version=\"1.0\" encoding=\"utf-8\"?>\n<S:update-report xmlns:S=\"svn:\" xmlns:V=\"http://subversion.tigris.org/xmlns/dav/\" xmlns:D=\"DAV:\" send-all=\"true\" inline-props=\"true\">\n<S:target-revision rev=\""@
        + rev + "\"/>\n<S:open-directory rev=\""@ + rev + "\">\n<D:checked-in><D:href>/svn/!svn/rvr/"@ + rev
        + "/</D:href></D:checked-in>\n"@ + props
}

/// An added directory named `name` at `dir`.
pub open spec fn add_directory(rev: Seq<char>, props: Seq<char>, name: Seq<char>, dir: Seq<char>) -> Seq<char> {
    "\n<S:add-directory name=\""@ + escaped(name) + "\" bc-url=\"/svn/!svn/bc/"@ + rev + "/"@ + dir
        + "\">\n<D:checked-in><D:href>/svn/!svn/rvr/"@ + rev + "/"@ + dir + "</D:href></D:checked-in>\n"@ + props
}

/// An added file named `name` at `path`: its content in base64 where it is not
/// empty, and its MD5, where the content could be read.
pub open spec fn add_file(
    rev: Seq<char>,
    props: Seq<char>,
    path: Seq<char>,
    name: Seq<char>,
    content: Option<Seq<u8>>,
) -> Seq<char> {
    "\n<S:add-file name=\""@ + escaped(name) + "\">\n<D:checked-in><D:href>/svn/!svn/rvr/"@ + rev + "/"@ + path
        + "</D:href></D:checked-in>\n"@ + props + file_content(content) + "\n</S:add-file>"@
}

/// A file's content in base64 where it is not empty, and its MD5, where the content
/// could be read.
pub open spec fn file_content(content: Option<Seq<u8>>) -> Seq<char> {
    match content {
        Some(c) => (if c.len() > 0 {
            "\n<S:txdelta>"@ + base64_std(c) + "</S:txdelta>"@
        } else {
            Seq::empty()
        }) + "\n<S:prop><V:md5-checksum>"@ + hex_lower(md5_digest(c)) + "</V:md5-checksum></S:prop>"@,
        None => Seq::empty(),
    }
}

/// The report so far and the directories opened so far.
pub type ReportState = (Seq<char>, Seq<Seq<char>>);

/// Opens the directories of the path pieces `parts` below `cur`, each one that is
/// not open yet.
pub open spec fn open_dirs(rev: Seq<char>, props: Seq<char>, st: ReportState, cur: Seq<char>, parts: Seq<Seq<char>>) -> ReportState
    decreases parts.len(),
{
    if parts.len() == 0 {
        st
    } else {
        let p = parts[0];
        let dir = if cur.len() == 0 { p } else { cur + "/"@ + p };
        let st2 = if st.1.contains(dir) { st } else { (st.0 + add_directory(rev, props, p, dir), st.1.push(dir)) };
        open_dirs(rev, props, st2, dir, parts.drop_first())
    }
}

/// What an entry adds: for a file, its directories where they are not open yet,
/// then the file.
pub open spec fn item_step(rev: Seq<char>, props: Seq<char>, st: ReportState, it: (Seq<char>, bool, Option<Seq<u8>>)) -> ReportState {
    if !it.1 {
        st
    } else {
        let parts = split(it.0, '/');
        let st2 = open_dirs(rev, props, st, Seq::empty(), parts.subrange(0, parts.len() - 1));
        (st2.0 + add_file(rev, props, it.0, parts.last(), it.2), st2.1)
    }
}

/// What the entries `its` add, in order.
pub open spec fn items_fold(rev: Seq<char>, props: Seq<char>, st: ReportState, its: Seq<(Seq<char>, bool, Option<Seq<u8>>)>) -> ReportState
    decreases its.len(),
{
    if its.len() == 0 {
        st
    } else {
        items_fold(rev, props, item_step(rev, props, st, its[0]), its.drop_first())
    }
}

/// `n` closings of an added directory.
pub open spec fn close_dirs(n: nat) -> Seq<char>
    decreases n,
{
    if n == 0 {
        Seq::empty()
    } else {
        close_dirs((n - 1) as nat) + "\n</S:add-directory>"@
    }
}

/// The update report: its start; for a fresh checkout every file of the sorted
/// entries `its` with the directories it needs, and a closing for each directory
/// opened; then the end.
pub open spec fn update_report(
    rev: u64,
    date: Seq<char>,
    author: Seq<char>,
    uuid: Seq<char>,
    fresh: bool,
    its: Seq<(Seq<char>, bool, Option<Seq<u8>>)>,
) -> Seq<char> {
    let r = decimal(rev as nat);
    let props = entry_props(r, date, author, uuid);
    report_head(r, props) + (if fresh {
        let st = items_fold(r, props, (Seq::empty(), Seq::empty()), its);
        st.0 + close_dirs(st.1.len())
    } else {
        Seq::empty()
    }) + "\n</S:open-directory>\n</S:update-report>"@
}

/// The texts of strings.
pub open spec fn texts(v: Seq<String>) -> Seq<Seq<char>> {
    v.map_values(|x: String| x@)
}

/// Whether `dir` is among the opened directories.
fn is_open(opened: &Vec<String>, dir: &str) -> (b: bool)
    ensures
        b == texts(opened@).contains(dir@),
{
    let mut i: usize = 0;
    while i < opened.len()
        invariant
            i <= opened@.len(),
            forall|k: int| 0 <= k < i ==> opened@[k]@ != dir@,
        decreases opened@.len() - i,
    {
        if str_eq(opened[i].as_str(), dir) {
            assert(texts(opened@)[i as int] == dir@);
            return true;
        }
        i = i + 1;
    }
    assert forall|k: int| 0 <= k < texts(opened@).len() implies texts(opened@)[k] != dir@ by {
        assert(texts(opened@)[k] == opened@[k]@);
    }
    false
}

/// The entry properties.
fn entry_props_text(rev: &str, date: &str, author: &str, uuid: &str) -> (s: String)
    ensures
        s@ == entry_props(rev@, date@, author@, uuid@),
{
    let mut s = to_owned("<S:set-prop name=\"svn:entry:committed-rev\">");
    s.append(rev);
    s.append("</S:set-prop>\n<S:set-prop name=\"svn:entry:committed-date\">");
    s.append(date);
    s.append("</S:set-prop>\n<S:set-prop name=\"svn:entry:last-author\">");
    let a = escape_xml(author);
    s.append(a.as_str());
    s.append("</S:set-prop>\n<S:set-prop name=\"svn:entry:uuid\">");
    s.append(uuid);
    s.append("</S:set-prop>");
    s
}

/// Appends an added directory.
fn push_add_directory(body: &mut String, rev: &str, props: &str, name: &str, dir: &str)
    ensures
        final(body)@ == old(body)@ + add_directory(rev@, props@, name@, dir@),
{
    body.append("\n<S:add-directory name=\"");
    let n = escape_xml(name);
    body.append(n.as_str());
    body.append("\" bc-url=\"/svn/!svn/bc/");
    body.append(rev);
    body.append("/");
    body.append(dir);
    body.append("\">\n<D:checked-in><D:href>/svn/!svn/rvr/");
    body.append(rev);
    body.append("/");
    body.append(dir);
    body.append("</D:href></D:checked-in>\n");
    body.append(props);
    assert(body@ =~= old(body)@ + add_directory(rev@, props@, name@, dir@));
}

/// Appends an added file.
fn push_add_file(body: &mut String, rev: &str, props: &str, path: &str, name: &str, content: &Option<Vec<u8>>)
    requires
        content matches Some(c) ==> c@.len() * 8 <= u64::MAX,
    ensures
        final(body)@ == old(body)@ + add_file(rev@, props@, path@, name@, match content {
            Some(c) => Some(c@),
            None => None,
        }),
{
    let ghost cv = match content {
        Some(c) => Some(c@),
        None => None,
    };
    let mut head = to_owned("\n<S:add-file name=\"");
    let n = escape_xml(name);
    head.append(n.as_str());
    head.append("\">\n<D:checked-in><D:href>/svn/!svn/rvr/");
    head.append(rev);
    head.append("/");
    head.append(path);
    head.append("</D:href></D:checked-in>\n");
    head.append(props);
    body.append(head.as_str());
    let ghost mid = body@;
    push_file_content(body, content);
    body.append("\n</S:add-file>");
    assert(body@ =~= mid + file_content(cv) + "\n</S:add-file>"@);
    assert(body@ =~= old(body)@ + add_file(rev@, props@, path@, name@, cv));
}

/// Appends a file's content and MD5.
fn push_file_content(body: &mut String, content: &Option<Vec<u8>>)
    requires
        content matches Some(c) ==> c@.len() * 8 <= u64::MAX,
    ensures
        final(body)@ == old(body)@ + file_content(match content {
            Some(c) => Some(c@),
            None => None,
        }),
{
    match content {
        Some(c) => {
            let ghost start = body@;
            if c.len() > 0 {
                body.append("\n<S:txdelta>");
                let b = base64_encode(c.as_slice());
                body.append(b.as_str());
                body.append("</S:txdelta>");
            }
            let ghost mid = body@;
            body.append("\n<S:prop><V:md5-checksum>");
            let m = md5_checksum(c.as_slice());
            body.append(m.as_str());
            body.append("</V:md5-checksum></S:prop>");
            assert(body@ =~= mid + "\n<S:prop><V:md5-checksum>"@ + hex_lower(md5_digest(c@)) + "</V:md5-checksum></S:prop>"@);
            assert(body@ =~= old(body)@ + file_content(Some(c@)));
        },
        None => {
            assert(body@ =~= old(body)@ + file_content(None));
        },
    }
}

/// Appends the directories a file at `cs` needs, each one not open yet, and returns
/// the ranges of the path's pieces.
fn push_open_dirs(body: &mut String, opened: &mut Vec<String>, rev: &str, props: &str, cs: &Vec<char>) -> (ranges: Vec<(usize, usize)>)
    ensures
        ranges@.len() == split(cs@, '/').len(),
        ranges@.len() >= 1,
        crate::text::ranges_match(cs@, ranges@, split(cs@, '/')),
        (final(body)@, texts(final(opened)@)) == open_dirs(
            rev@,
            props@,
            (old(body)@, texts(old(opened)@)),
            Seq::empty(),
            split(cs@, '/').subrange(0, split(cs@, '/').len() - 1),
        ),
{
    assert(cs@.subrange(0, cs@.len() as int) =~= cs@);
    let ranges = split_ranges(cs, 0, cs.len(), '/');
    let ghost parts = split(cs@, '/');
    proof {
        lemma_split_nonempty(cs@, '/');
    }
    let m = ranges.len() - 1;
    let ghost goal = open_dirs(rev@, props@, (old(body)@, texts(old(opened)@)), Seq::empty(), parts.subrange(0, m as int));
    let mut cur = String::new();
    let mut j: usize = 0;
    assert(parts.subrange(0, m as int).subrange(0, m as int) =~= parts.subrange(0, m as int));
    while j < m
        invariant
            j <= m,
            m + 1 == ranges@.len(),
            parts == split(cs@, '/'),
            crate::text::ranges_match(cs@, ranges@, parts),
            open_dirs(rev@, props@, (body@, texts(opened@)), cur@, parts.subrange(j as int, m as int)) == goal,
        decreases m - j,
    {
        let (a, b) = ranges[j];
        let part = string_of_range(cs, a, b);
        assert(part@ == parts[j as int]);
        let mut dir = String::new();
        if !cur.as_str().is_empty() {
            dir.append(cur.as_str());
            dir.append("/");
        }
        dir.append(part.as_str());
        assert(dir@ == if cur@.len() == 0 { parts[j as int] } else { cur@ + "/"@ + parts[j as int] });
        assert(parts.subrange(j as int, m as int)[0] == parts[j as int]);
        assert(parts.subrange(j as int, m as int).drop_first() =~= parts.subrange(j + 1, m as int));
        if !is_open(opened, dir.as_str()) {
            push_add_directory(body, rev, props, part.as_str(), dir.as_str());
            let ghost before = texts(opened@);
            opened.push(to_owned(dir.as_str()));
            assert(texts(opened@) =~= before.push(dir@));
        }
        cur = dir;
        j = j + 1;
    }
    assert(parts.subrange(j as int, m as int) =~= Seq::<Seq<char>>::empty());
    ranges
}

/// The sorted entries' plain values strictly increase by path.
pub open spec fn sorted_views(vs: Seq<(Seq<char>, bool, Option<Seq<u8>>)>) -> bool {
    forall|i: int, j: int| 0 <= i < j < vs.len() ==> lex_lt(#[trigger] vs[i].0, #[trigger] vs[j].0)
}

/// Every file content is small enough for its MD5.
pub open spec fn contents_hashable(items: Seq<TreeItem>) -> bool {
    forall|i: int| 0 <= i < items.len() ==> ((#[trigger] items[i]).content matches Some(c) ==> c@.len() * 8 <= u64::MAX)
}

/// Appends what the sorted entries add.
fn push_items(body: &mut String, opened: &mut Vec<String>, rev: &str, props: &str, items: &Vec<TreeItem>)
    requires
        contents_hashable(items@),
    ensures
        (final(body)@, texts(final(opened)@)) == items_fold(rev@, props@, (old(body)@, texts(old(opened)@)), items_view(items@)),
{
    let ghost vs = items_view(items@);
    let ghost goal = items_fold(rev@, props@, (old(body)@, texts(old(opened)@)), vs);
    let mut i: usize = 0;
    assert(vs.subrange(0, vs.len() as int) =~= vs);
    while i < items.len()
        invariant
            i <= items@.len(),
            vs == items_view(items@),
            contents_hashable(items@),
            items_fold(rev@, props@, (body@, texts(opened@)), vs.subrange(i as int, vs.len() as int)) == goal,
        decreases items@.len() - i,
    {
        let it = &items[i];
        assert(vs.subrange(i as int, vs.len() as int)[0] == vs[i as int]);
        assert(vs.subrange(i as int, vs.len() as int).drop_first() =~= vs.subrange(i + 1, vs.len() as int));
        assert(vs[i as int] == item_view(*it));
        if it.is_blob {
            let cs = chars_of(it.path.as_str());
            let ranges = push_open_dirs(body, opened, rev, props, &cs);
            let m = ranges.len() - 1;
            let (a, b) = ranges[m];
            let name = string_of_range(&cs, a, b);
            assert(name@ == split(cs@, '/').last());
            assert(items@[i as int] == *it);
            push_add_file(body, rev, props, it.path.as_str(), name.as_str(), &it.content);
        }
        i = i + 1;
    }
}

/// The close of every opened directory.
fn push_closes(body: &mut String, n: usize)
    ensures
        final(body)@ == old(body)@ + close_dirs(n as nat),
{
    let mut k: usize = 0;
    while k < n
        invariant
            k <= n,
            body@ == old(body)@ + close_dirs(k as nat),
        decreases n - k,
    {
        body.append("\n</S:add-directory>");
        k = k + 1;
    }
}

/// The update report for `req`, with the target revision's commit date and author,
/// the repository UUID, and the entries of the tree at the target revision (each
/// path once, in any order; files with the content the repository gave).
pub fn update_report_xml(req: &UpdateRequest, date: &str, author: &str, uuid: &str, items: Vec<TreeItem>) -> (x: String)
    requires
        distinct_paths(items@),
        contents_hashable(items@),
    ensures
        exists|vs: Seq<(Seq<char>, bool, Option<Seq<u8>>)>|
            sorted_views(vs) && vs.to_multiset() == items_view(items@).to_multiset() && x@ == update_report(
                req.target_rev,
                date@,
                author@,
                uuid@,
                req.is_fresh_checkout,
                vs,
            ),
{
    let ghost orig = items@;
    let r = u64_to_string(req.target_rev);
    let props = entry_props_text(r.as_str(), date, author, uuid);
    let mut x = to_owned("<?xml version=\"1.0\" encoding=\"utf-8\"?>\n<S:update-report xmlns:S=\"svn:\" xmlns:V=\"http://subversion.tigris.org/xmlns/dav/\" xmlns:D=\"DAV:\" send-all=\"true\" inline-props=\"true\">\n<S:target-revision rev=\"");
    x.append(r.as_str());
    x.append("\"/>\n<S:open-directory rev=\"");
    x.append(r.as_str());
    x.append("\">\n<D:checked-in><D:href>/svn/!svn/rvr/");
    x.append(r.as_str());
    x.append("/</D:href></D:checked-in>\n");
    x.append(props.as_str());
    assert(x@ =~= report_head(r@, props@));
    let ghost head = x@;
    let sorted = sort_by_path(items);
    let ghost vs = items_view(sorted@);
    assert forall|i: int| 0 <= i < sorted@.len() implies ((#[trigger] sorted@[i]).content matches Some(c) ==> c@.len() * 8 <= u64::MAX) by {
        crate::update::lemma_view_contains(sorted@, i);
        lemma_view_index(orig, item_view(sorted@[i]));
        let j = choose|j: int| 0 <= j < orig.len() && item_view(#[trigger] orig[j]) == item_view(sorted@[i]);
        assert(item_view(orig[j]).2 == item_view(sorted@[i]).2);
    }
    let ghost mid;
    if req.is_fresh_checkout {
        let mut body = String::new();
        let mut opened: Vec<String> = Vec::new();
        assert(texts(opened@) =~= Seq::<Seq<char>>::empty());
        push_items(&mut body, &mut opened, r.as_str(), props.as_str(), &sorted);
        let n = opened.len();
        assert(texts(opened@).len() == n);
        push_closes(&mut body, n);
        x.append(body.as_str());
        proof {
            mid = body@;
        }
    } else {
        proof {
            mid = Seq::empty();
        }
    }
    x.append("\n</S:open-directory>\n</S:update-report>");
    assert(sorted_views(vs)) by {
        assert forall|i: int, j: int| 0 <= i < j < vs.len() implies lex_lt(#[trigger] vs[i].0, #[trigger] vs[j].0) by {
            assert(vs[i].0 == sorted@[i].path@ && vs[j].0 == sorted@[j].path@);
        }
    }
    assert(x@ =~= update_report(req.target_rev, date@, author@, uuid@, req.is_fresh_checkout, vs));
    x
}

} // verus!
