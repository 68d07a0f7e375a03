//! The log REPORT: what a `log-report` request asks for, and the XML of its answer.
use vstd::prelude::*;
use crate::text::{find, contains, parse_u64, parse_unsigned, decimal, chars_of, find_sub, string_of_range, str_contains, str_eq, parse_u64_str, u64_to_string, to_owned};
use crate::proppatch::{escaped, escape_xml};

verus! {

/// The text of `s` between the first `a` and the first `b` after it.
pub open spec fn text_between(s: Seq<char>, a: Seq<char>, b: Seq<char>) -> Option<Seq<char>> {
    match find(s, a) {
        None => None,
        Some(i) => {
            let st = i + a.len();
            match find(s.subrange(st, s.len() as int), b) {
                None => None,
                Some(j) => Some(s.subrange(st, st + j)),
            }
        },
    }
}

/// The text between the first `start_tag` and the first `end_tag` after it.
pub fn extract_text_between(s: &str, start_tag: &str, end_tag: &str) -> (r: Option<String>)
    ensures
        match text_between(s@, start_tag@, end_tag@) {
            Some(t) => r matches Some(x) && x@ == t,
            None => r is None,
        },
{
    let v = chars_of(s);
    let a = chars_of(start_tag);
    let b = chars_of(end_tag);
    assert(v@.subrange(0, v@.len() as int) =~= v@);
    match find_sub(&v, &a, 0, v.len()) {
        None => None,
        Some(i) => {
            let st = i + a.len();
            match find_sub(&v, &b, st, v.len()) {
                None => None,
                Some(j) => Some(string_of_range(&v, st, j)),
            }
        },
    }
}

/// A number between two tags, if there is one.
pub open spec fn num_between(s: Seq<char>, a: Seq<char>, b: Seq<char>) -> Option<u64> {
    match text_between(s, a, b) {
        Some(t) => parse_u64(t),
        None => None,
    }
}

/// A number between two tags.
fn u64_between(s: &str, a: &str, b: &str) -> (r: Option<u64>)
    ensures
        r == num_between(s@, a@, b@),
{
    match extract_text_between(s, a, b) {
        Some(t) => parse_u64_str(t.as_str()),
        None => None,
    }
}

/// The revision range of a log request: start (default 1) and end (default the
/// current revision), ascending, and whether the request was descending.
pub open spec fn log_range(body: Seq<char>, current_rev: u64) -> (u64, u64, bool) {
    let start = match num_between(body, "<S:start-revision>"@, "</S:start-revision>"@) { Some(x) => x, None => 1 };
    let end = match num_between(body, "<S:end-revision>"@, "</S:end-revision>"@) { Some(x) => x, None => current_rev };
    if start > end {
        (end, start, true)
    } else {
        (start, end, false)
    }
}

/// The revision range of a log request.
pub fn parse_log_range(body: &str, current_rev: u64) -> (r: (u64, u64, bool))
    ensures
        r == log_range(body@, current_rev),
{
    let start = match u64_between(body, "<S:start-revision>", "</S:start-revision>") {
        Some(x) => x,
        None => 1,
    };
    let end = match u64_between(body, "<S:end-revision>", "</S:end-revision>") {
        Some(x) => x,
        None => current_rev,
    };
    if start > end {
        (end, start, true)
    } else {
        (start, end, false)
    }
}

/// The pieces `a...b` of `s` from `pos` on: each from an `a` to the first `b` after the
/// end of that `a`; the search goes on after each piece and stops where a piece does
/// not close.
pub open spec fn all_between_from(s: Seq<char>, a: Seq<char>, b: Seq<char>, pos: nat) -> Seq<Seq<char>>
    decreases s.len() - pos,
{
    if pos >= s.len() {
        Seq::empty()
    } else {
        match find(s.subrange(pos as int, s.len() as int), a) {
            None => Seq::empty(),
            Some(k) => {
                let abs = pos + k;
                let cs = abs + a.len();
                match find(s.subrange(cs, s.len() as int), b) {
                    None => Seq::empty(),
                    Some(e) => {
                        let end = cs + e + b.len();
                        if end <= pos || end > s.len() {
                            Seq::empty()
                        } else {
                            seq![s.subrange(abs, end)] + all_between_from(s, a, b, end as nat)
                        }
                    },
                }
            },
        }
    }
}

/// Every piece `a...b` of `s`, in order.
pub fn find_all_between(s: &str, a: &str, b: &str) -> (r: Vec<String>)
    ensures
        r@.map_values(|x: String| x@) == all_between_from(s@, a@, b@, 0),
{
    let v = chars_of(s);
    let av = chars_of(a);
    let bv = chars_of(b);
    let mut out: Vec<String> = Vec::new();
    let mut pos: usize = 0;
    assert(out@.map_values(|x: String| x@) + all_between_from(s@, a@, b@, 0) =~= all_between_from(s@, a@, b@, 0));
    while pos < v.len()
        invariant
            pos <= v@.len(),
            v@ == s@,
            av@ == a@,
            bv@ == b@,
            out@.map_values(|x: String| x@) + all_between_from(s@, a@, b@, pos as nat) == all_between_from(s@, a@, b@, 0),
        decreases v@.len() - pos,
    {
        let ghost before = out@;
        let k = match find_sub(&v, &av, pos, v.len()) {
            Some(k) => k,
            None => {
                assert(out@.map_values(|x: String| x@) + Seq::<Seq<char>>::empty() =~= out@.map_values(|x: String| x@));
                return out;
            },
        };
        let cs = k + av.len();
        let e = match find_sub(&v, &bv, cs, v.len()) {
            Some(e) => e,
            None => {
                assert(out@.map_values(|x: String| x@) + Seq::<Seq<char>>::empty() =~= out@.map_values(|x: String| x@));
                return out;
            },
        };
        let end = e + bv.len();
        if end <= pos {
            assert(out@.map_values(|x: String| x@) + Seq::<Seq<char>>::empty() =~= out@.map_values(|x: String| x@));
            return out;
        }
        out.push(string_of_range(&v, k, end));
        proof {
            assert(out@.map_values(|x: String| x@) =~= before.map_values(|x: String| x@).push(s@.subrange(k as int, end as int)));
            assert(out@.map_values(|x: String| x@) + all_between_from(s@, a@, b@, end as nat)
                =~= before.map_values(|x: String| x@) + all_between_from(s@, a@, b@, pos as nat));
        }
        pos = end;
    }
    assert(out@.map_values(|x: String| x@) + Seq::<Seq<char>>::empty() =~= out@.map_values(|x: String| x@));
    out
}

/// What a log request asks for.
#[derive(Debug)]
pub struct LogRequest {
    pub start_rev: u64,
    pub end_rev: u64,
    /// The request listed revisions in descending order.
    pub reverse: bool,
    /// Most items to list.
    pub limit: usize,
    pub discover_changed_paths: bool,
    pub include_all_revprops: bool,
    /// The revision properties asked for by name.
    pub requested_revprops: Vec<String>,
}

/// The limit of a log request: `<S:limit>` or `<limit>`, else no limit.
pub open spec fn log_limit(body: Seq<char>) -> nat {
    let t = match text_between(body, "<S:limit>"@, "</S:limit>"@) {
        Some(t) => Some(t),
        None => text_between(body, "<limit>"@, "</limit>"@),
    };
    match t {
        Some(x) => match parse_unsigned(x, usize::MAX as nat) {
            Some(n) => n,
            None => usize::MAX as nat,
        },
        None => usize::MAX as nat,
    }
}

/// The revision property names asked for: the non-empty texts of the `<S:revprop>`
/// elements, in order.
pub open spec fn revprop_names(pieces: Seq<Seq<char>>) -> Seq<Seq<char>>
    decreases pieces.len(),
{
    if pieces.len() == 0 {
        Seq::empty()
    } else {
        let t = match text_between(pieces[0], "<S:revprop>"@, "</S:revprop>"@) {
            Some(t) => t,
            None => Seq::empty(),
        };
        let rest = revprop_names(pieces.drop_first());
        if t.len() > 0 { seq![t] + rest } else { rest }
    }
}

/// The text of one `<S:revprop>` piece, empty where it has none.
pub open spec fn revprop_text(piece: Seq<char>) -> Seq<char> {
    match text_between(piece, "<S:revprop>"@, "</S:revprop>"@) {
        Some(t) => t,
        None => Seq::empty(),
    }
}

/// The revision properties asked for are all the non-empty `<S:revprop>` texts of the
/// body, each once, in body order: the texts with the empty ones filtered out.
pub proof fn law_revprop_names_are_nonempty_texts(pieces: Seq<Seq<char>>)
    ensures
        revprop_names(pieces) == pieces.map_values(|p: Seq<char>| revprop_text(p)).filter(
            |t: Seq<char>| t.len() > 0,
        ),
    decreases pieces.len(),
{
    let texts = pieces.map_values(|p: Seq<char>| revprop_text(p));
    if pieces.len() == 0 {
        reveal(Seq::filter);
        assert(texts =~= Seq::<Seq<char>>::empty());
    } else {
        let rest = pieces.drop_first();
        law_revprop_names_are_nonempty_texts(rest);
        let rt = rest.map_values(|p: Seq<char>| revprop_text(p));
        assert(texts =~= seq![revprop_text(pieces[0])] + rt);
        rt.lemma_filter_prepend(revprop_text(pieces[0]), |t: Seq<char>| t.len() > 0);
        if revprop_text(pieces[0]).len() > 0 {
            assert(revprop_names(pieces) =~= seq![revprop_text(pieces[0])] + revprop_names(rest));
        } else {
            assert(Seq::<Seq<char>>::empty() + rt.filter(|t: Seq<char>| t.len() > 0) =~= rt.filter(
                |t: Seq<char>| t.len() > 0,
            ));
        }
    }
}

impl LogRequest {
    /// Reads a log request body, for a repository at `current_rev`.
    pub fn parse(body: &str, current_rev: u64) -> (r: Self)
        ensures
            (r.start_rev, r.end_rev, r.reverse) == log_range(body@, current_rev),
            r.limit == log_limit(body@),
            r.discover_changed_paths == contains(body@, "discover-changed-paths"@),
            r.include_all_revprops == contains(body@, "all-revprops"@),
            r.requested_revprops@.map_values(|x: String| x@) == revprop_names(
                all_between_from(body@, "<S:revprop>"@, "</S:revprop>"@, 0),
            ),
    {
        let (start_rev, end_rev, reverse) = parse_log_range(body, current_rev);
        let lt = match extract_text_between(body, "<S:limit>", "</S:limit>") {
            Some(t) => Some(t),
            None => extract_text_between(body, "<limit>", "</limit>"),
        };
        let limit: usize = match lt {
            Some(x) => match parse_u64_str(x.as_str()) {
                Some(n) => if n <= usize::MAX as u64 { n as usize } else { usize::MAX },
                None => usize::MAX,
            },
            None => usize::MAX,
        };
        let pieces = find_all_between(body, "<S:revprop>", "</S:revprop>");
        let ghost pv = pieces@.map_values(|x: String| x@);
        let mut names: Vec<String> = Vec::new();
        let mut i: usize = pieces.len();
        while i > 0
            invariant
                i <= pieces@.len(),
                pv == pieces@.map_values(|x: String| x@),
                names@.map_values(|x: String| x@) == revprop_names(pv.subrange(i as int, pv.len() as int)),
            decreases i,
        {
            i = i - 1;
            let t = match extract_text_between(pieces[i].as_str(), "<S:revprop>", "</S:revprop>") {
                Some(t) => t,
                None => {
                    let e = String::new();
                    assert(e@ =~= Seq::<char>::empty());
                    e
                },
            };
            let ghost before = names@;
            proof {
                assert(pv.subrange(i as int, pv.len() as int).drop_first() =~= pv.subrange(i + 1, pv.len() as int));
                assert(pv.subrange(i as int, pv.len() as int)[0] == pieces@[i as int]@);
            }
            if !t.as_str().is_empty() {
                names.insert(0, t);
                proof {
                    assert(names@.map_values(|x: String| x@) =~= seq![names@[0]@] + before.map_values(|x: String| x@));
                }
            }
        }
        assert(pv.subrange(0, pv.len() as int) =~= pv);
        LogRequest {
            start_rev,
            end_rev,
            reverse,
            limit,
            discover_changed_paths: str_contains(body, "discover-changed-paths"),
            include_all_revprops: str_contains(body, "all-revprops"),
            requested_revprops: names,
        }
    }
}

/// Whether a log item carries the revision property `name`: all were asked for, none
/// was named, or it was named.
pub open spec fn includes_revprop(all: bool, names: Seq<Seq<char>>, name: Seq<char>) -> bool {
    all || names.len() == 0 || names.contains(name)
}

/// Whether `names` holds `name`.
fn names_contain(names: &Vec<String>, name: &str) -> (b: bool)
    ensures
        b == names@.map_values(|x: String| x@).contains(name@),
{
    let mut i: usize = 0;
    while i < names.len()
        invariant
            i <= names@.len(),
            forall|j: int| 0 <= j < i ==> names@[j]@ != name@,
        decreases names@.len() - i,
    {
        if str_eq(names[i].as_str(), name) {
            assert(names@.map_values(|x: String| x@)[i as int] == name@);
            return true;
        }
        i = i + 1;
    }
    proof {
        let nv = names@.map_values(|x: String| x@);
        assert forall|j: int| 0 <= j < nv.len() implies #[trigger] nv[j] != name@ by {
            assert(nv[j] == names@[j]@);
        }
    }
    false
}

/// A path changed in a revision.
#[derive(Debug, Clone)]
pub enum LogChange {
    /// Added or modified.
    Modified(String),
    /// Deleted.
    Deleted(String),
}

/// The XML of one changed path.
pub open spec fn change_xml(c: LogChange) -> Seq<char> {
    match c {
        LogChange::Modified(p) => "<S:modified-path node-kind=\"file\" text-mods=\"true\" prop-mods=\"false\">"@ + escaped(
            seq!['/'] + p@,
        ) + "</S:modified-path>\n"@,
        LogChange::Deleted(p) => "<S:deleted-path node-kind=\"file\">"@ + escaped(seq!['/'] + p@) + "</S:deleted-path>\n"@,
    }
}

/// The XML of changed paths.
pub open spec fn changes_xml(cs: Seq<LogChange>) -> Seq<char>
    decreases cs.len(),
{
    if cs.len() == 0 {
        Seq::empty()
    } else {
        changes_xml(cs.drop_last()) + change_xml(cs.last())
    }
}

/// `s` where `b`, else nothing.
pub open spec fn when(b: bool, s: Seq<char>) -> Seq<char> {
    if b { s } else { Seq::empty() }
}

/// The XML of one log item.
pub open spec fn log_item(
    rev: u64,
    author: Seq<char>,
    date: Seq<char>,
    message: Seq<char>,
    all: bool,
    names: Seq<Seq<char>>,
    discover: bool,
    changes: Seq<LogChange>,
) -> Seq<char> {
    "<S:log-item>\n<D:version-name>"@ + decimal(rev as nat) + "</D:version-name>\n"@
        + when(includes_revprop(all, names, "svn:author"@), "<D:creator-displayname>"@ + escaped(author) + "</D:creator-displayname>\n"@)
        + when(includes_revprop(all, names, "svn:date"@), "<S:date>"@ + date + "</S:date>\n"@)
        + when(includes_revprop(all, names, "svn:log"@), "<D:comment>"@ + escaped(message) + "</D:comment>\n"@)
        + when(discover && rev > 0 && changes.len() > 0, "<S:changed-path-item>\n"@ + changes_xml(changes) + "</S:changed-path-item>\n"@)
        + "<S:has-children/>\n</S:log-item>\n"@
}

/// The XML of the changed path `c`.
fn push_change(out: &mut String, c: &LogChange)
    ensures
        final(out)@ == old(out)@ + change_xml(*c),
{
    match c {
        LogChange::Modified(p) => {
            out.append("<S:modified-path node-kind=\"file\" text-mods=\"true\" prop-mods=\"false\">");
            let full = crate::text::concat2("/", p.as_str());
            proof {
                reveal_strlit("/");
                assert(full@ =~= seq!['/'] + p@);
            }
            let e = escape_xml(full.as_str());
            out.append(e.as_str());
            out.append("</S:modified-path>\n");
            assert(out@ =~= old(out)@ + change_xml(*c));
        },
        LogChange::Deleted(p) => {
            out.append("<S:deleted-path node-kind=\"file\">");
            let full = crate::text::concat2("/", p.as_str());
            proof {
                reveal_strlit("/");
                assert(full@ =~= seq!['/'] + p@);
            }
            let e = escape_xml(full.as_str());
            out.append(e.as_str());
            out.append("</S:deleted-path>\n");
            assert(out@ =~= old(out)@ + change_xml(*c));
        },
    }
}

/// Appends `open`, the escaped `text` and `close` where `b`.
fn push_escaped_when(item: &mut String, b: bool, open: &str, text: &str, close: &str)
    ensures
        final(item)@ == old(item)@ + when(b, open@ + escaped(text@) + close@),
{
    if b {
        item.append(open);
        let e = escape_xml(text);
        item.append(e.as_str());
        item.append(close);
    }
    assert(item@ =~= old(item)@ + when(b, open@ + escaped(text@) + close@));
}

/// Appends the changed paths where `b`.
fn push_changes_when(item: &mut String, b: bool, changes: &Vec<LogChange>)
    ensures
        final(item)@ == old(item)@ + when(b, "<S:changed-path-item>\n"@ + changes_xml(changes@) + "</S:changed-path-item>\n"@),
{
    if b {
        item.append("<S:changed-path-item>\n");
        let ghost start = item@;
        let mut i: usize = 0;
        while i < changes.len()
            invariant
                i <= changes@.len(),
                item@ == start + changes_xml(changes@.subrange(0, i as int)),
            decreases changes@.len() - i,
        {
            push_change(item, &changes[i]);
            proof {
                assert(changes@.subrange(0, i + 1).drop_last() =~= changes@.subrange(0, i as int));
            }
            i = i + 1;
        }
        assert(changes@.subrange(0, changes@.len() as int) =~= changes@);
        item.append("</S:changed-path-item>\n");
    }
    assert(item@ =~= old(item)@ + when(b, "<S:changed-path-item>\n"@ + changes_xml(changes@) + "</S:changed-path-item>\n"@));
}

/// Whether the request carries the revision property `name`.
fn includes(req: &LogRequest, name: &str) -> (b: bool)
    ensures
        b == includes_revprop(req.include_all_revprops, req.requested_revprops@.map_values(|s: String| s@), name@),
{
    assert(req.requested_revprops@.map_values(|s: String| s@).len() == req.requested_revprops@.len());
    req.include_all_revprops || req.requested_revprops.len() == 0 || names_contain(&req.requested_revprops, name)
}

/// The XML of one log item, for a request `req`. `changes` are the revision's
/// changed paths, listed where the request asks to discover them.
pub fn log_item_xml(rev: u64, author: &str, date: &str, message: &str, req: &LogRequest, changes: &Vec<LogChange>) -> (x: String)
    ensures
        x@ == log_item(
            rev,
            author@,
            date@,
            message@,
            req.include_all_revprops,
            req.requested_revprops@.map_values(|s: String| s@),
            req.discover_changed_paths,
            changes@,
        ),
{
    let mut item = to_owned("<S:log-item>\n<D:version-name>");
    let r = u64_to_string(rev);
    item.append(r.as_str());
    item.append("</D:version-name>\n");
    let ia = includes(req, "svn:author");
    push_escaped_when(&mut item, ia, "<D:creator-displayname>", author, "</D:creator-displayname>\n");
    let id = includes(req, "svn:date");
    let ghost before_date = item@;
    if id {
        item.append("<S:date>");
        item.append(date);
        item.append("</S:date>\n");
    }
    assert(item@ =~= before_date + when(id, "<S:date>"@ + date@ + "</S:date>\n"@));
    let il = includes(req, "svn:log");
    push_escaped_when(&mut item, il, "<D:comment>", message, "</D:comment>\n");
    push_changes_when(&mut item, req.discover_changed_paths && rev > 0 && changes.len() > 0, changes);
    item.append("<S:has-children/>\n</S:log-item>\n");
    assert(item@ =~= log_item(
        rev,
        author@,
        date@,
        message@,
        req.include_all_revprops,
        req.requested_revprops@.map_values(|s: String| s@),
        req.discover_changed_paths,
        changes@,
    ));
    item
}

/// The items, reversed where asked.
pub open spec fn ordered_items(items: Seq<Seq<char>>, reverse: bool) -> Seq<Seq<char>> {
    if reverse { items.reverse() } else { items }
}

/// The concatenation of texts.
pub open spec fn concat_all(items: Seq<Seq<char>>) -> Seq<char>
    decreases items.len(),
{
    if items.len() == 0 {
        Seq::empty()
    } else {
        concat_all(items.drop_last()) + items.last()
    }
}

/// The log report around its items, listed in reverse where the request was
/// descending.
pub fn log_report_xml(items: &Vec<String>, reverse: bool) -> (x: String)
    ensures
        x@ == "<?xml version=\"1.0\" encoding=\"utf-8\"?>\n<S:log-report xmlns:S=\"svn:\" xmlns:D=\"DAV:\">\n"@
            + concat_all(ordered_items(items@.map_values(|s: String| s@), reverse)) + "</S:log-report>"@,
{
    let ghost iv = items@.map_values(|s: String| s@);
    let ghost ov = ordered_items(iv, reverse);
    let mut s = to_owned("<?xml version=\"1.0\" encoding=\"utf-8\"?>\n<S:log-report xmlns:S=\"svn:\" xmlns:D=\"DAV:\">\n");
    let ghost head = s@;
    let n = items.len();
    let mut i: usize = 0;
    while i < n
        invariant
            i <= n,
            n == items@.len(),
            iv == items@.map_values(|s: String| s@),
            ov == ordered_items(iv, reverse),
            ov.len() == n,
            s@ == head + concat_all(ov.subrange(0, i as int)),
        decreases n - i,
    {
        let k = if reverse { n - 1 - i } else { i };
        assert(ov[i as int] == items@[k as int]@);
        s.append(items[k].as_str());
        proof {
            assert(ov.subrange(0, i + 1).drop_last() =~= ov.subrange(0, i as int));
        }
        i = i + 1;
    }
    assert(ov.subrange(0, n as int) =~= ov);
    s.append("</S:log-report>");
    s
}


/// The revisions a log report lists, visiting `start` and on, one for each of
/// `has_commit`: those with a commit, in order, at most `limit` of them.
pub open spec fn picked_revisions(start: u64, limit: nat, has_commit: Seq<bool>) -> Seq<u64>
    decreases has_commit.len(),
{
    if has_commit.len() == 0 {
        Seq::empty()
    } else {
        let p = picked_revisions(start, limit, has_commit.drop_last());
        if has_commit.last() && p.len() < limit {
            p.push((start + has_commit.len() - 1) as u64)
        } else {
            p
        }
    }
}

/// The revisions a log report lists from the range that starts at `start_rev`:
/// `has_commit[i]` tells whether revision `start_rev + i` has a commit. The range is
/// visited in order and the visit stops once `limit` revisions are listed.
pub fn log_revisions(start_rev: u64, limit: usize, has_commit: &Vec<bool>) -> (r: Vec<u64>)
    requires
        start_rev + has_commit@.len() <= u64::MAX + 1,
    ensures
        r@ == picked_revisions(start_rev, limit as nat, has_commit@),
{
    let mut out: Vec<u64> = Vec::new();
    let mut i: usize = 0;
    assert(has_commit@.take(0) =~= Seq::<bool>::empty());
    while i < has_commit.len()
        invariant
            i <= has_commit@.len(),
            start_rev + has_commit@.len() <= u64::MAX + 1,
            out@ == picked_revisions(start_rev, limit as nat, has_commit@.take(i as int)),
            out@.len() <= limit,
        decreases has_commit@.len() - i,
    {
        if out.len() >= limit {
            proof {
                lemma_picked_full(start_rev, limit as nat, has_commit@, i as nat);
            }
            return out;
        }
        let ghost t = has_commit@.take(i + 1);
        assert(t.drop_last() =~= has_commit@.take(i as int));
        assert(t.last() == has_commit@[i as int]);
        if has_commit[i] {
            out.push(start_rev + i as u64);
        }
        i = i + 1;
    }
    assert(has_commit@.take(i as int) =~= has_commit@);
    out
}

/// Once `limit` revisions are picked, the rest of the range adds none.
proof fn lemma_picked_full(start: u64, limit: nat, has: Seq<bool>, i: nat)
    requires
        i <= has.len(),
        picked_revisions(start, limit, has.take(i as int)).len() >= limit,
    ensures
        picked_revisions(start, limit, has) == picked_revisions(start, limit, has.take(i as int)),
    decreases has.len() - i,
{
    if i < has.len() {
        let t = has.take(i + 1int);
        assert(t.drop_last() =~= has.take(i as int));
        lemma_picked_full(start, limit, has, i + 1);
    } else {
        assert(has.take(i as int) =~= has);
    }
}

} // verus!
