//! Decisions of the administration commands that do not touch the repository: the
//! range a dump covers, the UUID a repository is given, and the lines of the commit
//! history shown where a repository has no replication log.
use vstd::prelude::*;
use crate::text::{concat2, u64_to_string, decimal, to_owned, chars_of};
use crate::dump_format::{uuid_parses, uuid_accepts, new_uuid_v4, uuid_text};
use crate::dump_writer::{format_svn_date, svn_date};
use vstd::utf8::{encode_utf8, decode_utf8, is_char_boundary};

verus! {

/// The message for a dump that starts after the head revision.
pub open spec fn start_after_head(start: u64, head: u64) -> Seq<char> {
    "Start revision "@ + decimal(start as nat) + " exceeds HEAD ("@ + decimal(head as nat) + ")"@
}

/// The revisions a dump covers: from `start` (0 where not given) to `end` (the head
/// where not given), never past the head; a start past the head is refused.
pub fn dump_range(start: Option<u64>, end: Option<u64>, head: u64) -> (r: Result<(u64, u64), String>)
    ensures
        ({
            let s = match start { Some(x) => x, None => 0 };
            let e = match end { Some(x) => if x < head { x } else { head }, None => head };
            &&& s > head ==> (r matches Err(m) && m@ == start_after_head(s, head))
            &&& s <= head ==> r == Ok::<(u64, u64), String>((s, e))
        }),
{
    let s = match start {
        Some(x) => x,
        None => 0,
    };
    if s > head {
        let a = u64_to_string(s);
        let b = u64_to_string(head);
        let m1 = concat2("Start revision ", a.as_str());
        let m2 = concat2(m1.as_str(), " exceeds HEAD (");
        let m3 = concat2(m2.as_str(), b.as_str());
        let m = concat2(m3.as_str(), ")");
        return Err(m);
    }
    let e = match end {
        Some(x) => if x < head { x } else { head },
        None => head,
    };
    Ok((s, e))
}

/// The message for a UUID that does not parse.
pub open spec fn invalid_uuid(u: Seq<char>) -> Seq<char> {
    "Invalid UUID format: "@ + u
}

/// The UUID `set-uuid` gives a repository: the one given where `uuid` parses it, an
/// error where it does not, and a fresh random one where none is given.
pub fn chosen_uuid(given: Option<&str>) -> (r: Result<String, String>)
    ensures
        given matches Some(u) ==> (uuid_parses(u@) ==> (r matches Ok(v) && v@ == u@)) && (!uuid_parses(u@) ==> (
        r matches Err(m) && m@ == invalid_uuid(u@))),
        given is None ==> (r matches Ok(v) && uuid_text(v@)),
{
    match given {
        Some(u) => {
            if uuid_accepts(u) {
                Ok(to_owned(u))
            } else {
                Err(concat2("Invalid UUID format: ", u))
            }
        },
        None => Ok(new_uuid_v4()),
    }
}


/// The text of the first `n` bytes of the UTF-8 form of `s`.
pub open spec fn byte_prefix(s: Seq<char>, n: int) -> Seq<char> {
    decode_utf8(encode_utf8(s).subrange(0, n))
}

/// `s` padded with spaces on the right to `w` characters, as `{:<w}` shows it.
pub open spec fn pad_right(s: Seq<char>, w: nat) -> Seq<char> {
    if s.len() < w {
        s + Seq::new((w - s.len()) as nat, |i: int| ' ')
    } else {
        s
    }
}

/// A message as a history line shows it: one of more than 60 bytes is cut to its
/// first 57 bytes and `...`.
pub open spec fn shown_message(m: Seq<char>) -> Seq<char> {
    if encode_utf8(m).len() > 60 {
        byte_prefix(m, 57) + "..."@
    } else {
        m
    }
}

/// The line of one revision in the commit history: the revision padded to 6, the
/// author padded to 20, the first 19 bytes of the date and the shown message.
pub open spec fn history_line_text(rev: u64, author: Seq<char>, date: Seq<char>, message: Seq<char>) -> Seq<char> {
    "r"@ + pad_right(decimal(rev as nat), 6) + " | "@ + pad_right(author, 20) + " | "@ + byte_prefix(date, 19)
        + " | "@ + shown_message(message)
}

/// Whether the date and message can be cut where a history line cuts them.
pub open spec fn history_cuts_ok(date: Seq<char>, message: Seq<char>) -> bool {
    &&& encode_utf8(date).len() >= 19
    &&& is_char_boundary(encode_utf8(date), 19)
    &&& encode_utf8(message).len() > 60 ==> is_char_boundary(encode_utf8(message), 57)
}

/// Appends `s` and the spaces that pad it to `w` characters.
fn push_padded(out: &mut String, s: &str, w: usize)
    ensures
        final(out)@ == old(out)@ + pad_right(s@, w as nat),
{
    out.append(s);
    let n = chars_of(s).len();
    let ghost start = out@;
    let mut i: usize = n;
    while i < w
        invariant
            n == s@.len(),
            n <= i <= w || (w < n && i == n),
            start == old(out)@ + s@,
            out@ == start + Seq::new((i - n) as nat, |k: int| ' '),
        decreases w - i,
    {
        crate::text::string_push(out, ' ');
        i = i + 1;
        assert(out@ =~= start + Seq::new((i - n) as nat, |k: int| ' '));
    }
    assert(out@ =~= old(out)@ + pad_right(s@, w as nat));
}

/// The text of the first `n` bytes of `s`, cut at a character boundary.
fn first_bytes(s: &str, n: usize) -> (r: &str)
    requires
        is_char_boundary(encode_utf8(s@), n as int),
    ensures
        r@ == byte_prefix(s@, n as int),
{
    proof {
        broadcast use vstd::utf8::encode_utf8_decode_utf8;
    }
    let (a, _) = s.split_at(n);
    proof {
        broadcast use vstd::utf8::encode_utf8_decode_utf8;
        assert(decode_utf8(encode_utf8(a@)) == a@);
    }
    a
}

/// The line of one revision in the commit history, from the date text; the date
/// and the message are cut at byte offsets that must fall between characters.
pub fn history_line(rev: u64, author: &str, date: &str, message: &str) -> (r: String)
    requires
        history_cuts_ok(date@, message@),
    ensures
        r@ == history_line_text(rev, author@, date@, message@),
{
    let mut out = to_owned("r");
    let n = u64_to_string(rev);
    push_padded(&mut out, n.as_str(), 6);
    out.append(" | ");
    push_padded(&mut out, author, 20);
    out.append(" | ");
    let d = first_bytes(date, 19);
    out.append(d);
    out.append(" | ");
    if message.as_bytes().len() > 60 {
        let m = first_bytes(message, 57);
        out.append(m);
        out.append("...");
    } else {
        out.append(message);
    }
    proof {
        reveal_strlit("r");
        reveal_strlit(" | ");
        reveal_strlit("...");
    }
    assert(out@ =~= history_line_text(rev, author@, date@, message@));
    out
}

/// The line of one revision in the commit history, with its date in the
/// `svn:date` form; `None` where the date or the message cannot be cut there.
pub fn commit_history_line(rev: u64, author: &str, message: &str, timestamp: i64) -> (r: Option<String>)
    ensures
        history_cuts_ok(svn_date(timestamp), message@) ==> (r matches Some(l) && l@ == history_line_text(
            rev,
            author@,
            svn_date(timestamp),
            message@,
        )),
        !history_cuts_ok(svn_date(timestamp), message@) ==> r is None,
{
    let date = format_svn_date(timestamp);
    let d = date.as_str();
    if d.as_bytes().len() < 19 || !d.is_char_boundary(19) {
        return None;
    }
    if message.as_bytes().len() > 60 && !message.is_char_boundary(57) {
        return None;
    }
    Some(history_line(rev, author, d, message))
}
} // verus!
