//! What the dump endpoint writes, the load endpoint reads back: the revisions of a
//! generated dump, read with the loader's reader, come out with their numbers,
//! authors, log messages, dates and changes.
use vstd::prelude::*;
use vstd::utf8::{
    encode_utf8, encode_scalar, encode_utf8_valid_utf8, encode_utf8_decode_utf8, is_ascii_chars,
    is_ascii_chars_encode_utf8, has_width_1_encoding, has_width_2_encoding, has_width_3_encoding,
    leading_byte_width_1, leading_byte_width_2, leading_byte_width_3, leading_byte_width_4, last_continuation_byte,
    second_last_continuation_byte, third_last_continuation_byte,
};
use crate::text::{
    trim, trim_start, trim_end, is_ws, lemma_encode_utf8_concat, starts_with, occurs_at, split_once,
    lemma_find_first, lemma_find_none, decimal, digit_char, digits_value, all_digits, is_digit, parse_unsigned,
    unsigned_digits, lossy_text,
};
use crate::dump::{
    line_end, read_line, LineRead, header_value, num_usize, num_u64, lines_from, line_text, byte_lines, byte_chars,
    len_after_tag, props_end, props_from, parse_props, kind_of, action_of, read_headers, HeaderMode,
};
use crate::dump_format::{NodeKind, NodeAction};
use crate::dump_handlers::{prop_text, prop_if, rev_props_text, DumpParams};
use crate::dump_writer::{
    text_line, num_line, nl, dump_header, revision_record, file_node_record, dir_node_record, delete_node_record,
    ChangeInput, change_record, changes_record, change_action, node_props, RevisionInput, revision_dump, revisions_dump,
    revision_props, svn_date,
};
use crate::dump_stream::{
    RevSpec, NodeSpec, stream_from, stream_node, node_content, length_headers, absorb_length, stream_revision, deliver,
    prop_or,
};
use crate::object::{TreeChange, ObjectKind, hex_lower, hex_digit, Commit};
use crate::checksum::md5_digest;
use crate::load::rfc3339_seconds;

verus! {

/// The text has no line break.
pub open spec fn one_line(s: Seq<char>) -> bool {
    forall|i: int| 0 <= i < s.len() ==> s[i] != '\n'
}

proof fn lemma_scalar_bytes(c: char)
    ensures
        c != '\n' ==> forall|j: int| 0 <= j < encode_scalar(c as u32).len() ==> #[trigger] encode_scalar(c as u32)[j] != 10u8,
        c != '\r' ==> forall|j: int| 0 <= j < encode_scalar(c as u32).len() ==> #[trigger] encode_scalar(c as u32)[j] != 13u8,
        encode_scalar(c as u32).len() > 0,
{
    let v = c as u32;
    vstd::utf8::char_is_scalar(c);
    if has_width_1_encoding(v) {
        assert(leading_byte_width_1(v) == v) by (bit_vector)
            requires
                v <= 0x7f,
        ;
        assert(c != '\n' ==> v != 10) by {
            if v == 10 {
                assert(c == '\n');
            }
        }
        assert(c != '\r' ==> v != 13) by {
            if v == 13 {
                assert(c == '\r');
            }
        }
    } else if has_width_2_encoding(v) {
        assert(leading_byte_width_2(v) >= 0x80) by (bit_vector);
        assert(last_continuation_byte(v) >= 0x80) by (bit_vector);
    } else if has_width_3_encoding(v) {
        assert(leading_byte_width_3(v) >= 0x80) by (bit_vector);
        assert(second_last_continuation_byte(v) >= 0x80) by (bit_vector);
        assert(last_continuation_byte(v) >= 0x80) by (bit_vector);
    } else {
        assert(leading_byte_width_4(v) >= 0x80) by (bit_vector);
        assert(third_last_continuation_byte(v) >= 0x80) by (bit_vector);
        assert(second_last_continuation_byte(v) >= 0x80) by (bit_vector);
        assert(last_continuation_byte(v) >= 0x80) by (bit_vector);
    }
}

/// The UTF-8 bytes of a single-line text have no newline byte.
pub proof fn lemma_encode_no_newline(s: Seq<char>)
    requires
        one_line(s),
    ensures
        forall|j: int| 0 <= j < encode_utf8(s).len() ==> #[trigger] encode_utf8(s)[j] != 10u8,
    decreases s.len(),
{
    if s.len() > 0 {
        lemma_scalar_bytes(s[0]);
        assert(one_line(s.drop_first()));
        lemma_encode_no_newline(s.drop_first());
        let a = encode_scalar(s[0] as u32);
        let b = encode_utf8(s.drop_first());
        assert forall|j: int| 0 <= j < encode_utf8(s).len() implies encode_utf8(s)[j] != 10u8 by {
            if j < a.len() {
                assert(encode_utf8(s)[j] == a[j]);
            } else {
                assert(encode_utf8(s)[j] == b[j - a.len()]);
            }
        }
    }
}

/// A line ends after the first newline byte.
pub proof fn lemma_line_end_at(d: Seq<u8>, pos: nat, k: nat)
    requires
        pos + k < d.len(),
        forall|j: int| pos <= j < pos + k ==> #[trigger] d[j] != 10u8,
        d[pos + k as int] == 10u8,
    ensures
        line_end(d, pos) == pos + k + 1,
    decreases k,
{
    if k > 0 {
        lemma_line_end_at(d, pos + 1, (k - 1) as nat);
    }
}

proof fn lemma_trim_start_push(s: Seq<char>, c: char)
    ensures
        trim_start(s.push(c)) == (if trim_start(s).len() == 0 && is_ws(c) {
            Seq::<char>::empty()
        } else {
            trim_start(s).push(c)
        }),
    decreases s.len(),
{
    if s.len() == 0 {
        assert(trim_start(s) == s);
        assert(s.push(c)[0] == c);
        if is_ws(c) {
            assert(s.push(c).drop_first() =~= Seq::<char>::empty());
            assert(trim_start(s.push(c)) == trim_start(s.push(c).drop_first()));
            assert(trim_start(Seq::<char>::empty()) == Seq::<char>::empty());
        } else {
            assert(trim_start(s.push(c)) == s.push(c));
        }
    } else if is_ws(s[0]) {
        assert(s.push(c)[0] == s[0]);
        assert(s.push(c).drop_first() =~= s.drop_first().push(c));
        lemma_trim_start_push(s.drop_first(), c);
        assert(trim_start(s.push(c)) == trim_start(s.push(c).drop_first()));
    } else {
        assert(s.push(c)[0] == s[0]);
    }
}

/// Whitespace at the end of a text is trimmed away.
pub proof fn lemma_trim_push_ws(s: Seq<char>, c: char)
    requires
        is_ws(c),
    ensures
        trim(s.push(c)) == trim(s),
{
    lemma_trim_start_push(s, c);
    if trim_start(s).len() == 0 {
        assert(trim_end(Seq::<char>::empty()) == Seq::<char>::empty());
    } else {
        let t = trim_start(s);
        assert(t.push(c).drop_last() =~= t);
        assert(t.push(c).last() == c);
    }
}

/// The UTF-8 bytes of a text and a newline.
pub proof fn lemma_encode_line(s: Seq<char>)
    ensures
        encode_utf8(s + "\n"@) == encode_utf8(s) + seq![10u8],
        s + "\n"@ == s.push('\n'),
{
    reveal_strlit("\n");
    lemma_encode_utf8_concat(s, "\n"@);
    assert(encode_utf8("\n"@) =~= seq![10u8]) by {
        reveal_strlit("\n");
        let t = "\n"@;
        assert(t.len() == 1);
        assert(t[0] == '\n');
        assert(t.drop_first() =~= Seq::<char>::empty());
        assert(('\n' as u32) == 10u32);
        assert(leading_byte_width_1(10u32) == 10u8) by (bit_vector);
        assert(encode_scalar(t[0] as u32) =~= seq![10u8]);
        assert(encode_utf8(t) == encode_scalar(t[0] as u32) + encode_utf8(t.drop_first()));
    }
    assert(s + "\n"@ =~= s.push('\n'));
}

/// Reading a line that holds the UTF-8 bytes of a single-line text and a newline
/// gives the trimmed text and the position after the newline.
pub proof fn lemma_read_text_line(d: Seq<u8>, pos: nat, s: Seq<char>)
    requires
        one_line(s),
        pos + encode_utf8(s + "\n"@).len() <= d.len(),
        d.subrange(pos as int, pos + encode_utf8(s + "\n"@).len() as int) == encode_utf8(s + "\n"@),
    ensures
        read_line(d, pos) == LineRead::Text(trim(s), pos + encode_utf8(s + "\n"@).len()),
{
    lemma_encode_line(s);
    lemma_encode_no_newline(s);
    let n = encode_utf8(s).len();
    let e = encode_utf8(s + "\n"@);
    assert forall|j: int| pos <= j < pos + n implies d[j] != 10u8 by {
        assert(d[j] == e[j - pos]);
        assert(e[j - pos] == encode_utf8(s)[j - pos]);
    }
    assert(d[pos + n as int] == e[n as int]);
    lemma_line_end_at(d, pos, n);
    encode_utf8_valid_utf8(s.push('\n'));
    encode_utf8_decode_utf8(s.push('\n'));
    lemma_trim_push_ws(s, '\n');
}

/// On one line, with no whitespace at either end.
pub open spec fn clean(v: Seq<char>) -> bool {
    one_line(v) && (v.len() == 0 || (!is_ws(v[0]) && !is_ws(v.last())))
}

/// A header key: clean, not empty, with no colon.
pub open spec fn key_ok(k: Seq<char>) -> bool {
    k.len() > 0 && clean(k) && forall|i: int| 0 <= i < k.len() ==> k[i] != ':'
}

proof fn lemma_trim_clean(v: Seq<char>)
    requires
        clean(v),
    ensures
        trim(v) == v,
{
    if v.len() > 0 {
        assert(trim_start(v) == v);
        assert(trim_end(v) == v);
    } else {
        assert(trim_start(v) == v);
        assert(trim_end(v) == v);
    }
}

/// A `key: value` line reads back as a line that starts with the key and a colon,
/// whose value is the value.
pub proof fn lemma_header_line(key: Seq<char>, v: Seq<char>)
    requires
        key_ok(key),
        clean(v),
    ensures
        starts_with(trim(key + ": "@ + v), key + ":"@),
        header_value(trim(key + ": "@ + v)) == v,
        trim(key + ": "@ + v).len() > 0,
        one_line(key + ": "@ + v),
{
    reveal_strlit(": ");
    reveal_strlit(":");
    assert(": "@ =~= seq![':', ' ']);
    let s = key + ": "@ + v;
    let kc = key + ":"@;
    let n: int = key.len() as int;
    assert(s[0] == key[0]);
    assert(trim_start(s) == s);
    assert(s[n] == ':');
    assert(s[n + 1] == ' ');
    assert forall|i: int| 0 <= i < s.len() implies s[i] != '\n' by {
        if i < n {
            assert(s[i] == key[i]);
        } else if i >= n + 2 {
            assert(s[i] == v[i - n - 2]);
        }
    }
    if v.len() > 0 {
        assert(s.last() == v.last());
        assert(trim_end(s) == s);
        assert(s.subrange(0, kc.len() as int) =~= kc);
        assert(occurs_at(s, ": "@, n as int)) by {
            assert(s.subrange(n, n + 2) =~= ": "@);
        }
        assert forall|m: int| 0 <= m < n implies !occurs_at(s, ": "@, m) by {
            assert(s[m] == key[m]);
            if occurs_at(s, ": "@, m) {
                assert(s.subrange(m, m + 2)[0] == s[m]);
            }
        }
        lemma_find_first(s, ": "@, n);
        assert(s.subrange(n + 2, s.len() as int) =~= v);
        lemma_trim_clean(v);
        assert(trim(s) == s);
        assert(split_once(s, ": "@) == Some((s.subrange(0, n), v)));
    } else {
        assert(s.last() == ' ');
        assert(s.drop_last() =~= kc);
        assert(kc.last() == ':');
        assert(trim_end(kc) == kc);
        assert(trim_end(s) == trim_end(s.drop_last()));
        assert(kc.subrange(0, kc.len() as int) =~= kc);
        assert forall|m: int| 0 <= m implies !occurs_at(kc, ": "@, m) by {
            if occurs_at(kc, ": "@, m) {
                assert(kc.subrange(m, m + 2)[0] == kc[m]);
                assert(kc[m] == key[m]);
            }
        }
        lemma_find_none(kc, ": "@, 0);
        assert(trim(s) == kc);
        assert(split_once(kc, ": "@) is None);
        assert(v =~= Seq::<char>::empty());
    }
}

/// Two keys with a colon after them that differ at `i` cannot both start a line.
pub proof fn lemma_other_key(t: Seq<char>, a: Seq<char>, b: Seq<char>, i: int)
    requires
        starts_with(t, a),
        0 <= i < a.len(),
        i < b.len(),
        a[i] != b[i],
    ensures
        !starts_with(t, b),
{
    assert(t.subrange(0, a.len() as int)[i] == t[i]);
    if starts_with(t, b) {
        assert(t.subrange(0, b.len() as int)[i] == t[i]);
    }
}

proof fn lemma_digit_char(d: nat)
    requires
        d < 10,
    ensures
        is_digit(digit_char(d)),
        (digit_char(d) as nat) - ('0' as nat) == d,
        !is_ws(digit_char(d)),
        digit_char(d) != '\n',
        digit_char(d) != '+',
{
}

/// A number's decimal digits are digits, at least one.
pub proof fn lemma_decimal_digits(n: nat)
    ensures
        decimal(n).len() > 0,
        all_digits(decimal(n)),
        decimal(n)[0] != '+',
        digits_value(decimal(n)) == n,
        clean(decimal(n)),
    decreases n,
{
    if n < 10 {
        lemma_digit_char(n);
        assert(decimal(n) =~= seq![digit_char(n)]);
        assert(decimal(n).drop_last() =~= Seq::<char>::empty());
        assert(decimal(n).last() == digit_char(n));
        assert(digits_value(decimal(n)) == digits_value(decimal(n).drop_last()) * 10 + ((decimal(n).last() as nat)
            - ('0' as nat)) as nat);
    } else {
        lemma_decimal_digits(n / 10);
        lemma_digit_char(n % 10);
        let p = decimal(n / 10);
        assert(decimal(n) == p.push(digit_char(n % 10)));
        assert(decimal(n).drop_last() =~= p);
        assert(decimal(n)[0] == p[0]);
        assert forall|i: int| 0 <= i < decimal(n).len() implies #[trigger] is_digit(decimal(n)[i]) by {
            if i < p.len() {
                assert(decimal(n)[i] == p[i]);
            }
        }
        assert(n == (n / 10) * 10 + n % 10);
        assert(decimal(n).last() == digit_char(n % 10));
        assert(digits_value(decimal(n)) == digits_value(p) * 10 + ((digit_char(n % 10) as nat) - ('0' as nat)) as nat);
        assert forall|i: int| 0 <= i < decimal(n).len() implies decimal(n)[i] != '\n' by {
            assert(is_digit(decimal(n)[i]));
        }
        assert(!is_ws(decimal(n)[0])) by {
            assert(is_digit(decimal(n)[0]));
        }
    }
    assert(!is_ws(decimal(n).last())) by {
        assert(is_digit(decimal(n)[decimal(n).len() - 1]));
    }
}

/// Reading a number's decimal digits gives it back.
pub proof fn lemma_parse_decimal(n: nat, max: nat)
    requires
        n <= max,
    ensures
        parse_unsigned(decimal(n), max) == Some(n),
{
    lemma_decimal_digits(n);
    assert(unsigned_digits(decimal(n)) == decimal(n));
}

// ─────────────────────────── lines and property blocks ───────────────────────────

/// A line that reads back as itself: on one line, not ending with a carriage return.
pub open spec fn plain_line(s: Seq<char>) -> bool {
    one_line(s) && (s.len() == 0 || s.last() != '\r')
}

/// Lines, each followed by a newline.
pub open spec fn lines_text(ls: Seq<Seq<char>>) -> Seq<char>
    decreases ls.len(),
{
    if ls.len() == 0 {
        Seq::empty()
    } else {
        ls[0] + "\n"@ + lines_text(ls.drop_first())
    }
}

/// The UTF-8 bytes of each line.
pub open spec fn encoded_lines(ls: Seq<Seq<char>>) -> Seq<Seq<u8>> {
    ls.map_values(|l: Seq<char>| encode_utf8(l))
}

proof fn lemma_encode_last_not_cr(s: Seq<char>)
    requires
        s.len() > 0,
        s.last() != '\r',
    ensures
        encode_utf8(s).len() > 0,
        encode_utf8(s).last() != 13u8,
{
    let a = s.drop_last();
    assert(s =~= a + seq![s.last()]);
    lemma_encode_utf8_concat(a, seq![s.last()]);
    assert(encode_utf8(seq![s.last()]) =~= encode_scalar(s.last() as u32)) by {
        let t = seq![s.last()];
        assert(t[0] == s.last());
        assert(t.drop_first() =~= Seq::<char>::empty());
        assert(encode_utf8(t.drop_first()) =~= Seq::<u8>::empty());
        assert(encode_utf8(t) == encode_scalar(t[0] as u32) + encode_utf8(t.drop_first()));
    }
    lemma_scalar_bytes(s.last());
    let e = encode_scalar(s.last() as u32);
    assert(encode_utf8(s).last() == e[e.len() - 1]);
}

/// The lines of bytes that hold the UTF-8 bytes of plain lines, each followed by a
/// newline, are those lines' bytes.
pub proof fn lemma_lines_from(d: Seq<u8>, pos: nat, ls: Seq<Seq<char>>)
    requires
        pos <= d.len(),
        forall|i: int| 0 <= i < ls.len() ==> #[trigger] plain_line(ls[i]),
        d.subrange(pos as int, d.len() as int) == encode_utf8(lines_text(ls)),
    ensures
        lines_from(d, pos) == encoded_lines(ls),
    decreases ls.len(),
{
    if ls.len() == 0 {
        assert(encode_utf8(Seq::<char>::empty()) =~= Seq::<u8>::empty());
        assert(encoded_lines(ls) =~= Seq::<Seq<u8>>::empty());
    } else {
        let l0 = ls[0];
        let rest = ls.drop_first();
        assert(plain_line(l0));
        lemma_encode_line(l0);
        lemma_encode_utf8_concat(l0 + "\n"@, lines_text(rest));
        let e0 = encode_utf8(l0);
        let n: int = e0.len() as int;
        let tail = encode_utf8(lines_text(rest));
        assert(encode_utf8(lines_text(ls)) == e0 + seq![10u8] + tail);
        lemma_encode_no_newline(l0);
        assert forall|j: int| pos <= j < pos + n implies #[trigger] d[j] != 10u8 by {
            assert(d.subrange(pos as int, d.len() as int)[j - pos] == d[j]);
            assert((e0 + seq![10u8] + tail)[j - pos] == e0[j - pos]);
        }
        assert(d.subrange(pos as int, d.len() as int)[n] == d[pos + n]);
        assert((e0 + seq![10u8] + tail)[n] == 10u8);
        lemma_line_end_at(d, pos, n as nat);
        assert(d.subrange(pos as int, pos + n) =~= e0) by {
            assert forall|j: int| 0 <= j < n implies d.subrange(pos as int, pos + n)[j] == e0[j] by {
                assert(d.subrange(pos as int, d.len() as int)[j] == d[pos + j]);
                assert((e0 + seq![10u8] + tail)[j] == e0[j]);
            }
        }
        if n > 0 {
            lemma_encode_last_not_cr(l0);
        } else {
            assert(l0.len() == 0 || encode_utf8(l0).len() > 0) by {
                if l0.len() > 0 {
                    lemma_scalar_bytes(l0[0]);
                }
            }
        }
        assert(line_text(d, pos) == e0);
        assert(forall|i: int| 0 <= i < rest.len() ==> #[trigger] plain_line(rest[i])) by {
            assert forall|i: int| 0 <= i < rest.len() implies #[trigger] plain_line(rest[i]) by {
                assert(rest[i] == ls[i + 1]);
            }
        }
        assert(d.subrange(pos + n + 1, d.len() as int) =~= tail) by {
            assert forall|j: int| 0 <= j < tail.len() implies d.subrange(pos + n + 1, d.len() as int)[j] == tail[j] by {
                assert(d.subrange(pos as int, d.len() as int)[n + 1 + j] == d[pos + n + 1 + j]);
                assert((e0 + seq![10u8] + tail)[n + 1 + j] == tail[j]);
            }
        }
        lemma_lines_from(d, (pos + n + 1) as nat, rest);
        assert(encoded_lines(ls) =~= seq![e0] + encoded_lines(rest));
    }
}

/// Lines of two groups are the lines of the first, then those of the second.
pub proof fn lemma_lines_text_concat(a: Seq<Seq<char>>, b: Seq<Seq<char>>)
    ensures
        lines_text(a + b) == lines_text(a) + lines_text(b),
    decreases a.len(),
{
    if a.len() == 0 {
        assert(a + b =~= b);
        assert(lines_text(a) + lines_text(b) =~= lines_text(b));
    } else {
        lemma_lines_text_concat(a.drop_first(), b);
        assert((a + b).drop_first() =~= a.drop_first() + b);
        assert((a + b)[0] == a[0]);
        assert(lines_text(a + b) =~= lines_text(a) + lines_text(b));
    }
}

/// The lines of one property: its tag line with the key's length, the key, the tag
/// line with the value's length, the value.
pub open spec fn prop_lines(key: Seq<char>, val: Seq<char>) -> Seq<Seq<char>> {
    seq!["K "@ + decimal(encode_utf8(key).len()), key, "V "@ + decimal(encode_utf8(val).len()), val]
}

/// The lines of a property that is set where its value is not empty.
pub open spec fn prop_lines_if(key: Seq<char>, val: Seq<char>) -> Seq<Seq<char>> {
    if val.len() > 0 { prop_lines(key, val) } else { Seq::empty() }
}

/// The lines of a revision's property block.
pub open spec fn rev_props_lines(a: Seq<char>, m: Seq<char>, d: Seq<char>) -> Seq<Seq<char>> {
    prop_lines_if("svn:author"@, a) + prop_lines_if("svn:log"@, m) + prop_lines_if("svn:date"@, d) + seq!["PROPS-END"@]
}

proof fn lemma_prop_lines_text(key: Seq<char>, val: Seq<char>)
    ensures
        lines_text(prop_lines_if(key, val)) == prop_if(key, val),
{
    if val.len() > 0 {
        let ls = prop_lines(key, val);
        let l1 = ls.drop_first();
        let l2 = l1.drop_first();
        let l3 = l2.drop_first();
        let l4 = l3.drop_first();
        assert(l4 =~= Seq::<Seq<char>>::empty());
        assert(lines_text(l4) == Seq::<char>::empty());
        assert(lines_text(l3) == ls[3] + "\n"@ + lines_text(l4));
        assert(lines_text(l2) == ls[2] + "\n"@ + lines_text(l3));
        assert(lines_text(l1) == ls[1] + "\n"@ + lines_text(l2));
        assert(lines_text(ls) == ls[0] + "\n"@ + lines_text(l1));
        assert(lines_text(ls) =~= prop_text(key, val));
    } else {
        assert(lines_text(Seq::<Seq<char>>::empty()) == Seq::<char>::empty());
    }
}

/// A revision's property block is the text of its lines.
pub proof fn lemma_rev_props_lines(a: Seq<char>, m: Seq<char>, d: Seq<char>)
    ensures
        lines_text(rev_props_lines(a, m, d)) == rev_props_text(a, m, d),
{
    reveal_strlit("PROPS-END");
    reveal_strlit("PROPS-END\n");
    reveal_strlit("\n");
    let la = prop_lines_if("svn:author"@, a);
    let lm = prop_lines_if("svn:log"@, m);
    let ld = prop_lines_if("svn:date"@, d);
    let le = seq!["PROPS-END"@];
    lemma_lines_text_concat(la + lm + ld, le);
    lemma_lines_text_concat(la + lm, ld);
    lemma_lines_text_concat(la, lm);
    lemma_prop_lines_text("svn:author"@, a);
    lemma_prop_lines_text("svn:log"@, m);
    lemma_prop_lines_text("svn:date"@, d);
    assert(le.drop_first() =~= Seq::<Seq<char>>::empty());
    assert(lines_text(le.drop_first()) == Seq::<char>::empty());
    assert(lines_text(le) == le[0] + "\n"@ + lines_text(le.drop_first()));
    assert("PROPS-END\n"@ =~= "PROPS-END"@ + "\n"@);
    assert(lines_text(le) =~= "PROPS-END\n"@);
}


// ─────────────────────────── reading lines back ───────────────────────────

/// The bytes `b` stand in `d` at `pos`.
pub open spec fn at(d: Seq<u8>, pos: nat, b: Seq<u8>) -> bool {
    pos + b.len() <= d.len() && d.subrange(pos as int, (pos + b.len()) as int) == b
}

/// Where two parts stand one after the other, each stands in its place.
pub proof fn lemma_at_split(d: Seq<u8>, pos: nat, a: Seq<u8>, b: Seq<u8>)
    requires
        at(d, pos, a + b),
    ensures
        at(d, pos, a),
        at(d, pos + a.len(), b),
{
    let p: int = pos as int;
    let na: int = a.len() as int;
    let nb: int = b.len() as int;
    let w = d.subrange(p, p + na + nb);
    assert(d.subrange(p, p + na) =~= a) by {
        assert forall|j: int| 0 <= j < na implies d.subrange(p, p + na)[j] == a[j] by {
            assert(w[j] == d[p + j]);
            assert((a + b)[j] == a[j]);
        }
    }
    assert(d.subrange(p + na, p + na + nb) =~= b) by {
        assert forall|j: int| 0 <= j < nb implies d.subrange(p + na, p + na + nb)[j] == b[j] by {
            assert(w[na + j] == d[p + na + j]);
            assert((a + b)[na + j] == b[j]);
        }
    }
}

/// A `key: value` line reads back as a line that starts with the key and a colon,
/// whose value is the value.
pub proof fn lemma_read_header(d: Seq<u8>, pos: nat, key: Seq<char>, v: Seq<char>) -> (t: Seq<char>)
    requires
        at(d, pos, text_line(key, v)),
        key_ok(key),
        clean(v),
    ensures
        read_line(d, pos) == LineRead::Text(t, pos + text_line(key, v).len()),
        t.len() > 0,
        starts_with(t, key + ":"@),
        header_value(t) == v,
{
    lemma_header_line(key, v);
    lemma_read_text_line(d, pos, key + ": "@ + v);
    trim(key + ": "@ + v)
}

/// An empty line reads back as an empty text.
pub proof fn lemma_read_blank(d: Seq<u8>, pos: nat)
    requires
        at(d, pos, nl()),
    ensures
        nl().len() == 1,
        read_line(d, pos) == LineRead::Text(Seq::<char>::empty(), pos + 1),
{
    let e = Seq::<char>::empty();
    lemma_encode_line(e);
    assert(e + "\n"@ =~= "\n"@);
    assert(encode_utf8(e) =~= Seq::<u8>::empty());
    assert(trim_start(e) == e);
    assert(trim_end(e) == e);
    lemma_read_text_line(d, pos, e);
}

/// A number's header value reads as the number.
pub proof fn lemma_num_values(t: Seq<char>, n: nat)
    requires
        header_value(t) == decimal(n),
    ensures
        n <= usize::MAX ==> num_usize(t) == n,
        n <= u64::MAX ==> num_u64(t) == n,
{
    if n <= usize::MAX {
        lemma_parse_decimal(n, usize::MAX as nat);
    }
    if n <= u64::MAX {
        lemma_parse_decimal(n, u64::MAX as nat);
    }
}


// ─────────────────────────── the keys of a dump ───────────────────────────

/// The keys a dump writes are header keys, and each with a colon is the prefix the
/// reader looks for.
#[verifier::spinoff_prover]
pub proof fn lemma_keys()
    ensures
        key_ok("SVN-fs-dump-format-version"@),
        key_ok("UUID"@),
        key_ok("Revision-number"@),
        key_ok("Prop-content-length"@),
        key_ok("Content-length"@),
        key_ok("Node-path"@),
        key_ok("Node-kind"@),
        key_ok("Node-action"@),
        key_ok("Text-content-length"@),
        key_ok("Text-content-md5"@),
        "SVN-fs-dump-format-version"@ + ":"@ == "SVN-fs-dump-format-version:"@,
        "UUID"@ + ":"@ == "UUID:"@,
        "Revision-number"@ + ":"@ == "Revision-number:"@,
        "Prop-content-length"@ + ":"@ == "Prop-content-length:"@,
        "Content-length"@ + ":"@ == "Content-length:"@,
        "Node-path"@ + ":"@ == "Node-path:"@,
        "Node-kind"@ + ":"@ == "Node-kind:"@,
        "Node-action"@ + ":"@ == "Node-action:"@,
        "Text-content-length"@ + ":"@ == "Text-content-length:"@,
        clean("file"@),
        clean("dir"@),
        clean("delete"@),
        clean("add"@),
        clean("change"@),
        "Text-content-md5"@ + ":"@ == "Text-content-md5:"@,
        kind_of("file"@) == Some(NodeKind::File),
        kind_of("dir"@) == Some(NodeKind::Dir),
        action_of("add"@) == Some(NodeAction::Add),
        action_of("change"@) == Some(NodeAction::Change),
        action_of("delete"@) == Some(NodeAction::Delete),
        nl().len() == 1,
{
    reveal_strlit(":");
    reveal_strlit("replace");
    lemma_encode_line(Seq::<char>::empty());
    assert(Seq::<char>::empty() + "\n"@ =~= "\n"@);
    assert(encode_utf8(Seq::<char>::empty()) =~= Seq::<u8>::empty());
    reveal_strlit("SVN-fs-dump-format-version");
    reveal_strlit("SVN-fs-dump-format-version:");
    reveal_strlit("UUID");
    reveal_strlit("UUID:");
    reveal_strlit("Revision-number");
    reveal_strlit("Revision-number:");
    reveal_strlit("Prop-content-length");
    reveal_strlit("Prop-content-length:");
    reveal_strlit("Content-length");
    reveal_strlit("Content-length:");
    reveal_strlit("Node-path");
    reveal_strlit("Node-path:");
    reveal_strlit("Node-kind");
    reveal_strlit("Node-kind:");
    reveal_strlit("Node-action");
    reveal_strlit("Node-action:");
    reveal_strlit("Text-content-length");
    reveal_strlit("Text-content-length:");
    reveal_strlit("Text-content-md5");
    reveal_strlit("Text-content-md5:");
    reveal_strlit("file");
    reveal_strlit("dir");
    reveal_strlit("delete");
    reveal_strlit("add");
    reveal_strlit("change");
    assert("Text-content-md5"@ + ":"@ =~= "Text-content-md5:"@);
    assert("change"@ != "delete"@) by {
        assert("change"@[0] != "delete"@[0]);
    }
    assert("change"@ != "add"@) by {
        assert("change"@.len() != "add"@.len());
    }
    assert("delete"@ != "add"@) by {
        assert("delete"@.len() != "add"@.len());
    }
    assert("dir"@ != "file"@) by {
        assert("dir"@.len() != "file"@.len());
    }
    assert("SVN-fs-dump-format-version"@ + ":"@ =~= "SVN-fs-dump-format-version:"@);
    assert("UUID"@ + ":"@ =~= "UUID:"@);
    assert("Revision-number"@ + ":"@ =~= "Revision-number:"@);
    assert("Prop-content-length"@ + ":"@ =~= "Prop-content-length:"@);
    assert("Content-length"@ + ":"@ =~= "Content-length:"@);
    assert("Node-path"@ + ":"@ =~= "Node-path:"@);
    assert("Node-kind"@ + ":"@ =~= "Node-kind:"@);
    assert("Node-action"@ + ":"@ =~= "Node-action:"@);
    assert("Text-content-length"@ + ":"@ =~= "Text-content-length:"@);
}

/// A line of the key `a` does not start with the key `b` where the two differ at `i`.
proof fn lemma_not_key(t: Seq<char>, a: Seq<char>, b: Seq<char>, i: int)
    requires
        starts_with(t, a),
        0 <= i < a.len(),
        i < b.len(),
        a[i] != b[i],
    ensures
        !starts_with(t, b),
{
    lemma_other_key(t, a, b, i);
}

/// The headers a reader of a dump looks for, told apart by their first characters
/// or the first character where they differ.
#[verifier::spinoff_prover]
pub proof fn lemma_header_kinds(t: Seq<char>)
    ensures
        starts_with(t, "Revision-number:"@) ==> !starts_with(t, "SVN-fs-dump-format-version:"@) && !starts_with(t, "UUID:"@),
        starts_with(t, "Node-path:"@) ==> !starts_with(t, "SVN-fs-dump-format-version:"@) && !starts_with(t, "UUID:"@)
            && !starts_with(t, "Revision-number:"@),
        starts_with(t, "Node-action:"@) ==> !starts_with(t, "Node-kind:"@),
        starts_with(t, "Prop-content-length:"@) ==> !starts_with(t, "Node-kind:"@) && !starts_with(t, "Node-action:"@),
        starts_with(t, "Text-content-length:"@) ==> !starts_with(t, "Prop-content-length:"@),
        starts_with(t, "Content-length:"@) ==> !starts_with(t, "Prop-content-length:"@) && !starts_with(t, "Text-content-length:"@),
        starts_with(t, "Text-content-md5:"@) ==> !starts_with(t, "Prop-content-length:"@) && !starts_with(t, "Text-content-length:"@)
            && !starts_with(t, "Content-length:"@),
{
    reveal_strlit("Revision-number:");
    reveal_strlit("SVN-fs-dump-format-version:");
    reveal_strlit("UUID:");
    reveal_strlit("Node-path:");
    reveal_strlit("Node-action:");
    reveal_strlit("Node-kind:");
    reveal_strlit("Prop-content-length:");
    reveal_strlit("Text-content-length:");
    reveal_strlit("Content-length:");
    reveal_strlit("Text-content-md5:");
    if starts_with(t, "Revision-number:"@) {
        lemma_not_key(t, "Revision-number:"@, "SVN-fs-dump-format-version:"@, 0);
        lemma_not_key(t, "Revision-number:"@, "UUID:"@, 0);
    }
    if starts_with(t, "Node-path:"@) {
        lemma_not_key(t, "Node-path:"@, "SVN-fs-dump-format-version:"@, 0);
        lemma_not_key(t, "Node-path:"@, "UUID:"@, 0);
        lemma_not_key(t, "Node-path:"@, "Revision-number:"@, 0);
    }
    if starts_with(t, "Node-action:"@) {
        lemma_not_key(t, "Node-action:"@, "Node-kind:"@, 5);
    }
    if starts_with(t, "Prop-content-length:"@) {
        lemma_not_key(t, "Prop-content-length:"@, "Node-kind:"@, 0);
        lemma_not_key(t, "Prop-content-length:"@, "Node-action:"@, 0);
    }
    if starts_with(t, "Text-content-length:"@) {
        lemma_not_key(t, "Text-content-length:"@, "Prop-content-length:"@, 0);
    }
    if starts_with(t, "Content-length:"@) {
        lemma_not_key(t, "Content-length:"@, "Prop-content-length:"@, 0);
        lemma_not_key(t, "Content-length:"@, "Text-content-length:"@, 0);
    }
    if starts_with(t, "Text-content-md5:"@) {
        lemma_not_key(t, "Text-content-md5:"@, "Prop-content-length:"@, 0);
        lemma_not_key(t, "Text-content-md5:"@, "Text-content-length:"@, 13);
        lemma_not_key(t, "Text-content-md5:"@, "Content-length:"@, 0);
    }
}


// ─────────────────────────── the header and revision records ───────────────────────────

/// A line of the dump's header, or an empty line, is passed over.
proof fn lemma_skip_line(d: Seq<u8>, pos: nat, cur: Option<RevSpec>, done: Seq<RevSpec>, t: Seq<char>, next: nat)
    requires
        pos <= d.len(),
        read_line(d, pos) == LineRead::Text(t, next),
        starts_with(t, "SVN-fs-dump-format-version:"@) || starts_with(t, "UUID:"@) || t.len() == 0,
    ensures
        stream_from(d, pos, cur, done) == stream_from(d, next, cur, done),
{
}

/// The header of a dump is passed over.
pub proof fn lemma_read_dump_header(
    d: Seq<u8>,
    pos: nat,
    fv: u32,
    uuid: Option<Seq<char>>,
    cur: Option<RevSpec>,
    done: Seq<RevSpec>,
)
    requires
        at(d, pos, dump_header(fv, uuid)),
        uuid matches Some(u) ==> clean(u),
    ensures
        stream_from(d, pos, cur, done) == stream_from(d, pos + dump_header(fv, uuid).len(), cur, done),
{
    lemma_keys();
    let a = num_line("SVN-fs-dump-format-version"@, fv as nat);
    let rest: Seq<u8> = match uuid {
        Some(u) => text_line("UUID"@, u) + nl(),
        None => Seq::empty(),
    };
    assert(dump_header(fv, uuid) == a + nl() + rest);
    lemma_at_split(d, pos, a + nl(), rest);
    lemma_at_split(d, pos, a, nl());
    lemma_decimal_digits(fv as nat);
    let t0 = lemma_read_header(d, pos, "SVN-fs-dump-format-version"@, decimal(fv as nat));
    let p1 = pos + a.len();
    lemma_skip_line(d, pos, cur, done, t0, p1);
    lemma_read_blank(d, p1);
    lemma_skip_line(d, p1, cur, done, Seq::empty(), p1 + 1);
    match uuid {
        Some(u) => {
            let b = text_line("UUID"@, u);
            lemma_at_split(d, p1 + 1, b, nl());
            let t1 = lemma_read_header(d, p1 + 1, "UUID"@, u);
            lemma_skip_line(d, p1 + 1, cur, done, t1, p1 + 1 + b.len());
            lemma_read_blank(d, p1 + 1 + b.len());
            lemma_skip_line(d, p1 + 1 + b.len(), cur, done, Seq::empty(), p1 + 1 + b.len() + 1);
        },
        None => {},
    }
}

/// The revision a loader reads from a revision record with the property block
/// `props`: its author (`unknown` where none is set), log message and date.
pub open spec fn read_revision(rev: u64, props: Seq<u8>) -> RevSpec {
    let m = parse_props(props);
    RevSpec {
        revision_number: rev,
        author: prop_or(m, "svn:author"@, "unknown"@),
        message: prop_or(m, "svn:log"@, Seq::empty()),
        timestamp: if m.contains_key("svn:date"@) { rfc3339_seconds(m["svn:date"@]) } else { None },
        nodes: Seq::empty(),
    }
}

/// A revision record opens the revision it holds, after delivering the one that was
/// open.
pub proof fn lemma_read_revision_record(
    d: Seq<u8>,
    pos: nat,
    rev: u64,
    props: Seq<u8>,
    cur: Option<RevSpec>,
    done: Seq<RevSpec>,
)
    requires
        at(d, pos, revision_record(rev, props)),
        props.len() > 0,
        d.len() <= usize::MAX,
    ensures
        stream_from(d, pos, cur, done) == stream_from(
            d,
            pos + revision_record(rev, props).len(),
            Some(read_revision(rev, props)),
            deliver(done, cur),
        ),
{
    lemma_keys();
    let n: nat = props.len();
    let a1 = num_line("Revision-number"@, rev as nat);
    let a2 = num_line("Prop-content-length"@, n);
    let a3 = num_line("Content-length"@, n);
    assert(revision_record(rev, props) == a1 + a2 + a3 + nl() + props + nl());
    lemma_at_split(d, pos, a1 + a2 + a3 + nl() + props, nl());
    lemma_at_split(d, pos, a1 + a2 + a3 + nl(), props);
    lemma_at_split(d, pos, a1 + a2 + a3, nl());
    lemma_at_split(d, pos, a1 + a2, a3);
    lemma_at_split(d, pos, a1, a2);
    let p1 = pos + a1.len();
    let p2 = p1 + a2.len();
    let p3 = p2 + a3.len();
    let p4 = p3 + 1;
    let p5 = p4 + n;
    lemma_decimal_digits(rev as nat);
    lemma_decimal_digits(n);
    let t0 = lemma_read_header(d, pos, "Revision-number"@, decimal(rev as nat));
    let t1 = lemma_read_header(d, p1, "Prop-content-length"@, decimal(n));
    let t2 = lemma_read_header(d, p2, "Content-length"@, decimal(n));
    lemma_read_blank(d, p3);
    lemma_read_blank(d, p5);
    lemma_header_kinds(t0);
    lemma_header_kinds(t2);
    lemma_num_values(t0, rev as nat);
    lemma_num_values(t1, n);
    lemma_num_values(t2, n);
    assert(read_headers(d, p3, HeaderMode::Revision, (n, n, None)) == Some(((n, n, None::<Seq<char>>), p4)));
    assert(read_headers(d, p2, HeaderMode::Revision, (n, 0, None)) == read_headers(d, p3, HeaderMode::Revision, (n, n, None)));
    assert(read_headers(d, p1, HeaderMode::Revision, (0, 0, None)) == read_headers(d, p2, HeaderMode::Revision, (n, 0, None)));
    assert(d.subrange(p4 as int, (p4 + n) as int) == props);
    let r = read_revision(rev, props);
    assert(stream_revision(d, p4, rev, n, n) == Some((r, p5)));
    lemma_skip_line(d, p5, Some(r), deliver(done, cur), Seq::empty(), p5 + 1);
}


// ─────────────────────────── node records ───────────────────────────

/// The open revision, if any, with the node `n` after its nodes.
pub open spec fn with_node(cur: Option<RevSpec>, n: NodeSpec) -> Option<RevSpec> {
    match cur {
        Some(r) => Some(RevSpec { nodes: r.nodes.push(n), ..r }),
        None => None,
    }
}

/// A file node record adds the file, with its action and text, to the open revision.
#[verifier::spinoff_prover]
#[verifier::rlimit(80)]
pub proof fn lemma_read_file_node(
    d: Seq<u8>,
    pos: nat,
    path: Seq<char>,
    action: Seq<char>,
    props: Seq<u8>,
    content: Seq<u8>,
    md5: Seq<char>,
    cur: Option<RevSpec>,
    done: Seq<RevSpec>,
)
    requires
        at(d, pos, file_node_record(path, action, props, content, Some(md5), nl() + nl())),
        clean(path),
        clean(action),
        clean(md5),
        props.len() > 0,
        d.len() <= usize::MAX,
    ensures
        stream_from(d, pos, cur, done) == stream_from(
            d,
            pos + file_node_record(path, action, props, content, Some(md5), nl() + nl()).len(),
            with_node(cur, (path, Some(NodeKind::File), action_of(action), content)),
            done,
        ),
{
    lemma_keys();
    let np: nat = props.len();
    let nt: nat = content.len();
    let h1 = text_line("Node-path"@, path);
    let h2 = text_line("Node-kind"@, "file"@);
    let h3 = text_line("Node-action"@, action);
    let h4 = num_line("Prop-content-length"@, np);
    let h5 = num_line("Text-content-length"@, nt);
    let h6 = text_line("Text-content-md5"@, md5);
    let h7 = num_line("Content-length"@, np + nt);
    let hs = h1 + h2 + h3 + h4 + h5 + h6;
    assert(file_node_record(path, action, props, content, Some(md5), nl() + nl())
        == hs + h7 + nl() + props + content + (nl() + nl()));
    lemma_at_split(d, pos, hs + h7 + nl() + props + content, nl() + nl());
    lemma_at_split(d, pos, hs + h7 + nl() + props, content);
    lemma_at_split(d, pos, hs + h7 + nl(), props);
    lemma_at_split(d, pos, hs + h7, nl());
    lemma_at_split(d, pos, hs, h7);
    lemma_at_split(d, pos, h1 + h2 + h3 + h4 + h5, h6);
    lemma_at_split(d, pos, h1 + h2 + h3 + h4, h5);
    lemma_at_split(d, pos, h1 + h2 + h3, h4);
    lemma_at_split(d, pos, h1 + h2, h3);
    lemma_at_split(d, pos, h1, h2);
    let p1 = pos + h1.len();
    let p2 = p1 + h2.len();
    let p3 = p2 + h3.len();
    let p4 = p3 + h4.len();
    let p5 = p4 + h5.len();
    let p6 = p5 + h6.len();
    let p7 = p6 + h7.len();
    let p8 = p7 + 1;
    let p9 = p8 + np + nt;
    lemma_at_split(d, p9, nl(), nl());
    lemma_decimal_digits(np);
    lemma_decimal_digits(nt);
    lemma_decimal_digits(np + nt);
    let t1 = lemma_read_header(d, pos, "Node-path"@, path);
    let t2 = lemma_read_header(d, p1, "Node-kind"@, "file"@);
    let t3 = lemma_read_header(d, p2, "Node-action"@, action);
    let t4 = lemma_read_header(d, p3, "Prop-content-length"@, decimal(np));
    let t5 = lemma_read_header(d, p4, "Text-content-length"@, decimal(nt));
    let t6 = lemma_read_header(d, p5, "Text-content-md5"@, md5);
    let t7 = lemma_read_header(d, p6, "Content-length"@, decimal(np + nt));
    lemma_read_blank(d, p7);
    lemma_read_blank(d, p9);
    lemma_read_blank(d, p9 + 1);
    lemma_header_kinds(t1);
    lemma_header_kinds(t3);
    lemma_header_kinds(t4);
    lemma_header_kinds(t5);
    lemma_header_kinds(t6);
    lemma_header_kinds(t7);
    lemma_num_values(t4, np);
    lemma_num_values(t5, nt);
    lemma_num_values(t7, np + nt);
    let lens: (nat, nat, nat) = (np, nt, np + nt);
    assert(length_headers(d, p7, lens) == Some((lens, p8)));
    assert(length_headers(d, p6, (np, nt, 0)) == length_headers(d, p7, lens));
    assert(length_headers(d, p5, (np, nt, 0)) == length_headers(d, p6, (np, nt, 0)));
    assert(length_headers(d, p4, (np, 0, 0)) == length_headers(d, p5, (np, nt, 0)));
    assert(absorb_length((0, 0, 0), t4) == (np, 0nat, 0nat));
    assert(line_end(d, p9) == p9 + 1);
    if nt > 0 {
        assert(d.subrange((p8 + np) as int, (p8 + np + nt) as int) == content);
    } else {
        assert(content =~= Seq::<u8>::empty());
    }
    let nd0: NodeSpec = (path, None, None, Seq::empty());
    let nd: NodeSpec = (path, Some(NodeKind::File), action_of(action), Seq::empty());
    let n: NodeSpec = (path, Some(NodeKind::File), action_of(action), content);
    assert(node_content(d, p4, t4, nd) == Ok::<(NodeSpec, nat), Seq<char>>((n, p9 + 1)));
    assert(stream_node(d, p3, nd) == node_content(d, p4, t4, nd));
    assert(stream_node(d, p2, (path, Some(NodeKind::File), None, Seq::empty())) == stream_node(d, p3, nd));
    assert(stream_node(d, p1, nd0) == stream_node(d, p2, (path, Some(NodeKind::File), None, Seq::empty())));
    lemma_skip_line(d, p9 + 1, with_node(cur, n), done, Seq::empty(), p9 + 2);
}

/// A directory node record adds the directory, with its action, to the open
/// revision.
pub proof fn lemma_read_dir_node(
    d: Seq<u8>,
    pos: nat,
    path: Seq<char>,
    action: Seq<char>,
    props: Seq<u8>,
    cur: Option<RevSpec>,
    done: Seq<RevSpec>,
)
    requires
        at(d, pos, dir_node_record(path, action, props, nl() + nl())),
        clean(path),
        clean(action),
        props.len() > 0,
        d.len() <= usize::MAX,
    ensures
        stream_from(d, pos, cur, done) == stream_from(
            d,
            pos + dir_node_record(path, action, props, nl() + nl()).len(),
            with_node(cur, (path, Some(NodeKind::Dir), action_of(action), Seq::empty())),
            done,
        ),
{
    lemma_keys();
    let np: nat = props.len();
    let h1 = text_line("Node-path"@, path);
    let h2 = text_line("Node-kind"@, "dir"@);
    let h3 = text_line("Node-action"@, action);
    let h4 = num_line("Prop-content-length"@, np);
    let h5 = num_line("Content-length"@, np);
    let hs = h1 + h2 + h3 + h4 + h5;
    assert(dir_node_record(path, action, props, nl() + nl()) == hs + nl() + props + (nl() + nl()));
    lemma_at_split(d, pos, hs + nl() + props, nl() + nl());
    lemma_at_split(d, pos, hs + nl(), props);
    lemma_at_split(d, pos, hs, nl());
    lemma_at_split(d, pos, h1 + h2 + h3 + h4, h5);
    lemma_at_split(d, pos, h1 + h2 + h3, h4);
    lemma_at_split(d, pos, h1 + h2, h3);
    lemma_at_split(d, pos, h1, h2);
    let p1 = pos + h1.len();
    let p2 = p1 + h2.len();
    let p3 = p2 + h3.len();
    let p4 = p3 + h4.len();
    let p5 = p4 + h5.len();
    let p6 = p5 + 1;
    let p7 = p6 + np;
    lemma_at_split(d, p7, nl(), nl());
    lemma_decimal_digits(np);
    let t1 = lemma_read_header(d, pos, "Node-path"@, path);
    let t2 = lemma_read_header(d, p1, "Node-kind"@, "dir"@);
    let t3 = lemma_read_header(d, p2, "Node-action"@, action);
    let t4 = lemma_read_header(d, p3, "Prop-content-length"@, decimal(np));
    let t5 = lemma_read_header(d, p4, "Content-length"@, decimal(np));
    lemma_read_blank(d, p5);
    lemma_read_blank(d, p7);
    lemma_read_blank(d, p7 + 1);
    lemma_header_kinds(t1);
    lemma_header_kinds(t3);
    lemma_header_kinds(t4);
    lemma_header_kinds(t5);
    lemma_num_values(t4, np);
    lemma_num_values(t5, np);
    let lens: (nat, nat, nat) = (np, 0, np);
    assert(length_headers(d, p5, lens) == Some((lens, p6)));
    assert(length_headers(d, p4, (np, 0, 0)) == length_headers(d, p5, lens));
    assert(absorb_length((0, 0, 0), t4) == (np, 0nat, 0nat));
    assert(line_end(d, p7) == p7 + 1);
    let nd0: NodeSpec = (path, None, None, Seq::empty());
    let nd: NodeSpec = (path, Some(NodeKind::Dir), action_of(action), Seq::empty());
    assert(node_content(d, p4, t4, nd) == Ok::<(NodeSpec, nat), Seq<char>>((nd, p7 + 1)));
    assert(stream_node(d, p3, nd) == node_content(d, p4, t4, nd));
    assert(stream_node(d, p2, (path, Some(NodeKind::Dir), None, Seq::empty())) == stream_node(d, p3, nd));
    assert(stream_node(d, p1, nd0) == stream_node(d, p2, (path, Some(NodeKind::Dir), None, Seq::empty())));
    lemma_skip_line(d, p7 + 1, with_node(cur, nd), done, Seq::empty(), p7 + 2);
}

/// A deletion record adds the deletion of its path to the open revision.
pub proof fn lemma_read_delete_node(d: Seq<u8>, pos: nat, path: Seq<char>, cur: Option<RevSpec>, done: Seq<RevSpec>)
    requires
        at(d, pos, delete_node_record(path)),
        clean(path),
    ensures
        stream_from(d, pos, cur, done) == stream_from(
            d,
            pos + delete_node_record(path).len(),
            with_node(cur, (path, None, Some(NodeAction::Delete), Seq::empty())),
            done,
        ),
{
    lemma_keys();
    let h1 = text_line("Node-path"@, path);
    let h2 = text_line("Node-action"@, "delete"@);
    lemma_at_split(d, pos, h1 + h2, nl());
    lemma_at_split(d, pos, h1, h2);
    let p1 = pos + h1.len();
    let p2 = p1 + h2.len();
    let t1 = lemma_read_header(d, pos, "Node-path"@, path);
    let t2 = lemma_read_header(d, p1, "Node-action"@, "delete"@);
    lemma_read_blank(d, p2);
    lemma_header_kinds(t1);
    lemma_header_kinds(t2);
    reveal_strlit("delete");
    reveal_strlit("add");
    assert(action_of("delete"@) == Some(NodeAction::Delete));
    let nd0: NodeSpec = (path, None, None, Seq::empty());
    let nd: NodeSpec = (path, None, Some(NodeAction::Delete), Seq::empty());
    assert(stream_node(d, p2, nd) == Ok::<(NodeSpec, nat), Seq<char>>((nd, p2 + 1)));
    assert(stream_node(d, p1, nd0) == stream_node(d, p2, nd));
}


// ─────────────────────────── changes ───────────────────────────

/// A lower-case hexadecimal digit.
pub open spec fn is_hex_char(c: char) -> bool {
    ('0' <= c && c <= '9') || ('a' <= c && c <= 'f')
}

/// Hexadecimal text is one line with no whitespace at either end.
pub proof fn lemma_hex_clean(b: Seq<u8>)
    ensures
        forall|i: int| 0 <= i < hex_lower(b).len() ==> is_hex_char(#[trigger] hex_lower(b)[i]),
        clean(hex_lower(b)),
    decreases b.len(),
{
    if b.len() > 0 {
        lemma_hex_clean(b.drop_last());
        let p = hex_lower(b.drop_last());
        let hi = hex_digit((b.last() / 16) as nat);
        let lo = hex_digit((b.last() % 16) as nat);
        assert(is_hex_char(hi) && is_hex_char(lo)) by {
            if (b.last() / 16) < 10 {
                lemma_digit_char((b.last() / 16) as nat);
            }
            if (b.last() % 16) < 10 {
                lemma_digit_char((b.last() % 16) as nat);
            }
        }
        let h = hex_lower(b);
        assert(h == p + seq![hi, lo]);
        assert forall|i: int| 0 <= i < h.len() implies is_hex_char(#[trigger] h[i]) by {
            if i < p.len() {
                assert(h[i] == p[i]);
            } else if i == p.len() {
                assert(h[i] == hi);
            } else {
                assert(h[i] == lo);
            }
        }
        assert(is_hex_char(h[0]));
        assert(is_hex_char(h[h.len() - 1]));
        assert forall|i: int| 0 <= i < h.len() implies h[i] != '\n' by {
            assert(is_hex_char(h[i]));
        }
    }
}

/// The action a loader reads for a change: `change` where the path existed in the
/// previous revision and the revision is after 1, else `add`.
pub open spec fn loaded_action(rev: u64, existed_before: bool) -> NodeAction {
    if rev > 1 && existed_before { NodeAction::Change } else { NodeAction::Add }
}

/// The node a loader reads for a change, where the dump holds one: a file with its
/// action and content, a directory with its action, or a deletion.
pub open spec fn change_node(rev: u64, c: ChangeInput) -> Option<NodeSpec> {
    match c.change {
        TreeChange::Upsert { path, entry } => {
            let action = Some(loaded_action(rev, c.existed_before));
            if entry.kind == ObjectKind::Blob {
                match c.content {
                    Some(d) => Some((path@, Some(NodeKind::File), action, d@)),
                    None => None,
                }
            } else {
                Some((path@, Some(NodeKind::Dir), action, Seq::empty()))
            }
        },
        TreeChange::Delete { path } => Some((path@, None, Some(NodeAction::Delete), Seq::empty())),
    }
}

/// The path of a change reads back from a header: one line, no whitespace at either
/// end.
pub open spec fn change_readable(c: ChangeInput) -> bool {
    match c.change {
        TreeChange::Upsert { path, .. } => clean(path@),
        TreeChange::Delete { path } => clean(path@),
    }
}

/// The open revision, if any, with the node `n`, if any, after its nodes.
pub open spec fn with_node_opt(cur: Option<RevSpec>, n: Option<NodeSpec>) -> Option<RevSpec> {
    match n {
        Some(x) => with_node(cur, x),
        None => cur,
    }
}

/// The record of a change adds its node, if it has one, to the open revision.
#[verifier::spinoff_prover]
#[verifier::rlimit(60)]
pub proof fn lemma_read_change(d: Seq<u8>, pos: nat, rev: u64, c: ChangeInput, cur: Option<RevSpec>, done: Seq<RevSpec>)
    requires
        at(d, pos, change_record(rev, c)),
        change_readable(c),
        d.len() <= usize::MAX,
    ensures
        stream_from(d, pos, cur, done) == stream_from(
            d,
            pos + change_record(rev, c).len(),
            with_node_opt(cur, change_node(rev, c)),
            done,
        ),
{
    lemma_keys();
    reveal_strlit("PROPS-END\n");
    let action = change_action(rev, c.existed_before);
    assert(clean(action) && action_of(action) == Some(loaded_action(rev, c.existed_before)));
    match c.change {
        TreeChange::Upsert { path, entry } => {
            if entry.kind == ObjectKind::Blob {
                match c.content {
                    Some(b) => {
                        let ex = entry.mode & 0o111 != 0;
                        let np = node_props(ex);
                        assert(np.len() > 0) by {
                            is_ascii_chars_encode_utf8("PROPS-END\n"@);
                            if ex {
                                lemma_encode_utf8_concat(prop_text("svn:executable"@, "*"@), "PROPS-END\n"@);
                            }
                        }
                        lemma_hex_clean(md5_digest(b@));
                        lemma_read_file_node(d, pos, path@, action, np, b@, hex_lower(md5_digest(b@)), cur, done);
                    },
                    None => {
                        assert(change_record(rev, c) =~= Seq::<u8>::empty());
                    },
                }
            } else {
                let np = encode_utf8("PROPS-END\n"@);
                assert(np.len() > 0) by {
                    is_ascii_chars_encode_utf8("PROPS-END\n"@);
                }
                lemma_read_dir_node(d, pos, path@, action, np, cur, done);
            }
        },
        TreeChange::Delete { path } => {
            lemma_read_delete_node(d, pos, path@, cur, done);
        },
    }
}

/// The open revision, if any, with the nodes `ns` after its nodes.
pub open spec fn with_nodes(cur: Option<RevSpec>, ns: Seq<NodeSpec>) -> Option<RevSpec> {
    match cur {
        Some(r) => Some(RevSpec { nodes: r.nodes + ns, ..r }),
        None => None,
    }
}

/// The nodes a loader reads for the changes `cs`, in order.
pub open spec fn changes_nodes(rev: u64, cs: Seq<ChangeInput>) -> Seq<NodeSpec>
    decreases cs.len(),
{
    if cs.len() == 0 {
        Seq::empty()
    } else {
        changes_nodes(rev, cs.drop_last()) + match change_node(rev, cs.last()) {
            Some(n) => seq![n],
            None => Seq::empty(),
        }
    }
}

/// The records of changes add their nodes, in order, to the open revision.
pub proof fn lemma_read_changes(
    d: Seq<u8>,
    pos: nat,
    rev: u64,
    cs: Seq<ChangeInput>,
    cur: Option<RevSpec>,
    done: Seq<RevSpec>,
)
    requires
        at(d, pos, changes_record(rev, cs)),
        forall|i: int| 0 <= i < cs.len() ==> change_readable(#[trigger] cs[i]),
        d.len() <= usize::MAX,
    ensures
        stream_from(d, pos, cur, done) == stream_from(
            d,
            pos + changes_record(rev, cs).len(),
            with_nodes(cur, changes_nodes(rev, cs)),
            done,
        ),
    decreases cs.len(),
{
    if cs.len() == 0 {
        if let Some(r) = cur {
            assert(r.nodes + Seq::<NodeSpec>::empty() =~= r.nodes);
        }
    } else {
        let front = cs.drop_last();
        let last = cs.last();
        lemma_at_split(d, pos, changes_record(rev, front), change_record(rev, last));
        assert forall|i: int| 0 <= i < front.len() implies change_readable(#[trigger] front[i]) by {
            assert(front[i] == cs[i]);
        }
        lemma_read_changes(d, pos, rev, front, cur, done);
        let mid = with_nodes(cur, changes_nodes(rev, front));
        assert(change_readable(cs[cs.len() - 1]));
        lemma_read_change(d, pos + changes_record(rev, front).len(), rev, last, mid, done);
        if let Some(r) = cur {
            match change_node(rev, last) {
                Some(n) => {
                    assert((r.nodes + changes_nodes(rev, front)).push(n) =~= r.nodes + changes_nodes(rev, cs));
                },
                None => {
                    assert(r.nodes + changes_nodes(rev, front) =~= r.nodes + changes_nodes(rev, cs));
                },
            }
        }
    }
}


// ─────────────────────────── property blocks ───────────────────────────

/// Each line is no longer in bytes than the text of all the lines.
pub proof fn lemma_line_len_bound(ls: Seq<Seq<char>>, i: int)
    requires
        0 <= i < ls.len(),
    ensures
        encode_utf8(ls[i]).len() <= encode_utf8(lines_text(ls)).len(),
    decreases ls.len(),
{
    let rest = ls.drop_first();
    lemma_encode_utf8_concat(ls[0], "\n"@);
    lemma_encode_utf8_concat(ls[0] + "\n"@, lines_text(rest));
    if i > 0 {
        lemma_line_len_bound(rest, i - 1);
        assert(rest[i - 1] == ls[i]);
    }
}

/// UTF-8 bytes read back as text give the text.
pub proof fn lemma_lossy_encode(s: Seq<char>)
    ensures
        lossy_text(encode_utf8(s)) == s,
{
    encode_utf8_valid_utf8(s);
    encode_utf8_decode_utf8(s);
}

/// A property's tag line (`K n` or `V n`) is a plain line; its bytes start with the
/// tag and a space, and the length after them reads as `n`.
proof fn lemma_tag_line(tag: Seq<char>, c: char, n: nat)
    requires
        tag =~= seq![c, ' '],
        c == 'K' || c == 'V',
        n <= usize::MAX,
    ensures
        plain_line(tag + decimal(n)),
        encode_utf8(tag + decimal(n)).len() >= 2,
        encode_utf8(tag + decimal(n))[0] == c as u8,
        encode_utf8(tag + decimal(n))[1] == 32u8,
        len_after_tag(encode_utf8(tag + decimal(n))) == n,
{
    let dn = decimal(n);
    let s = tag + dn;
    lemma_decimal_digits(n);
    assert(is_digit(dn[dn.len() - 1]));
    assert(s.last() == dn.last());
    assert forall|i: int| 0 <= i < s.len() implies s[i] != '\n' && '\0' <= #[trigger] s[i] <= '\u{7f}' by {
        if i >= 2 {
            assert(s[i] == dn[i - 2]);
            assert(is_digit(dn[i - 2]));
        }
    }
    assert(is_ascii_chars(s));
    is_ascii_chars_encode_utf8(s);
    let l = encode_utf8(s);
    assert(l[0] == s[0] as u8);
    assert(l[1] == s[1] as u8);
    assert(byte_chars(l.subrange(2, l.len() as int)) =~= dn) by {
        assert forall|j: int| 0 <= j < dn.len() implies byte_chars(l.subrange(2, l.len() as int))[j] == dn[j] by {
            assert(s[j + 2] == dn[j]);
            assert(l[j + 2] == s[j + 2] as u8);
        }
    }
    lemma_parse_decimal(n, usize::MAX as nat);
}

/// A group of property lines sets the property.
proof fn lemma_props_group(ls: Seq<Seq<char>>, i: int, k: Seq<char>, v: Seq<char>, mp: Map<Seq<char>, Seq<char>>)
    requires
        0 <= i,
        i + 4 < ls.len(),
        ls[i] == "K "@ + decimal(encode_utf8(k).len()),
        ls[i + 1] == k,
        ls[i + 2] == "V "@ + decimal(encode_utf8(v).len()),
        ls[i + 3] == v,
        encode_utf8(k).len() <= usize::MAX,
        encode_utf8(v).len() <= usize::MAX,
    ensures
        props_from(encoded_lines(ls), i as nat, mp) == props_from(encoded_lines(ls), (i + 4) as nat, mp.insert(k, v)),
{
    reveal_strlit("K ");
    reveal_strlit("V ");
    let e = encoded_lines(ls);
    lemma_tag_line("K "@, 'K', encode_utf8(k).len());
    lemma_tag_line("V "@, 'V', encode_utf8(v).len());
    assert(e[i] == encode_utf8(ls[i]));
    assert(e[i + 1] == encode_utf8(k));
    assert(e[i + 2] == encode_utf8(ls[i + 2]));
    assert(e[i + 3] == encode_utf8(v));
    assert(e[i] != props_end()) by {
        assert(e[i][0] != props_end()[0]);
    }
    lemma_lossy_encode(k);
    lemma_lossy_encode(v);
}

/// The properties a revision's block sets: author, log message and date, each
/// where it is not empty.
pub open spec fn rev_prop_map(a: Seq<char>, m: Seq<char>, dt: Seq<char>) -> Map<Seq<char>, Seq<char>> {
    let m0 = Map::<Seq<char>, Seq<char>>::empty();
    let m1 = if a.len() > 0 { m0.insert("svn:author"@, a) } else { m0 };
    let m2 = if m.len() > 0 { m1.insert("svn:log"@, m) } else { m1 };
    if dt.len() > 0 { m2.insert("svn:date"@, dt) } else { m2 }
}

/// The lines of a property are plain lines.
proof fn lemma_group_lines(k: Seq<char>, v: Seq<char>)
    requires
        plain_line(k),
        plain_line(v),
        encode_utf8(k).len() <= usize::MAX,
        encode_utf8(v).len() <= usize::MAX,
    ensures
        forall|j: int| 0 <= j < prop_lines_if(k, v).len() ==> #[trigger] plain_line(prop_lines_if(k, v)[j]),
{
    reveal_strlit("K ");
    reveal_strlit("V ");
    if v.len() > 0 {
        lemma_tag_line("K "@, 'K', encode_utf8(k).len());
        lemma_tag_line("V "@, 'V', encode_utf8(v).len());
        let ls = prop_lines(k, v);
        assert forall|j: int| 0 <= j < ls.len() implies #[trigger] plain_line(ls[j]) by {
            if j == 0 {
            } else if j == 1 {
            } else if j == 2 {
            } else {
            }
        }
    }
}

/// The keys of a revision's properties and the end line are plain ASCII lines.
proof fn lemma_prop_keys()
    ensures
        plain_line("svn:author"@),
        plain_line("svn:log"@),
        plain_line("svn:date"@),
        plain_line("PROPS-END"@),
        encode_utf8("svn:author"@).len() == 10,
        encode_utf8("svn:log"@).len() == 7,
        encode_utf8("svn:date"@).len() == 8,
        encode_utf8("PROPS-END"@) == props_end(),
        "svn:author"@ != "svn:log"@,
        "svn:author"@ != "svn:date"@,
        "svn:log"@ != "svn:date"@,
{
    reveal_strlit("svn:author");
    reveal_strlit("svn:log");
    reveal_strlit("svn:date");
    reveal_strlit("PROPS-END");
    is_ascii_chars_encode_utf8("svn:author"@);
    is_ascii_chars_encode_utf8("svn:log"@);
    is_ascii_chars_encode_utf8("svn:date"@);
    is_ascii_chars_encode_utf8("PROPS-END"@);
    assert(encode_utf8("PROPS-END"@) =~= props_end());
    assert("svn:author"@.len() != "svn:log"@.len());
    assert("svn:author"@.len() != "svn:date"@.len());
    assert("svn:log"@.len() != "svn:date"@.len());
}

/// The lines of a revision's property block are plain lines.
#[verifier::spinoff_prover]
proof fn lemma_rev_lines_plain(a: Seq<char>, m: Seq<char>, dt: Seq<char>)
    requires
        plain_line(a),
        plain_line(m),
        plain_line(dt),
        encode_utf8(a).len() <= usize::MAX,
        encode_utf8(m).len() <= usize::MAX,
        encode_utf8(dt).len() <= usize::MAX,
    ensures
        forall|i: int| 0 <= i < rev_props_lines(a, m, dt).len() ==> #[trigger] plain_line(rev_props_lines(a, m, dt)[i]),
{
    lemma_prop_keys();
    let la = prop_lines_if("svn:author"@, a);
    let lm = prop_lines_if("svn:log"@, m);
    let ld = prop_lines_if("svn:date"@, dt);
    let pe = seq!["PROPS-END"@];
    lemma_group_lines("svn:author"@, a);
    lemma_group_lines("svn:log"@, m);
    lemma_group_lines("svn:date"@, dt);
    let ls = rev_props_lines(a, m, dt);
    assert(ls == la + lm + ld + pe);
    assert forall|i: int| 0 <= i < ls.len() implies #[trigger] plain_line(ls[i]) by {
        if i < la.len() {
            assert(ls[i] == la[i]);
        } else if i < la.len() + lm.len() {
            assert(ls[i] == lm[i - la.len()]);
        } else if i < la.len() + lm.len() + ld.len() {
            assert(ls[i] == ld[i - la.len() - lm.len()]);
        } else {
            assert(ls[i] == pe[0]);
        }
    }
}

/// Reading a revision's property block back gives the properties it sets.
#[verifier::spinoff_prover]
pub proof fn lemma_parse_rev_props(a: Seq<char>, m: Seq<char>, dt: Seq<char>)
    requires
        plain_line(a),
        plain_line(m),
        plain_line(dt),
        encode_utf8(rev_props_text(a, m, dt)).len() <= usize::MAX,
    ensures
        parse_props(encode_utf8(rev_props_text(a, m, dt))) == rev_prop_map(a, m, dt),
{
    lemma_prop_keys();
    let ls = rev_props_lines(a, m, dt);
    let la = prop_lines_if("svn:author"@, a);
    let lm = prop_lines_if("svn:log"@, m);
    let ld = prop_lines_if("svn:date"@, dt);
    let pe = seq!["PROPS-END"@];
    lemma_rev_props_lines(a, m, dt);
    let b = encode_utf8(rev_props_text(a, m, dt));
    lemma_lossy_encode(rev_props_text(a, m, dt));
    assert(encode_utf8(lossy_text(b)) == b);
    let e = encoded_lines(ls);
    assert(ls == la + lm + ld + pe);
    let na: int = la.len() as int;
    let nm: int = lm.len() as int;
    let nd: int = ld.len() as int;
    if a.len() > 0 {
        lemma_line_len_bound(ls, 3);
        assert(ls[3] == a);
    }
    if m.len() > 0 {
        lemma_line_len_bound(ls, na + 3);
        assert(ls[na + 3] == m);
    }
    if dt.len() > 0 {
        lemma_line_len_bound(ls, na + nm + 3);
        assert(ls[na + nm + 3] == dt);
    }
    assert(encode_utf8(a).len() <= usize::MAX) by {
        if a.len() == 0 {
            assert(a =~= Seq::<char>::empty());
        }
    }
    assert(encode_utf8(m).len() <= usize::MAX) by {
        if m.len() == 0 {
            assert(m =~= Seq::<char>::empty());
        }
    }
    assert(encode_utf8(dt).len() <= usize::MAX) by {
        if dt.len() == 0 {
            assert(dt =~= Seq::<char>::empty());
        }
    }
    lemma_rev_lines_plain(a, m, dt);
    assert(b.subrange(0, b.len() as int) =~= b);
    lemma_lines_from(b, 0, ls);
    assert(byte_lines(b) == e);
    let m0 = Map::<Seq<char>, Seq<char>>::empty();
    let m1 = if a.len() > 0 { m0.insert("svn:author"@, a) } else { m0 };
    let m2 = if m.len() > 0 { m1.insert("svn:log"@, m) } else { m1 };
    let m3 = if dt.len() > 0 { m2.insert("svn:date"@, dt) } else { m2 };
    if a.len() > 0 {
        lemma_props_group(ls, 0, "svn:author"@, a, m0);
    }
    if m.len() > 0 {
        lemma_props_group(ls, na, "svn:log"@, m, m1);
    }
    if dt.len() > 0 {
        lemma_props_group(ls, na + nm, "svn:date"@, dt, m2);
    }
    assert(e[na + nm + nd] == props_end());
    assert(props_from(e, (na + nm + nd) as nat, m3) == m3);
}


// ─────────────────────────── revisions ───────────────────────────

/// The commit data of a revision reads back from its property block: author, log
/// message and date are each on one line, not ending with a carriage return.
pub open spec fn commit_readable(commit: Option<Commit>) -> bool {
    match commit {
        Some(c) => plain_line(c.author@) && plain_line(c.message@) && plain_line(svn_date(c.timestamp)),
        None => true,
    }
}

/// The revision a loader reads for a revision record with the commit `commit`:
/// its author (`unknown` where it is empty or there is no commit), its log message,
/// and the seconds of its date where the date text is not empty.
pub open spec fn commit_revision(rev: u64, commit: Option<Commit>) -> RevSpec {
    match commit {
        Some(c) => RevSpec {
            revision_number: rev,
            author: if c.author@.len() > 0 { c.author@ } else { "unknown"@ },
            message: c.message@,
            timestamp: if svn_date(c.timestamp).len() > 0 { rfc3339_seconds(svn_date(c.timestamp)) } else { None },
            nodes: Seq::empty(),
        },
        None => RevSpec {
            revision_number: rev,
            author: "unknown"@,
            message: Seq::empty(),
            timestamp: None,
            nodes: Seq::empty(),
        },
    }
}

/// A revision's property block is not empty, and reads back as its commit data.
pub proof fn lemma_read_commit(rev: u64, commit: Option<Commit>)
    requires
        commit_readable(commit),
        revision_props(commit).len() <= usize::MAX,
    ensures
        revision_props(commit).len() > 0,
        read_revision(rev, revision_props(commit)) == commit_revision(rev, commit),
{
    lemma_prop_keys();
    reveal_strlit("PROPS-END\n");
    is_ascii_chars_encode_utf8("PROPS-END\n"@);
    match commit {
        Some(c) => {
            let a = c.author@;
            let m = c.message@;
            let dt = svn_date(c.timestamp);
            lemma_encode_utf8_concat(prop_if("svn:author"@, a) + prop_if("svn:log"@, m) + prop_if("svn:date"@, dt), "PROPS-END\n"@);
            lemma_parse_rev_props(a, m, dt);
            if m.len() == 0 {
                assert(m =~= Seq::<char>::empty());
            }
        },
        None => {
            let e = Seq::<char>::empty();
            assert(rev_props_text(e, e, e) =~= "PROPS-END\n"@);
            assert(plain_line(e));
            lemma_parse_rev_props(e, e, e);
            assert(rev_prop_map(e, e, e) == Map::<Seq<char>, Seq<char>>::empty());
        },
    }
}

/// The changes of a revision and its commit data read back.
pub open spec fn revision_readable(r: RevisionInput) -> bool {
    &&& commit_readable(r.commit)
    &&& forall|j: int| 0 <= j < r.changes@.len() ==> change_readable(#[trigger] r.changes@[j])
}

/// The revision a loader reads for a revision of a dump: its commit data, and after
/// revision 0 the nodes of its changes.
pub open spec fn loaded_revision(r: RevisionInput) -> RevSpec {
    RevSpec {
        nodes: if r.rev > 0 { changes_nodes(r.rev, r.changes@) } else { Seq::empty() },
        ..commit_revision(r.rev, r.commit)
    }
}

/// What a revision adds to a dump opens the revision as a loader reads it, after
/// delivering the one that was open.
pub proof fn lemma_read_revision_dump(d: Seq<u8>, pos: nat, r: RevisionInput, cur: Option<RevSpec>, done: Seq<RevSpec>)
    requires
        at(d, pos, revision_dump(r)),
        revision_readable(r),
        d.len() <= usize::MAX,
    ensures
        stream_from(d, pos, cur, done) == stream_from(
            d,
            pos + revision_dump(r).len(),
            Some(loaded_revision(r)),
            deliver(done, cur),
        ),
{
    let props = revision_props(r.commit);
    let rec = revision_record(r.rev, props);
    let ch: Seq<u8> = if r.rev > 0 { changes_record(r.rev, r.changes@) } else { Seq::empty() };
    assert(revision_dump(r) == rec + ch);
    lemma_at_split(d, pos, rec, ch);
    lemma_read_commit(r.rev, r.commit);
    lemma_read_revision_record(d, pos, r.rev, props, cur, done);
    let cr = commit_revision(r.rev, r.commit);
    if r.rev > 0 {
        lemma_read_changes(d, pos + rec.len(), r.rev, r.changes@, Some(cr), deliver(done, cur));
        assert(cr.nodes + changes_nodes(r.rev, r.changes@) =~= changes_nodes(r.rev, r.changes@));
    } else {
        assert(ch.len() == 0);
    }
}

/// The revisions delivered and the one open after reading the revisions `rs`,
/// having started with `cur` open and `done` delivered.
pub open spec fn read_state(rs: Seq<RevisionInput>, cur: Option<RevSpec>, done: Seq<RevSpec>) -> (Option<RevSpec>, Seq<RevSpec>)
    decreases rs.len(),
{
    if rs.len() == 0 {
        (cur, done)
    } else {
        let st = read_state(rs.drop_last(), cur, done);
        (Some(loaded_revision(rs.last())), deliver(st.1, st.0))
    }
}

/// What revisions add to a dump reads back as those revisions, in order.
pub proof fn lemma_read_revisions(d: Seq<u8>, pos: nat, rs: Seq<RevisionInput>, cur: Option<RevSpec>, done: Seq<RevSpec>)
    requires
        at(d, pos, revisions_dump(rs)),
        forall|i: int| 0 <= i < rs.len() ==> revision_readable(#[trigger] rs[i]),
        d.len() <= usize::MAX,
    ensures
        stream_from(d, pos, cur, done) == stream_from(
            d,
            pos + revisions_dump(rs).len(),
            read_state(rs, cur, done).0,
            read_state(rs, cur, done).1,
        ),
    decreases rs.len(),
{
    if rs.len() > 0 {
        let front = rs.drop_last();
        lemma_at_split(d, pos, revisions_dump(front), revision_dump(rs.last()));
        assert forall|i: int| 0 <= i < front.len() implies revision_readable(#[trigger] front[i]) by {
            assert(front[i] == rs[i]);
        }
        lemma_read_revisions(d, pos, front, cur, done);
        let st = read_state(front, cur, done);
        assert(revision_readable(rs[rs.len() - 1]));
        lemma_read_revision_dump(d, pos + revisions_dump(front).len(), rs.last(), st.0, st.1);
    }
}

/// Starting with nothing open and nothing delivered, reading revisions leaves the
/// last open and the others delivered.
pub proof fn lemma_read_state_fresh(rs: Seq<RevisionInput>)
    ensures
        rs.len() > 0 ==> read_state(rs, None, Seq::empty()).1 == rs.drop_last().map_values(
            |r: RevisionInput| loaded_revision(r),
        ),
        rs.len() == 0 ==> read_state(rs, None, Seq::empty()).1 == Seq::<RevSpec>::empty(),
        read_state(rs, None, Seq::empty()).0 == (if rs.len() == 0 { None } else { Some(loaded_revision(rs.last())) }),
        deliver(read_state(rs, None, Seq::empty()).1, read_state(rs, None, Seq::empty()).0)
            == rs.map_values(|r: RevisionInput| loaded_revision(r)),
    decreases rs.len(),
{
    if rs.len() == 0 {
        assert(rs.map_values(|r: RevisionInput| loaded_revision(r)) =~= Seq::<RevSpec>::empty());
    } else {
        let front = rs.drop_last();
        lemma_read_state_fresh(front);
        assert(deliver(read_state(front, None, Seq::empty()).1, read_state(front, None, Seq::empty()).0)
            =~= rs.drop_last().map_values(|r: RevisionInput| loaded_revision(r)));
        assert(rs.drop_last().map_values(|r: RevisionInput| loaded_revision(r)).push(loaded_revision(rs.last()))
            =~= rs.map_values(|r: RevisionInput| loaded_revision(r)));
    }
}

/// What the dump endpoint writes, the load endpoint reads back: the dump of the
/// revisions `rs` (with the repository UUID unless it is incremental), read with the
/// loader's reader, gives each revision with its number, its author (`unknown` where
/// it has none), log message and date, and the files, directories and deletions of
/// its changes, in order, and no error. Author, log message and date must each be
/// one line not ending with a carriage return, and paths and the UUID one line with
/// no whitespace at either end: the reader takes property values line by line and
/// trims header values.
pub proof fn law_dump_reads_back(params: DumpParams, uuid: Seq<char>, rs: Seq<RevisionInput>)
    requires
        !params.incremental ==> clean(uuid),
        forall|i: int| 0 <= i < rs.len() ==> revision_readable(#[trigger] rs[i]),
        dump_header(params.format_version, if params.incremental { None } else { Some(uuid) }).len()
            + revisions_dump(rs).len() <= usize::MAX,
    ensures
        stream_from(
            dump_header(params.format_version, if params.incremental { None } else { Some(uuid) }) + revisions_dump(rs),
            0,
            None,
            Seq::empty(),
        ) == (rs.map_values(|r: RevisionInput| loaded_revision(r)), None::<Seq<char>>),
{
    let h = dump_header(params.format_version, if params.incremental { None } else { Some(uuid) });
    let body = revisions_dump(rs);
    let d = h + body;
    assert(d.subrange(0, d.len() as int) =~= d);
    lemma_at_split(d, 0, h, body);
    lemma_read_dump_header(d, 0, params.format_version, if params.incremental { None } else { Some(uuid) }, None, Seq::empty());
    lemma_read_revisions(d, h.len(), rs, None, Seq::empty());
    let st = read_state(rs, None, Seq::empty());
    assert(read_line(d, d.len()) == LineRead::Eof);
    assert(stream_from(d, d.len(), st.0, st.1) == (deliver(st.1, st.0), None::<Seq<char>>));
    lemma_read_state_fresh(rs);
}

} // verus!
