//! Character-sequence toolkit shared by the parsers of the library.
//!
//! Text is modelled as `Seq<char>`; executable helpers work on `Vec<char>`
//! and `String` and are proved against the spec functions below.
use vstd::prelude::*;

verus! {

// ───────────────────────────── specs ─────────────────────────────

/// Unicode `White_Space`, the set that `char::is_whitespace` tests.
pub open spec fn is_ws(c: char) -> bool {
    ||| c == '\t' || c == '\n' || c == '\u{0B}' || c == '\u{0C}' || c == '\r' || c == ' '
    ||| c == '\u{85}' || c == '\u{A0}' || c == '\u{1680}'
    ||| ('\u{2000}' <= c && c <= '\u{200A}')
    ||| c == '\u{2028}' || c == '\u{2029}' || c == '\u{202F}' || c == '\u{205F}' || c == '\u{3000}'
}

/// `s` with its leading whitespace removed (`str::trim_start`).
pub open spec fn trim_start(s: Seq<char>) -> Seq<char>
    decreases s.len(),
{
    if s.len() > 0 && is_ws(s[0]) {
        trim_start(s.drop_first())
    } else {
        s
    }
}

/// `s` with its trailing whitespace removed (`str::trim_end`).
pub open spec fn trim_end(s: Seq<char>) -> Seq<char>
    decreases s.len(),
{
    if s.len() > 0 && is_ws(s.last()) {
        trim_end(s.drop_last())
    } else {
        s
    }
}

/// `s` with whitespace removed at both ends (`str::trim`).
pub open spec fn trim(s: Seq<char>) -> Seq<char> {
    trim_end(trim_start(s))
}

/// `s` begins with `p`.
pub open spec fn starts_with(s: Seq<char>, p: Seq<char>) -> bool {
    p.len() <= s.len() && s.subrange(0, p.len() as int) == p
}

/// `s` ends with `p`.
pub open spec fn ends_with(s: Seq<char>, p: Seq<char>) -> bool {
    p.len() <= s.len() && s.subrange(s.len() - p.len(), s.len() as int) == p
}

/// `p` occurs in `s` at position `i`.
pub open spec fn occurs_at(s: Seq<char>, p: Seq<char>, i: int) -> bool {
    0 <= i && i + p.len() <= s.len() && s.subrange(i, i + p.len()) == p
}

/// The first position at or after `i` where `p` occurs in `s`.
pub open spec fn find_from(s: Seq<char>, p: Seq<char>, i: int) -> Option<int>
    decreases s.len() + 1 - i,
{
    if i < 0 || i + p.len() > s.len() {
        None
    } else if occurs_at(s, p, i) {
        Some(i)
    } else {
        find_from(s, p, i + 1)
    }
}

/// The first position where `p` occurs in `s` (`str::find`).
pub open spec fn find(s: Seq<char>, p: Seq<char>) -> Option<int> {
    find_from(s, p, 0)
}

/// `p` occurs somewhere in `s` (`str::contains`).
pub open spec fn contains(s: Seq<char>, p: Seq<char>) -> bool {
    find(s, p) is Some
}

/// The pieces of `s` between the occurrences of `sep` (`str::split` with a char).
pub open spec fn split(s: Seq<char>, sep: char) -> Seq<Seq<char>>
    decreases s.len(),
{
    match find(s, seq![sep]) {
        None => seq![s],
        Some(i) => if 0 <= i < s.len() {
            seq![s.subrange(0, i)] + split(s.subrange(i + 1, s.len() as int), sep)
        } else {
            seq![s]
        },
    }
}

/// The part of `s` before and after the first `p` (`str::split_once`).
pub open spec fn split_once(s: Seq<char>, p: Seq<char>) -> Option<(Seq<char>, Seq<char>)> {
    match find(s, p) {
        None => None,
        Some(i) => Some((s.subrange(0, i), s.subrange(i + p.len(), s.len() as int))),
    }
}

/// `c` is an ASCII decimal digit.
pub open spec fn is_digit(c: char) -> bool {
    '0' <= c && c <= '9'
}

/// Every character of `s` is a decimal digit.
pub open spec fn all_digits(s: Seq<char>) -> bool {
    forall|i: int| 0 <= i < s.len() ==> #[trigger] is_digit(s[i])
}

/// The value of a string of decimal digits.
pub open spec fn digits_value(s: Seq<char>) -> nat
    decreases s.len(),
{
    if s.len() == 0 {
        0
    } else {
        digits_value(s.drop_last()) * 10 + ((s.last() as nat) - ('0' as nat)) as nat
    }
}

/// The digits that `str::parse` reads for an unsigned integer: a leading `+` is skipped.
pub open spec fn unsigned_digits(s: Seq<char>) -> Seq<char> {
    if s.len() > 0 && s[0] == '+' {
        s.drop_first()
    } else {
        s
    }
}

/// The value that `str::parse::<uN>` gives for `s`, where `max` is `uN::MAX`.
pub open spec fn parse_unsigned(s: Seq<char>, max: nat) -> Option<nat> {
    let d = unsigned_digits(s);
    if d.len() > 0 && all_digits(d) && digits_value(d) <= max {
        Some(digits_value(d))
    } else {
        None
    }
}

/// `str::parse::<u64>`.
pub open spec fn parse_u64(s: Seq<char>) -> Option<u64> {
    match parse_unsigned(s, u64::MAX as nat) {
        Some(v) => Some(v as u64),
        None => None,
    }
}

/// `str::parse::<u32>`.
pub open spec fn parse_u32(s: Seq<char>) -> Option<u32> {
    match parse_unsigned(s, u32::MAX as nat) {
        Some(v) => Some(v as u32),
        None => None,
    }
}

/// The decimal digit for `d < 10`.
pub open spec fn digit_char(d: nat) -> char {
    if d == 0 { '0' } else if d == 1 { '1' } else if d == 2 { '2' } else if d == 3 { '3' }
    else if d == 4 { '4' } else if d == 5 { '5' } else if d == 6 { '6' } else if d == 7 { '7' }
    else if d == 8 { '8' } else { '9' }
}

/// The decimal representation of `n`, as `to_string` prints it.
pub open spec fn decimal(n: nat) -> Seq<char>
    decreases n,
{
    if n < 10 {
        seq![digit_char(n)]
    } else {
        decimal(n / 10).push(digit_char(n % 10))
    }
}

/// The decimal representation of a signed value, with `-` for negatives.
pub open spec fn decimal_signed(n: int) -> Seq<char> {
    if n < 0 {
        seq!['-'] + decimal((-n) as nat)
    } else {
        decimal(n as nat)
    }
}

/// Every character of `s` is ASCII.
pub open spec fn ascii_only(s: Seq<char>) -> bool {
    forall|i: int| 0 <= i < s.len() ==> (#[trigger] s[i] as u32) < 128
}

/// ASCII lower-casing of one character.
pub open spec fn ascii_lower(c: char) -> char {
    if 'A' <= c && c <= 'Z' {
        (((c as u32) + 32) as u8) as char
    } else {
        c
    }
}

/// `str::eq_ignore_ascii_case`.
pub open spec fn eq_ignore_ascii_case(a: Seq<char>, b: Seq<char>) -> bool {
    a.len() == b.len() && forall|i: int| 0 <= i < a.len() ==> ascii_lower(#[trigger] a[i])
        == ascii_lower(b[i])
}

// ──────────────────────────── lemmas ─────────────────────────────

proof fn lemma_trim_start_step(s: Seq<char>, i: int)
    requires
        0 <= i < s.len(),
        is_ws(s[i]),
    ensures
        trim_start(s.subrange(i, s.len() as int)) == trim_start(s.subrange(i + 1, s.len() as int)),
{
    assert(s.subrange(i, s.len() as int).drop_first() =~= s.subrange(i + 1, s.len() as int));
}

proof fn lemma_trim_end_step(s: Seq<char>, j: int)
    requires
        0 < j <= s.len(),
        is_ws(s[j - 1]),
    ensures
        trim_end(s.subrange(0, j)) == trim_end(s.subrange(0, j - 1)),
{
    assert(s.subrange(0, j).drop_last() =~= s.subrange(0, j - 1));
}

proof fn lemma_digits_value_mono(s: Seq<char>, k: int)
    requires
        0 <= k <= s.len(),
    ensures
        digits_value(s.subrange(0, k)) <= digits_value(s),
    decreases s.len() - k,
{
    if k < s.len() {
        let t = s.subrange(0, k + 1);
        assert(t.drop_last() =~= s.subrange(0, k));
        lemma_digits_value_mono(s, k + 1);
        assert(s.subrange(0, s.len() as int) =~= s);
    } else {
        assert(s.subrange(0, k) =~= s);
    }
}

// ────────────────────────── exec helpers ─────────────────────────

/// Whether `c` is whitespace (`char::is_whitespace`).
pub fn char_is_ws(c: char) -> (b: bool)
    ensures
        b == is_ws(c),
{
    c == '\t' || c == '\n' || c == '\u{0B}' || c == '\u{0C}' || c == '\r' || c == ' ' || c
        == '\u{85}' || c == '\u{A0}' || c == '\u{1680}' || ('\u{2000}' <= c && c <= '\u{200A}')
        || c == '\u{2028}' || c == '\u{2029}' || c == '\u{202F}' || c == '\u{205F}' || c
        == '\u{3000}'
}

/// The characters of a string slice, in order.
pub fn chars_of(s: &str) -> (v: Vec<char>)
    ensures
        v@ == s@,
{
    let mut v: Vec<char> = Vec::new();
    for c in it: s.chars()
        invariant
            v@ == it.seq().take(it.index() as int),
    {
        v.push(c);
    }
    v
}

/// Appends one character to a string (`String::push`).
#[verifier::external_body]
pub(crate) fn string_push(s: &mut String, c: char)
    ensures
        final(s)@ == old(s)@.push(c),
{
    s.push(c);
}

/// Appends the characters `v[from..to]` to `s`.
pub fn push_chars(s: &mut String, v: &Vec<char>, from: usize, to: usize)
    requires
        from <= to <= v.len(),
    ensures
        final(s)@ == old(s)@ + v@.subrange(from as int, to as int),
{
    let mut i = from;
    while i < to
        invariant
            from <= i <= to <= v.len(),
            s@ == old(s)@ + v@.subrange(from as int, i as int),
        decreases to - i,
    {
        string_push(s, v[i]);
        i = i + 1;
        assert(v@.subrange(from as int, i as int) =~= v@.subrange(from as int, (i - 1) as int).push(
            v@[i - 1],
        ));
    }
}

/// A string holding `v[from..to]`.
pub fn string_of_range(v: &Vec<char>, from: usize, to: usize) -> (s: String)
    requires
        from <= to <= v.len(),
    ensures
        s@ == v@.subrange(from as int, to as int),
{
    let mut s = String::new();
    push_chars(&mut s, v, from, to);
    s
}

/// A string holding the characters of `v`.
pub fn string_of(v: &Vec<char>) -> (s: String)
    ensures
        s@ == v@,
{
    let s = string_of_range(v, 0, v.len());
    assert(v@.subrange(0, v@.len() as int) =~= v@);
    s
}

/// A vector holding `v[from..to]`.
pub fn sub(v: &Vec<char>, from: usize, to: usize) -> (r: Vec<char>)
    requires
        from <= to <= v.len(),
    ensures
        r@ == v@.subrange(from as int, to as int),
{
    let mut r: Vec<char> = Vec::new();
    let mut i = from;
    while i < to
        invariant
            from <= i <= to <= v.len(),
            r@ == v@.subrange(from as int, i as int),
        decreases to - i,
    {
        r.push(v[i]);
        i = i + 1;
        assert(r@ =~= v@.subrange(from as int, i as int));
    }
    r
}

/// The bounds `(a, b)` such that `v[a..b]` is `trim(v[from..to])`.
pub fn trim_bounds(v: &Vec<char>, from: usize, to: usize) -> (r: (usize, usize))
    requires
        from <= to <= v.len(),
    ensures
        from <= r.0 <= r.1 <= to,
        v@.subrange(r.0 as int, r.1 as int) == trim(v@.subrange(from as int, to as int)),
{
    let ghost s = v@.subrange(from as int, to as int);
    let mut a = from;
    while a < to && char_is_ws(v[a])
        invariant
            from <= a <= to <= v.len(),
            s == v@.subrange(from as int, to as int),
            trim_start(s) == trim_start(v@.subrange(a as int, to as int)),
        decreases to - a,
    {
        proof {
            lemma_trim_start_step(v@.subrange(0, to as int), a as int);
            assert(v@.subrange(0, to as int).subrange(a as int, to as int) =~= v@.subrange(
                a as int,
                to as int,
            ));
            assert(v@.subrange(0, to as int).subrange(a + 1, to as int) =~= v@.subrange(
                a + 1,
                to as int,
            ));
        }
        a = a + 1;
    }
    assert(trim_start(v@.subrange(a as int, to as int)) == v@.subrange(a as int, to as int));
    let ghost t = v@.subrange(a as int, to as int);
    let mut b = to;
    while b > a && char_is_ws(v[b - 1])
        invariant
            from <= a <= b <= to <= v.len(),
            t == v@.subrange(a as int, to as int),
            trim_end(t) == trim_end(v@.subrange(a as int, b as int)),
        decreases b - a,
    {
        proof {
            let u = v@.subrange(a as int, to as int);
            lemma_trim_end_step(u, b - a);
            assert(u.subrange(0, b - a) =~= v@.subrange(a as int, b as int));
            assert(u.subrange(0, b - a - 1) =~= v@.subrange(a as int, b - 1));
        }
        b = b - 1;
    }
    (a, b)
}

/// `trim(v[from..to])` as a string.
pub fn trimmed_string(v: &Vec<char>, from: usize, to: usize) -> (s: String)
    requires
        from <= to <= v.len(),
    ensures
        s@ == trim(v@.subrange(from as int, to as int)),
{
    let (a, b) = trim_bounds(v, from, to);
    string_of_range(v, a, b)
}

/// Whether `p` occurs in `v` at position `i`.
pub fn occurs_at_exec(v: &Vec<char>, p: &Vec<char>, i: usize) -> (b: bool)
    ensures
        b == occurs_at(v@, p@, i as int),
{
    if i > v.len() || p.len() > v.len() - i {
        return false;
    }
    let mut k: usize = 0;
    while k < p.len()
        invariant
            i + p.len() <= v.len(),
            k <= p.len(),
            forall|j: int| 0 <= j < k ==> v@[i + j] == p@[j],
        decreases p.len() - k,
    {
        if v[i + k] != p[k] {
            assert(v@.subrange(i as int, i + p.len())[k as int] != p@[k as int]);
            return false;
        }
        k = k + 1;
    }
    assert(v@.subrange(i as int, i + p.len()) =~= p@);
    true
}

/// The first position at or after `from`, and before `to - p.len()`, where `p` occurs
/// in `v[..to]`.
pub fn find_in(v: &Vec<char>, p: &Vec<char>, from: usize, to: usize) -> (r: Option<usize>)
    requires
        from <= to <= v.len(),
    ensures
        match r {
            Some(i) => i as int == find_from(v@.subrange(0, to as int), p@, from as int).unwrap()
                && find_from(v@.subrange(0, to as int), p@, from as int) is Some,
            None => find_from(v@.subrange(0, to as int), p@, from as int) is None,
        },
{
    let ghost s = v@.subrange(0, to as int);
    let mut i = from;
    while p.len() <= to - i
        invariant
            from <= i,
            to <= v.len(),
            s == v@.subrange(0, to as int),
            i <= to,
            find_from(s, p@, from as int) == find_from(s, p@, i as int),
        decreases to - i,
    {
        let b = occurs_at_exec(v, p, i);
        assert(b == occurs_at(s, p@, i as int)) by {
            if i + p@.len() <= to {
                assert(s.subrange(i as int, i + p@.len()) =~= v@.subrange(i as int, i + p@.len()));
            }
        }
        if b {
            return Some(i);
        }
        if i == to {
            assert(find_from(s, p@, i + 1) is None);
            return None;
        }
        i = i + 1;
    }
    assert(find_from(s, p@, i as int) is None);
    None
}

/// The first position where `p` occurs in `v[from..to]`, counted from the start of `v`.
/// Equivalently, where `find` of `p` in the slice `v[from..to]` is `Some(k)`, this is
/// `from + k`.
pub fn find_sub(v: &Vec<char>, p: &Vec<char>, from: usize, to: usize) -> (r: Option<usize>)
    requires
        from <= to <= v.len(),
    ensures
        match find(v@.subrange(from as int, to as int), p@) {
            Some(k) => r is Some && r.unwrap() == from + k,
            None => r is None,
        },
        r matches Some(i) ==> from <= i && i + p@.len() <= to,
{
    let r = find_in(v, p, from, to);
    proof {
        lemma_find_from_sound(v@.subrange(from as int, to as int), p@, 0);
        lemma_find_from_shift(v@.subrange(0, to as int), p@, from as int, 0);
        assert(v@.subrange(0, to as int).subrange(from as int, to as int) =~= v@.subrange(
            from as int,
            to as int,
        ));
    }
    r
}

/// Searching from `from + k` in `s` is searching from `k` in `s[from..]`, shifted by `from`.
pub proof fn lemma_find_from_shift(s: Seq<char>, p: Seq<char>, from: int, k: int)
    requires
        0 <= from <= s.len(),
        0 <= k,
    ensures
        match find_from(s.subrange(from, s.len() as int), p, k) {
            Some(j) => find_from(s, p, from + k) == Some(from + j),
            None => find_from(s, p, from + k) is None,
        },
    decreases s.len() + 1 - from - k,
{
    let t = s.subrange(from, s.len() as int);
    if from + k + p.len() > s.len() {
    } else {
        assert(t.subrange(k, k + p.len()) =~= s.subrange(from + k, from + k + p.len()));
        if occurs_at(s, p, from + k) {
        } else {
            lemma_find_from_shift(s, p, from, k + 1);
        }
    }
}

/// A found position is a real occurrence, and nothing earlier from `i` matches.
pub proof fn lemma_find_from_sound(s: Seq<char>, p: Seq<char>, i: int)
    requires
        0 <= i,
    ensures
        find_from(s, p, i) matches Some(j) ==> i <= j && occurs_at(s, p, j) && forall|m: int|
            i <= m < j ==> !occurs_at(s, p, m),
        find_from(s, p, i) is None ==> forall|m: int| i <= m ==> !occurs_at(s, p, m),
    decreases s.len() + 1 - i,
{
    if i + p.len() > s.len() {
    } else if occurs_at(s, p, i) {
    } else {
        lemma_find_from_sound(s, p, i + 1);
    }
}

/// Whether `v[from..to]` begins with `p`.
pub fn starts_with_at(v: &Vec<char>, p: &Vec<char>, from: usize, to: usize) -> (b: bool)
    requires
        from <= to <= v.len(),
    ensures
        b == starts_with(v@.subrange(from as int, to as int), p@),
{
    if p.len() > to - from {
        return false;
    }
    let b = occurs_at_exec(v, p, from);
    assert(v@.subrange(from as int, to as int).subrange(0, p@.len() as int) =~= v@.subrange(
        from as int,
        from + p@.len(),
    ));
    b
}

/// Whether `v[from..to]` ends with `p`.
pub fn ends_with_at(v: &Vec<char>, p: &Vec<char>, from: usize, to: usize) -> (b: bool)
    requires
        from <= to <= v.len(),
    ensures
        b == ends_with(v@.subrange(from as int, to as int), p@),
{
    if p.len() > to - from {
        return false;
    }
    let b = occurs_at_exec(v, p, to - p.len());
    assert(v@.subrange(from as int, to as int).subrange(
        (to - from) - p@.len(),
        (to - from) as int,
    ) =~= v@.subrange(to - p@.len(), to as int));
    b
}

/// Whether the string `s` begins with the string `p` (`str::starts_with`).
pub fn str_starts_with(s: &str, p: &str) -> (b: bool)
    ensures
        b == starts_with(s@, p@),
{
    let v = chars_of(s);
    let q = chars_of(p);
    let b = starts_with_at(&v, &q, 0, v.len());
    assert(v@.subrange(0, v@.len() as int) =~= v@);
    b
}

/// Whether `p` occurs in `s` (`str::contains`).
pub fn str_contains(s: &str, p: &str) -> (b: bool)
    ensures
        b == contains(s@, p@),
{
    let v = chars_of(s);
    let q = chars_of(p);
    let r = find_sub(&v, &q, 0, v.len());
    assert(v@.subrange(0, v@.len() as int) =~= v@);
    r.is_some()
}

/// Whether two character vectors are equal.
pub fn chars_eq(a: &Vec<char>, b: &Vec<char>) -> (r: bool)
    ensures
        r == (a@ == b@),
{
    if a.len() != b.len() {
        return false;
    }
    let mut i: usize = 0;
    while i < a.len()
        invariant
            a.len() == b.len(),
            i <= a.len(),
            forall|j: int| 0 <= j < i ==> a@[j] == b@[j],
        decreases a.len() - i,
    {
        if a[i] != b[i] {
            return false;
        }
        i = i + 1;
    }
    assert(a@ =~= b@);
    true
}

/// Whether `v[from..to]` equals `p`.
pub fn range_eq(v: &Vec<char>, from: usize, to: usize, p: &Vec<char>) -> (r: bool)
    requires
        from <= to <= v.len(),
    ensures
        r == (v@.subrange(from as int, to as int) == p@),
{
    if to - from != p.len() {
        return false;
    }
    let b = occurs_at_exec(v, p, from);
    b
}

/// Whether two string slices are equal.
pub fn str_eq(a: &str, b: &str) -> (r: bool)
    ensures
        r == (a@ == b@),
{
    let x = chars_of(a);
    let y = chars_of(b);
    chars_eq(&x, &y)
}

/// The value of the digits `v[from..to]`, if it is at most `max`.
fn digits_upto(v: &Vec<char>, from: usize, to: usize, max: u64) -> (r: Option<u64>)
    requires
        from <= to <= v.len(),
        9 <= max,
        all_digits(v@.subrange(from as int, to as int)),
    ensures
        match r {
            Some(x) => x as nat == digits_value(v@.subrange(from as int, to as int)) && x <= max,
            None => digits_value(v@.subrange(from as int, to as int)) > max,
        },
{
    let ghost d = v@.subrange(from as int, to as int);
    let mut acc: u64 = 0;
    let mut i = from;
    while i < to
        invariant
            from <= i <= to <= v.len(),
            d == v@.subrange(from as int, to as int),
            all_digits(d),
            acc as nat == digits_value(v@.subrange(from as int, i as int)),
            acc <= max,
            9 <= max,
        decreases to - i,
    {
        let c = v[i];
        assert(d[i - from] == v@[i as int]);
        assert(is_digit(d[i - from]));
        let dig = (c as u32 - '0' as u32) as u64;
        proof {
            assert(v@.subrange(from as int, i + 1).drop_last() =~= v@.subrange(
                from as int,
                i as int,
            ));
            assert(d.subrange(0, i + 1 - from) =~= v@.subrange(from as int, i + 1));
        }
        if acc > (max - dig) / 10 {
            proof {
                assert(digits_value(v@.subrange(from as int, i + 1)) == acc * 10 + dig);
                assert(acc * 10 + dig > max) by (nonlinear_arith)
                    requires
                        acc > (max - dig) / 10,
                        dig <= max || dig > max,
                ;
                lemma_digits_value_mono(d, i + 1 - from);
            }
            return None;
        }
        proof {
            assert(acc * 10 + dig <= max) by (nonlinear_arith)
                requires
                    acc <= (max - dig) / 10,
                    dig <= 9,
                    dig <= max,
            ;
        }
        acc = acc * 10 + dig;
        i = i + 1;
    }
    Some(acc)
}

/// `str::parse::<u64>` on `v[from..to]`, as an `Option`.
pub fn parse_u64_range(v: &Vec<char>, from: usize, to: usize) -> (r: Option<u64>)
    requires
        from <= to <= v.len(),
    ensures
        r == parse_u64(v@.subrange(from as int, to as int)),
{
    let ghost s = v@.subrange(from as int, to as int);
    let mut a = from;
    if a < to && v[a] == '+' {
        a = a + 1;
    }
    assert(unsigned_digits(s) =~= v@.subrange(a as int, to as int));
    if a == to {
        assert(unsigned_digits(s).len() == 0);
        return None;
    }
    let mut i = a;
    while i < to
        invariant
            a <= i <= to <= v.len(),
            s == v@.subrange(from as int, to as int),
            unsigned_digits(s) == v@.subrange(a as int, to as int),
            forall|j: int| a <= j < i ==> is_digit(#[trigger] v@[j]),
        decreases to - i,
    {
        if !('0' <= v[i] && v[i] <= '9') {
            assert(!is_digit(unsigned_digits(s)[i - a]));
            assert(!all_digits(unsigned_digits(s)));
            return None;
        }
        i = i + 1;
    }
    assert(all_digits(v@.subrange(a as int, to as int))) by {
        assert forall|j: int| 0 <= j < to - a implies is_digit(
            #[trigger] v@.subrange(a as int, to as int)[j],
        ) by {
            assert(is_digit(v@[a + j]));
        }
    }
    let r = digits_upto(v, a, to, u64::MAX);
    proof {
        let d = unsigned_digits(s);
        assert(d =~= v@.subrange(a as int, to as int));
        assert(d.len() > 0);
    }
    match r {
        Some(x) => {
            assert(parse_unsigned(s, u64::MAX as nat) == Some(x as nat));
            Some(x)
        },
        None => {
            assert(parse_unsigned(s, u64::MAX as nat) is None);
            None
        },
    }
}

/// `str::parse::<u64>` on a string slice.
pub fn parse_u64_str(s: &str) -> (r: Option<u64>)
    ensures
        r == parse_u64(s@),
{
    let v = chars_of(s);
    assert(v@.subrange(0, v@.len() as int) =~= v@);
    parse_u64_range(&v, 0, v.len())
}

/// `str::parse::<u32>` on `v[from..to]`.
pub fn parse_u32_range(v: &Vec<char>, from: usize, to: usize) -> (r: Option<u32>)
    requires
        from <= to <= v.len(),
    ensures
        r == parse_u32(v@.subrange(from as int, to as int)),
{
    match parse_u64_range(v, from, to) {
        Some(x) => {
            if x <= u32::MAX as u64 {
                Some(x as u32)
            } else {
                None
            }
        },
        None => {
            None
        },
    }
}

/// The character of a decimal digit.
pub fn digit_to_char(d: u64) -> (c: char)
    requires
        d < 10,
    ensures
        c == digit_char(d as nat),
{
    if d == 0 { '0' } else if d == 1 { '1' } else if d == 2 { '2' } else if d == 3 { '3' }
    else if d == 4 { '4' } else if d == 5 { '5' } else if d == 6 { '6' } else if d == 7 { '7' }
    else if d == 8 { '8' } else { '9' }
}

/// The decimal representation of `n`.
pub fn u64_to_string(n: u64) -> (s: String)
    ensures
        s@ == decimal(n as nat),
    decreases n,
{
    if n < 10 {
        let mut s = String::new();
        string_push(&mut s, digit_to_char(n));
        assert(s@ =~= seq![digit_char(n as nat)]);
        s
    } else {
        let mut s = u64_to_string(n / 10);
        string_push(&mut s, digit_to_char(n % 10));
        s
    }
}

/// The decimal representation of a signed value.
pub fn i64_to_string(n: i64) -> (s: String)
    ensures
        s@ == decimal_signed(n as int),
{
    if n < 0 {
        let m: u64 = if n == i64::MIN {
            9223372036854775808u64
        } else {
            (-n) as u64
        };
        let mut s = String::new();
        string_push(&mut s, '-');
        let t = u64_to_string(m);
        s.append(t.as_str());
        s
    } else {
        u64_to_string(n as u64)
    }
}

/// `a` followed by `b`.
pub fn concat2(a: &str, b: &str) -> (s: String)
    ensures
        s@ == a@ + b@,
{
    let mut s = String::from_str(a);
    s.append(b);
    s
}

/// `a`, `b` and `c` one after the other.
pub fn concat3(a: &str, b: &str, c: &str) -> (s: String)
    ensures
        s@ == a@ + b@ + c@,
{
    let mut s = String::from_str(a);
    s.append(b);
    s.append(c);
    s
}

/// A copy of a string slice.
pub fn to_owned(a: &str) -> (s: String)
    ensures
        s@ == a@,
{
    String::from_str(a)
}

/// Whether two strings are equal, ignoring ASCII case.
pub fn chars_eq_ignore_ascii_case(a: &Vec<char>, from: usize, to: usize, b: &Vec<char>) -> (r: bool)
    requires
        from <= to <= a.len(),
    ensures
        r == eq_ignore_ascii_case(a@.subrange(from as int, to as int), b@),
{
    let ghost s = a@.subrange(from as int, to as int);
    if to - from != b.len() {
        return false;
    }
    let mut i: usize = 0;
    while i < b.len()
        invariant
            to - from == b.len(),
            from <= to <= a.len(),
            s == a@.subrange(from as int, to as int),
            i <= b.len(),
            forall|j: int| 0 <= j < i ==> ascii_lower(#[trigger] s[j]) == ascii_lower(b@[j]),
        decreases b.len() - i,
    {
        let x = a[from + i];
        let y = b[i];
        let lx = if 'A' <= x && x <= 'Z' { (((x as u32) + 32) as u8) as char } else { x };
        let ly = if 'A' <= y && y <= 'Z' { (((y as u32) + 32) as u8) as char } else { y };
        assert(lx == ascii_lower(x));
        assert(ly == ascii_lower(y));
        assert(s[i as int] == x);
        if lx != ly {
            return false;
        }
        i = i + 1;
    }
    assert forall|j: int| 0 <= j < s.len() implies ascii_lower(#[trigger] s[j]) == ascii_lower(
        b@[j],
    ) by {}
    true
}

/// The piece of `v[from..to]` that starts at `from` and ends before the first `sep`.
/// Returns its end and whether a separator follows it.
pub fn next_piece(v: &Vec<char>, from: usize, to: usize, sep: char) -> (r: (usize, bool))
    requires
        from <= to <= v.len(),
    ensures
        from <= r.0 <= to,
        r.1 ==> r.0 < to && split(v@.subrange(from as int, to as int), sep) == seq![v@.subrange(from as int, r.0 as int)]
            + split(v@.subrange(r.0 + 1, to as int), sep),
        !r.1 ==> r.0 == to && split(v@.subrange(from as int, to as int), sep) == seq![v@.subrange(from as int, to as int)],
{
    let ghost s = v@.subrange(from as int, to as int);
    let mut i = from;
    while i < to
        invariant
            from <= i <= to <= v.len(),
            s == v@.subrange(from as int, to as int),
            forall|j: int| from <= j < i ==> v@[j] != sep,
        decreases to - i,
    {
        if v[i] == sep {
            proof {
                let k = i - from;
                assert(occurs_at(s, seq![sep], k)) by {
                    assert(s.subrange(k, k + 1) =~= seq![sep]);
                }
                assert forall|m: int| 0 <= m < k implies !occurs_at(s, seq![sep], m) by {
                    assert(s.subrange(m, m + 1)[0] == v@[from + m]);
                }
                lemma_find_first(s, seq![sep], k);
                assert(s.subrange(0, k) =~= v@.subrange(from as int, i as int));
                assert(s.subrange(k + 1, s.len() as int) =~= v@.subrange(i + 1, to as int));
            }
            return (i, true);
        }
        i = i + 1;
    }
    proof {
        assert forall|m: int| 0 <= m implies !occurs_at(s, seq![sep], m) by {
            if 0 <= m && m + 1 <= s.len() {
                assert(s.subrange(m, m + 1)[0] == v@[from + m]);
            }
        }
        lemma_find_none(s, seq![sep], 0);
    }
    (to, false)
}

/// If `p` occurs at `k` and nowhere before, `find` gives `k`.
pub proof fn lemma_find_first(s: Seq<char>, p: Seq<char>, k: int)
    requires
        occurs_at(s, p, k),
        forall|m: int| 0 <= m < k ==> !occurs_at(s, p, m),
    ensures
        find(s, p) == Some(k),
{
    lemma_find_first_from(s, p, k, 0);
}

proof fn lemma_find_first_from(s: Seq<char>, p: Seq<char>, k: int, i: int)
    requires
        occurs_at(s, p, k),
        0 <= i <= k,
        forall|m: int| i <= m < k ==> !occurs_at(s, p, m),
    ensures
        find_from(s, p, i) == Some(k),
    decreases k - i,
{
    if i < k {
        lemma_find_first_from(s, p, k, i + 1);
    }
}

/// If `p` occurs nowhere from `i` on, `find_from` finds nothing.
pub proof fn lemma_find_none(s: Seq<char>, p: Seq<char>, i: int)
    requires
        0 <= i,
        forall|m: int| i <= m ==> !occurs_at(s, p, m),
    ensures
        find_from(s, p, i) is None,
    decreases s.len() + 1 - i,
{
    if i + p.len() <= s.len() {
        lemma_find_none(s, p, i + 1);
    }
}

/// Encoding two texts one after the other gives the bytes of both.
pub proof fn lemma_encode_utf8_concat(a: Seq<char>, b: Seq<char>)
    ensures
        vstd::utf8::encode_utf8(a + b) == vstd::utf8::encode_utf8(a) + vstd::utf8::encode_utf8(b),
    decreases a.len(),
{
    if a.len() == 0 {
        assert(a + b =~= b);
        assert(vstd::utf8::encode_utf8(a) =~= Seq::<u8>::empty());
        assert(vstd::utf8::encode_utf8(a) + vstd::utf8::encode_utf8(b) =~= vstd::utf8::encode_utf8(b));
    } else {
        lemma_encode_utf8_concat(a.drop_first(), b);
        assert((a + b).drop_first() =~= a.drop_first() + b);
        assert((a + b)[0] == a[0]);
        assert(vstd::utf8::encode_utf8(a + b) =~= vstd::utf8::encode_utf8(a) + vstd::utf8::encode_utf8(b));
    }
}

/// `split` gives at least one piece.
pub proof fn lemma_split_nonempty(s: Seq<char>, sep: char)
    ensures
        split(s, sep).len() >= 1,
{
}

/// `ranges` are the bounds in `v` of the strings `pieces`.
pub open spec fn ranges_match(v: Seq<char>, ranges: Seq<(usize, usize)>, pieces: Seq<Seq<char>>) -> bool {
    &&& ranges.len() == pieces.len()
    &&& forall|i: int| 0 <= i < ranges.len() ==> #[trigger] ranges[i].0 <= ranges[i].1 <= v.len()
        && v.subrange(ranges[i].0 as int, ranges[i].1 as int) == pieces[i]
}

/// The ranges of the pieces of `v[from..to]` between occurrences of `sep`.
pub fn split_ranges(v: &Vec<char>, from: usize, to: usize, sep: char) -> (r: Vec<(usize, usize)>)
    requires
        from <= to <= v.len(),
    ensures
        r@.len() == split(v@.subrange(from as int, to as int), sep).len(),
        forall|i: int| 0 <= i < r@.len() ==> #[trigger] r@[i].0 <= r@[i].1 <= to && v@.subrange(
            r@[i].0 as int,
            r@[i].1 as int,
        ) == split(v@.subrange(from as int, to as int), sep)[i],
        ranges_match(v@, r@, split(v@.subrange(from as int, to as int), sep)),
{
    let mut r: Vec<(usize, usize)> = Vec::new();
    let mut start = from;
    let ghost whole = split(v@.subrange(from as int, to as int), sep);
    loop
        invariant
            from <= start <= to <= v.len(),
            whole == split(v@.subrange(from as int, to as int), sep),
            whole == r@.map_values(|p: (usize, usize)| v@.subrange(p.0 as int, p.1 as int)) + split(
                v@.subrange(start as int, to as int),
                sep,
            ),
            forall|i: int| 0 <= i < r@.len() ==> #[trigger] r@[i].0 <= r@[i].1 <= to,
        decreases to - start,
    {
        let (end, found) = next_piece(v, start, to, sep);
        let ghost before = r@;
        r.push((start, end));
        proof {
            let m = |p: (usize, usize)| v@.subrange(p.0 as int, p.1 as int);
            assert(r@.map_values(m) =~= before.map_values(m).push(v@.subrange(start as int, end as int)));
            assert forall|i: int| 0 <= i < r@.len() implies #[trigger] r@[i].0 <= r@[i].1 <= to by {
                if i < before.len() {
                    assert(r@[i] == before[i]);
                }
            }
        }
        if !found {
            proof {
                let m = |p: (usize, usize)| v@.subrange(p.0 as int, p.1 as int);
                assert(whole =~= r@.map_values(m));
                assert forall|i: int| 0 <= i < r@.len() implies #[trigger] r@[i].0 <= r@[i].1 <= to && v@.subrange(
                    r@[i].0 as int,
                    r@[i].1 as int,
                ) == whole[i] by {
                    assert(r@.map_values(m)[i] == m(r@[i]));
                }
            }
            return r;
        }
        proof {
            let m = |p: (usize, usize)| v@.subrange(p.0 as int, p.1 as int);
            assert(whole =~= r@.map_values(m) + split(v@.subrange(end + 1, to as int), sep));
        }
        start = end + 1;
    }
}

/// `Path::join` on Unix paths: an absolute `name` replaces `base`; otherwise `name` is
/// appended after a `/` unless `base` is empty or already ends with one.
pub open spec fn path_join(base: Seq<char>, name: Seq<char>) -> Seq<char> {
    if name.len() > 0 && name[0] == '/' {
        name
    } else if base.len() == 0 || base.last() == '/' {
        base + name
    } else {
        base + seq!['/'] + name
    }
}

/// Joins a path and a name as [`path_join`] says.
pub fn join_path(base: &str, name: &str) -> (r: String)
    ensures
        r@ == path_join(base@, name@),
{
    let n = chars_of(name);
    if n.len() > 0 && n[0] == '/' {
        return to_owned(name);
    }
    let b = chars_of(base);
    if b.len() == 0 || b[b.len() - 1] == '/' {
        concat2(base, name)
    } else {
        let r = concat3(base, "/", name);
        proof {
            reveal_strlit("/");
        }
        r
    }
}

/// The text that `String::from_utf8_lossy` makes of some bytes: valid UTF-8 decoded,
/// each maximal invalid sequence replaced by U+FFFD.
pub uninterp spec fn utf8_lossy(b: Seq<u8>) -> Seq<char>;

/// The text that `String::from_utf8_lossy` gives: what valid UTF-8 encodes, else the
/// lossy text.
pub open spec fn lossy_text(b: Seq<u8>) -> Seq<char> {
    if vstd::utf8::valid_utf8(b) {
        vstd::utf8::decode_utf8(b)
    } else {
        utf8_lossy(b)
    }
}

/// `std::str::from_utf8`: the text that valid UTF-8 bytes encode, and `None` for
/// bytes that are not valid UTF-8.
#[verifier::external_body]
pub(crate) fn utf8_text(b: &[u8]) -> (r: Option<String>)
    ensures
        r is Some <==> vstd::utf8::valid_utf8(b@),
        r matches Some(s) ==> s@ == vstd::utf8::decode_utf8(b@),
{
    match std::str::from_utf8(b) {
        Ok(s) => Some(s.to_string()),
        Err(_) => None,
    }
}

/// `String::from_utf8_lossy`: the lossy text of the bytes; for valid UTF-8 it is the
/// text the bytes encode (the function returns such input unchanged).
#[verifier::external_body]
pub(crate) fn utf8_lossy_text(b: &[u8]) -> (s: String)
    ensures
        s@ == utf8_lossy(b@),
        vstd::utf8::valid_utf8(b@) ==> s@ == vstd::utf8::decode_utf8(b@),
{
    String::from_utf8_lossy(b).into_owned()
}

} // verus!
