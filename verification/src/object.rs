//! Content-addressed object model: blobs, trees and commits.
use vstd::prelude::*;
use sha2::Digest;

verus! {

/// SHA-256 of a byte sequence (the digest the `sha2` crate computes).
pub uninterp spec fn sha256(data: Seq<u8>) -> Seq<u8>;

/// SHA-256 of `data`, computed by `sha2::Sha256::digest`.
/// Claimed: the 32 bytes returned are `sha256(data)`, a function of the bytes alone.
#[verifier::external_body]
fn sha256_digest(data: &[u8]) -> (r: [u8; 32])
    ensures
        r@ == sha256(data@),
{
    sha2::Sha256::digest(data).into()
}

/// The lower-case hexadecimal digit for `d < 16`.
pub open spec fn hex_digit(d: nat) -> char {
    if d < 10 {
        crate::text::digit_char(d)
    } else if d == 10 {
        'a'
    } else if d == 11 {
        'b'
    } else if d == 12 {
        'c'
    } else if d == 13 {
        'd'
    } else if d == 14 {
        'e'
    } else {
        'f'
    }
}

/// Lower-case hexadecimal text of bytes: two digits per byte, high nibble first.
pub open spec fn hex_lower(b: Seq<u8>) -> Seq<char>
    decreases b.len(),
{
    if b.len() == 0 {
        Seq::empty()
    } else {
        hex_lower(b.drop_last()) + seq![hex_digit((b.last() / 16) as nat), hex_digit((b.last() % 16) as nat)]
    }
}

/// Two digits per byte.
pub proof fn lemma_hex_lower_len(b: Seq<u8>)
    ensures
        hex_lower(b).len() == 2 * b.len(),
    decreases b.len(),
{
    if b.len() > 0 {
        lemma_hex_lower_len(b.drop_last());
    }
}


/// `hex::encode`: claimed to give two lower-case hex digits per byte, high nibble first,
/// as the crate's documentation and source show.
#[verifier::external_body]
fn hex_encode(b: &[u8]) -> (s: String)
    ensures
        s@ == hex_lower(b@),
{
    hex::encode(b)
}

/// A failed hexadecimal decoding, as `hex::FromHexError` reports it.
#[derive(Debug, Clone, PartialEq, Eq)]
pub enum HexError {
    /// A character that is not a hex digit, at the given byte index.
    InvalidHexCharacter { c: char, index: usize },
    /// The text has an odd number of bytes.
    OddLength,
    /// The decoded bytes have the wrong length for the target.
    InvalidStringLength,
}

/// The value of a hex digit (either case), if it is one.
pub open spec fn hex_value(c: char) -> Option<nat> {
    if '0' <= c && c <= '9' {
        Some(((c as nat) - ('0' as nat)) as nat)
    } else if 'a' <= c && c <= 'f' {
        Some(((c as nat) - ('a' as nat) + 10) as nat)
    } else if 'A' <= c && c <= 'F' {
        Some(((c as nat) - ('A' as nat) + 10) as nat)
    } else {
        None
    }
}

/// All characters of `s` are hex digits.
pub open spec fn all_hex(s: Seq<char>) -> bool {
    forall|i: int| 0 <= i < s.len() ==> (#[trigger] hex_value(s[i])) is Some
}

/// The bytes that an even-length run of hex digits stands for.
pub open spec fn hex_bytes(s: Seq<char>) -> Seq<u8>
    decreases s.len(),
{
    if s.len() < 2 {
        Seq::empty()
    } else {
        seq![(hex_value(s[0]).unwrap() * 16 + hex_value(s[1]).unwrap()) as u8] + hex_bytes(
            s.subrange(2, s.len() as int),
        )
    }
}

/// Outcome of a hexadecimal decoding.
pub type HexDecoded = Result<Vec<u8>, HexError>;

/// `hex::decode`: claimed to succeed exactly on text of even length made of hex digits
/// (either case), with the bytes those digit pairs stand for. On failure it reports an
/// odd length or an invalid character; which invalid character is reported is left
/// unsaid here.
#[verifier::external_body]
fn hex_decode(s: &str) -> (r: HexDecoded)
    ensures
        crate::text::ascii_only(s@) ==> (r is Ok <==> (s@.len() % 2 == 0 && all_hex(s@))),
        r matches Ok(v) ==> crate::text::ascii_only(s@) && v@ == hex_bytes(s@),
        crate::text::ascii_only(s@) && s@.len() % 2 == 1 ==> r == HexDecoded::Err(HexError::OddLength),
{
    match hex::decode(s) {
        Ok(v) => Ok(v),
        Err(hex::FromHexError::InvalidHexCharacter { c, index }) => Err(
            HexError::InvalidHexCharacter { c, index },
        ),
        Err(hex::FromHexError::OddLength) => Err(HexError::OddLength),
        Err(hex::FromHexError::InvalidStringLength) => Err(HexError::InvalidStringLength),
    }
}

/// Unique identifier for any stored object: a 32-byte digest.
#[derive(Debug, Clone, Copy, Hash)]
pub struct ObjectId(pub [u8; 32]);

impl PartialEq for ObjectId {
    fn eq(&self, other: &Self) -> (r: bool) {
        let mut i: usize = 0;
        while i < 32
            invariant
                i <= 32,
                forall|j: int| 0 <= j < i ==> self.0@[j] == other.0@[j],
            decreases 32 - i,
        {
            if self.0[i] != other.0[i] {
                return false;
            }
            i = i + 1;
        }
        assert(self.0@ =~= other.0@);
        true
    }
}

impl vstd::std_specs::cmp::PartialEqSpecImpl for ObjectId {
    open spec fn obeys_eq_spec() -> bool {
        true
    }

    open spec fn eq_spec(&self, other: &Self) -> bool {
        self@ == other@
    }
}

impl Eq for ObjectId {}

impl View for ObjectId {
    type V = Seq<u8>;

    open spec fn view(&self) -> Seq<u8> {
        self.0@
    }
}

impl ObjectId {
    /// Creates an ObjectId from raw bytes.
    pub fn new(bytes: [u8; 32]) -> (r: Self)
        ensures
            r.0 == bytes,
    {
        ObjectId(bytes)
    }

    /// The id of some content: the SHA-256 digest of the bytes.
    pub fn from_data(data: &[u8]) -> (r: Self)
        ensures
            r@ == sha256(data@),
    {
        ObjectId(sha256_digest(data))
    }

    /// Lower-case hexadecimal text of the 32 bytes.
    pub fn to_hex(&self) -> (s: String)
        ensures
            s@ == hex_lower(self@),
    {
        let a: &[u8] = vstd::array::array_as_slice(&self.0);
        hex_encode(a)
    }

    /// Parses 64 hexadecimal digits. Text of another even length that decodes is
    /// refused with `InvalidStringLength`.
    pub fn from_hex(hex_str: &str) -> (r: Result<Self, HexError>)
        ensures
            r matches Ok(id) ==> crate::text::ascii_only(hex_str@) && hex_str@.len() == 64
                && all_hex(hex_str@) && id@ == hex_bytes(hex_str@),
            crate::text::ascii_only(hex_str@) && hex_str@.len() == 64 && all_hex(hex_str@) ==> r is Ok,
            crate::text::ascii_only(hex_str@) && hex_str@.len() % 2 == 0 && all_hex(hex_str@)
                && hex_str@.len() != 64 ==> (r matches Err(e) && e == HexError::InvalidStringLength),
            crate::text::ascii_only(hex_str@) && hex_str@.len() % 2 == 1 ==> (r matches Err(e) && e == HexError::OddLength),
    {
        let bytes = hex_decode(hex_str)?;
        proof {
            lemma_hex_bytes_len(hex_str@);
        }
        if bytes.len() != 32 {
            return Err(HexError::InvalidStringLength);
        }
        let mut arr = [0u8; 32];
        let mut i: usize = 0;
        while i < 32
            invariant
                bytes.len() == 32,
                i <= 32,
                forall|j: int| 0 <= j < i ==> arr@[j] == bytes@[j],
            decreases 32 - i,
        {
            arr.set(i, bytes[i]);
            i = i + 1;
        }
        assert(arr@ =~= bytes@);
        Ok(ObjectId(arr))
    }

    /// The raw bytes.
    pub fn as_bytes(&self) -> (r: &[u8; 32])
        ensures
            *r == self.0,
    {
        &self.0
    }
}

proof fn lemma_hex_bytes_len(s: Seq<char>)
    ensures
        hex_bytes(s).len() == s.len() / 2,
    decreases s.len(),
{
    if s.len() >= 2 {
        lemma_hex_bytes_len(s.subrange(2, s.len() as int));
    }
}

/// A hex digit reads back as its value.
proof fn lemma_hex_digit_value(n: nat)
    requires
        n < 16,
    ensures
        hex_value(hex_digit(n)) == Some(n),
        (hex_digit(n) as u32) < 128,
{
    reveal_with_fuel(crate::text::digit_char, 1);
}

/// Hex text read in two parts, the first of even length.
proof fn lemma_hex_bytes_append(s: Seq<char>, t: Seq<char>)
    requires
        s.len() % 2 == 0,
    ensures
        hex_bytes(s + t) == hex_bytes(s) + hex_bytes(t),
    decreases s.len(),
{
    if s.len() == 0 {
        assert(s + t =~= t);
        assert(hex_bytes(s) =~= Seq::<u8>::empty());
        assert(hex_bytes(s) + hex_bytes(t) =~= hex_bytes(t));
    } else {
        let rest = s.subrange(2, s.len() as int);
        lemma_hex_bytes_append(rest, t);
        assert((s + t).subrange(2, (s + t).len() as int) =~= rest + t);
        assert((s + t)[0] == s[0] && (s + t)[1] == s[1]);
        assert(hex_bytes(s + t) =~= hex_bytes(s) + hex_bytes(t));
    }
}

/// The lower-case hex text of bytes reads back as the bytes.
proof fn lemma_hex_lower_roundtrip(b: Seq<u8>)
    ensures
        hex_lower(b).len() == 2 * b.len(),
        crate::text::ascii_only(hex_lower(b)),
        all_hex(hex_lower(b)),
        hex_bytes(hex_lower(b)) == b,
    decreases b.len(),
{
    if b.len() == 0 {
        assert(hex_bytes(hex_lower(b)) =~= b);
    } else {
        let p = b.drop_last();
        let x = b.last();
        lemma_hex_lower_roundtrip(p);
        let hi = hex_digit((x / 16) as nat);
        let lo = hex_digit((x % 16) as nat);
        lemma_hex_digit_value((x / 16) as nat);
        lemma_hex_digit_value((x % 16) as nat);
        let tail = seq![hi, lo];
        assert(hex_lower(b) == hex_lower(p) + tail);
        lemma_hex_bytes_append(hex_lower(p), tail);
        assert(tail.subrange(2, 2) =~= Seq::<char>::empty());
        assert(hex_bytes(tail.subrange(2, 2)) =~= Seq::<u8>::empty());
        assert(hex_value(tail[0]) == Some((x / 16) as nat));
        assert(hex_value(tail[1]) == Some((x % 16) as nat));
        assert(hex_bytes(tail) =~= seq![((x / 16) as nat * 16 + (x % 16) as nat) as u8]);
        assert((x / 16) as nat * 16 + (x % 16) as nat == x);
        assert(hex_bytes(hex_lower(b)) =~= b);
        assert forall|i: int| 0 <= i < hex_lower(b).len() implies (#[trigger] hex_value(hex_lower(b)[i])) is Some by {
            if i < hex_lower(p).len() {
                assert(hex_lower(b)[i] == hex_lower(p)[i]);
            }
        }
        assert forall|i: int| 0 <= i < hex_lower(b).len() implies (#[trigger] hex_lower(b)[i] as u32) < 128 by {
            if i < hex_lower(p).len() {
                assert(hex_lower(b)[i] == hex_lower(p)[i]);
            }
        }
    }
}

/// An id written as hex reads back as the same id: `to_hex` gives 64 ASCII hex
/// digits, which `from_hex` accepts, and they stand for the id's bytes.
pub proof fn law_object_id_hex_roundtrip(id: ObjectId)
    ensures
        crate::text::ascii_only(hex_lower(id@)),
        hex_lower(id@).len() == 64,
        all_hex(hex_lower(id@)),
        hex_bytes(hex_lower(id@)) == id@,
{
    lemma_hex_lower_roundtrip(id@);
}


/// File content object.
#[derive(Debug, Clone)]
pub struct Blob {
    /// Raw content data.
    pub data: Vec<u8>,
    /// Content length (cached).
    pub size: u64,
    /// Executable flag.
    pub executable: bool,
}

impl Blob {
    /// Creates a blob from data.
    pub fn new(data: Vec<u8>, executable: bool) -> (b: Self)
        ensures
            b.data@ == data@,
            b.size == data@.len() as u64,
            b.executable == executable,
    {
        let size = data.len() as u64;
        Blob { data, size, executable }
    }

    /// Creates a non-executable blob from data.
    pub fn from_bytes(data: Vec<u8>) -> (b: Self)
        ensures
            b.data@ == data@,
            b.size == data@.len() as u64,
            !b.executable,
    {
        Self::new(data, false)
    }

    /// The id of the blob: the digest of its content alone.
    pub fn id(&self) -> (r: ObjectId)
        ensures
            r@ == sha256(self.data@),
    {
        ObjectId::from_data(self.data.as_slice())
    }
}

/// Object type discriminator.
#[derive(Debug, Clone, Copy, PartialEq, Eq, Structural)]
pub enum ObjectKind {
    Blob,
    Tree,
    Commit,
}

/// Directory tree entry.
#[derive(Debug, Clone)]
pub struct TreeEntry {
    /// Name of the entry.
    pub name: String,
    /// Object the entry points to.
    pub id: ObjectId,
    /// Entry type.
    pub kind: ObjectKind,
    /// Unix mode bits.
    pub mode: u32,
}

impl TreeEntry {
    /// Creates a tree entry.
    pub fn new(name: String, id: ObjectId, kind: ObjectKind, mode: u32) -> (e: Self)
        ensures
            e.name@ == name@,
            e.id == id,
            e.kind == kind,
            e.mode == mode,
    {
        TreeEntry { name, id, kind, mode }
    }
}

/// Strict lexicographic order on character sequences (the order of `String`).
pub open spec fn lex_lt(a: Seq<char>, b: Seq<char>) -> bool
    decreases a.len(),
{
    if a.len() == 0 {
        b.len() > 0
    } else if b.len() == 0 {
        false
    } else if a[0] != b[0] {
        a[0] < b[0]
    } else {
        lex_lt(a.drop_first(), b.drop_first())
    }
}

/// Three-way outcome of comparing two names.
pub enum Rel {
    Lt,
    Eq,
    Gt,
}

proof fn lemma_lex_irrefl(a: Seq<char>)
    ensures
        !lex_lt(a, a),
    decreases a.len(),
{
    if a.len() > 0 {
        lemma_lex_irrefl(a.drop_first());
    }
}

pub(crate) proof fn lemma_lex_total(a: Seq<char>, b: Seq<char>)
    ensures
        a != b ==> (lex_lt(a, b) || lex_lt(b, a)),
        !(lex_lt(a, b) && lex_lt(b, a)),
        !lex_lt(a, a),
    decreases a.len(),
{
    lemma_lex_irrefl(a);
    if a.len() > 0 && b.len() > 0 {
        lemma_lex_total(a.drop_first(), b.drop_first());
        if a[0] == b[0] && a.drop_first() == b.drop_first() {
            assert(a =~= seq![a[0]] + a.drop_first());
            assert(b =~= seq![b[0]] + b.drop_first());
        }
    } else if a.len() == 0 && b.len() == 0 {
        assert(a =~= b);
    }
}

pub(crate) proof fn lemma_lex_trans(a: Seq<char>, b: Seq<char>, c: Seq<char>)
    requires
        lex_lt(a, b),
        lex_lt(b, c),
    ensures
        lex_lt(a, c),
    decreases a.len(),
{
    if a.len() > 0 && b.len() > 0 && c.len() > 0 {
        if a[0] == b[0] && b[0] == c[0] {
            lemma_lex_trans(a.drop_first(), b.drop_first(), c.drop_first());
        }
    }
}

/// Compares two names in `String` order.
pub fn compare_names(a: &Vec<char>, b: &Vec<char>) -> (r: Rel)
    ensures
        r is Lt <==> lex_lt(a@, b@),
        r is Eq <==> a@ == b@,
        r is Gt <==> lex_lt(b@, a@),
{
    proof {
        lemma_lex_total(a@, b@);
    }
    let mut i: usize = 0;
    assert(a@.subrange(0, a@.len() as int) =~= a@);
    assert(b@.subrange(0, b@.len() as int) =~= b@);
    while i < a.len() && i < b.len()
        invariant
            i <= a.len(),
            i <= b.len(),
            forall|j: int| 0 <= j < i ==> a@[j] == b@[j],
            lex_lt(a@, b@) == lex_lt(a@.subrange(i as int, a@.len() as int), b@.subrange(
                i as int,
                b@.len() as int,
            )),
            lex_lt(b@, a@) == lex_lt(b@.subrange(i as int, b@.len() as int), a@.subrange(
                i as int,
                a@.len() as int,
            )),
        decreases a.len() - i,
    {
        let x = a[i];
        let y = b[i];
        if x != y {
            if x < y {
                return Rel::Lt;
            } else {
                return Rel::Gt;
            }
        }
        proof {
            assert(a@.subrange(i as int, a@.len() as int).drop_first() =~= a@.subrange(
                i + 1,
                a@.len() as int,
            ));
            assert(b@.subrange(i as int, b@.len() as int).drop_first() =~= b@.subrange(
                i + 1,
                b@.len() as int,
            ));
        }
        i = i + 1;
    }
    if a.len() == b.len() {
        assert(a@ =~= b@);
        Rel::Eq
    } else if i == a.len() {
        Rel::Lt
    } else {
        Rel::Gt
    }
}

/// Directory object: entries kept in strictly increasing name order, so that every
/// name occurs once and iteration is deterministic.
#[derive(Debug, Clone)]
pub struct Tree {
    entries: Vec<TreeEntry>,
}

/// Names strictly increase along `s`.
pub open spec fn sorted_by_name(s: Seq<TreeEntry>) -> bool {
    forall|i: int, j: int| 0 <= i < j < s.len() ==> lex_lt(#[trigger] s[i].name@, #[trigger] s[j].name@)
}

/// The entry of `s` with name `name`, if there is one.
pub open spec fn entry_named(s: Seq<TreeEntry>, name: Seq<char>) -> Option<TreeEntry> {
    if exists|i: int| 0 <= i < s.len() && #[trigger] s[i].name@ == name {
        Some(s[choose|i: int| 0 <= i < s.len() && #[trigger] s[i].name@ == name])
    } else {
        None
    }
}

impl Tree {
    /// The entries, in name order.
    pub closed spec fn view_entries(&self) -> Seq<TreeEntry> {
        self.entries@
    }

    /// The tree's invariant: names strictly increase, so each name occurs once.
    pub open spec fn wf(&self) -> bool {
        sorted_by_name(self.view_entries())
    }

    /// The entry named `name`, if any.
    pub open spec fn lookup(&self, name: Seq<char>) -> Option<TreeEntry> {
        entry_named(self.view_entries(), name)
    }

    /// Creates an empty tree.
    pub fn new() -> (t: Self)
        ensures
            t.wf(),
            t.view_entries().len() == 0,
    {
        Tree { entries: Vec::new() }
    }

    /// Position of `name` among the entries, or where it would be inserted.
    fn locate(&self, name: &Vec<char>) -> (r: (usize, bool))
        requires
            self.wf(),
        ensures
            r.0 <= self.entries@.len(),
            r.1 ==> r.0 < self.entries@.len() && self.entries@[r.0 as int].name@ == name@,
            !r.1 ==> forall|j: int| 0 <= j < r.0 ==> lex_lt(#[trigger] self.entries@[j].name@, name@),
            !r.1 ==> forall|j: int| r.0 <= j < self.entries@.len() ==> lex_lt(name@, #[trigger] self.entries@[j].name@),
    {
        let mut i: usize = 0;
        while i < self.entries.len()
            invariant
                i <= self.entries@.len(),
                self.wf(),
                forall|j: int| 0 <= j < i ==> lex_lt(#[trigger] self.entries@[j].name@, name@),
            decreases self.entries.len() - i,
        {
            let en = crate::text::chars_of(self.entries[i].name.as_str());
            match compare_names(&en, name) {
                Rel::Eq => {
                    return (i, true);
                },
                Rel::Gt => {
                    assert forall|j: int| i <= j < self.entries@.len() implies lex_lt(
                        name@,
                        #[trigger] self.entries@[j].name@,
                    ) by {
                        if j > i {
                            lemma_lex_trans(name@, self.entries@[i as int].name@, self.entries@[j].name@);
                        }
                    }
                    return (i, false);
                },
                Rel::Lt => {},
            }
            i = i + 1;
        }
        (i, false)
    }

    /// Adds an entry, replacing any entry of the same name.
    pub fn insert(&mut self, entry: TreeEntry)
        requires
            old(self).wf(),
        ensures
            final(self).wf(),
            final(self).lookup(entry.name@) == Some(entry),
            forall|n: Seq<char>| n != entry.name@ ==> #[trigger] final(self).lookup(n) == old(self).lookup(n),
            final(self).view_entries().len() == old(self).view_entries().len() + (if old(self).lookup(
                entry.name@,
            ) is None {
                1int
            } else {
                0int
            }),
    {
        let name = crate::text::chars_of(entry.name.as_str());
        let (pos, found) = self.locate(&name);
        let ghost old_entries = self.entries@;
        proof {
            if found {
                lemma_lookup_sorted(old_entries, pos as int);
            } else {
                lemma_absent(old_entries, pos as int, name@);
            }
        }
        if found {
            self.entries.set(pos, entry);
        } else {
            self.entries.insert(pos, entry);
        }
        let ghost new_entries = self.entries@;
        proof {
            if found {
                assert(new_entries == old_entries.update(pos as int, entry));
                assert forall|i: int, j: int| 0 <= i < j < new_entries.len() implies lex_lt(
                    #[trigger] new_entries[i].name@,
                    #[trigger] new_entries[j].name@,
                ) by {
                    assert(old_entries[i].name@ == new_entries[i].name@);
                    assert(old_entries[j].name@ == new_entries[j].name@);
                }
            } else {
                assert(new_entries == old_entries.insert(pos as int, entry));
                assert forall|i: int, j: int| 0 <= i < j < new_entries.len() implies lex_lt(
                    #[trigger] new_entries[i].name@,
                    #[trigger] new_entries[j].name@,
                ) by {
                    if j < pos {
                    } else if j == pos {
                    } else if i < pos {
                        lemma_lex_trans(new_entries[i].name@, name@, new_entries[j].name@);
                    } else if i == pos {
                    } else {
                        assert(new_entries[i] == old_entries[i - 1]);
                        assert(new_entries[j] == old_entries[j - 1]);
                    }
                }
            }
            lemma_lookup_sorted(new_entries, pos as int);
            assert forall|n: Seq<char>| n != entry.name@ implies #[trigger] entry_named(new_entries, n)
                == entry_named(old_entries, n) by {
                lemma_entry_named_frame(old_entries, new_entries, pos as int, found, entry, n);
            }
        }
    }

    /// Removes the entry named `name`, returning it.
    pub fn remove(&mut self, name: &str) -> (r: Option<TreeEntry>)
        requires
            old(self).wf(),
        ensures
            final(self).wf(),
            r == old(self).lookup(name@),
            final(self).lookup(name@) is None,
            final(self).view_entries().len() == old(self).view_entries().len() - (if r is Some {
                1int
            } else {
                0int
            }),
            forall|n: Seq<char>| n != name@ ==> #[trigger] final(self).lookup(n) == old(self).lookup(n),
    {
        let nm = crate::text::chars_of(name);
        let (pos, found) = self.locate(&nm);
        let ghost old_entries = self.entries@;
        if found {
            let e = self.entries.remove(pos);
            let ghost new_entries = self.entries@;
            proof {
                assert(new_entries == old_entries.remove(pos as int));
                assert forall|i: int, j: int| 0 <= i < j < new_entries.len() implies lex_lt(
                    #[trigger] new_entries[i].name@,
                    #[trigger] new_entries[j].name@,
                ) by {
                    if i >= pos {
                        assert(new_entries[i] == old_entries[i + 1]);
                    }
                    if j >= pos {
                        assert(new_entries[j] == old_entries[j + 1]);
                    }
                }
                lemma_lookup_sorted(old_entries, pos as int);
                assert forall|n: Seq<char>| #[trigger] entry_named(new_entries, n) == (if n == name@ {
                    None
                } else {
                    entry_named(old_entries, n)
                }) by {
                    lemma_entry_named_remove(old_entries, pos as int, n);
                }
            }
            Some(e)
        } else {
            proof {
                lemma_absent(old_entries, pos as int, nm@);
            }
            None
        }
    }

    /// The entry named `name`, if any.
    pub fn get(&self, name: &str) -> (r: Option<&TreeEntry>)
        requires
            self.wf(),
        ensures
            match r {
                Some(e) => self.lookup(name@) == Some(*e),
                None => self.lookup(name@) is None,
            },
    {
        let nm = crate::text::chars_of(name);
        let (pos, found) = self.locate(&nm);
        if found {
            proof {
                lemma_lookup_sorted(self.entries@, pos as int);
            }
            Some(&self.entries[pos])
        } else {
            proof {
                lemma_absent(self.entries@, pos as int, nm@);
            }
            None
        }
    }

    /// The entries in name order, each name once.
    pub fn iter(&self) -> (r: &Vec<TreeEntry>)
        ensures
            r@ == self.view_entries(),
            self.wf() ==> sorted_by_name(r@),
    {
        &self.entries
    }

    /// Number of entries.
    pub fn len(&self) -> (r: usize)
        ensures
            r == self.view_entries().len(),
    {
        self.entries.len()
    }
}

/// In a sorted sequence, the entry at `pos` is the one its name finds.
proof fn lemma_lookup_sorted(s: Seq<TreeEntry>, pos: int)
    requires
        sorted_by_name(s),
        0 <= pos < s.len(),
    ensures
        entry_named(s, s[pos].name@) == Some(s[pos]),
{
    let n = s[pos].name@;
    lemma_lex_irrefl(n);
    assert(exists|i: int| 0 <= i < s.len() && #[trigger] s[i].name@ == n);
    let k = choose|i: int| 0 <= i < s.len() && #[trigger] s[i].name@ == n;
    if k < pos {
        assert(lex_lt(s[k].name@, s[pos].name@));
    } else if k > pos {
        assert(lex_lt(s[pos].name@, s[k].name@));
    }
    assert(k == pos);
}

/// A name that sorts strictly between the neighbours of `pos` is absent.
proof fn lemma_absent(s: Seq<TreeEntry>, pos: int, n: Seq<char>)
    requires
        0 <= pos <= s.len(),
        forall|j: int| 0 <= j < pos ==> lex_lt(#[trigger] s[j].name@, n),
        forall|j: int| pos <= j < s.len() ==> lex_lt(n, #[trigger] s[j].name@),
    ensures
        entry_named(s, n) is None,
{
    lemma_lex_total(n, n);
    assert forall|i: int| 0 <= i < s.len() implies #[trigger] s[i].name@ != n by {
        if i < pos {
            assert(lex_lt(s[i].name@, n));
        } else {
            assert(lex_lt(n, s[i].name@));
        }
    }
}

/// Lookups of names other than the written one are unchanged by an insertion.
proof fn lemma_entry_named_frame(
    old_s: Seq<TreeEntry>,
    new_s: Seq<TreeEntry>,
    pos: int,
    found: bool,
    entry: TreeEntry,
    n: Seq<char>,
)
    requires
        sorted_by_name(old_s),
        sorted_by_name(new_s),
        0 <= pos <= old_s.len(),
        found ==> pos < old_s.len() && old_s[pos].name@ == entry.name@ && new_s == old_s.update(
            pos,
            entry,
        ),
        !found ==> new_s == old_s.insert(pos, entry),
        n != entry.name@,
    ensures
        entry_named(new_s, n) == entry_named(old_s, n),
{
    if exists|i: int| 0 <= i < old_s.len() && #[trigger] old_s[i].name@ == n {
        let k = choose|i: int| 0 <= i < old_s.len() && #[trigger] old_s[i].name@ == n;
        lemma_lookup_sorted(old_s, k);
        let k2 = if found || k < pos { k } else { k + 1 };
        assert(new_s[k2] == old_s[k]);
        lemma_lookup_sorted(new_s, k2);
    } else {
        assert forall|i: int| 0 <= i < new_s.len() implies #[trigger] new_s[i].name@ != n by {
            if found {
                if i != pos {
                    assert(new_s[i] == old_s[i]);
                }
            } else {
                if i < pos {
                    assert(new_s[i] == old_s[i]);
                } else if i > pos {
                    assert(new_s[i] == old_s[i - 1]);
                }
            }
        }
    }
}

/// Lookups after removing the entry at `pos`.
proof fn lemma_entry_named_remove(s: Seq<TreeEntry>, pos: int, n: Seq<char>)
    requires
        sorted_by_name(s),
        0 <= pos < s.len(),
    ensures
        entry_named(s.remove(pos), n) == (if n == s[pos].name@ {
            None
        } else {
            entry_named(s, n)
        }),
{
    let t = s.remove(pos);
    lemma_lex_total(s[pos].name@, s[pos].name@);
    assert(sorted_by_name(t)) by {
        assert forall|i: int, j: int| 0 <= i < j < t.len() implies lex_lt(
            #[trigger] t[i].name@,
            #[trigger] t[j].name@,
        ) by {
            let i2 = if i < pos { i } else { i + 1 };
            let j2 = if j < pos { j } else { j + 1 };
            assert(t[i] == s[i2]);
            assert(t[j] == s[j2]);
        }
    }
    if n == s[pos].name@ {
        assert forall|i: int| 0 <= i < t.len() implies #[trigger] t[i].name@ != n by {
            let i2 = if i < pos { i } else { i + 1 };
            assert(t[i] == s[i2]);
            if i2 < pos {
                assert(lex_lt(s[i2].name@, s[pos].name@));
            } else {
                assert(lex_lt(s[pos].name@, s[i2].name@));
            }
        }
    } else if exists|i: int| 0 <= i < s.len() && #[trigger] s[i].name@ == n {
        let k = choose|i: int| 0 <= i < s.len() && #[trigger] s[i].name@ == n;
        lemma_lookup_sorted(s, k);
        assert(k != pos);
        let k2 = if k < pos { k } else { k - 1 };
        assert(t[k2] == s[k]);
        lemma_lookup_sorted(t, k2);
    } else {
        assert forall|i: int| 0 <= i < t.len() implies #[trigger] t[i].name@ != n by {
            let i2 = if i < pos { i } else { i + 1 };
            assert(t[i] == s[i2]);
        }
    }
}

/// Commit/revision object.
#[derive(Debug, Clone)]
pub struct Commit {
    /// Tree of this revision.
    pub tree_id: ObjectId,
    /// Parent commits (empty for the initial commit).
    pub parents: Vec<ObjectId>,
    /// Author name.
    pub author: String,
    /// Commit message.
    pub message: String,
    /// Unix seconds.
    pub timestamp: i64,
    /// Timezone offset in minutes.
    pub tz_offset: i32,
}

impl Commit {
    /// Creates a commit.
    pub fn new(
        tree_id: ObjectId,
        parents: Vec<ObjectId>,
        author: String,
        message: String,
        timestamp: i64,
        tz_offset: i32,
    ) -> (c: Self)
        ensures
            c.tree_id == tree_id,
            c.parents@ == parents@,
            c.author@ == author@,
            c.message@ == message@,
            c.timestamp == timestamp,
            c.tz_offset == tz_offset,
    {
        Commit { tree_id, parents, author, message, timestamp, tz_offset }
    }

    /// Whether this is an initial commit (no parents).
    pub fn is_initial(&self) -> (b: bool)
        ensures
            b == (self.parents@.len() == 0),
    {
        self.parents.len() == 0
    }
}

/// Any stored object.
#[derive(Debug, Clone)]
pub enum Object {
    Blob(Blob),
    Tree(Tree),
    Commit(Commit),
}

impl Object {
    /// The kind of the object.
    pub fn kind(&self) -> (k: ObjectKind)
        ensures
            k == (match self {
                Object::Blob(_) => ObjectKind::Blob,
                Object::Tree(_) => ObjectKind::Tree,
                Object::Commit(_) => ObjectKind::Commit,
            }),
    {
        match self {
            Object::Blob(_) => ObjectKind::Blob,
            Object::Tree(_) => ObjectKind::Tree,
            Object::Commit(_) => ObjectKind::Commit,
        }
    }
}

/// One change of a delta tree.
#[derive(Debug, Clone)]
pub enum TreeChange {
    /// A path added or modified.
    Upsert { path: String, entry: TreeEntry },
    /// A path removed, with everything below it.
    Delete { path: String },
}

/// The changes of one revision relative to its parent.
#[derive(Debug, Clone)]
pub struct DeltaTree {
    /// Parent revision.
    pub parent_rev: u64,
    /// The changes, in path order.
    pub changes: Vec<TreeChange>,
    /// Number of entries of the full tree after the changes.
    pub total_entries: usize,
}

impl DeltaTree {
    /// Creates a delta tree.
    pub fn new(parent_rev: u64, changes: Vec<TreeChange>, total_entries: usize) -> (d: Self)
        ensures
            d.parent_rev == parent_rev,
            d.changes@ == changes@,
            d.total_entries == total_entries,
    {
        DeltaTree { parent_rev, changes, total_entries }
    }
}

} // verus!
