//! Packfiles: many objects, each zstd-compressed, in one file with an index.
//!
//! Layout: version (4 bytes LE) and object count (4 bytes LE), then per object a
//! type byte (1), the data length (4 bytes LE), the 32-byte id, the compressed length
//! (4 bytes LE) and the compressed bytes.
use vstd::prelude::*;
use crate::object::ObjectId;
use crate::codec::{le32, from_le32, zstd_frame, push_le32, push_all, read_le32, copy_range, lemma_le32_roundtrip};
use crate::text::decimal;

verus! {

/// Packfile version.
pub const PACK_VERSION: u32 = 2;

/// Where an object is in a pack.
#[derive(Debug, Clone, Copy)]
pub struct PackEntry {
    pub object_id: ObjectId,
    /// Offset of the object's record.
    pub offset: u64,
    /// Uncompressed size.
    pub size: u64,
}

/// Index of a pack.
#[derive(Debug, Clone)]
pub struct PackIndex {
    pub entries: Vec<PackEntry>,
}

/// Objects collected for a pack, each id once, in the order first added.
pub struct PackWriter {
    objects: Vec<(ObjectId, Vec<u8>)>,
}

/// A pack read into memory with its index.
pub struct PackReader {
    index: PackIndex,
    data: Vec<u8>,
}

/// No id occurs twice.
pub open spec fn distinct_ids(s: Seq<(ObjectId, Vec<u8>)>) -> bool {
    forall|i: int, j: int| 0 <= i < s.len() && 0 <= j < s.len() && i != j ==> #[trigger] s[i].0@ != #[trigger] s[j].0@
}

/// The record of one object, given its compressed bytes.
pub open spec fn record(id: Seq<u8>, size: nat, compressed: Seq<u8>) -> Seq<u8> {
    seq![1u8] + le32(size as u32) + id + le32(compressed.len() as u32) + compressed
}

/// The records of all objects, each compressed at level 0.
pub open spec fn pack_body(objs: Seq<(ObjectId, Vec<u8>)>) -> Seq<u8>
    decreases objs.len(),
{
    if objs.len() == 0 {
        Seq::empty()
    } else {
        let o = objs.last();
        pack_body(objs.drop_last()) + record(o.0@, o.1@.len(), zstd_frame(o.1@, 0))
    }
}

/// The bytes of a pack of `objs`.
pub open spec fn pack_bytes(objs: Seq<(ObjectId, Vec<u8>)>) -> Seq<u8> {
    le32(PACK_VERSION) + le32(objs.len() as u32) + pack_body(objs)
}

/// The offsets of the records: the first after the 8-byte header.
pub open spec fn record_offset(objs: Seq<(ObjectId, Vec<u8>)>, i: int) -> nat {
    8 + pack_body(objs.take(i)).len()
}

/// The compressed length stored in the record at `off`.
pub open spec fn stored_csize(data: Seq<u8>, off: nat) -> nat {
    from_le32(data.subrange(off as int + 37, off as int + 41)) as nat
}

/// The record at `off` lies whole within `data`: its 41-byte header and its payload.
pub open spec fn record_fits(data: Seq<u8>, off: nat) -> bool {
    off + 41 <= data.len() && off + 41 + stored_csize(data, off) <= data.len()
}

/// The compressed payload of the record at `off`.
pub open spec fn payload(data: Seq<u8>, off: nat) -> Seq<u8> {
    data.subrange(off as int + 41, off as int + 41 + stored_csize(data, off))
}

/// What one record at `off` says: its id bytes, its offset and its uncompressed size.
pub open spec fn record_entry(data: Seq<u8>, off: nat) -> (Seq<u8>, nat, nat) {
    (data.subrange(off as int + 5, off as int + 37), off, from_le32(data.subrange(off as int + 1, off as int + 5)) as nat)
}

/// Reading `n` records one after another from `pos`: what each says, or `None` where
/// a record does not lie whole within `data`.
pub open spec fn scan(data: Seq<u8>, pos: nat, n: nat) -> Option<Seq<(Seq<u8>, nat, nat)>>
    decreases n,
{
    if n == 0 {
        Some(Seq::empty())
    } else if !record_fits(data, pos) {
        None
    } else {
        match scan(data, pos + 41 + stored_csize(data, pos), (n - 1) as nat) {
            None => None,
            Some(rest) => Some(seq![record_entry(data, pos)] + rest),
        }
    }
}

/// Where the scan of `n` records from `pos` ends.
pub open spec fn scan_end(data: Seq<u8>, pos: nat, n: nat) -> nat
    decreases n,
{
    if n == 0 {
        pos
    } else {
        scan_end(data, pos + 41 + stored_csize(data, pos), (n - 1) as nat)
    }
}

/// The object count in a pack's header.
pub open spec fn stored_count(data: Seq<u8>) -> nat {
    from_le32(data.subrange(4, 8)) as nat
}

/// The version in a pack's header.
pub open spec fn stored_version(data: Seq<u8>) -> u32 {
    from_le32(data.subrange(0, 4))
}

/// A pack that a reader can take: a header, and, where the version is known, all
/// records whole.
pub open spec fn readable(data: Seq<u8>) -> bool {
    data.len() >= 8 && (stored_version(data) == PACK_VERSION ==> scan(data, 8, stored_count(data)) is Some)
}

/// The abstract entries of an index.
pub open spec fn entries_view(es: Seq<PackEntry>) -> Seq<(Seq<u8>, nat, nat)> {
    Seq::new(es.len(), |i: int| (es[i].object_id@, es[i].offset as nat, es[i].size as nat))
}

/// `k` is the first entry with id `id`.
pub open spec fn first_match(es: Seq<(Seq<u8>, nat, nat)>, id: Seq<u8>, k: int) -> bool {
    0 <= k < es.len() && es[k].0 == id && forall|j: int| 0 <= j < k ==> (#[trigger] es[j]).0 != id
}

/// Every entry's record fits one after another: the scan ends where the next begins.
proof fn lemma_scan_snoc(data: Seq<u8>, pos: nat, n: nat)
    requires
        scan(data, pos, n) is Some,
    ensures
        scan(data, pos, n + 1) == (if record_fits(data, scan_end(data, pos, n)) {
            Some(scan(data, pos, n).unwrap().push(record_entry(data, scan_end(data, pos, n))))
        } else {
            None
        }),
        scan_end(data, pos, n + 1) == scan_end(data, pos, n) + 41 + stored_csize(data, scan_end(data, pos, n)),
    decreases n,
{
    if n == 0 {
        assert(scan(data, pos + 41 + stored_csize(data, pos), 0) == Some(Seq::<(Seq<u8>, nat, nat)>::empty()));
        assert(scan_end(data, pos + 41 + stored_csize(data, pos), 0) == pos + 41 + stored_csize(data, pos));
        if record_fits(data, pos) {
            assert(seq![record_entry(data, pos)] + Seq::<(Seq<u8>, nat, nat)>::empty() =~= Seq::<(Seq<u8>, nat, nat)>::empty().push(record_entry(data, pos)));
        }
    } else {
        let next = pos + 41 + stored_csize(data, pos);
        lemma_scan_snoc(data, next, (n - 1) as nat);
        assert((n + 1 - 1) as nat == n);
        if record_fits(data, scan_end(data, pos, n)) {
            let rest = scan(data, next, (n - 1) as nat).unwrap();
            let e = record_entry(data, scan_end(data, pos, n));
            assert(seq![record_entry(data, pos)] + rest.push(e) =~= (seq![record_entry(data, pos)] + rest).push(e));
        }
    }
}

/// Each entry of a successful scan lies whole within the data and says what its
/// record says.
proof fn lemma_scan_entries(data: Seq<u8>, pos: nat, n: nat)
    requires
        scan(data, pos, n) is Some,
    ensures
        scan(data, pos, n).unwrap().len() == n,
        forall|k: int| 0 <= k < n ==> {
            let e = #[trigger] scan(data, pos, n).unwrap()[k];
            &&& record_fits(data, e.1)
            &&& e == record_entry(data, e.1)
        },
    decreases n,
{
    if n > 0 {
        let next = pos + 41 + stored_csize(data, pos);
        lemma_scan_entries(data, next, (n - 1) as nat);
        let rest = scan(data, next, (n - 1) as nat).unwrap();
        assert forall|k: int| 0 <= k < n implies {
            let e = #[trigger] scan(data, pos, n).unwrap()[k];
            &&& record_fits(data, e.1)
            &&& e == record_entry(data, e.1)
        } by {
            if k > 0 {
                assert(scan(data, pos, n).unwrap()[k] == rest[k - 1]);
            }
        }
    }
}

/// A scan that succeeds for `m` records succeeds for fewer.
proof fn lemma_scan_shorter(data: Seq<u8>, pos: nat, n: nat, m: nat)
    requires
        n <= m,
        scan(data, pos, m) is Some,
    ensures
        scan(data, pos, n) is Some,
    decreases n,
{
    if n > 0 {
        lemma_scan_shorter(data, pos + 41 + stored_csize(data, pos), (n - 1) as nat, (m - 1) as nat);
    }
}

impl PackWriter {
    /// The objects, in order.
    pub closed spec fn objects_view(&self) -> Seq<(ObjectId, Vec<u8>)> {
        self.objects@
    }

    /// Ids are distinct.
    pub closed spec fn wf(&self) -> bool {
        distinct_ids(self.objects@)
    }

    /// An empty writer.
    pub fn create() -> (r: Result<Self, String>)
        ensures
            r matches Ok(w) && w.wf() && w.objects_view().len() == 0,
    {
        Ok(PackWriter { objects: Vec::new() })
    }

    /// Adds an object; an id already present gets the new data in its place.
    pub fn add_object(&mut self, id: ObjectId, data: Vec<u8>)
        requires
            old(self).wf(),
        ensures
            final(self).wf(),
            (exists|i: int| 0 <= i < old(self).objects_view().len() && #[trigger] old(self).objects_view()[i].0@ == id@)
                ==> exists|i: int| 0 <= i < old(self).objects_view().len() && #[trigger] old(self).objects_view()[i].0@ == id@
                    && final(self).objects_view() == old(self).objects_view().update(i, (id, data)),
            !(exists|i: int| 0 <= i < old(self).objects_view().len() && #[trigger] old(self).objects_view()[i].0@ == id@)
                ==> final(self).objects_view() == old(self).objects_view().push((id, data)),
    {
        let mut i: usize = 0;
        while i < self.objects.len()
            invariant
                i <= self.objects@.len(),
                self.objects@ == old(self).objects@,
                distinct_ids(old(self).objects@),
                forall|j: int| 0 <= j < i ==> #[trigger] self.objects@[j].0@ != id@,
            decreases self.objects.len() - i,
        {
            if self.objects[i].0 == id {
                let ghost before = self.objects@;
                self.objects.set(i, (id, data));
                proof {
                    assert(self.objects@ == before.update(i as int, (id, data)));
                    assert(before[i as int].0@ == id@);
                    assert forall|a: int, b: int| 0 <= a < self.objects@.len() && 0 <= b < self.objects@.len() && a != b
                        implies #[trigger] self.objects@[a].0@ != #[trigger] self.objects@[b].0@ by {
                        assert(before[a].0@ != before[b].0@);
                    }
                }
                return;
            }
            i = i + 1;
        }
        let ghost before = self.objects@;
        self.objects.push((id, data));
        proof {
            assert forall|a: int, b: int| 0 <= a < self.objects@.len() && 0 <= b < self.objects@.len() && a != b
                implies #[trigger] self.objects@[a].0@ != #[trigger] self.objects@[b].0@ by {
                if a < before.len() && b < before.len() {
                    assert(before[a].0@ != before[b].0@);
                } else if a < before.len() {
                    assert(before[a].0@ != id@);
                } else {
                    assert(before[b].0@ != id@);
                }
            }
        }
    }

    /// The pack's bytes and index.
    pub fn encode(&self) -> (r: Result<(Vec<u8>, PackIndex), String>)
        ensures
            r is Ok,
            r matches Ok(p) ==> p.0@ == pack_bytes(self.objects_view()) && p.1.entries@.len() == self.objects_view().len()
                && forall|i: int| 0 <= i < p.1.entries@.len() ==> {
                    &&& (#[trigger] p.1.entries@[i]).object_id == self.objects_view()[i].0
                    &&& p.1.entries@[i].size == self.objects_view()[i].1@.len()
                    &&& p.1.entries@[i].offset == record_offset(self.objects_view(), i)
                },
    {
        let mut buf: Vec<u8> = Vec::new();
        push_le32(&mut buf, PACK_VERSION);
        push_le32(&mut buf, self.objects.len() as u32);
        let ghost head = buf@;
        let mut entries: Vec<PackEntry> = Vec::new();
        let mut i: usize = 0;
        assert(self.objects@.take(0) =~= Seq::<(ObjectId, Vec<u8>)>::empty());
        while i < self.objects.len()
            invariant
                i <= self.objects@.len(),
                head.len() == 8,
                head == le32(PACK_VERSION) + le32(self.objects@.len() as u32),
                buf@ == head + pack_body(self.objects@.take(i as int)),
                entries@.len() == i,
                forall|k: int| 0 <= k < i ==> {
                    &&& (#[trigger] entries@[k]).object_id == self.objects@[k].0
                    &&& entries@[k].size == self.objects@[k].1@.len()
                    &&& entries@[k].offset == record_offset(self.objects@, k)
                },
            decreases self.objects.len() - i,
        {
            let id = self.objects[i].0;
            let data = &self.objects[i].1;
            let compressed = match crate::codec::zstd_compress(data.as_slice(), 0) {
                Ok(c) => c,
                Err(_) => {
                    return Err(crate::text::to_owned("Failed to compress data"));
                },
            };
            let off = buf.len() as u64;
            buf.push(1u8);
            push_le32(&mut buf, data.len() as u32);
            push_all(&mut buf, vstd::array::array_as_slice(&id.0));
            push_le32(&mut buf, compressed.len() as u32);
            push_all(&mut buf, compressed.as_slice());
            entries.push(PackEntry { object_id: id, offset: off, size: data.len() as u64 });
            proof {
                let t = self.objects@.take(i + 1);
                assert(t.drop_last() =~= self.objects@.take(i as int));
                assert(t.last() == self.objects@[i as int]);
                assert(buf@ =~= head + pack_body(t));
                assert(off == record_offset(self.objects@, i as int));
            }
            i = i + 1;
        }
        assert(self.objects@.take(self.objects@.len() as int) =~= self.objects@);
        Ok((buf, PackIndex { entries }))
    }
}

/// Reads the records of a pack one after another from offset 8: the index, or `None`
/// where a record does not lie whole within the data.
fn scan_records(data: &[u8], count: u32) -> (r: Option<Vec<PackEntry>>)
    requires
        data@.len() >= 8,
    ensures
        r is Some <==> scan(data@, 8, count as nat) is Some,
        r matches Some(v) ==> entries_view(v@) == scan(data@, 8, count as nat).unwrap(),
{
    let mut entries: Vec<PackEntry> = Vec::new();
    let mut pos: usize = 8;
    let mut i: u32 = 0;
    while i < count
        invariant
            i <= count,
            data@.len() >= 8,
            scan(data@, 8, i as nat) is Some,
            entries_view(entries@) == scan(data@, 8, i as nat).unwrap(),
            pos == scan_end(data@, 8, i as nat),
            pos <= data@.len(),
        decreases count - i,
    {
        proof {
            lemma_scan_snoc(data@, 8, i as nat);
        }
        if data.len() - pos < 41 {
            proof {
                lemma_scan_shorter_none(data@, i, count);
            }
            return None;
        }
        let csize = read_le32(data, pos + 37);
        if ((data.len() - pos - 41) as u64) < (csize as u64) {
            proof {
                lemma_scan_shorter_none(data@, i, count);
            }
            return None;
        }
        let size = read_le32(data, pos + 1);
        let mut arr = [0u8; 32];
        let mut j: usize = 0;
        while j < 32
            invariant
                j <= 32,
                pos + 37 <= data.len(),
                forall|t: int| 0 <= t < j ==> arr@[t] == data@[pos + 5 + t],
            decreases 32 - j,
        {
            arr.set(j, data[pos + 5 + j]);
            j = j + 1;
        }
        assert(arr@ =~= data@.subrange(pos + 5, pos + 37));
        let ghost before = entries@;
        entries.push(PackEntry { object_id: ObjectId(arr), offset: pos as u64, size: size as u64 });
        proof {
            let sc = scan(data@, 8, (i + 1) as nat).unwrap();
            assert(entries_view(entries@) =~= sc) by {
                assert(sc == scan(data@, 8, i as nat).unwrap().push(record_entry(data@, pos as nat)));
                assert forall|t: int| 0 <= t < before.len() implies entries_view(entries@)[t] == entries_view(before)[t] by {
                    assert(entries@[t] == before[t]);
                }
            }
        }
        pos = pos + 41 + csize as usize;
        i = i + 1;
    }
    Some(entries)
}

/// Once a scan fails at record `i`, it fails for any longer count.
proof fn lemma_scan_shorter_none(data: Seq<u8>, i: u32, count: u32)
    requires
        i < count,
        scan(data, 8, i as nat) is Some,
        !record_fits(data, scan_end(data, 8, i as nat)),
    ensures
        scan(data, 8, count as nat) is None,
{
    lemma_scan_snoc(data, 8, i as nat);
    if scan(data, 8, count as nat) is Some {
        lemma_scan_shorter(data, 8, (i + 1) as nat, count as nat);
    }
}

/// What a reader's index holds for the records of `objs` placed from offset `base`.
pub open spec fn expected_entries(objs: Seq<(ObjectId, Vec<u8>)>, base: nat) -> Seq<(Seq<u8>, nat, nat)> {
    Seq::new(objs.len(), |i: int| (objs[i].0@, base + pack_body(objs.take(i)).len(), objs[i].1@.len()))
}

/// Sizes that the pack format can hold: each object, and each compressed object,
/// under 4 GiB.
pub open spec fn sizes_fit(objs: Seq<(ObjectId, Vec<u8>)>) -> bool {
    forall|i: int| 0 <= i < objs.len() ==> (#[trigger] objs[i]).1@.len() < 0x1_0000_0000
        && zstd_frame(objs[i].1@, 0).len() < 0x1_0000_0000
}

/// Reading the one record of `o`, placed at the end of `a` and followed by `t`.
proof fn lemma_read_record(a: Seq<u8>, o: (ObjectId, Vec<u8>), t: Seq<u8>)
    requires
        o.1@.len() < 0x1_0000_0000,
        zstd_frame(o.1@, 0).len() < 0x1_0000_0000,
    ensures
        ({
            let c = zstd_frame(o.1@, 0);
            let data = a + record(o.0@, o.1@.len(), c) + t;
            &&& record_fits(data, a.len())
            &&& stored_csize(data, a.len()) == c.len()
            &&& record_entry(data, a.len()) == (o.0@, a.len(), o.1@.len())
            &&& payload(data, a.len()) == c
            &&& a.len() + 41 + stored_csize(data, a.len()) == a.len() + record(o.0@, o.1@.len(), c).len()
        }),
{
    let c = zstd_frame(o.1@, 0);
    let size = o.1@.len();
    let r = record(o.0@, size, c);
    let data = a + r + t;
    let p = a.len() as int;
    assert(o.0@.len() == 32);
    lemma_le32_roundtrip(size as u32);
    lemma_le32_roundtrip(c.len() as u32);
    assert(data.subrange(p + 1, p + 5) =~= le32(size as u32));
    assert(data.subrange(p + 5, p + 37) =~= o.0@);
    assert(data.subrange(p + 37, p + 41) =~= le32(c.len() as u32));
    assert(stored_csize(data, a.len()) == c.len());
    assert(data.subrange(p + 41, p + 41 + c.len()) =~= c);
}

/// Scanning the records of `objs`, placed after `h` and followed by `t`, finds each
/// object's id, offset and size, and its compressed bytes as the payload.
proof fn lemma_body_scan(h: Seq<u8>, objs: Seq<(ObjectId, Vec<u8>)>, t: Seq<u8>)
    requires
        sizes_fit(objs),
    ensures
        ({
            let data = h + pack_body(objs) + t;
            &&& scan(data, h.len(), objs.len()) == Some(expected_entries(objs, h.len()))
            &&& scan_end(data, h.len(), objs.len()) == h.len() + pack_body(objs).len()
            &&& forall|i: int| 0 <= i < objs.len() ==> payload(data, #[trigger] expected_entries(objs, h.len())[i].1)
                == zstd_frame(objs[i].1@, 0)
        }),
    decreases objs.len(),
{
    let data = h + pack_body(objs) + t;
    if objs.len() == 0 {
        assert(expected_entries(objs, h.len()) =~= Seq::<(Seq<u8>, nat, nat)>::empty());
    } else {
        let n = objs.len();
        let prev = objs.drop_last();
        let o = objs.last();
        let c = zstd_frame(o.1@, 0);
        let r = record(o.0@, o.1@.len(), c);
        let a = h + pack_body(prev);
        assert(sizes_fit(prev)) by {
            assert forall|i: int| 0 <= i < prev.len() implies (#[trigger] prev[i]).1@.len() < 0x1_0000_0000
                && zstd_frame(prev[i].1@, 0).len() < 0x1_0000_0000 by {
                assert(prev[i] == objs[i]);
            }
        }
        assert(objs[n - 1] == o);
        lemma_body_scan(h, prev, r + t);
        assert(data =~= h + pack_body(prev) + (r + t));
        assert(data =~= a + r + t);
        lemma_read_record(a, o, t);
        lemma_scan_snoc(data, h.len(), (n - 1) as nat);
        assert(prev.len() == n - 1);
        let e_prev = expected_entries(prev, h.len());
        let e = expected_entries(objs, h.len());
        assert forall|i: int| 0 <= i < n - 1 implies #[trigger] objs.take(i) == prev.take(i) by {
            assert(objs.take(i) =~= prev.take(i));
        }
        assert(objs.take(n - 1) =~= prev);
        assert(e =~= e_prev.push((o.0@, a.len(), o.1@.len()))) by {
            assert forall|i: int| 0 <= i < n implies #[trigger] e[i] == e_prev.push((o.0@, a.len(), o.1@.len()))[i] by {
                if i < n - 1 {
                    assert(objs.take(i) == prev.take(i));
                    assert(prev[i] == objs[i]);
                }
            }
        }
        assert forall|i: int| 0 <= i < n implies payload(data, #[trigger] e[i].1) == zstd_frame(objs[i].1@, 0) by {
            if i < n - 1 {
                assert(e[i] == e_prev[i]);
                assert(prev[i] == objs[i]);
            }
        }
    }
}

/// A pack that the writer encodes reads back: the reader accepts its bytes, and its
/// index lists each object's id, record offset and size, in order, with the object's
/// compressed bytes as the record's payload. Where no id occurs twice, each object's
/// own record is the first with its id; an id that no object has has no entry.
pub proof fn law_pack_roundtrip(objs: Seq<(ObjectId, Vec<u8>)>)
    requires
        sizes_fit(objs),
        objs.len() < 0x1_0000_0000,
    ensures
        readable(pack_bytes(objs)),
        stored_version(pack_bytes(objs)) == PACK_VERSION,
        stored_count(pack_bytes(objs)) == objs.len(),
        scan(pack_bytes(objs), 8, objs.len()) == Some(expected_entries(objs, 8)),
        forall|i: int| 0 <= i < objs.len() ==> {
            &&& (#[trigger] expected_entries(objs, 8)[i]).1 == record_offset(objs, i)
            &&& payload(pack_bytes(objs), record_offset(objs, i)) == zstd_frame(objs[i].1@, 0)
        },
        distinct_ids(objs) ==> forall|i: int| 0 <= i < objs.len()
            ==> #[trigger] first_match(expected_entries(objs, 8), objs[i].0@, i),
        forall|id: Seq<u8>, k: int| (forall|i: int| 0 <= i < objs.len() ==> objs[i].0@ != id)
            ==> !#[trigger] first_match(expected_entries(objs, 8), id, k),
{
    let h = le32(PACK_VERSION) + le32(objs.len() as u32);
    let data = pack_bytes(objs);
    lemma_le32_roundtrip(PACK_VERSION);
    lemma_le32_roundtrip(objs.len() as u32);
    assert(data.subrange(0, 4) =~= le32(PACK_VERSION));
    assert(data.subrange(4, 8) =~= le32(objs.len() as u32));
    lemma_body_scan(h, objs, Seq::empty());
    assert(h + pack_body(objs) + Seq::<u8>::empty() =~= data);
    assert(h.len() == 8);
    if distinct_ids(objs) {
        let e = expected_entries(objs, 8);
        assert forall|i: int| 0 <= i < objs.len() implies #[trigger] first_match(e, objs[i].0@, i) by {
            assert forall|j: int| 0 <= j < i implies (#[trigger] e[j]).0 != objs[i].0@ by {
                assert(objs[j].0@ != objs[i].0@);
            }
        }
    }
}

impl PackReader {
    /// The entries of the index: id bytes, record offset and uncompressed size.
    pub closed spec fn entries(&self) -> Seq<(Seq<u8>, nat, nat)> {
        entries_view(self.index.entries@)
    }

    /// The pack's bytes.
    pub closed spec fn bytes(&self) -> Seq<u8> {
        self.data@
    }

    /// Every entry's record lies whole within the bytes and says what the entry says.
    #[verifier::type_invariant]
    closed spec fn inv(&self) -> bool {
        forall|k: int| 0 <= k < self.index.entries@.len() ==> {
            let e = #[trigger] entries_view(self.index.entries@)[k];
            &&& record_fits(self.data@, e.1)
            &&& e == record_entry(self.data@, e.1)
        }
    }

    /// Whether `from_bytes` can take these bytes: a header, and for a known version
    /// all records whole.
    pub fn is_readable(data: &[u8]) -> (b: bool)
        ensures
            b == readable(data@),
    {
        if data.len() < 8 {
            return false;
        }
        let version = read_le32(data, 0);
        if version != PACK_VERSION {
            return true;
        }
        let count = read_le32(data, 4);
        scan_records(data, count).is_some()
    }

    /// Reads a pack from its bytes: the header, then every record's header, which
    /// makes the index. A pack of another version is refused.
    pub fn from_bytes(data: Vec<u8>) -> (r: Result<Self, String>)
        requires
            readable(data@),
        ensures
            r is Ok <==> stored_version(data@) == PACK_VERSION,
            r matches Ok(rd) ==> rd.bytes() == data@ && rd.entries() == scan(data@, 8, stored_count(data@)).unwrap(),
            r matches Err(e) ==> e@ == "Unknown pack version: "@ + decimal(stored_version(data@) as nat),
    {
        let version = read_le32(data.as_slice(), 0);
        if version != PACK_VERSION {
            let v = crate::text::u64_to_string(version as u64);
            let msg = crate::text::concat2("Unknown pack version: ", v.as_str());
            return Err(msg);
        }
        let count = read_le32(data.as_slice(), 4);
        match scan_records(data.as_slice(), count) {
            Some(entries) => {
                proof {
                    lemma_scan_entries(data@, 8, count as nat);
                }
                Ok(PackReader { index: PackIndex { entries }, data })
            },
            None => vstd::pervasive::unreached(),
        }
    }

    /// The object with id `id`, decompressed; `None` where the index has no such id.
    /// Where the id occurs more than once the first record counts.
    pub fn get_object(&self, id: ObjectId) -> (r: Result<Option<Vec<u8>>, String>)
        ensures
            (forall|k: int| !first_match(self.entries(), id@, k)) ==> r matches Ok(None),
            forall|k: int| #[trigger] first_match(self.entries(), id@, k) ==> {
                &&& !(r matches Ok(None))
                &&& forall|d: Seq<u8>, l: i32| #[trigger] zstd_frame(d, l) == payload(self.bytes(), self.entries()[k].1)
                    ==> (r matches Ok(Some(v)) && v@ == d)
            },
            r matches Err(e) ==> e@ == "Failed to decompress object"@,
    {
        proof {
            use_type_invariant(self);
        }
        let mut k: usize = 0;
        while k < self.index.entries.len()
            invariant
                k <= self.index.entries@.len(),
                forall|j: int| 0 <= j < k ==> (#[trigger] self.entries()[j]).0 != id@,
            decreases self.index.entries.len() - k,
        {
            proof {
                use_type_invariant(self);
            }
            let e = self.index.entries[k];
            if e.object_id == id {
                let ghost ek = self.entries()[k as int];
                assert(ek.1 == e.offset);
                assert(ek == entries_view(self.index.entries@)[k as int]);
                assert(record_fits(self.data@, ek.1));
                assert(ek == record_entry(self.data@, ek.1));
                assert(first_match(self.entries(), id@, k as int));
                let dlen = self.data.len();
                assert(e.offset + 41 <= dlen);
                let off = e.offset as usize;
                let csize = read_le32(self.data.as_slice(), off + 37);
                let compressed = copy_range(self.data.as_slice(), off + 41, off + 41 + csize as usize);
                let res = crate::codec::zstd_decompress(compressed.as_slice());
                proof {
                    assert forall|kk: int| #[trigger] first_match(self.entries(), id@, kk) implies kk == k by {
                        if kk < k {
                            assert(self.entries()[kk].0 != id@);
                        } else if kk > k {
                            assert(self.entries()[k as int].0 != id@);
                        }
                    }
                }
                return match res {
                    Ok(v) => Ok(Some(v)),
                    Err(_) => Err(crate::text::to_owned("Failed to decompress object")),
                };
            }
            k = k + 1;
        }
        Ok(None)
    }

    /// The ids of the index, in order.
    pub fn object_ids(&self) -> (r: Vec<ObjectId>)
        ensures
            r@.len() == self.entries().len(),
            forall|k: int| 0 <= k < r@.len() ==> (#[trigger] r@[k])@ == self.entries()[k].0,
    {
        let mut r: Vec<ObjectId> = Vec::new();
        let mut k: usize = 0;
        while k < self.index.entries.len()
            invariant
                k <= self.index.entries@.len(),
                r@.len() == k,
                forall|j: int| 0 <= j < k ==> (#[trigger] r@[j])@ == self.entries()[j].0,
            decreases self.index.entries.len() - k,
        {
            r.push(self.index.entries[k].object_id);
            k = k + 1;
        }
        r
    }
}


/// What a writer's objects read back as through the reader: given the reader that
/// `from_bytes` makes of the encoded pack, each object's id finds its own record
/// first, whose payload is the object's compressed data (so `get_object` gives the
/// object's data), and an id that no object has finds no record (so `get_object`
/// gives `None`). The writer keeps ids distinct, the last data added for an id
/// replacing the earlier.
pub proof fn law_pack_reads_back(objs: Seq<(ObjectId, Vec<u8>)>, r: PackReader)
    requires
        distinct_ids(objs),
        sizes_fit(objs),
        objs.len() < 0x1_0000_0000,
        r.bytes() == pack_bytes(objs),
        r.entries() == scan(pack_bytes(objs), 8, stored_count(pack_bytes(objs))).unwrap(),
    ensures
        forall|i: int| 0 <= i < objs.len() ==> #[trigger] first_match(r.entries(), objs[i].0@, i),
        forall|i: int| 0 <= i < objs.len() ==> payload(r.bytes(), (#[trigger] r.entries()[i]).1)
            == zstd_frame(objs[i].1@, 0),
        forall|id: Seq<u8>, k: int| (forall|i: int| 0 <= i < objs.len() ==> objs[i].0@ != id)
            ==> !#[trigger] first_match(r.entries(), id, k),
{
    law_pack_roundtrip(objs);
    assert(r.entries() == expected_entries(objs, 8));
    assert forall|i: int| 0 <= i < objs.len() implies payload(r.bytes(), (#[trigger] r.entries()[i]).1)
        == zstd_frame(objs[i].1@, 0) by {
        assert(expected_entries(objs, 8)[i].1 == record_offset(objs, i));
    }
}

} // verus!
