//! Transfer bookkeeping between repositories: statistics, object compression, where
//! objects lie, and the comparison of two trees after a sync.
use vstd::prelude::*;
use crate::object::ObjectId;
use crate::strmap::{StrMap, assoc_map, assoc_keys, lemma_assoc_at};
use crate::codec::{zstd_frame, zstd_compress, zstd_decompress};
use crate::text::{concat2, decimal, u64_to_string, to_owned};

verus! {

/// Statistics of a transfer.
#[derive(Debug, Clone)]
pub struct TransferStats {
    /// Revisions transferred.
    pub revisions: u64,
    /// Objects transferred.
    pub objects_transferred: u64,
    /// Objects skipped (already present).
    pub objects_skipped: u64,
    /// Raw bytes (uncompressed).
    pub raw_bytes: u64,
    /// Compressed bytes.
    pub compressed_bytes: u64,
    /// Time spent, in milliseconds.
    pub duration_ms: u64,
}

impl Default for TransferStats {
    fn default() -> (s: Self)
        ensures
            s.revisions == 0 && s.objects_transferred == 0 && s.objects_skipped == 0 && s.raw_bytes == 0
                && s.compressed_bytes == 0 && s.duration_ms == 0,
    {
        TransferStats {
            revisions: 0,
            objects_transferred: 0,
            objects_skipped: 0,
            raw_bytes: 0,
            compressed_bytes: 0,
            duration_ms: 0,
        }
    }
}

impl TransferStats {
    /// Where no object was compressed but bytes were seen, the compressed size is the
    /// raw size.
    pub fn settle_compressed(&mut self)
        ensures
            final(self).compressed_bytes == if old(self).compressed_bytes == 0 && old(self).raw_bytes > 0 {
                old(self).raw_bytes
            } else {
                old(self).compressed_bytes
            },
            final(self).revisions == old(self).revisions,
            final(self).objects_transferred == old(self).objects_transferred,
            final(self).objects_skipped == old(self).objects_skipped,
            final(self).raw_bytes == old(self).raw_bytes,
            final(self).duration_ms == old(self).duration_ms,
    {
        if self.compressed_bytes == 0 && self.raw_bytes > 0 {
            self.compressed_bytes = self.raw_bytes;
        }
    }
}

/// Compresses an object with zstd at level 3.
pub fn compress_object(data: &[u8]) -> (r: Result<Vec<u8>, String>)
    ensures
        r matches Ok(v) && v@ == zstd_frame(data@, 3),
{
    match zstd_compress(data, 3) {
        Ok(v) => Ok(v),
        Err(e) => Err(concat2("Compression failed: ", e.as_str())),
    }
}

/// Decompresses an object; a frame that `compress_object` made gives back the data.
pub fn decompress_object(data: &[u8]) -> (r: Result<Vec<u8>, String>)
    ensures
        forall|d: Seq<u8>, l: i32| #[trigger] zstd_frame(d, l) == data@ ==> (r matches Ok(v) && v@ == d),
        r matches Err(e) ==> crate::text::starts_with(e@, "Decompression failed: "@),
{
    match zstd_decompress(data) {
        Ok(v) => Ok(v),
        Err(e) => {
            let m = concat2("Decompression failed: ", e.as_str());
            proof {
                assert(m@.subrange(0, "Decompression failed: "@.len() as int) =~= "Decompression failed: "@);
            }
            Err(m)
        },
    }
}

/// Where an object lies below a repository: `objects/<first two hex digits>/<rest>`.
pub open spec fn object_rel_path(hex: Seq<char>) -> Seq<char> {
    "objects/"@ + hex.subrange(0, 2) + seq!['/'] + hex.subrange(2, hex.len() as int)
}

/// The path of an object below its repository.
pub fn object_path_of(id: &ObjectId) -> (p: String)
    ensures
        p@ == object_rel_path(crate::object::hex_lower(id@)),
{
    let h = id.to_hex();
    let v = crate::text::chars_of(h.as_str());
    proof {
        crate::object::lemma_hex_lower_len(id@);
    }
    let a = crate::text::string_of_range(&v, 0, 2);
    let b = crate::text::string_of_range(&v, 2, v.len());
    let s1 = concat2("objects/", a.as_str());
    let s2 = concat2(s1.as_str(), "/");
    proof {
        reveal_strlit("/");
    }
    concat2(s2.as_str(), b.as_str())
}

// ─────────────────────────── verification ───────────────────────────

/// Result of comparing two trees at a revision.
#[derive(Debug)]
pub struct VerifyResult {
    pub revision: u64,
    pub source_entries: usize,
    pub dest_entries: usize,
    pub mismatches: Vec<String>,
    pub missing_in_dest: Vec<String>,
    pub extra_in_dest: Vec<String>,
    pub ok: bool,
}

/// The keys of `ks`, in order, for which `pred` holds.
pub open spec fn keys_where(ks: Seq<Seq<char>>, pred: spec_fn(Seq<char>) -> bool) -> Seq<Seq<char>>
    decreases ks.len(),
{
    if ks.len() == 0 {
        Seq::empty()
    } else {
        let rest = keys_where(ks.drop_last(), pred);
        if pred(ks.last()) { rest.push(ks.last()) } else { rest }
    }
}

/// Paths of the source whose object differs in the destination.
pub open spec fn mismatched(src: Map<Seq<char>, ObjectId>, dst: Map<Seq<char>, ObjectId>) -> spec_fn(Seq<char>) -> bool {
    |k: Seq<char>| dst.contains_key(k) && dst[k]@ != src[k]@
}

/// Paths missing from the other tree.
pub open spec fn absent_from(other: Map<Seq<char>, ObjectId>) -> spec_fn(Seq<char>) -> bool {
    |k: Seq<char>| !other.contains_key(k)
}

/// Compares the trees of a revision in two repositories, each a map from path to
/// object: paths whose objects differ and paths missing from the destination, in the
/// source's order, and paths only in the destination, in its order.
pub fn compare_trees(revision: u64, source: &StrMap<ObjectId>, dest: &StrMap<ObjectId>) -> (r: VerifyResult)
    requires
        source.wf(),
        dest.wf(),
    ensures
        r.revision == revision,
        r.source_entries == source.keys_view().len(),
        r.dest_entries == dest.keys_view().len(),
        r.mismatches@.map_values(|s: String| s@) == keys_where(source.keys_view(), mismatched(source@, dest@)),
        r.missing_in_dest@.map_values(|s: String| s@) == keys_where(source.keys_view(), absent_from(dest@)),
        r.extra_in_dest@.map_values(|s: String| s@) == keys_where(dest.keys_view(), absent_from(source@)),
        r.ok == (r.mismatches@.len() == 0 && r.missing_in_dest@.len() == 0 && r.extra_in_dest@.len() == 0),
{
    let se = source.entries();
    let de = dest.entries();
    let ghost sk = source.keys_view();
    let ghost dk = dest.keys_view();
    let mut mismatches: Vec<String> = Vec::new();
    let mut missing: Vec<String> = Vec::new();
    let mut i: usize = 0;
    while i < se.len()
        invariant
            i <= se@.len(),
            source.wf(),
            dest.wf(),
            se@ == source.entries_view(),
            sk == source.keys_view(),
            mismatches@.map_values(|s: String| s@) == keys_where(sk.subrange(0, i as int), mismatched(source@, dest@)),
            missing@.map_values(|s: String| s@) == keys_where(sk.subrange(0, i as int), absent_from(dest@)),
        decreases se@.len() - i,
    {
        let ghost bm = mismatches@;
        let ghost bx = missing@;
        let key = &se[i].0;
        let id = se[i].1;
        proof {
            lemma_assoc_at(se@, i as int);
            assert(sk.subrange(0, i + 1).drop_last() =~= sk.subrange(0, i as int));
            assert(sk.subrange(0, i + 1).last() == key@);
        }
        match dest.get(key.as_str()) {
            Some(did) => {
                if !(*did == id) {
                    mismatches.push(key.clone());
                    proof {
                        assert(mismatches@.map_values(|s: String| s@) =~= bm.map_values(|s: String| s@).push(key@));
                    }
                } else {
                    assert(mismatches@.map_values(|s: String| s@) =~= bm.map_values(|s: String| s@));
                }
                assert(missing@.map_values(|s: String| s@) =~= bx.map_values(|s: String| s@));
            },
            None => {
                missing.push(key.clone());
                proof {
                    assert(missing@.map_values(|s: String| s@) =~= bx.map_values(|s: String| s@).push(key@));
                    assert(mismatches@.map_values(|s: String| s@) =~= bm.map_values(|s: String| s@));
                }
            },
        }
        i = i + 1;
    }
    assert(sk.subrange(0, se@.len() as int) =~= sk);
    let mut extra: Vec<String> = Vec::new();
    let mut j: usize = 0;
    while j < de.len()
        invariant
            j <= de@.len(),
            source.wf(),
            dest.wf(),
            de@ == dest.entries_view(),
            dk == dest.keys_view(),
            extra@.map_values(|s: String| s@) == keys_where(dk.subrange(0, j as int), absent_from(source@)),
        decreases de@.len() - j,
    {
        let ghost bx = extra@;
        let key = &de[j].0;
        proof {
            assert(dk.subrange(0, j + 1).drop_last() =~= dk.subrange(0, j as int));
            assert(dk.subrange(0, j + 1).last() == key@);
        }
        if !source.contains_key(key.as_str()) {
            extra.push(key.clone());
            proof {
                assert(extra@.map_values(|s: String| s@) =~= bx.map_values(|s: String| s@).push(key@));
            }
        } else {
            assert(extra@.map_values(|s: String| s@) =~= bx.map_values(|s: String| s@));
        }
        j = j + 1;
    }
    assert(dk.subrange(0, de@.len() as int) =~= dk);
    let ok = mismatches.len() == 0 && missing.len() == 0 && extra.len() == 0;
    VerifyResult {
        revision,
        source_entries: se.len(),
        dest_entries: de.len(),
        mismatches,
        missing_in_dest: missing,
        extra_in_dest: extra,
        ok,
    }
}

} // verus!
