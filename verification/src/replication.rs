//! Wire protocol of repository replication: messages, content hashing and framing.
use vstd::prelude::*;
use crate::object::{DeltaTree, ObjectId, sha256};
use crate::codec::{le32, le64, from_le32, zstd_frame, push_le32, push_le64, push_all};
use crate::text::{concat2, concat3, decimal};

verus! {

/// Protocol version.
pub const PROTOCOL_VERSION: u32 = 1;

/// Magic bytes of the protocol, `DSVN`.
pub const PROTOCOL_MAGIC: [u8; 4] = [68u8, 83u8, 86u8, 78u8];

/// Maximum size of one message payload (256 MiB).
pub const MAX_MESSAGE_SIZE: usize = 268435456;

/// Compression method for transfer.
#[derive(Debug, Clone, Copy, PartialEq, Eq, Structural)]
pub enum Compression {
    /// No compression.
    Uncompressed,
    /// zstd.
    Zstd,
}

/// Handshake request from a sync client.
#[derive(Debug, Clone)]
pub struct HandshakeRequest {
    /// Protocol magic.
    pub magic: [u8; 4],
    /// Protocol version.
    pub version: u32,
    /// Preferred compression.
    pub compression: Compression,
    /// Client capabilities.
    pub capabilities: Vec<String>,
}

impl HandshakeRequest {
    /// The request of this client: current magic and version, zstd, and the
    /// capabilities incremental-sync, delta-transfer, checkpoint-resume, hash-verify.
    pub fn new() -> (r: Self)
        ensures
            r.magic@ == PROTOCOL_MAGIC@,
            r.version == PROTOCOL_VERSION,
            r.compression == Compression::Zstd,
            r.capabilities@.len() == 4,
            r.capabilities@[0]@ == "incremental-sync"@,
            r.capabilities@[1]@ == "delta-transfer"@,
            r.capabilities@[2]@ == "checkpoint-resume"@,
            r.capabilities@[3]@ == "hash-verify"@,
    {
        let mut caps: Vec<String> = Vec::new();
        caps.push(crate::text::to_owned("incremental-sync"));
        caps.push(crate::text::to_owned("delta-transfer"));
        caps.push(crate::text::to_owned("checkpoint-resume"));
        caps.push(crate::text::to_owned("hash-verify"));
        HandshakeRequest { magic: PROTOCOL_MAGIC, version: PROTOCOL_VERSION, compression: Compression::Zstd, capabilities: caps }
    }
}

/// Handshake response of a server.
#[derive(Debug, Clone)]
pub struct HandshakeResponse {
    pub version: u32,
    pub uuid: String,
    pub head_rev: u64,
    pub compression: Compression,
    pub capabilities: Vec<String>,
    pub accepted: bool,
    pub error: Option<String>,
}

/// Request for a range of revisions.
#[derive(Debug, Clone)]
pub struct SyncRequest {
    /// First revision (inclusive).
    pub from_rev: u64,
    /// Last revision (inclusive; 0 means up to HEAD).
    pub to_rev: u64,
    pub include_objects: bool,
    pub include_properties: bool,
}

/// One revision's data for transfer.
#[derive(Debug, Clone)]
pub struct RevisionData {
    pub revision: u64,
    pub author: String,
    pub message: String,
    pub timestamp: i64,
    /// Changes relative to the previous revision.
    pub delta_tree: DeltaTree,
    /// Object ids with their (compressed) bytes.
    pub objects: Vec<(ObjectId, Vec<u8>)>,
    /// Revision properties.
    pub properties: Vec<(String, String)>,
    /// Hash over all object data.
    pub content_hash: ObjectId,
}

/// The bytes that the content hash covers: for each object its id, the length of its
/// data as 8 little-endian bytes, and the data.
pub open spec fn content_stream(objects: Seq<(ObjectId, Vec<u8>)>) -> Seq<u8>
    decreases objects.len(),
{
    if objects.len() == 0 {
        Seq::empty()
    } else {
        let o = objects.last();
        content_stream(objects.drop_last()) + o.0@ + le64(o.1@.len() as u64) + o.1@
    }
}

/// The bytes one object adds to the content stream.
spec fn object_entry(o: (ObjectId, Vec<u8>)) -> Seq<u8> {
    o.0@ + le64(o.1@.len() as u64) + o.1@
}

/// Whether every object's data has a length that a `u64` holds.
pub open spec fn data_lengths_fit(objects: Seq<(ObjectId, Vec<u8>)>) -> bool {
    forall|i: int| 0 <= i < objects.len() ==> #[trigger] objects[i].1@.len() <= u64::MAX
}

proof fn lemma_stream_front(a: Seq<(ObjectId, Vec<u8>)>)
    requires
        a.len() > 0,
    ensures
        content_stream(a) == object_entry(a[0]) + content_stream(a.drop_first()),
    decreases a.len(),
{
    if a.len() == 1 {
        assert(a.drop_last() =~= Seq::<(ObjectId, Vec<u8>)>::empty());
        assert(a.drop_first() =~= Seq::<(ObjectId, Vec<u8>)>::empty());
        assert(a.last() == a[0]);
        assert(Seq::<u8>::empty() + a[0].0@ + le64(a[0].1@.len() as u64) + a[0].1@ =~= object_entry(a[0]) + Seq::<u8>::empty());
    } else {
        lemma_stream_front(a.drop_last());
        assert(a.drop_last()[0] == a[0]);
        assert(a.drop_last().drop_first() =~= a.drop_first().drop_last());
        assert(a.drop_first().last() == a.last());
        assert(content_stream(a) =~= object_entry(a[0]) + content_stream(a.drop_first()));
    }
}

proof fn lemma_le64_injective(x: u64, y: u64)
    requires
        le64(x) == le64(y),
    ensures
        x == y,
{
    let lx = (x % 4294967296) as u32;
    let hx = (x / 4294967296) as u32;
    let ly = (y % 4294967296) as u32;
    let hy = (y / 4294967296) as u32;
    crate::codec::lemma_le32_roundtrip(lx);
    crate::codec::lemma_le32_roundtrip(hx);
    crate::codec::lemma_le32_roundtrip(ly);
    crate::codec::lemma_le32_roundtrip(hy);
    assert(le64(x).subrange(0, 4) =~= le32(lx));
    assert(le64(y).subrange(0, 4) =~= le32(ly));
    assert(le64(x).subrange(4, 8) =~= le32(hx));
    assert(le64(y).subrange(4, 8) =~= le32(hy));
    assert(lx == ly);
    assert(hx == hy);
    assert(x == (x / 4294967296) * 4294967296 + x % 4294967296);
    assert(y == (y / 4294967296) * 4294967296 + y % 4294967296);
}

proof fn lemma_le64_len(x: u64)
    ensures
        le64(x).len() == 8,
{
    crate::codec::lemma_le32_roundtrip((x % 4294967296) as u32);
    crate::codec::lemma_le32_roundtrip((x / 4294967296) as u32);
}

proof fn lemma_entries_split(ia: Seq<u8>, da: Seq<u8>, ra: Seq<u8>, ib: Seq<u8>, db: Seq<u8>, rb: Seq<u8>)
    requires
        ia.len() == 32,
        ib.len() == 32,
        da.len() <= u64::MAX,
        db.len() <= u64::MAX,
        ia + le64(da.len() as u64) + da + ra == ib + le64(db.len() as u64) + db + rb,
    ensures
        ia == ib,
        da == db,
        ra == rb,
{
    let s = ia + le64(da.len() as u64) + da + ra;
    let t = ib + le64(db.len() as u64) + db + rb;
    lemma_le64_len(da.len() as u64);
    lemma_le64_len(db.len() as u64);
    assert(s.subrange(0, 32) =~= ia);
    assert(t.subrange(0, 32) =~= ib);
    assert(s.subrange(32, 40) =~= le64(da.len() as u64));
    assert(t.subrange(32, 40) =~= le64(db.len() as u64));
    lemma_le64_injective(da.len() as u64, db.len() as u64);
    let l = da.len() as int;
    assert(l == db.len());
    assert(s.subrange(40, 40 + l) =~= da);
    assert(t.subrange(40, 40 + l) =~= db);
    assert(s.subrange(40 + l, s.len() as int) =~= ra);
    assert(t.subrange(40 + l, t.len() as int) =~= rb);
}

proof fn lemma_id_len(id: ObjectId)
    ensures
        id@.len() == 32,
{
    broadcast use vstd::array::group_array_axioms;
    assert(id.0@.len() == 32);
}

proof fn lemma_fit_drop_first(a: Seq<(ObjectId, Vec<u8>)>)
    requires
        a.len() > 0,
        data_lengths_fit(a),
    ensures
        data_lengths_fit(a.drop_first()),
{
    assert forall|i: int| 0 <= i < a.drop_first().len() implies #[trigger] a.drop_first()[i].1@.len() <= u64::MAX by {
        assert(a.drop_first()[i] == a[i + 1]);
    }
}

/// The content stream identifies the objects: two object lists with the same stream
/// have the same ids and the same data, in the same order. So the content hash
/// covers each object's data as well as its id.
#[verifier::spinoff_prover]
#[verifier::rlimit(40)]
pub proof fn law_content_stream_identifies_objects(a: Seq<(ObjectId, Vec<u8>)>, b: Seq<(ObjectId, Vec<u8>)>)
    requires
        data_lengths_fit(a),
        data_lengths_fit(b),
        content_stream(a) == content_stream(b),
    ensures
        a.len() == b.len(),
        forall|i: int| 0 <= i < a.len() ==> (#[trigger] a[i]).0@ == b[i].0@ && a[i].1@ == b[i].1@,
    decreases a.len(),
{
    if a.len() == 0 {
        if b.len() > 0 {
            lemma_stream_front(b);
            lemma_id_len(b[0].0);
            assert(content_stream(b).len() >= 32);
            assert(content_stream(a).len() == 0);
        }
    } else if b.len() == 0 {
        lemma_stream_front(a);
        lemma_id_len(a[0].0);
        assert(content_stream(a).len() >= 32);
        assert(content_stream(b).len() == 0);
    } else {
        lemma_stream_front(a);
        lemma_stream_front(b);
        lemma_id_len(a[0].0);
        lemma_id_len(b[0].0);
        assert(a[0].1@.len() <= u64::MAX);
        assert(b[0].1@.len() <= u64::MAX);
        lemma_entries_split(
            a[0].0@,
            a[0].1@,
            content_stream(a.drop_first()),
            b[0].0@,
            b[0].1@,
            content_stream(b.drop_first()),
        );
        lemma_fit_drop_first(a);
        lemma_fit_drop_first(b);
        law_content_stream_identifies_objects(a.drop_first(), b.drop_first());
        assert forall|i: int| 0 <= i < a.len() implies (#[trigger] a[i]).0@ == b[i].0@ && a[i].1@ == b[i].1@ by {
            if i > 0 {
                assert(a.drop_first()[i - 1] == a[i]);
                assert(b.drop_first()[i - 1] == b[i]);
            }
        }
    }
}

/// Changing the data of one object, with the ids left as they are, changes the
/// content stream, so a revision whose data was tampered with no longer matches
/// the hash of the original stream.
pub proof fn law_content_stream_covers_data(a: Seq<(ObjectId, Vec<u8>)>, b: Seq<(ObjectId, Vec<u8>)>, k: int)
    requires
        data_lengths_fit(a),
        data_lengths_fit(b),
        0 <= k < a.len(),
        a[k].1@ != b[k].1@,
    ensures
        content_stream(a) != content_stream(b),
{
    if content_stream(a) == content_stream(b) {
        law_content_stream_identifies_objects(a, b);
        assert(a[k].1@ == b[k].1@);
    }
}

impl RevisionData {
    /// SHA-256 over the ids, lengths and data of all objects, in order.
    pub fn compute_content_hash(objects: &Vec<(ObjectId, Vec<u8>)>) -> (h: ObjectId)
        ensures
            h@ == sha256(content_stream(objects@)),
    {
        let mut buf: Vec<u8> = Vec::new();
        let mut i: usize = 0;
        assert(objects@.take(0) =~= Seq::<(ObjectId, Vec<u8>)>::empty());
        while i < objects.len()
            invariant
                i <= objects@.len(),
                buf@ == content_stream(objects@.take(i as int)),
            decreases objects.len() - i,
        {
            let id = &objects[i].0;
            let data = &objects[i].1;
            push_all(&mut buf, vstd::array::array_as_slice(&id.0));
            push_le64(&mut buf, data.len() as u64);
            push_all(&mut buf, data.as_slice());
            assert(objects@.take(i + 1).drop_last() =~= objects@.take(i as int));
            i = i + 1;
        }
        assert(objects@.take(objects@.len() as int) =~= objects@);
        ObjectId::from_data(buf.as_slice())
    }

    /// Whether the stored content hash matches the objects.
    pub fn verify_content_hash(&self) -> (b: bool)
        ensures
            b == (self.content_hash@ == sha256(content_stream(self.objects@))),
    {
        let computed = Self::compute_content_hash(&self.objects);
        computed == self.content_hash
    }
}

/// Acknowledgment of one revision.
#[derive(Debug, Clone)]
pub struct SyncAck {
    pub revision: u64,
    pub success: bool,
    pub error: Option<String>,
    /// Content hash as the receiver computed it.
    pub received_hash: ObjectId,
}

/// End of a sync.
#[derive(Debug, Clone)]
pub struct SyncComplete {
    pub from_rev: u64,
    pub to_rev: u64,
    pub revisions_synced: u64,
    pub objects_transferred: u64,
    pub bytes_transferred: u64,
    pub duration_ms: u64,
    pub success: bool,
}

/// Envelope of all protocol messages.
#[derive(Debug, Clone)]
pub enum SyncMessage {
    HandshakeRequest(HandshakeRequest),
    HandshakeResponse(HandshakeResponse),
    SyncRequest(SyncRequest),
    RevisionData(RevisionData),
    SyncAck(SyncAck),
    SyncComplete(SyncComplete),
    /// Keep-alive.
    Ping,
    Pong,
    /// Error message.
    Error(String),
}

/// Summary of a source repository for sync negotiation.
#[derive(Debug, Clone)]
pub struct RepositoryInfo {
    pub uuid: String,
    pub head_rev: u64,
    pub youngest_rev: u64,
}

/// A plain frame: the payload length as 4 little-endian bytes, then the payload.
pub open spec fn plain_frame(payload: Seq<u8>) -> Seq<u8> {
    le32(payload.len() as u32) + payload
}

/// A compressed frame: magic, flag byte 1, payload length, compressed length, and the
/// compressed bytes.
pub open spec fn compressed_frame(payload: Seq<u8>, compressed: Seq<u8>) -> Seq<u8> {
    PROTOCOL_MAGIC@ + seq![1u8] + le32(payload.len() as u32) + le32(compressed.len() as u32) + compressed
}

/// Frames an encoded message with its length; payloads over [`MAX_MESSAGE_SIZE`] are
/// refused.
pub fn encode_frame(payload: &[u8]) -> (r: Result<Vec<u8>, String>)
    ensures
        payload@.len() > MAX_MESSAGE_SIZE <==> r is Err,
        r matches Ok(v) ==> v@ == plain_frame(payload@),
        r matches Err(m) ==> m@ == "Message too large: "@ + decimal(payload@.len()) + " bytes (max "@ + decimal(
            MAX_MESSAGE_SIZE as nat,
        ) + ")"@,
{
    if payload.len() > MAX_MESSAGE_SIZE {
        let a = crate::text::u64_to_string(payload.len() as u64);
        let b = crate::text::u64_to_string(MAX_MESSAGE_SIZE as u64);
        let m1 = concat3("Message too large: ", a.as_str(), " bytes (max ");
        let m2 = concat3(m1.as_str(), b.as_str(), ")");
        return Err(m2);
    }
    let mut buf: Vec<u8> = Vec::new();
    push_le32(&mut buf, payload.len() as u32);
    push_all(&mut buf, payload);
    assert(buf@ =~= plain_frame(payload@));
    Ok(buf)
}

/// Frames an encoded message compressed with zstd at level 3.
pub fn encode_compressed_frame(payload: &[u8]) -> (r: Result<Vec<u8>, String>)
    ensures
        r matches Ok(v) && v@ == compressed_frame(payload@, zstd_frame(payload@, 3)),
{
    let compressed = match crate::codec::zstd_compress(payload, 3) {
        Ok(c) => c,
        Err(e) => {
            return Err(concat2("Failed to compress sync message: ", e.as_str()));
        },
    };
    let mut buf: Vec<u8> = Vec::new();
    push_all(&mut buf, vstd::array::array_as_slice(&PROTOCOL_MAGIC));
    buf.push(1u8);
    push_le32(&mut buf, payload.len() as u32);
    push_le32(&mut buf, compressed.len() as u32);
    push_all(&mut buf, compressed.as_slice());
    assert(buf@ =~= compressed_frame(payload@, compressed@));
    Ok(buf)
}

/// Unframes a compressed message, giving the encoded payload. Frames shorter than the
/// 13-byte header, with another magic, or shorter than their stated length are
/// refused; the flag's low bit says whether the data is compressed.
pub fn decode_compressed_frame(data: &[u8]) -> (r: Result<Vec<u8>, String>)
    ensures
        data@.len() < 13 ==> (r is Err && r->Err_0@ == "Message too short for header"@),
        data@.len() >= 13 && data@.subrange(0, 4) != PROTOCOL_MAGIC@ ==> (r is Err && r->Err_0@ == "Invalid protocol magic"@),
        data@.len() >= 13 && data@.subrange(0, 4) == PROTOCOL_MAGIC@ && data@.len() < 13 + from_le32(data@.subrange(9, 13))
            ==> (r is Err && r->Err_0@ == "Message truncated"@),
        r is Ok ==> data@.len() >= 13 && data@.subrange(0, 4) == PROTOCOL_MAGIC@ && data@.len() >= 13 + from_le32(data@.subrange(9, 13)),
        r is Ok && data@[4] & 1 == 0 ==> r->Ok_0@ == data@.subrange(13, 13 + from_le32(data@.subrange(9, 13))),
        r matches Err(m) ==> ((data@.len() >= 13 && data@.subrange(0, 4) == PROTOCOL_MAGIC@ && data@.len() >= 13
            + from_le32(data@.subrange(9, 13))) ==> data@[4] & 1 != 0 && crate::text::starts_with(
            m@,
            "Failed to decompress: "@,
        )),
        forall|p: Seq<u8>, l: i32| data@.len() >= 13 && data@.subrange(0, 4) == PROTOCOL_MAGIC@ && data@.len() >= 13 + from_le32(data@.subrange(9, 13))
            && data@[4] & 1 != 0 && #[trigger] zstd_frame(p, l) == data@.subrange(13, 13 + from_le32(data@.subrange(9, 13)))
            ==> (r is Ok && r->Ok_0@ == p),
{
    if data.len() < 13 {
        return Err(crate::text::to_owned("Message too short for header"));
    }
    if data[0] != PROTOCOL_MAGIC[0] || data[1] != PROTOCOL_MAGIC[1] || data[2] != PROTOCOL_MAGIC[2] || data[3] != PROTOCOL_MAGIC[3] {
        proof {
            if data@.subrange(0, 4) == PROTOCOL_MAGIC@ {
                assert(data@.subrange(0, 4)[0] == data@[0]);
                assert(data@.subrange(0, 4)[1] == data@[1]);
                assert(data@.subrange(0, 4)[2] == data@[2]);
                assert(data@.subrange(0, 4)[3] == data@[3]);
            }
        }
        return Err(crate::text::to_owned("Invalid protocol magic"));
    }
    assert(data@.subrange(0, 4) =~= PROTOCOL_MAGIC@);
    let flags = data[4];
    let compressed_len = crate::codec::read_le32(data, 9);
    if (data.len() as u64) < 13 + (compressed_len as u64) {
        return Err(crate::text::to_owned("Message truncated"));
    }
    let end = 13 + compressed_len as usize;
    let body = crate::codec::copy_range(data, 13, end);
    if flags & 1 != 0 {
        match crate::codec::zstd_decompress(body.as_slice()) {
            Ok(v) => Ok(v),
            Err(e) => {
                let m = concat2("Failed to decompress: ", e.as_str());
                assert(m@.subrange(0, "Failed to decompress: "@.len() as int) =~= "Failed to decompress: "@);
                Err(m)
            },
        }
    } else {
        Ok(body)
    }
}

/// A compressed frame reads back as its payload, where the compressed length fits the
/// 4-byte field.
pub proof fn law_compressed_frame_roundtrip(payload: Seq<u8>)
    requires
        zstd_frame(payload, 3).len() <= u32::MAX,
    ensures
        ({
            let f = compressed_frame(payload, zstd_frame(payload, 3));
            &&& f.len() >= 13
            &&& f.subrange(0, 4) == PROTOCOL_MAGIC@
            &&& f[4] & 1 != 0
            &&& from_le32(f.subrange(9, 13)) == zstd_frame(payload, 3).len()
            &&& f.len() == 13 + from_le32(f.subrange(9, 13))
            &&& f.subrange(13, f.len() as int) == zstd_frame(payload, 3)
        }),
{
    let c = zstd_frame(payload, 3);
    let f = compressed_frame(payload, c);
    crate::codec::lemma_le32_roundtrip(payload.len() as u32);
    crate::codec::lemma_le32_roundtrip(c.len() as u32);
    assert(f.subrange(0, 4) =~= PROTOCOL_MAGIC@);
    assert(f.subrange(9, 13) =~= le32(c.len() as u32));
    assert(f.subrange(13, f.len() as int) =~= c);
    assert(f[4] == 1u8);
    assert(1u8 & 1 != 0) by (bit_vector);
}

} // verus!
