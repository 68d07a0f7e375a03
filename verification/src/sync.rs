//! Replication state between a source and a destination repository.
use vstd::prelude::*;
use crate::text::{concat2, concat3, join_path, path_join, to_owned};

pub mod svn_sync_props;

verus! {

/// Information about a repository for the sync info endpoint.
#[derive(Debug, Clone)]
pub struct SyncEndpointInfo {
    /// Repository UUID.
    pub uuid: String,
    /// Current HEAD revision.
    pub head_rev: u64,
    /// Protocol version of the sync API.
    pub protocol_version: u32,
    /// Capabilities advertised by the server.
    pub capabilities: Vec<String>,
}

/// Sync configuration of a repository.
#[derive(Debug, Clone)]
pub struct SyncConfig {
    /// Whether sync endpoints are enabled.
    pub enabled: bool,
    /// Optional cache directory for fetched objects.
    pub cache_dir: Option<String>,
    /// Maximum age in hours of cached objects.
    pub max_cache_age_hours: u32,
    /// Whether sync endpoints require authentication.
    pub require_auth: bool,
    /// Allowed source patterns (`*` allows all).
    pub allowed_sources: Vec<String>,
}

impl Default for SyncConfig {
    /// Enabled, no cache directory, 720 hours (30 days), no authentication, all sources.
    fn default() -> (c: Self)
        ensures
            c.enabled,
            c.cache_dir is None,
            c.max_cache_age_hours == 720,
            !c.require_auth,
            c.allowed_sources@.len() == 1,
            c.allowed_sources@[0]@ == "*"@,
    {
        let mut allowed = Vec::new();
        allowed.push(to_owned("*"));
        SyncConfig {
            enabled: true,
            cache_dir: None,
            max_cache_age_hours: 720,
            require_auth: false,
            allowed_sources: allowed,
        }
    }
}

/// Summary of one revision for the sync revisions endpoint.
#[derive(Debug, Clone)]
pub struct RevisionSummary {
    pub rev: u64,
    pub author: String,
    pub message: String,
    pub timestamp: i64,
    /// Number of changes (adds and deletes) in the revision.
    pub change_count: usize,
}

/// Synchronization state kept in the destination repository.
#[derive(Debug, Clone)]
pub struct SyncState {
    /// UUID of the source repository.
    pub source_uuid: String,
    /// URL or path of the source repository.
    pub source_url: String,
    /// Last revision synced from the source.
    pub last_synced_rev: u64,
    /// Last revision known at the source.
    pub source_head_rev: u64,
    /// Unix seconds of the last successful sync.
    pub last_sync_timestamp: i64,
    /// Number of revisions synced in total.
    pub total_synced_revisions: u64,
    /// Whether a sync is in progress (for crash recovery).
    pub sync_in_progress: bool,
    /// Protocol version used.
    pub protocol_version: u32,
    /// Checkpoint revision for resumable sync.
    pub checkpoint_rev: Option<u64>,
}

/// The current Unix time in seconds, from `chrono::Utc::now()`; nothing is claimed of
/// the value, which depends on the clock.
#[verifier::external_body]
pub(crate) fn now_timestamp() -> (t: i64) {
    chrono::Utc::now().timestamp()
}

impl SyncState {
    /// A fresh state for an initial sync: nothing synced, protocol version 1.
    pub fn new(source_uuid: String, source_url: String) -> (s: Self)
        ensures
            s.source_uuid@ == source_uuid@,
            s.source_url@ == source_url@,
            s.last_synced_rev == 0,
            s.source_head_rev == 0,
            s.last_sync_timestamp == 0,
            s.total_synced_revisions == 0,
            !s.sync_in_progress,
            s.protocol_version == 1,
            s.checkpoint_rev is None,
    {
        SyncState {
            source_uuid,
            source_url,
            last_synced_rev: 0,
            source_head_rev: 0,
            last_sync_timestamp: 0,
            total_synced_revisions: 0,
            sync_in_progress: false,
            protocol_version: 1,
            checkpoint_rev: None,
        }
    }

    /// Marks a sync as in progress; the caller persists the state.
    pub fn begin_sync(&mut self)
        ensures
            *final(self) == (SyncState { sync_in_progress: true, ..*old(self) }),
    {
        self.sync_in_progress = true;
    }

    /// Marks a sync as completed at `synced_rev` at time `timestamp`.
    pub fn complete_sync_at(&mut self, synced_rev: u64, timestamp: i64)
        requires
            old(self).total_synced_revisions < u64::MAX,
        ensures
            *final(self) == (SyncState {
                last_synced_rev: synced_rev,
                total_synced_revisions: (old(self).total_synced_revisions + 1) as u64,
                last_sync_timestamp: timestamp,
                sync_in_progress: false,
                checkpoint_rev: None,
                ..*old(self)
            }),
    {
        self.last_synced_rev = synced_rev;
        self.total_synced_revisions = self.total_synced_revisions + 1;
        self.last_sync_timestamp = timestamp;
        self.sync_in_progress = false;
        self.checkpoint_rev = None;
    }

    /// Marks a sync as completed at `synced_rev` now; the timestamp is the clock's.
    pub fn complete_sync(&mut self, synced_rev: u64)
        requires
            old(self).total_synced_revisions < u64::MAX,
        ensures
            *final(self) == (SyncState {
                last_synced_rev: synced_rev,
                total_synced_revisions: (old(self).total_synced_revisions + 1) as u64,
                last_sync_timestamp: final(self).last_sync_timestamp,
                sync_in_progress: false,
                checkpoint_rev: None,
                ..*old(self)
            }),
    {
        let t = now_timestamp();
        self.complete_sync_at(synced_rev, t);
    }

    /// Sets a checkpoint for resumable sync; the caller persists the state.
    pub fn set_checkpoint(&mut self, rev: u64)
        ensures
            *final(self) == (SyncState { checkpoint_rev: Some(rev), ..*old(self) }),
    {
        self.checkpoint_rev = Some(rev);
    }

    /// Where the next sync starts: the checkpoint if set, else the last synced revision.
    pub fn effective_start_rev(&self) -> (r: u64)
        ensures
            r == match self.checkpoint_rev {
                Some(c) => c,
                None => self.last_synced_rev,
            },
    {
        match self.checkpoint_rev {
            Some(c) => c,
            None => self.last_synced_rev,
        }
    }

    /// Checks that `uuid` is the recorded source UUID.
    pub fn verify_source(&self, uuid: &str) -> (r: Result<(), String>)
        ensures
            r is Ok <==> self.source_uuid@ == uuid@,
            r matches Err(m) ==> m@ == "Source UUID mismatch: expected "@ + self.source_uuid@ + ", got "@ + uuid@
                + ". The source repository may have been recreated."@,
    {
        if !crate::text::str_eq(self.source_uuid.as_str(), uuid) {
            let a = concat3("Source UUID mismatch: expected ", self.source_uuid.as_str(), ", got ");
            let b = concat3(a.as_str(), uuid, ". The source repository may have been recreated.");
            return Err(b);
        }
        Ok(())
    }

    /// Path of the state file of a repository.
    pub fn state_file_path(repo_path: &str) -> (r: String)
        ensures
            r@ == path_join(repo_path@, "sync-state.json"@),
    {
        join_path(repo_path, "sync-state.json")
    }
}

/// A completed sync operation.
#[derive(Debug, Clone)]
pub struct ReplicationLogEntry {
    /// First revision (inclusive).
    pub from_rev: u64,
    /// Last revision (inclusive).
    pub to_rev: u64,
    /// When the sync happened.
    pub timestamp: i64,
    /// Objects transferred.
    pub objects_transferred: u64,
    /// Bytes transferred (compressed).
    pub bytes_transferred: u64,
    /// Duration in milliseconds.
    pub duration_ms: u64,
    /// Whether the sync succeeded.
    pub success: bool,
    /// Error message of a failed sync.
    pub error: Option<String>,
}

/// The replication log of a repository: one file per entry under `repl-log`.
pub struct ReplicationLog {
    /// Directory of the log files.
    pub log_dir: String,
}

/// The entry overlaps the revision range `[from, to]`.
pub open spec fn overlaps(e: ReplicationLogEntry, from: u64, to: u64) -> bool {
    e.to_rev >= from && e.from_rev <= to
}

/// `s` is ordered by `from_rev`.
pub open spec fn sorted_by_from(s: Seq<ReplicationLogEntry>) -> bool {
    forall|i: int, j: int| 0 <= i < j < s.len() ==> #[trigger] s[i].from_rev <= #[trigger] s[j].from_rev
}

/// The entries of `s` whose first revision is `x`, in order.
pub open spec fn with_from(s: Seq<ReplicationLogEntry>, x: u64) -> Seq<ReplicationLogEntry> {
    s.filter(|e: ReplicationLogEntry| e.from_rev == x)
}

impl ReplicationLog {
    /// The log of the repository at `repo_path`, in its `repl-log` directory.
    pub fn new(repo_path: &str) -> (l: Self)
        ensures
            l.log_dir@ == path_join(repo_path@, "repl-log"@),
    {
        ReplicationLog { log_dir: join_path(repo_path, "repl-log") }
    }

    /// File name of an entry: `<from>_<to>.json`.
    pub fn entry_file_name(entry: &ReplicationLogEntry) -> (r: String)
        ensures
            r@ == crate::text::decimal(entry.from_rev as nat) + "_"@ + crate::text::decimal(entry.to_rev as nat) + ".json"@,
    {
        let a = crate::text::u64_to_string(entry.from_rev);
        let b = crate::text::u64_to_string(entry.to_rev);
        let c = concat3(a.as_str(), "_", b.as_str());
        concat2(c.as_str(), ".json")
    }

    /// The entries that overlap `[from_rev, to_rev]`, ordered by `from_rev`; entries with
    /// equal `from_rev` keep their order.
    pub fn query(entries: Vec<ReplicationLogEntry>, from_rev: u64, to_rev: u64) -> (r: Vec<ReplicationLogEntry>)
        ensures
            sorted_by_from(r@),
            r@.to_multiset() == entries@.filter(|e: ReplicationLogEntry| overlaps(e, from_rev, to_rev)).to_multiset(),
            forall|x: u64| #[trigger] with_from(r@, x) == with_from(
                entries@.filter(|e: ReplicationLogEntry| overlaps(e, from_rev, to_rev)),
                x,
            ),
    {
        let mut out: Vec<ReplicationLogEntry> = Vec::new();
        let mut k: usize = 0;
        let mut entries = entries;
        let ghost orig = entries@;
        let ghost f = |e: ReplicationLogEntry| overlaps(e, from_rev, to_rev);
        proof {
            assert(orig.take(0).filter(f) =~= Seq::<ReplicationLogEntry>::empty());
        }
        while k < entries.len()
            invariant
                k <= entries@.len(),
                entries@ == orig,
                f == (|e: ReplicationLogEntry| overlaps(e, from_rev, to_rev)),
                sorted_by_from(out@),
                out@.to_multiset() == orig.take(k as int).filter(f).to_multiset(),
                forall|x: u64| #[trigger] with_from(out@, x) == with_from(orig.take(k as int).filter(f), x),
            decreases entries.len() - k,
        {
            let e = entries[k].clone_entry();
            proof {
                assert(orig.take(k + 1) =~= orig.take(k as int).push(orig[k as int]));
                orig.take(k as int).lemma_filter_push(orig[k as int], f);
            }
            if e.to_rev >= from_rev && e.from_rev <= to_rev {
                let ghost before = out@;
                insert_sorted(&mut out, e);
                proof {
                    assert forall|x: u64| #[trigger] with_from(out@, x) == with_from(orig.take(k + 1).filter(f), x) by {
                        let g = |e2: ReplicationLogEntry| e2.from_rev == x;
                        orig.take(k as int).filter(f).lemma_filter_push(orig[k as int], g);
                    }
                    broadcast use vstd::seq_lib::group_to_multiset_ensures;
                    assert(orig.take(k as int).filter(f).push(orig[k as int]).to_multiset() =~= orig.take(k as int).filter(f).to_multiset().insert(orig[k as int]));
                }
            }
            k = k + 1;
        }
        proof {
            assert(orig.take(k as int) =~= orig);
        }
        out
    }

    /// A cleanup before `rev` removes the entries that end before it.
    pub fn ends_before(entry: &ReplicationLogEntry, rev: u64) -> (b: bool)
        ensures
            b == (entry.to_rev < rev),
    {
        entry.to_rev < rev
    }

    /// The totals of a log listing: entries, successful ones, objects, bytes and
    /// milliseconds.
    pub fn totals(entries: &Vec<ReplicationLogEntry>) -> (r: LogTotals)
        requires
            sum_objects(entries@) <= u64::MAX,
            sum_bytes(entries@) <= u64::MAX,
            sum_ms(entries@) <= u64::MAX,
        ensures
            r.entries == entries@.len(),
            r.successes == count_success(entries@),
            r.objects == sum_objects(entries@),
            r.bytes == sum_bytes(entries@),
            r.duration_ms == sum_ms(entries@),
    {
        let mut r = LogTotals { entries: entries.len(), successes: 0, objects: 0, bytes: 0, duration_ms: 0 };
        let mut i: usize = 0;
        while i < entries.len()
            invariant
                i <= entries@.len(),
                r.entries == entries@.len(),
                sum_objects(entries@) <= u64::MAX,
                sum_bytes(entries@) <= u64::MAX,
                sum_ms(entries@) <= u64::MAX,
                r.successes == count_success(entries@.subrange(0, i as int)),
                r.objects == sum_objects(entries@.subrange(0, i as int)),
                r.bytes == sum_bytes(entries@.subrange(0, i as int)),
                r.duration_ms == sum_ms(entries@.subrange(0, i as int)),
            decreases entries@.len() - i,
        {
            proof {
                assert(entries@.subrange(0, i + 1).drop_last() =~= entries@.subrange(0, i as int));
                lemma_sums_prefix(entries@, i + 1);
                lemma_count_bound(entries@.subrange(0, i + 1));
            }
            let e = &entries[i];
            r.objects = r.objects + e.objects_transferred;
            r.bytes = r.bytes + e.bytes_transferred;
            r.duration_ms = r.duration_ms + e.duration_ms;
            if e.success {
                r.successes = r.successes + 1;
            }
            i = i + 1;
        }
        assert(entries@.subrange(0, i as int) =~= entries@);
        r
    }

    /// Every entry, ordered by `from_rev`; entries with equal `from_rev` keep their
    /// order.
    pub fn all(entries: Vec<ReplicationLogEntry>) -> (r: Vec<ReplicationLogEntry>)
        ensures
            sorted_by_from(r@),
            r@.to_multiset() == entries@.to_multiset(),
            forall|x: u64| #[trigger] with_from(r@, x) == with_from(entries@, x),
    {
        let ghost all = entries@;
        proof {
            lemma_filter_all(all, |e: ReplicationLogEntry| overlaps(e, 0, u64::MAX));
            assert(all.filter(|e: ReplicationLogEntry| overlaps(e, 0, u64::MAX)) == all);
        }
        Self::query(entries, 0, u64::MAX)
    }

    /// The latest entry: the one with the greatest `from_rev`, and of several such
    /// the last in `entries` (where a stable sort by `from_rev` puts it last).
    pub fn latest(entries: Vec<ReplicationLogEntry>) -> (r: Option<ReplicationLogEntry>)
        ensures
            entries@.len() == 0 ==> r is None,
            entries@.len() > 0 ==> exists|k: int|
                0 <= k < entries@.len() && r == Some(entries@[k]) && (forall|i: int|
                    0 <= i < entries@.len() ==> #[trigger] entries@[i].from_rev <= entries@[k].from_rev) && (forall|i: int|
                    k < i < entries@.len() ==> #[trigger] entries@[i].from_rev < entries@[k].from_rev),
    {
        if entries.len() == 0 {
            return None;
        }
        let mut b: usize = 0;
        let mut i: usize = 1;
        while i < entries.len()
            invariant
                1 <= i <= entries@.len(),
                b < i,
                forall|j: int| 0 <= j < i ==> #[trigger] entries@[j].from_rev <= entries@[b as int].from_rev,
                forall|j: int| b < j < i ==> #[trigger] entries@[j].from_rev < entries@[b as int].from_rev,
            decreases entries@.len() - i,
        {
            if entries[i].from_rev >= entries[b].from_rev {
                b = i;
            }
            i = i + 1;
        }
        Some(entries[b].clone_entry())
    }
}

/// The totals of a log listing.
#[derive(Debug)]
pub struct LogTotals {
    pub entries: usize,
    pub successes: usize,
    pub objects: u64,
    pub bytes: u64,
    pub duration_ms: u64,
}

/// The number of successful entries.
pub open spec fn count_success(s: Seq<ReplicationLogEntry>) -> nat
    decreases s.len(),
{
    if s.len() == 0 { 0 } else { count_success(s.drop_last()) + if s.last().success { 1nat } else { 0nat } }
}

/// The objects of the entries together.
pub open spec fn sum_objects(s: Seq<ReplicationLogEntry>) -> nat
    decreases s.len(),
{
    if s.len() == 0 { 0 } else { sum_objects(s.drop_last()) + s.last().objects_transferred as nat }
}

/// The bytes of the entries together.
pub open spec fn sum_bytes(s: Seq<ReplicationLogEntry>) -> nat
    decreases s.len(),
{
    if s.len() == 0 { 0 } else { sum_bytes(s.drop_last()) + s.last().bytes_transferred as nat }
}

/// The milliseconds of the entries together.
pub open spec fn sum_ms(s: Seq<ReplicationLogEntry>) -> nat
    decreases s.len(),
{
    if s.len() == 0 { 0 } else { sum_ms(s.drop_last()) + s.last().duration_ms as nat }
}

proof fn lemma_sums_prefix(s: Seq<ReplicationLogEntry>, i: int)
    requires
        0 <= i <= s.len(),
    ensures
        sum_objects(s.subrange(0, i)) <= sum_objects(s),
        sum_bytes(s.subrange(0, i)) <= sum_bytes(s),
        sum_ms(s.subrange(0, i)) <= sum_ms(s),
    decreases s.len() - i,
{
    if i < s.len() {
        lemma_sums_prefix(s, i + 1);
        assert(s.subrange(0, i + 1).drop_last() =~= s.subrange(0, i));
    } else {
        assert(s.subrange(0, i) =~= s);
    }
}

proof fn lemma_count_bound(s: Seq<ReplicationLogEntry>)
    ensures
        count_success(s) <= s.len(),
    decreases s.len(),
{
    if s.len() > 0 {
        lemma_count_bound(s.drop_last());
    }
}

/// Filtering by a predicate that holds everywhere keeps everything.
proof fn lemma_filter_all(s: Seq<ReplicationLogEntry>, f: spec_fn(ReplicationLogEntry) -> bool)
    requires
        forall|e: ReplicationLogEntry| #[trigger] f(e),
    ensures
        s.filter(f) == s,
    decreases s.len(),
{
    if s.len() > 0 {
        lemma_filter_all(s.drop_last(), f);
        assert(s.drop_last().push(s.last()) =~= s);
        s.drop_last().lemma_filter_push(s.last(), f);
    } else {
        assert(s.filter(f) =~= s) by {
            reveal(Seq::filter);
        }
    }
}

impl ReplicationLogEntry {
    /// A field-by-field copy.
    pub fn clone_entry(&self) -> (r: Self)
        ensures
            r == *self,
    {
        let error = match &self.error {
            Some(e) => Some(e.clone()),
            None => None,
        };
        ReplicationLogEntry {
            from_rev: self.from_rev,
            to_rev: self.to_rev,
            timestamp: self.timestamp,
            objects_transferred: self.objects_transferred,
            bytes_transferred: self.bytes_transferred,
            duration_ms: self.duration_ms,
            success: self.success,
            error,
        }
    }
}

/// Inserts `e` after every entry whose `from_rev` is at most its own.
fn insert_sorted(out: &mut Vec<ReplicationLogEntry>, e: ReplicationLogEntry)
    requires
        sorted_by_from(old(out)@),
    ensures
        sorted_by_from(final(out)@),
        final(out)@.to_multiset() == old(out)@.to_multiset().insert(e),
        forall|x: u64| #[trigger] with_from(final(out)@, x) == with_from(old(out)@, x) + (if e.from_rev == x {
            seq![e]
        } else {
            Seq::<ReplicationLogEntry>::empty()
        }),
{
    let mut i = out.len();
    while i > 0 && out[i - 1].from_rev > e.from_rev
        invariant
            i <= out@.len(),
            out@ == old(out)@,
            forall|j: int| i <= j < out@.len() ==> #[trigger] out@[j].from_rev > e.from_rev,
        decreases i,
    {
        i = i - 1;
    }
    let ghost before = out@;
    out.insert(i, e);
    proof {
        assert(out@ == before.insert(i as int, e));
        assert forall|a: int, b: int| 0 <= a < b < out@.len() implies #[trigger] out@[a].from_rev <= #[trigger] out@[b].from_rev by {
            if a < i && b < i {
            } else if a < i && b == i {
            } else if a < i {
                assert(out@[b] == before[b - 1]);
            } else if a == i {
                assert(out@[b] == before[b - 1]);
            } else {
                assert(out@[a] == before[a - 1]);
                assert(out@[b] == before[b - 1]);
            }
        }
        broadcast use vstd::seq_lib::group_to_multiset_ensures;
        let a = before.subrange(0, i as int);
        let b = before.subrange(i as int, before.len() as int);
        assert(before =~= a + b);
        assert(out@ =~= a.push(e) + b);
        vstd::seq_lib::lemma_multiset_commutative(a.push(e), b);
        vstd::seq_lib::lemma_multiset_commutative(a, b);
        assert(out@.to_multiset() =~= before.to_multiset().insert(e));
        assert forall|x: u64| #[trigger] with_from(out@, x) == with_from(before, x) + (if e.from_rev == x {
            seq![e]
        } else {
            Seq::<ReplicationLogEntry>::empty()
        }) by {
            let g = |e2: ReplicationLogEntry| e2.from_rev == x;
            Seq::filter_distributes_over_add(a.push(e), b, g);
            Seq::filter_distributes_over_add(a, b, g);
            a.lemma_filter_push(e, g);
            if e.from_rev == x {
                assert(b.all(|y: ReplicationLogEntry| !g(y))) by {
                    assert forall|j: int| 0 <= j < b.len() implies !g(#[trigger] b[j]) by {
                        assert(b[j] == before[i + j]);
                    }
                }
                b.lemma_all_neg_filter_empty(g);
                assert(b.filter(g) =~= Seq::<ReplicationLogEntry>::empty());
                assert(a.filter(g).push(e) =~= a.filter(g) + seq![e]);
                assert(a.filter(g) + Seq::<ReplicationLogEntry>::empty() =~= a.filter(g));
            } else {
                assert(with_from(before, x) + Seq::<ReplicationLogEntry>::empty() =~= with_from(before, x));
            }
        }
    }
}

} // verus!
