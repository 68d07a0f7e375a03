//! The synchronisation commands' decisions and results: which revisions a sync or
//! pull covers, the batches a pull fetches, the counts it keeps, and when it records
//! a checkpoint.
use vstd::prelude::*;
use crate::sync::{SyncState, ReplicationLogEntry};
use crate::object::ObjectId;

verus! {

/// Result of a sync operation.
#[derive(Debug)]
pub struct SyncResult {
    pub from_rev: u64,
    pub to_rev: u64,
    pub revisions_synced: u64,
    pub objects_transferred: u64,
    pub bytes_transferred: u64,
    pub duration_ms: u64,
    pub already_up_to_date: bool,
}

/// What is known of a mirror's synchronisation.
#[derive(Debug)]
pub struct SyncInfo {
    pub state: Option<SyncState>,
    pub dest_current_rev: u64,
    pub latest_repl_entry: Option<ReplicationLogEntry>,
}

/// Result of a remote pull.
#[derive(Debug)]
pub struct PullResult {
    pub from_rev: u64,
    pub to_rev: u64,
    pub revisions_synced: u64,
    pub objects_transferred: u64,
    pub objects_cached: u64,
    pub bytes_transferred: u64,
    pub duration_ms: u64,
    pub already_up_to_date: bool,
}

/// Result of a repair.
#[derive(Debug)]
pub struct RepairResult {
    pub objects_fetched: u64,
    pub bytes_fetched: u64,
    pub objects_already_present: u64,
}

/// The revisions a sync or pull covers: from the one after where it starts (the
/// checkpoint, else the last synced revision) to the source's head; `None` where
/// the mirror is up to date.
pub open spec fn sync_span(state: SyncState, source_head: u64) -> Option<(u64, u64)> {
    let start = match state.checkpoint_rev {
        Some(c) => c,
        None => state.last_synced_rev,
    };
    if start >= source_head {
        None
    } else {
        Some(((start + 1) as u64, source_head))
    }
}

/// The revisions a sync or pull covers.
pub fn sync_plan(state: &SyncState, source_head: u64) -> (r: Option<(u64, u64)>)
    ensures
        r == sync_span(*state, source_head),
{
    let start = state.effective_start_rev();
    if start >= source_head {
        None
    } else {
        Some((start + 1, source_head))
    }
}

/// The revisions a pull fetches together: up to 100 from `current`, not past `head`.
pub fn batch_range(current: u64, head: u64) -> (r: (u64, u64))
    requires
        current <= head,
    ensures
        r.0 == current,
        r.1 == if head - current < 99 { head } else { (current + 99) as u64 },
{
    if head - current < 99 {
        (current, head)
    } else {
        (current, current + 99)
    }
}

/// The result of a sync that found the mirror up to date.
pub fn up_to_date_sync(duration_ms: u64) -> (r: SyncResult)
    ensures
        r.from_rev == 0 && r.to_rev == 0 && r.revisions_synced == 0 && r.objects_transferred == 0
            && r.bytes_transferred == 0 && r.duration_ms == duration_ms && r.already_up_to_date,
{
    SyncResult {
        from_rev: 0,
        to_rev: 0,
        revisions_synced: 0,
        objects_transferred: 0,
        bytes_transferred: 0,
        duration_ms,
        already_up_to_date: true,
    }
}

/// The result of a pull that found the mirror up to date.
pub fn up_to_date_pull(duration_ms: u64) -> (r: PullResult)
    ensures
        r.from_rev == 0 && r.to_rev == 0 && r.revisions_synced == 0 && r.objects_transferred == 0
            && r.objects_cached == 0 && r.bytes_transferred == 0 && r.duration_ms == duration_ms
            && r.already_up_to_date,
{
    PullResult {
        from_rev: 0,
        to_rev: 0,
        revisions_synced: 0,
        objects_transferred: 0,
        objects_cached: 0,
        bytes_transferred: 0,
        duration_ms,
        already_up_to_date: true,
    }
}

/// The counts of a local sync as it goes.
#[derive(Debug)]
pub struct SyncCounters {
    pub revisions_synced: u64,
    pub objects_transferred: u64,
    pub bytes_transferred: u64,
}

/// The total length of the objects' contents.
pub open spec fn objects_bytes(objs: Seq<(ObjectId, Vec<u8>)>) -> nat
    decreases objs.len(),
{
    if objs.len() == 0 {
        0
    } else {
        objects_bytes(objs.drop_last()) + objs.last().1@.len()
    }
}

impl SyncCounters {
    /// Nothing counted yet.
    pub fn new() -> (c: Self)
        ensures
            c.revisions_synced == 0 && c.objects_transferred == 0 && c.bytes_transferred == 0,
    {
        SyncCounters { revisions_synced: 0, objects_transferred: 0, bytes_transferred: 0 }
    }

    /// Counts a revision applied with its objects; returns whether a checkpoint is
    /// due (every 100 revisions).
    pub fn record_revision(&mut self, objects: &Vec<(ObjectId, Vec<u8>)>) -> (checkpoint: bool)
        requires
            old(self).revisions_synced < u64::MAX,
            old(self).objects_transferred + objects@.len() <= u64::MAX,
            old(self).bytes_transferred + objects_bytes(objects@) <= u64::MAX,
        ensures
            final(self).revisions_synced == old(self).revisions_synced + 1,
            final(self).objects_transferred == old(self).objects_transferred + objects@.len(),
            final(self).bytes_transferred == old(self).bytes_transferred + objects_bytes(objects@),
            checkpoint == (final(self).revisions_synced % 100 == 0),
    {
        let ghost b0 = self.bytes_transferred;
        let ghost o0 = self.objects_transferred;
        let mut i: usize = 0;
        while i < objects.len()
            invariant
                i <= objects@.len(),
                o0 + objects@.len() <= u64::MAX,
                b0 + objects_bytes(objects@) <= u64::MAX,
                self.objects_transferred == o0 + i,
                self.bytes_transferred == b0 + objects_bytes(objects@.subrange(0, i as int)),
                self.revisions_synced == old(self).revisions_synced,
            decreases objects@.len() - i,
        {
            proof {
                assert(objects@.subrange(0, i + 1).drop_last() =~= objects@.subrange(0, i as int));
                lemma_objects_bytes_prefix(objects@, i + 1);
            }
            self.bytes_transferred = self.bytes_transferred + objects[i].1.len() as u64;
            self.objects_transferred = self.objects_transferred + 1;
            i = i + 1;
        }
        assert(objects@.subrange(0, i as int) =~= objects@);
        self.revisions_synced = self.revisions_synced + 1;
        self.revisions_synced % 100 == 0
    }

    /// The result of the sync of `from_rev..=to_rev` that made these counts.
    pub fn finish(&self, from_rev: u64, to_rev: u64, duration_ms: u64) -> (r: SyncResult)
        ensures
            r.from_rev == from_rev && r.to_rev == to_rev && r.revisions_synced == self.revisions_synced
                && r.objects_transferred == self.objects_transferred
                && r.bytes_transferred == self.bytes_transferred && r.duration_ms == duration_ms
                && !r.already_up_to_date,
    {
        SyncResult {
            from_rev,
            to_rev,
            revisions_synced: self.revisions_synced,
            objects_transferred: self.objects_transferred,
            bytes_transferred: self.bytes_transferred,
            duration_ms,
            already_up_to_date: false,
        }
    }
}

proof fn lemma_objects_bytes_prefix(objs: Seq<(ObjectId, Vec<u8>)>, i: int)
    requires
        0 <= i <= objs.len(),
    ensures
        objects_bytes(objs.subrange(0, i)) <= objects_bytes(objs),
    decreases objs.len() - i,
{
    if i < objs.len() {
        lemma_objects_bytes_prefix(objs, i + 1);
        assert(objs.subrange(0, i + 1).drop_last() =~= objs.subrange(0, i));
    } else {
        assert(objs.subrange(0, i) =~= objs);
    }
}


// ─────────────────────────── the batches of a pull ───────────────────────────

/// How many of `present` are set.
pub open spec fn count_present(present: Seq<bool>) -> nat
    decreases present.len(),
{
    if present.len() == 0 {
        0
    } else {
        count_present(present.drop_last()) + if present.last() { 1nat } else { 0nat }
    }
}

/// The bytes of the objects that are not present.
pub open spec fn absent_bytes(objs: Seq<(ObjectId, Vec<u8>)>, present: Seq<bool>) -> nat
    decreases objs.len(),
{
    if objs.len() == 0 || present.len() == 0 {
        0
    } else {
        absent_bytes(objs.drop_last(), present.drop_last()) + if present.last() {
            0nat
        } else {
            objs.last().1@.len()
        }
    }
}

/// The message for a revision whose content hash does not match its objects.
pub open spec fn hash_mismatch(revision: u64) -> Seq<char> {
    "Content hash mismatch for revision "@ + crate::text::decimal(revision as nat)
}

/// Where a pull stands between its batches: the revision it started from, the
/// source's head, the next revision to fetch, whether it stopped, and its counts.
#[derive(Debug, Clone, Copy)]
pub struct PullProgress {
    pub from_rev: u64,
    pub head: u64,
    pub current: u64,
    pub stopped: bool,
    pub revisions_synced: u64,
    pub objects_transferred: u64,
    pub objects_cached: u64,
    pub bytes_transferred: u64,
}

impl PullProgress {
    /// A pull of the revisions from `from_rev` to `head`, nothing done yet.
    pub fn start(from_rev: u64, head: u64) -> (p: Self)
        ensures
            p == (PullProgress {
                from_rev,
                head,
                current: from_rev,
                stopped: false,
                revisions_synced: 0,
                objects_transferred: 0,
                objects_cached: 0,
                bytes_transferred: 0,
            }),
    {
        PullProgress {
            from_rev,
            head,
            current: from_rev,
            stopped: false,
            revisions_synced: 0,
            objects_transferred: 0,
            objects_cached: 0,
            bytes_transferred: 0,
        }
    }

    /// The next batch to fetch: up to 100 revisions from the current one, not past
    /// the head; `None` once the head is passed or the pull stopped.
    pub fn next_batch(&self) -> (r: Option<(u64, u64)>)
        ensures
            (self.stopped || self.current > self.head) ==> r is None,
            !(self.stopped || self.current > self.head) ==> r == Some((
                self.current,
                if self.head - self.current < 99 { self.head } else { (self.current + 99) as u64 },
            )),
    {
        if self.stopped || self.current > self.head {
            None
        } else {
            Some(batch_range(self.current, self.head))
        }
    }

    /// A batch whose revision list came back empty stops the pull.
    pub fn stop(&mut self)
        ensures
            *final(self) == (PullProgress { stopped: true, ..*old(self) }),
    {
        self.stopped = true;
    }

    /// Counts one revision of a batch. A revision whose content hash does not match
    /// its objects is refused and nothing is counted. Otherwise each object already
    /// present locally (`present[i]`) is counted as cached, each other one as
    /// transferred with its bytes, and the revision as synced.
    pub fn record_revision(&mut self, rev: &crate::replication::RevisionData, present: &Vec<bool>) -> (r: Result<(), String>)
        requires
            present@.len() == rev.objects@.len(),
            old(self).revisions_synced < u64::MAX,
            old(self).objects_cached + present@.len() <= u64::MAX,
            old(self).objects_transferred + present@.len() <= u64::MAX,
            old(self).bytes_transferred + absent_bytes(rev.objects@, present@) <= u64::MAX,
        ensures
            rev.content_hash@ != crate::object::sha256(crate::replication::content_stream(rev.objects@)) ==> (r matches Err(
                m,
            ) && m@ == hash_mismatch(rev.revision)) && *final(self) == *old(self),
            rev.content_hash@ == crate::object::sha256(crate::replication::content_stream(rev.objects@)) ==> r is Ok
                && *final(self) == (PullProgress {
                revisions_synced: (old(self).revisions_synced + 1) as u64,
                objects_cached: (old(self).objects_cached + count_present(present@)) as u64,
                objects_transferred: (old(self).objects_transferred + (present@.len() - count_present(present@))) as u64,
                bytes_transferred: (old(self).bytes_transferred + absent_bytes(rev.objects@, present@)) as u64,
                ..*old(self)
            }),
    {
        if !rev.verify_content_hash() {
            let n = crate::text::u64_to_string(rev.revision);
            return Err(crate::text::concat2("Content hash mismatch for revision ", n.as_str()));
        }
        let ghost objs = rev.objects@;
        let ghost pr = present@;
        let mut cached: u64 = 0;
        let mut sent: u64 = 0;
        let mut bytes: u64 = 0;
        let mut i: usize = 0;
        assert(pr.take(0) =~= Seq::<bool>::empty());
        assert(objs.take(0) =~= Seq::<(ObjectId, Vec<u8>)>::empty());
        while i < present.len()
            invariant
                i <= pr.len(),
                pr == present@,
                objs == rev.objects@,
                pr.len() == objs.len(),
                cached == count_present(pr.take(i as int)),
                sent + cached == i,
                bytes == absent_bytes(objs.take(i as int), pr.take(i as int)),
                old(self).bytes_transferred + absent_bytes(objs, pr) <= u64::MAX,
            decreases pr.len() - i,
        {
            proof {
                assert(pr.take(i + 1).drop_last() =~= pr.take(i as int));
                assert(objs.take(i + 1).drop_last() =~= objs.take(i as int));
                lemma_absent_bytes_prefix(objs, pr, (i + 1) as nat);
            }
            if present[i] {
                cached = cached + 1;
            } else {
                sent = sent + 1;
                bytes = bytes + rev.objects[i].1.len() as u64;
            }
            i = i + 1;
        }
        assert(pr.take(i as int) =~= pr);
        assert(objs.take(i as int) =~= objs);
        self.objects_cached = self.objects_cached + cached;
        self.objects_transferred = self.objects_transferred + sent;
        self.bytes_transferred = self.bytes_transferred + bytes;
        self.revisions_synced = self.revisions_synced + 1;
        Ok(())
    }

    /// Ends a batch at `batch_end`: the checkpoint to save is `batch_end`, and the
    /// next batch starts after it.
    pub fn end_batch(&mut self, batch_end: u64) -> (checkpoint: u64)
        requires
            batch_end < u64::MAX,
        ensures
            checkpoint == batch_end,
            *final(self) == (PullProgress { current: (batch_end + 1) as u64, ..*old(self) }),
    {
        self.current = batch_end + 1;
        batch_end
    }

    /// The result of the pull: from its first revision to the head, with its counts.
    pub fn result(&self, duration_ms: u64) -> (r: PullResult)
        ensures
            r.from_rev == self.from_rev && r.to_rev == self.head && r.revisions_synced == self.revisions_synced
                && r.objects_transferred == self.objects_transferred && r.objects_cached == self.objects_cached
                && r.bytes_transferred == self.bytes_transferred && r.duration_ms == duration_ms
                && !r.already_up_to_date,
    {
        PullResult {
            from_rev: self.from_rev,
            to_rev: self.head,
            revisions_synced: self.revisions_synced,
            objects_transferred: self.objects_transferred,
            objects_cached: self.objects_cached,
            bytes_transferred: self.bytes_transferred,
            duration_ms,
            already_up_to_date: false,
        }
    }
}

/// The bytes of the absent objects among the first `n` never exceed those of all.
proof fn lemma_absent_bytes_prefix(objs: Seq<(ObjectId, Vec<u8>)>, present: Seq<bool>, n: nat)
    requires
        n <= objs.len(),
        objs.len() == present.len(),
    ensures
        absent_bytes(objs.take(n as int), present.take(n as int)) <= absent_bytes(objs, present),
    decreases objs.len() - n,
{
    if n < objs.len() {
        lemma_absent_bytes_prefix(objs, present, n + 1);
        let a = objs.take(n + 1int);
        let b = present.take(n + 1int);
        assert(a.drop_last() =~= objs.take(n as int));
        assert(b.drop_last() =~= present.take(n as int));
    } else {
        assert(objs.take(n as int) =~= objs);
        assert(present.take(n as int) =~= present);
    }
}

} // verus!
