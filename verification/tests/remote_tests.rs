use dsvn::object::ObjectId;
use dsvn::remote::{batch_range, sync_plan, up_to_date_pull, up_to_date_sync, PullProgress, SyncCounters};
use dsvn::sync::SyncState;

#[test]
fn test_sync_plan() {
    let mut s = SyncState::new("u".to_string(), "file:///src".to_string());
    assert_eq!(sync_plan(&s, 5), Some((1, 5)));
    s.last_synced_rev = 5;
    assert_eq!(sync_plan(&s, 5), None);
    s.checkpoint_rev = Some(3);
    assert_eq!(sync_plan(&s, 5), Some((4, 5)));
}

#[test]
fn test_batch_range() {
    assert_eq!(batch_range(1, 50), (1, 50));
    assert_eq!(batch_range(1, 500), (1, 100));
    assert_eq!(batch_range(101, 200), (101, 200));
}

#[test]
fn test_up_to_date_results() {
    let r = up_to_date_sync(7);
    assert!(r.already_up_to_date);
    assert_eq!((r.from_rev, r.to_rev, r.duration_ms), (0, 0, 7));
    let p = up_to_date_pull(9);
    assert!(p.already_up_to_date);
    assert_eq!(p.duration_ms, 9);
}

#[test]
fn test_sync_counters_and_checkpoints() {
    let mut c = SyncCounters::new();
    let objs = vec![(ObjectId::new([1; 32]), vec![1u8, 2, 3]), (ObjectId::new([2; 32]), vec![4u8])];
    assert!(!c.record_revision(&objs));
    assert_eq!((c.revisions_synced, c.objects_transferred, c.bytes_transferred), (1, 2, 4));
    let mut due = Vec::new();
    for _ in 0..199 {
        due.push(c.record_revision(&vec![]));
    }
    assert_eq!(due.iter().filter(|d| **d).count(), 2);
    assert!(due[98]);
    let r = c.finish(1, 200, 5);
    assert_eq!((r.from_rev, r.to_rev, r.revisions_synced, r.objects_transferred, r.bytes_transferred), (1, 200, 200, 2, 4));
    assert!(!r.already_up_to_date);
}

#[test]
fn pull_progress_walks_batches_and_counts() {
    let mut p = PullProgress::start(1, 150);
    assert_eq!(p.next_batch(), Some((1, 100)));
    let objs = vec![
        (dsvn::object::ObjectId::new([1u8; 32]), b"abc".to_vec()),
        (dsvn::object::ObjectId::new([2u8; 32]), b"hello".to_vec()),
    ];
    let good = dsvn::replication::RevisionData {
        revision: 1,
        author: "a".to_string(),
        message: String::new(),
        timestamp: 0,
        delta_tree: dsvn::object::DeltaTree::new(0, vec![], 0),
        objects: objs.clone(),
        properties: vec![],
        content_hash: dsvn::replication::RevisionData::compute_content_hash(&objs),
    };
    assert!(p.record_revision(&good, &vec![true, false]).is_ok());
    assert_eq!((p.revisions_synced, p.objects_cached, p.objects_transferred, p.bytes_transferred), (1, 1, 1, 5));
    let mut bad = good.clone();
    bad.revision = 2;
    bad.content_hash = dsvn::object::ObjectId::new([0u8; 32]);
    assert_eq!(p.record_revision(&bad, &vec![false, false]).unwrap_err(), "Content hash mismatch for revision 2");
    assert_eq!(p.revisions_synced, 1);
    assert_eq!(p.end_batch(100), 100);
    assert_eq!(p.next_batch(), Some((101, 150)));
    p.stop();
    assert_eq!(p.next_batch(), None);
    let r = p.result(7);
    assert_eq!((r.from_rev, r.to_rev, r.revisions_synced, r.duration_ms, r.already_up_to_date), (1, 150, 1, 7, false));
}
