use dsvn::replication::{
    decode_compressed_frame, encode_compressed_frame, encode_frame, Compression, HandshakeRequest, PROTOCOL_MAGIC,
    PROTOCOL_VERSION,
};
use dsvn::sync::{ReplicationLog, ReplicationLogEntry, SyncState};

#[test]
fn test_handshake_request() {
    let req = HandshakeRequest::new();
    assert_eq!(req.magic, PROTOCOL_MAGIC);
    assert_eq!(req.version, PROTOCOL_VERSION);
    assert!(!req.capabilities.is_empty());
}

#[test]
fn test_sync_state_new() {
    let state = SyncState::new("test-uuid".to_string(), "file:///repo".to_string());
    assert_eq!(state.source_uuid, "test-uuid");
    assert_eq!(state.source_url, "file:///repo");
    assert_eq!(state.last_synced_rev, 0);
    assert!(!state.sync_in_progress);
}

#[test]
fn test_sync_state_verify_source() {
    let state = SyncState::new("uuid-abc".to_string(), "url".to_string());
    assert!(state.verify_source("uuid-abc").is_ok());
    assert!(state.verify_source("uuid-xyz").is_err());
}

#[test]
fn sync_state_begin_complete_checkpoint() {
    let mut s = SyncState::new("u".to_string(), "x".to_string());
    s.begin_sync();
    assert!(s.sync_in_progress);
    s.set_checkpoint(7);
    assert_eq!(s.effective_start_rev(), 7);
    s.complete_sync_at(10, 1234);
    assert!(!s.sync_in_progress);
    assert_eq!(s.last_synced_rev, 10);
    assert_eq!(s.total_synced_revisions, 1);
    assert_eq!(s.last_sync_timestamp, 1234);
    assert_eq!(s.checkpoint_rev, None);
    assert_eq!(s.effective_start_rev(), 10);
    assert_eq!(
        s.verify_source("v").unwrap_err(),
        "Source UUID mismatch: expected u, got v. The source repository may have been recreated."
    );
    assert_eq!(SyncState::state_file_path("/r"), "/r/sync-state.json");
}

fn entry(from: u64, to: u64, ts: i64) -> ReplicationLogEntry {
    ReplicationLogEntry {
        from_rev: from,
        to_rev: to,
        timestamp: ts,
        objects_transferred: 1,
        bytes_transferred: 2,
        duration_ms: 3,
        success: true,
        error: None,
    }
}

#[test]
fn replication_log_select_and_latest() {
    let all = vec![entry(10, 12, 3), entry(1, 5, 1), entry(6, 9, 2)];
    let sel = ReplicationLog::query(all, 4, 7);
    assert_eq!(sel.len(), 2);
    assert_eq!(sel[0].from_rev, 1);
    assert_eq!(sel[1].from_rev, 6);
    let latest = ReplicationLog::latest(vec![entry(1, 5, 1), entry(6, 9, 2)]).unwrap();
    assert_eq!(latest.to_rev, 9);
    assert!(ReplicationLog::latest(vec![]).is_none());
    let tie = ReplicationLog::latest(vec![entry(6, 7, 1), entry(2, 3, 2), entry(6, 8, 3)]).unwrap();
    assert_eq!(tie.to_rev, 8);
    let every = ReplicationLog::all(vec![entry(6, 7, 1), entry(2, 3, 2)]);
    assert_eq!(every[0].from_rev, 2);
    assert_eq!(every[1].from_rev, 6);
}

#[test]
fn frames_roundtrip() {
    let f = encode_frame(b"abc").unwrap();
    assert_eq!(f, vec![3, 0, 0, 0, b'a', b'b', b'c']);
    let c = encode_compressed_frame(b"hello hello hello").unwrap();
    assert_eq!(&c[0..4], &PROTOCOL_MAGIC);
    assert_eq!(c[4], 1);
    assert_eq!(decode_compressed_frame(&c).unwrap(), b"hello hello hello".to_vec());
    assert_eq!(decode_compressed_frame(b"DSVN").unwrap_err(), "Message too short for header");
    assert_eq!(
        decode_compressed_frame(b"XXXX\0\0\0\0\0\0\0\0\0").unwrap_err(),
        "Invalid protocol magic"
    );
    let mut plain = b"DSVN\0\x02\0\0\0\x02\0\0\0hi".to_vec();
    assert_eq!(decode_compressed_frame(&plain).unwrap(), b"hi".to_vec());
    plain.pop();
    assert_eq!(decode_compressed_frame(&plain).unwrap_err(), "Message truncated");
    let _ = Compression::Uncompressed;
}

#[test]
fn replication_log_totals() {
    let mut failed = entry(3, 4, 5);
    failed.success = false;
    let t = ReplicationLog::totals(&vec![entry(1, 2, 1), failed]);
    assert_eq!((t.entries, t.successes, t.objects, t.bytes, t.duration_ms), (2, 1, 2, 4, 6));
}
