use dsvn::object::ObjectId;
use dsvn::sync_handlers::push_object_record;
use dsvn::verify::{
    fetch_result, objects_url, parse_object_records, verify_outcome, verify_range, BlobCheck, CommitFindings,
    RevisionFindings, VerifyTally,
};

#[test]
fn test_verify_range_defaults_and_clamp() {
    assert_eq!(verify_range(None, None, 7), (0, 7));
    assert_eq!(verify_range(Some(2), Some(100), 7), (2, 7));
    assert_eq!(verify_range(Some(3), Some(5), 7), (3, 5));
}

#[test]
fn test_record_missing_commit() {
    let mut t = VerifyTally::new();
    let msgs = t.record_revision(&RevisionFindings { rev: 4, commit: None });
    assert_eq!(msgs, vec!["  ERROR: r4 commit not found".to_string()]);
    assert_eq!((t.errors, t.warnings, t.verified_revs, t.verified_objects), (1, 0, 1, 0));
}

#[test]
fn test_record_revision_with_findings() {
    let mut t = VerifyTally::new();
    let f = RevisionFindings {
        rev: 3,
        commit: Some(CommitFindings {
            author_empty: true,
            tree: Ok(vec![
                BlobCheck { path: "a".to_string(), id: ObjectId::new([1; 32]), readable: true },
                BlobCheck { path: "b/c".to_string(), id: ObjectId::new([2; 32]), readable: false },
            ]),
            delta_present: false,
        }),
    };
    let msgs = t.record_revision(&f);
    assert_eq!(
        msgs,
        vec![
            "  WARNING: r3 has empty author".to_string(),
            "  ERROR: r3 object missing for 'b/c'".to_string(),
            "  WARNING: r3 has no delta tree".to_string(),
        ]
    );
    assert_eq!((t.errors, t.warnings, t.verified_revs, t.verified_objects), (1, 2, 1, 1));
    assert_eq!(t.missing, vec![ObjectId::new([2; 32])]);
}

#[test]
fn test_record_revision_zero_and_tree_failure() {
    let mut t = VerifyTally::new();
    let f0 = RevisionFindings {
        rev: 0,
        commit: Some(CommitFindings { author_empty: true, tree: Ok(vec![]), delta_present: false }),
    };
    assert!(t.record_revision(&f0).is_empty());
    let f1 = RevisionFindings {
        rev: 1,
        commit: Some(CommitFindings { author_empty: false, tree: Err("boom".to_string()), delta_present: true }),
    };
    assert_eq!(t.record_revision(&f1), vec!["  ERROR: r1 tree reconstruction failed: boom".to_string()]);
    assert_eq!((t.errors, t.warnings, t.verified_revs, t.verified_objects), (1, 0, 2, 1));
}

#[test]
fn test_verify_outcome() {
    assert!(verify_outcome(0).is_ok());
    assert_eq!(verify_outcome(3).unwrap_err(), "Repository verification failed with 3 error(s)");
}

#[test]
fn test_objects_url() {
    let ids = vec![ObjectId::new([0xab; 32]), ObjectId::new([0x01; 32])];
    let u = objects_url("http://host/svn//", &ids);
    assert_eq!(u, format!("http://host/svn/objects?id={}&id={}", "ab".repeat(32), "01".repeat(32)));
    assert_eq!(objects_url("http://h", &[]), "http://h/objects");
}

#[test]
fn test_object_records_roundtrip() {
    let a = ObjectId::new([3; 32]);
    let b = ObjectId::new([4; 32]);
    let data = b"abc".to_vec();
    let mut buf = Vec::new();
    push_object_record(&mut buf, &a, Some(&data));
    push_object_record(&mut buf, &b, None);
    let (objs, truncated) = parse_object_records(&buf);
    assert!(!truncated);
    assert_eq!(objs.len(), 2);
    assert_eq!(objs[0].id, a);
    assert_eq!(objs[0].data, Some(b"abc".to_vec()));
    assert_eq!(objs[1].id, b);
    assert_eq!(objs[1].data, None);
    let r = fetch_result(&objs);
    assert_eq!((r.fetched, r.bytes, r.errors), (1, 3, 1));
}

#[test]
fn test_object_records_truncated() {
    let a = ObjectId::new([3; 32]);
    let data = b"abcdef".to_vec();
    let mut buf = Vec::new();
    push_object_record(&mut buf, &a, None);
    push_object_record(&mut buf, &a, Some(&data));
    buf.truncate(buf.len() - 2);
    let (objs, truncated) = parse_object_records(&buf);
    assert!(truncated);
    assert_eq!(objs.len(), 1);
    assert_eq!(objs[0].data, None);
}

#[test]
fn test_object_records_ignore_short_tail() {
    let (objs, truncated) = parse_object_records(&[1u8; 35]);
    assert!(objs.is_empty());
    assert!(!truncated);
}
