use dsvn::object::{ObjectId, ObjectKind, TreeChange, TreeEntry};
use dsvn::reports::{
    dated_rev, dated_rev_xml, dated_target, deleted_rev, deleted_rev_xml, fixed_report_xml, locations_report_xml,
    replay_report_xml, replay_rev, report_kind, DeletedRevRequest, LocationsRequest, ReportKind,
};

#[test]
fn test_report_kind_dispatch() {
    assert_eq!(report_kind("<S:update-report>"), ReportKind::Update);
    assert_eq!(report_kind("<S:log-report>"), ReportKind::Log);
    assert_eq!(report_kind("<S:get-locations><S:log/>"), ReportKind::GetLocations);
    assert_eq!(report_kind("<S:get-dated-rev-report>"), ReportKind::DatedRev);
    assert_eq!(report_kind("<S:mergeinfo-report>"), ReportKind::Mergeinfo);
    assert_eq!(report_kind("<S:get-locks-report>"), ReportKind::GetLocks);
    assert_eq!(report_kind("<S:replay-report>"), ReportKind::Replay);
    assert_eq!(report_kind("<S:get-deleted-rev-report>"), ReportKind::DeletedRev);
    assert_eq!(report_kind("<S:inherited-props-report>"), ReportKind::InheritedProps);
    assert_eq!(report_kind("<S:something-else>"), ReportKind::Unsupported);
}

#[test]
fn test_fixed_reports() {
    assert_eq!(
        fixed_report_xml(ReportKind::Mergeinfo).unwrap(),
        "<?xml version=\"1.0\" encoding=\"utf-8\"?>\n<S:mergeinfo-report xmlns:S=\"svn:\">\n</S:mergeinfo-report>"
    );
    assert!(fixed_report_xml(ReportKind::Unsupported).unwrap().contains("errcode=\"200007\""));
    assert!(fixed_report_xml(ReportKind::Log).is_none());
}

#[test]
fn test_locations_report() {
    let body = "<S:get-locations><S:path>//trunk/a.txt</S:path><S:peg-revision>3</S:peg-revision>\
<S:location-revision>1</S:location-revision><S:location-revision>x</S:location-revision>\
<S:location-revision>9</S:location-revision></S:get-locations>";
    let req = LocationsRequest::parse(body, 5);
    assert_eq!(req.path, "trunk/a.txt");
    assert_eq!(req.peg_rev, 3);
    assert_eq!(req.revs, vec![1, 5]);
    let x = locations_report_xml(&req, &vec![Some(true), Some(false)]);
    assert_eq!(
        x,
        "<?xml version=\"1.0\" encoding=\"utf-8\"?>\n<S:get-locations-report xmlns:S=\"svn:\" xmlns:D=\"DAV:\">\n<S:location rev=\"1\" path=\"/trunk/a.txt\"/>\n</S:get-locations-report>"
    );
}

#[test]
fn test_locations_report_root() {
    let req = LocationsRequest::parse("<path>/</path><peg-revision>2</peg-revision><S:location-revision>1</S:location-revision><S:location-revision>4</S:location-revision>", 9);
    assert_eq!(req.path, "");
    let x = locations_report_xml(&req, &vec![Some(false), Some(false)]);
    assert!(x.contains("<S:location rev=\"1\" path=\"/\"/>\n"));
    assert!(!x.contains("rev=\"4\""));
}

#[test]
fn test_dated_rev() {
    assert_eq!(dated_target("<D:creationdate>1970-01-01T00:01:40Z</D:creationdate>"), 100);
    assert_eq!(dated_target("<S:creationdate>not a date</S:creationdate>"), i64::MAX);
    assert_eq!(dated_target(""), i64::MAX);
    let times = vec![Some(0), Some(50), None, Some(150)];
    assert_eq!(dated_rev(&times, 100), 1);
    assert_eq!(dated_rev(&times, i64::MAX), 3);
    assert_eq!(dated_rev(&vec![Some(10)], 5), 0);
    assert_eq!(
        dated_rev_xml(1),
        "<?xml version=\"1.0\" encoding=\"utf-8\"?>\n<S:dated-rev-report xmlns:S=\"svn:\" xmlns:D=\"DAV:\">\n<D:version-name>1</D:version-name>\n</S:dated-rev-report>"
    );
}

#[test]
fn test_replay_report() {
    assert_eq!(replay_rev("<S:revision>4</S:revision>", 9), 4);
    assert_eq!(replay_rev("", 9), 9);
    let changes = vec![
        TreeChange::Upsert {
            path: "a&b".to_string(),
            entry: TreeEntry::new("a&b".to_string(), ObjectId::new([0; 32]), ObjectKind::Blob, 0o644),
        },
        TreeChange::Delete { path: "c".to_string() },
    ];
    assert_eq!(
        replay_report_xml(4, &Some(changes)),
        "<?xml version=\"1.0\" encoding=\"utf-8\"?>\n<S:editor-report xmlns:S=\"svn:\">\n<S:target-revision>4</S:target-revision>\n<S:open-root>\n<S:add-file name=\"a&amp;b\">\n</S:add-file>\n<S:delete-entry name=\"c\"/>\n</S:open-root>\n</S:editor-report>"
    );
    assert_eq!(
        replay_report_xml(2, &None),
        "<?xml version=\"1.0\" encoding=\"utf-8\"?>\n<S:editor-report xmlns:S=\"svn:\">\n<S:target-revision>2</S:target-revision>\n</S:editor-report>"
    );
}

#[test]
fn test_deleted_rev() {
    let req = DeletedRevRequest::parse("<S:path>/dir/f.txt</S:path><S:peg-revision>2</S:peg-revision><S:end-revision>10</S:end-revision>", 6);
    assert_eq!(req.path, "dir/f.txt");
    assert_eq!(req.search_range(6), Some((3, 6)));
    assert_eq!(DeletedRevRequest::parse("<S:peg-revision>6</S:peg-revision>", 6).search_range(6), None);
    let revs = vec![
        (3u64, Some(vec!["other".to_string()])),
        (4u64, None),
        (5u64, Some(vec!["di".to_string(), "dir".to_string()])),
        (6u64, Some(vec!["dir/f.txt".to_string()])),
    ];
    assert_eq!(deleted_rev("dir/f.txt", &revs), 5);
    assert_eq!(deleted_rev("nothing", &revs), 0);
    assert_eq!(
        deleted_rev_xml(5),
        "<?xml version=\"1.0\" encoding=\"utf-8\"?>\n<S:get-deleted-rev-report xmlns:S=\"svn:\" xmlns:D=\"DAV:\">\n<D:version-name>5</D:version-name>\n</S:get-deleted-rev-report>"
    );
}
