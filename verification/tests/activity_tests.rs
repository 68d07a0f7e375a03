use dsvn::activity::{
    activity_created_xml, activity_exists_xml, activity_id, activity_list_xml, activity_name, activity_not_found_xml,
    commit_author, commit_message, get_target, is_executable_path, merge_response_xml, merge_txn_name,
    proppatch_target, put_target, txn_proppatch_xml, txr_proppatch_xml, GetTarget, PropPatchTarget,
};

#[test]
fn test_activity_id() {
    assert_eq!(activity_id("/svn/!svn/act/abc//"), Some("abc".to_string()));
    assert_eq!(activity_id("/!svn/act/x"), Some("x".to_string()));
    assert_eq!(activity_id("/svn/!svn/act/"), Some(String::new()));
    assert_eq!(activity_id("/svn/!svn/txn/abc"), None);
}

#[test]
fn test_activity_name() {
    assert_eq!(activity_name("", 7, 3), "7-3");
    assert_eq!(activity_name("client-id", 7, 3), "client-id");
}

#[test]
fn test_put_target() {
    assert_eq!(put_target("/svn/!svn/txr/5-1/dir/file.txt"), Some(("5-1".to_string(), "dir/file.txt".to_string())));
    assert_eq!(put_target("/svn/!svn/txr/5-1"), None);
    assert_eq!(put_target("/svn/trunk/file.txt"), None);
}

#[test]
fn test_proppatch_target() {
    assert_eq!(proppatch_target("/svn/!svn/txr/t1/a/b"), PropPatchTarget::TxrFile("t1".to_string(), "a/b".to_string()));
    assert_eq!(proppatch_target("/svn/!svn/txr/t1"), PropPatchTarget::TxrFile("t1".to_string(), String::new()));
    assert_eq!(proppatch_target("/svn/!svn/txn/t2"), PropPatchTarget::Txn("t2".to_string()));
    assert_eq!(proppatch_target("/svn/trunk"), PropPatchTarget::Resource);
}

#[test]
fn test_proppatch_responses() {
    let head = "<?xml version=\"1.0\" encoding=\"utf-8\"?>\n<D:multistatus xmlns:D=\"DAV:\" xmlns:ns3=\"http://subversion.tigris.org/xmlns/dav/\" xmlns:ns2=\"http://subversion.tigris.org/xmlns/custom/\" xmlns:ns1=\"http://subversion.tigris.org/xmlns/svn/\" xmlns:ns0=\"DAV:\">\n<D:response>\n<D:href>";
    assert_eq!(
        txr_proppatch_xml("/svn/!svn/txr/t/f"),
        format!("{}/svn/!svn/txr/t/f</D:href>\n<D:propstat>\n<D:prop/>\n<D:status>HTTP/1.1 200 OK</D:status>\n</D:propstat>\n</D:response>\n</D:multistatus>", head)
    );
    assert_eq!(
        txn_proppatch_xml("t"),
        format!("{}/svn/!svn/txn/t</D:href>\n<D:propstat>\n<D:prop>\n<ns1:log/>\n</D:prop>\n<D:status>HTTP/1.1 200 OK</D:status>\n</D:propstat>\n</D:response>\n</D:multistatus>", head)
    );
}

#[test]
fn test_activity_responses() {
    assert_eq!(
        activity_exists_xml("a<b"),
        "<?xml version=\"1.0\" encoding=\"utf-8\"?>\n<D:error xmlns:D=\"DAV:\" xmlns:m=\"http://apache.org/dav/xmlns\" xmlns:C=\"svn:\">\n<C:error/>\n<m:human-readable errcode=\"160024\">\nActivity 'a&lt;b' already exists.\n</m:human-readable>\n</D:error>"
    );
    assert_eq!(
        activity_not_found_xml("x"),
        "<?xml version=\"1.0\" encoding=\"utf-8\"?>\n<D:error xmlns:D=\"DAV:\" xmlns:m=\"http://apache.org/dav/xmlns\" xmlns:C=\"svn:\">\n<C:error/>\n<m:human-readable errcode=\"160007\">\nActivity 'x' not found.\n</m:human-readable>\n</D:error>"
    );
    assert_eq!(
        activity_created_xml("5-1"),
        "<?xml version=\"1.0\" encoding=\"utf-8\"?>\n<D:mkactivity-response xmlns:D=\"DAV:\">\n<D:href>/svn/!svn/act/5-1</D:href>\n</D:mkactivity-response>"
    );
}

#[test]
fn test_merge_decisions() {
    assert_eq!(merge_txn_name("<D:href>/svn/!svn/txn/5-2</D:href>"), "5-2");
    assert_eq!(merge_txn_name("<D:href>/x</D:href>"), "");
    assert!(is_executable_path("/scripts/run.sh"));
    assert!(is_executable_path("/usr/bin/tool"));
    assert!(!is_executable_path("/a/sh"));
    assert_eq!(commit_author(""), "anonymous");
    assert_eq!(commit_author("bob"), "bob");
    assert_eq!(commit_message(""), "No log message");
    assert_eq!(commit_message("fix"), "fix");
}

#[test]
fn test_merge_response_xml() {
    assert_eq!(
        merge_response_xml(4, 0, "a<b"),
        "<?xml version=\"1.0\" encoding=\"utf-8\"?>\n<D:merge-response xmlns:D=\"DAV:\">\n<D:updated-set>\n<D:response>\n<D:href>/svn/!svn/vcc/default</D:href>\n<D:propstat><D:prop>\n<D:resourcetype><D:baseline/></D:resourcetype>\n<D:version-name>4</D:version-name>\n<D:creationdate>1970-01-01T00:00:00.000000Z</D:creationdate>\n<D:creator-displayname>a&lt;b</D:creator-displayname>\n</D:prop>\n<D:status>HTTP/1.1 200 OK</D:status>\n</D:propstat>\n</D:response>\n</D:updated-set>\n</D:merge-response>"
    );
}

#[test]
fn test_activity_list_xml() {
    assert_eq!(
        activity_list_xml(&vec!["a".to_string(), "b".to_string()]),
        "<?xml version=\"1.0\" encoding=\"utf-8\"?>\n<D:activity-collection-set xmlns:D=\"DAV:\">\n  <D:href>/svn/!svn/act/a</D:href>\n  <D:href>/svn/!svn/act/b</D:href>\n</D:activity-collection-set>"
    );
}

#[test]
fn test_get_target() {
    assert_eq!(get_target("/svn/!svn/act/"), GetTarget::ListActivities);
    assert_eq!(get_target("/svn/!svn/act"), GetTarget::ListActivities);
    assert_eq!(get_target("/svn/!svn/ver/1/a"), GetTarget::NotFound);
    assert_eq!(get_target("/svn/trunk/"), GetTarget::UsePropfind);
    assert_eq!(get_target("/svn"), GetTarget::UsePropfind);
    assert_eq!(get_target("/svn/trunk/a.txt"), GetTarget::File);
}

#[test]
fn activity_table_refuses_duplicates() {
    let mut t = dsvn::activity::ActivityTable::new();
    assert!(t.create("txn-1", 4, 100).is_ok());
    assert!(t.contains("txn-1"));
    let e = t.create("txn-1", 5, 200).unwrap_err();
    assert!(e.contains("errcode=\"160024\""));
    assert!(e.contains("Activity 'txn-1' already exists."));
    assert!(t.create("txn-2", 5, 200).is_ok());
    let mut names = t.names();
    names.sort();
    assert_eq!(names, vec!["txn-1".to_string(), "txn-2".to_string()]);
    assert!(t.remove("txn-1"));
    assert!(!t.remove("txn-1"));
    assert!(!t.contains("txn-1"));
}
