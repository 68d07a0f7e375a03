use dsvn::options::{is_create_txn, options_body, options_has_body, options_headers};

#[test]
fn test_options_without_body() {
    assert!(!options_has_body(""));
    let h = options_headers(false, 5, "U");
    assert_eq!(h.len(), 14);
    assert_eq!(h[0], ("Allow".to_string(), "OPTIONS,GET,HEAD,POST,DELETE,TRACE,PROPFIND,PROPPATCH,COPY,MOVE,LOCK,UNLOCK,CHECKOUT".to_string()));
    assert_eq!(h[13], ("MS-Author-Via".to_string(), "DAV".to_string()));
    assert_eq!(options_body(false), "");
}

#[test]
fn test_options_with_activity_set() {
    assert!(options_has_body("<D:options><D:activity-collection-set/></D:options>"));
    let h = options_headers(true, 5, "U");
    assert_eq!(h.len(), 30);
    assert!(h.contains(&("SVN-Youngest-Rev".to_string(), "5".to_string())));
    assert!(h.contains(&("SVN-Repository-UUID".to_string(), "U".to_string())));
    assert_eq!(h[29], ("Content-Type".to_string(), "text/xml; charset=\"utf-8\"".to_string()));
    assert_eq!(
        options_body(true),
        "<?xml version=\"1.0\" encoding=\"utf-8\"?>\n<D:options-response xmlns:D=\"DAV:\">\n<D:activity-collection-set><D:href>/svn/!svn/act/</D:href></D:activity-collection-set></D:options-response>"
    );
}

#[test]
fn test_is_create_txn() {
    assert!(is_create_txn("/svn/!svn/me", "(create-txn)"));
    assert!(!is_create_txn("/svn/!svn/me", "(other)"));
    assert!(!is_create_txn("/svn/trunk", "(create-txn)"));
}
