use dsvn::report::{
    extract_text_between, find_all_between, log_item_xml, log_report_xml, parse_log_range, LogChange, LogRequest,
};

#[test]
fn log_range_defaults_and_reverse() {
    assert_eq!(parse_log_range("", 9), (1, 9, false));
    assert_eq!(
        parse_log_range("<S:start-revision>10</S:start-revision><S:end-revision>2</S:end-revision>", 20),
        (2, 10, true)
    );
    assert_eq!(parse_log_range("<S:start-revision>x</S:start-revision>", 4), (1, 4, false));
}

#[test]
fn text_between_and_all_between() {
    assert_eq!(extract_text_between("a<b>c</b>", "<b>", "</b>"), Some("c".to_string()));
    assert_eq!(extract_text_between("a<b>c", "<b>", "</b>"), None);
    assert_eq!(
        find_all_between("<r>x</r> <r>y</r><r>z", "<r>", "</r>"),
        vec!["<r>x</r>".to_string(), "<r>y</r>".to_string()]
    );
}

#[test]
fn log_request_parse() {
    let body = "<S:log-report><S:start-revision>1</S:start-revision><S:end-revision>5</S:end-revision>\
<S:limit>2</S:limit><S:discover-changed-paths/><S:revprop>svn:author</S:revprop><S:revprop></S:revprop></S:log-report>";
    let r = LogRequest::parse(body, 7);
    assert_eq!((r.start_rev, r.end_rev, r.reverse), (1, 5, false));
    assert_eq!(r.limit, 2);
    assert!(r.discover_changed_paths);
    assert!(!r.include_all_revprops);
    assert_eq!(r.requested_revprops, vec!["svn:author".to_string()]);
    let plain = LogRequest::parse("<limit>3</limit>", 7);
    assert_eq!(plain.limit, 3);
    assert_eq!(LogRequest::parse("", 7).limit, usize::MAX);
}

#[test]
fn log_item_and_report_xml() {
    let req = LogRequest::parse("<S:discover-changed-paths/><S:revprop>svn:log</S:revprop>", 3);
    let changes = vec![LogChange::Modified("a&b.txt".to_string()), LogChange::Deleted("old".to_string())];
    let item = log_item_xml(2, "alice", "D", "fix <it>", &req, &changes);
    assert_eq!(
        item,
        "<S:log-item>\n<D:version-name>2</D:version-name>\n<D:comment>fix &lt;it&gt;</D:comment>\n\
<S:changed-path-item>\n<S:modified-path node-kind=\"file\" text-mods=\"true\" prop-mods=\"false\">/a&amp;b.txt</S:modified-path>\n\
<S:deleted-path node-kind=\"file\">/old</S:deleted-path>\n</S:changed-path-item>\n<S:has-children/>\n</S:log-item>\n"
    );
    let all = LogRequest::parse("", 3);
    let item0 = log_item_xml(0, "a", "d", "m", &all, &changes);
    assert!(item0.contains("<D:creator-displayname>a</D:creator-displayname>"));
    assert!(item0.contains("<S:date>d</S:date>"));
    assert!(!item0.contains("changed-path"));
    let xml = log_report_xml(&vec!["1".to_string(), "2".to_string()], true);
    assert_eq!(
        xml,
        "<?xml version=\"1.0\" encoding=\"utf-8\"?>\n<S:log-report xmlns:S=\"svn:\" xmlns:D=\"DAV:\">\n21</S:log-report>"
    );
}

#[test]
fn log_revisions_pick_commits_up_to_limit() {
    assert_eq!(dsvn::report::log_revisions(2, 2, &vec![true, false, true, true]), vec![2, 4]);
    assert_eq!(dsvn::report::log_revisions(0, 0, &vec![true, true]), Vec::<u64>::new());
    assert_eq!(dsvn::report::log_revisions(5, 10, &vec![true, true, true]), vec![5, 6, 7]);
    assert_eq!(dsvn::report::log_revisions(1, 3, &vec![false, true, false]), vec![2]);
}
