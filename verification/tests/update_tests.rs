use dsvn::object::{Commit, ObjectId};
use dsvn::update::{report_date, sort_by_path, update_report_xml, TreeItem, UpdateRequest};

#[test]
fn test_update_request_parse() {
    let r = UpdateRequest::parse("<S:update-report><S:target-revision>5</S:target-revision></S:update-report>", 9);
    assert_eq!(r.target_rev, 5);
    assert_eq!(r.src_rev, None);
    assert!(r.is_fresh_checkout);
    let r = UpdateRequest::parse("<S:src-path>/svn</S:src-path><S:entry rev=\"3\"></S:entry>", 9);
    assert_eq!(r.target_rev, 9);
    assert_eq!(r.src_rev, Some(3));
    assert!(!r.is_fresh_checkout);
    let r = UpdateRequest::parse("<S:src-path>/svn</S:src-path><S:entry rev=\"0\"/>", 9);
    assert_eq!(r.src_rev, Some(0));
    assert!(r.is_fresh_checkout);
    let r = UpdateRequest::parse("<S:target-revision>x</S:target-revision>", 4);
    assert_eq!(r.target_rev, 4);
}

fn item(path: &str, is_blob: bool, content: Option<&[u8]>) -> TreeItem {
    TreeItem { path: path.to_string(), is_blob, content: content.map(|c| c.to_vec()) }
}

#[test]
fn test_sort_by_path() {
    let sorted = sort_by_path(vec![item("b", true, None), item("a/z", true, None), item("a", false, None)]);
    let paths: Vec<&str> = sorted.iter().map(|t| t.path.as_str()).collect();
    assert_eq!(paths, vec!["a", "a/z", "b"]);
}

fn props(rev: &str) -> String {
    format!(
        "<S:set-prop name=\"svn:entry:committed-rev\">{}</S:set-prop>\n<S:set-prop name=\"svn:entry:committed-date\">D</S:set-prop>\n<S:set-prop name=\"svn:entry:last-author\">a&amp;b</S:set-prop>\n<S:set-prop name=\"svn:entry:uuid\">U</S:set-prop>",
        rev
    )
}

#[test]
fn test_update_report_fresh_checkout() {
    let req = UpdateRequest { target_rev: 2, src_rev: None, is_fresh_checkout: true };
    let items = vec![
        item("d/e.txt", true, Some(b"")),
        item("a.txt", true, Some(b"hi")),
        item("d", false, None),
        item("d/f.txt", true, None),
    ];
    let x = update_report_xml(&req, "D", "a&b", "U", items);
    let p = props("2");
    let mut e = format!(
        "<?xml version=\"1.0\" encoding=\"utf-8\"?>\n<S:update-report xmlns:S=\"svn:\" xmlns:V=\"http://subversion.tigris.org/xmlns/dav/\" xmlns:D=\"DAV:\" send-all=\"true\" inline-props=\"true\">\n<S:target-revision rev=\"2\"/>\n<S:open-directory rev=\"2\">\n<D:checked-in><D:href>/svn/!svn/rvr/2/</D:href></D:checked-in>\n{}",
        p
    );
    e.push_str(&format!(
        "\n<S:add-file name=\"a.txt\">\n<D:checked-in><D:href>/svn/!svn/rvr/2/a.txt</D:href></D:checked-in>\n{}\n<S:txdelta>aGk=</S:txdelta>\n<S:prop><V:md5-checksum>49f68a5c8493ec2c0bf489821c21fc3b</V:md5-checksum></S:prop>\n</S:add-file>",
        p
    ));
    e.push_str(&format!(
        "\n<S:add-directory name=\"d\" bc-url=\"/svn/!svn/bc/2/d\">\n<D:checked-in><D:href>/svn/!svn/rvr/2/d</D:href></D:checked-in>\n{}",
        p
    ));
    e.push_str(&format!(
        "\n<S:add-file name=\"e.txt\">\n<D:checked-in><D:href>/svn/!svn/rvr/2/d/e.txt</D:href></D:checked-in>\n{}\n<S:prop><V:md5-checksum>d41d8cd98f00b204e9800998ecf8427e</V:md5-checksum></S:prop>\n</S:add-file>",
        p
    ));
    e.push_str(&format!(
        "\n<S:add-file name=\"f.txt\">\n<D:checked-in><D:href>/svn/!svn/rvr/2/d/f.txt</D:href></D:checked-in>\n{}\n</S:add-file>",
        p
    ));
    e.push_str("\n</S:add-directory>\n</S:open-directory>\n</S:update-report>");
    assert_eq!(x, e);
}

#[test]
fn test_update_report_not_fresh_sends_no_entries() {
    let req = UpdateRequest { target_rev: 7, src_rev: Some(3), is_fresh_checkout: false };
    let x = update_report_xml(&req, "D", "a&b", "U", vec![item("a.txt", true, Some(b"x"))]);
    assert!(x.ends_with(&format!("{}\n</S:open-directory>\n</S:update-report>", props("7"))));
    assert!(!x.contains("add-file"));
}

#[test]
fn test_report_date() {
    let c = Commit::new(ObjectId::new([0; 32]), vec![], "a".to_string(), "m".to_string(), 86400, 0);
    assert_eq!(report_date(&Some(c)), "1970-01-02T00:00:00.000000Z");
    assert_eq!(report_date(&None).len(), 27);
}
