use dsvn::propfind::{is_repository_root, repository_list_xml, svn_special_propfind};

const HEAD: &str = "<?xml version=\"1.0\" encoding=\"utf-8\"?>\n<D:multistatus xmlns:D=\"DAV:\" xmlns:ns0=\"DAV:\">\n";
const LP13: &str = "<D:response xmlns:lp1=\"DAV:\" xmlns:lp3=\"http://subversion.tigris.org/xmlns/dav/\">\n";
const TAIL: &str = "</D:prop>\n<D:status>HTTP/1.1 200 OK</D:status>\n</D:propstat>\n</D:response>\n</D:multistatus>";

#[test]
fn test_is_repository_root() {
    assert!(is_repository_root("/svn/"));
    assert!(is_repository_root("/svn"));
    assert!(is_repository_root("/"));
    assert!(is_repository_root(""));
    assert!(!is_repository_root("/svn/repo"));
}

#[test]
fn test_special_vcc_and_baseline() {
    assert_eq!(
        svn_special_propfind("/svn/!svn/vcc/default", 7, "U").unwrap(),
        format!("{}{}<D:href>/svn/!svn/vcc/default</D:href>\n<D:propstat>\n<D:prop>\n<lp1:checked-in><D:href>/svn/!svn/bln/7</D:href></lp1:checked-in>\n{}", HEAD, LP13, TAIL)
    );
    assert_eq!(
        svn_special_propfind("/svn/!svn/bln/3", 7, "U").unwrap(),
        format!("{}{}<D:href>/svn/!svn/bln/3</D:href>\n<D:propstat>\n<D:prop>\n<lp1:baseline-collection><D:href>/svn/!svn/bc/3/</D:href></lp1:baseline-collection>\n<lp1:version-name>3</lp1:version-name>\n{}", HEAD, LP13, TAIL)
    );
    assert!(svn_special_propfind("/svn/!svn/bln/x", 7, "U").unwrap().contains("<D:href>/svn/!svn/bln/0</D:href>"));
}

#[test]
fn test_special_baseline_collection() {
    assert_eq!(
        svn_special_propfind("/svn/!svn/bc/5/trunk", 7, "U").unwrap(),
        format!("{}{}<D:href>/svn/!svn/bc/5/trunk</D:href>\n<D:propstat>\n<D:prop>\n<lp1:resourcetype><D:collection/></lp1:resourcetype>\n<lp1:version-name>5</lp1:version-name>\n<lp3:repository-uuid>U</lp3:repository-uuid>\n{}", HEAD, LP13, TAIL)
    );
    assert!(svn_special_propfind("/svn/!svn/bc/5", 7, "U").unwrap().contains("<D:href>/svn/!svn/bc/5/</D:href>"));
}

#[test]
fn test_special_revision_root() {
    let dir = svn_special_propfind("/svn/!svn/rvr/4", 7, "U").unwrap();
    assert_eq!(
        dir,
        format!("{}<D:response xmlns:lp1=\"DAV:\">\n<D:href>/svn/!svn/rvr/4/</D:href>\n<D:propstat>\n<D:prop>\n<lp1:resourcetype><D:collection/></lp1:resourcetype>\n{}", HEAD, TAIL)
    );
    let file = svn_special_propfind("/svn/!svn/rvr/4/a.txt", 7, "U").unwrap();
    assert!(file.contains("<D:href>/svn/!svn/rvr/4/a.txt</D:href>"));
    assert!(file.contains("<lp1:resourcetype></lp1:resourcetype>"));
    assert!(svn_special_propfind("/svn/!svn/rvr/4/d/", 7, "U").unwrap().contains("<D:collection/>"));
}

#[test]
fn test_special_version_and_unknown() {
    assert_eq!(
        svn_special_propfind("/svn/!svn/ver/3/x", 7, "U").unwrap(),
        format!("{}{}<D:href>/svn/!svn/ver/3/x</D:href>\n<D:propstat>\n<D:prop>\n<lp1:resourcetype><D:collection/></lp1:resourcetype>\n{}", HEAD, LP13, TAIL)
    );
    assert!(svn_special_propfind("/svn/!svn/xyz/1", 7, "U").is_none());
}

#[test]
fn test_repository_list_xml() {
    let x = repository_list_xml(&vec![("r1".to_string(), "Repo <1>".to_string())]);
    assert_eq!(
        x,
        "<?xml version=\"1.0\" encoding=\"utf-8\"?>\n<D:multistatus xmlns:D=\"DAV:\" xmlns:S=\"http://subversion.tigris.org/xmlns/dav/\">\n  <D:response>\n    <D:href>/svn/r1/</D:href>\n    <D:propstat>\n      <D:prop>\n        <D:displayname>Repo &lt;1&gt;</D:displayname>\n        <D:resourcetype><D:collection/></D:resourcetype>\n      </D:prop>\n      <D:status>HTTP/1.1 200 OK</D:status>\n    </D:propstat>\n  </D:response>\n</D:multistatus>"
    );
}

#[test]
fn test_resource_propfind_xml() {
    let x = dsvn::propfind::resource_propfind_xml(3, "U", 0);
    assert!(x.contains("<lp1:getetag>W/\"3//\"</lp1:getetag>"));
    assert!(x.contains("<lp1:creationdate>1970-01-01T00:00:00.000000Z</lp1:creationdate>"));
    assert!(x.contains("<lp1:getlastmodified>Thu, 01 Jan 1970 00:00:00 GMT</lp1:getlastmodified>"));
    assert!(x.contains("<lp1:checked-in><D:href>/svn/!svn/ver/3/</D:href></lp1:checked-in>"));
    assert!(x.contains("<lp3:repository-uuid>U</lp3:repository-uuid>"));
    assert!(x.ends_with("</D:multistatus>"));
    assert!(dsvn::propfind::resource_propfind_now(3, "U").contains("<lp1:version-name>3</lp1:version-name>"));
}
