use dsvn::object::{Commit, ObjectId};
use dsvn::revprops::{
    check_revision, delete_commit_revprop, delete_custom_revprop, revprop_place, set_commit_revprop, set_custom_revprop,
    RevpropPlace,
};
use dsvn::strmap::StrMap;

fn commit() -> Commit {
    Commit::new(ObjectId::new([0; 32]), vec![], "alice".to_string(), "msg".to_string(), 10, 0)
}

#[test]
fn test_check_revision() {
    assert!(check_revision(3, 3).is_ok());
    assert_eq!(check_revision(4, 3).unwrap_err(), "Revision 4 does not exist (HEAD is r3)");
}

#[test]
fn test_revprop_place() {
    assert_eq!(revprop_place("svn:log"), RevpropPlace::Log);
    assert_eq!(revprop_place("svn:author"), RevpropPlace::Author);
    assert_eq!(revprop_place("svn:date"), RevpropPlace::Date);
    assert_eq!(revprop_place("custom:x"), RevpropPlace::Custom);
}

#[test]
fn test_set_commit_revprops() {
    let mut c = commit();
    set_commit_revprop(&mut c, RevpropPlace::Log, "new log").unwrap();
    assert_eq!(c.message, "new log");
    set_commit_revprop(&mut c, RevpropPlace::Author, "bob").unwrap();
    assert_eq!(c.author, "bob");
    set_commit_revprop(&mut c, RevpropPlace::Date, "1970-01-01T00:00:20Z").unwrap();
    assert_eq!(c.timestamp, 20);
    let e = set_commit_revprop(&mut c, RevpropPlace::Date, "yesterday").unwrap_err();
    assert_eq!(e, "Invalid date format (expected RFC 3339): yesterday");
    assert_eq!(c.timestamp, 20);
}

#[test]
fn test_delete_commit_revprops() {
    let mut c = commit();
    delete_commit_revprop(&mut c, RevpropPlace::Log).unwrap();
    assert_eq!(c.message, "");
    delete_commit_revprop(&mut c, RevpropPlace::Author).unwrap();
    assert_eq!(c.author, "");
    assert_eq!(delete_commit_revprop(&mut c, RevpropPlace::Date).unwrap_err(), "Cannot delete svn:date property");
}

#[test]
fn test_custom_revprops() {
    let mut p: StrMap<String> = StrMap::new();
    set_custom_revprop(&mut p, "k", "v");
    assert_eq!(p.get("k"), Some(&"v".to_string()));
    set_custom_revprop(&mut p, "k", "w");
    assert_eq!(p.get("k"), Some(&"w".to_string()));
    assert!(delete_custom_revprop(&mut p, "k", 2).is_ok());
    assert_eq!(p.get("k"), None);
    assert_eq!(delete_custom_revprop(&mut p, "k", 2).unwrap_err(), "Property 'k' not found on revision 2");
}
