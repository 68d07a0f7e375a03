use dsvn::webdav::repo_name_in_path;

#[test]
fn test_repo_name_in_path() {
    assert_eq!(repo_name_in_path("/svn/repo1/trunk/a.txt"), Some("repo1".to_string()));
    assert_eq!(repo_name_in_path("/svn//repo2/"), Some("repo2".to_string()));
    assert_eq!(repo_name_in_path("/svn"), None);
    assert_eq!(repo_name_in_path("/svn/"), None);
    assert_eq!(repo_name_in_path("/other/x"), Some("other".to_string()));
}
