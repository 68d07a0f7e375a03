use dsvn::auth::{AuthProvider, AuthResult, HtpasswdAuthProvider, MockAuthProvider, NoOpAuthProvider};
use dsvn::authz::{AccessLevel, AuthzProvider, AuthzResult, MockAuthzProvider, SvnAuthzProvider};

#[test]
fn test_parse_htpasswd() {
    let content = r#"
            admin:$2y$05$rGZz6f3q9W5v7xY8zM2mLe8wW0k9vY6gQ4hMxLkNnMzKqPpJrWQ6e
            user1:$2y$05$rGZz6f3q9W5v7xY8zM2mLe8wW0k9vY6gQ4hMxLkNnMzKqPpJrWQ6e
        "#;

    let provider = HtpasswdAuthProvider::from_content(content).unwrap();
    assert!(provider.users().contains_key("admin"));
    assert!(provider.users().contains_key("user1"));
}

#[test]
fn test_parse_htpasswd_empty() {
    let content = "\n# Comment\n\n";

    let result = HtpasswdAuthProvider::from_content(content);
    assert!(result.is_err());
}

#[test]
fn test_parse_htpasswd_invalid() {
    let content = "invalid_line_without_colon";

    let result = HtpasswdAuthProvider::from_content(content);
    assert!(result.is_err());
}

#[test]
fn htpasswd_error_messages() {
    let e = HtpasswdAuthProvider::from_content("  bad line  ").err().unwrap();
    assert_eq!(e, "Invalid htpasswd line: bad line");
    let e = HtpasswdAuthProvider::from_content("x: ").err().unwrap();
    assert_eq!(e, "Invalid htpasswd line (empty username or hash): x:");
    let e = HtpasswdAuthProvider::from_content("# only\n").err().unwrap();
    assert_eq!(e, "No valid users found in htpasswd file");
}

#[test]
fn htpasswd_sha1_authentication() {
    // {SHA} of "password" is base64(sha1("password")).
    let p = HtpasswdAuthProvider::from_content("bob:{SHA}W6ph5Mm5Pz8GgiULbPgzG37mj9g=\n").unwrap();
    assert_eq!(p.authenticate("bob", "password"), AuthResult::Success("bob".to_string()));
    assert_eq!(p.authenticate("bob", "wrong"), AuthResult::Failed);
    assert_eq!(p.authenticate("bob", ""), AuthResult::Failed);
    assert_eq!(p.authenticate("eve", "x"), AuthResult::Error("User not found: eve".to_string()));
}

#[test]
fn htpasswd_other_hash_formats() {
    let p = HtpasswdAuthProvider::from_content(
        "a:$2y$05$abc\nb:$2x$05$abc\nc:plaincrypt\nd:$1$md5\n",
    )
    .unwrap();
    assert_eq!(
        p.authenticate("a", "x"),
        AuthResult::Error("bcrypt verification requires the 'bcrypt' feature".to_string())
    );
    assert_eq!(p.authenticate("b", "x"), AuthResult::Failed);
    assert_eq!(
        p.authenticate("c", "x"),
        AuthResult::Error("crypt password hashes are deprecated and not supported".to_string())
    );
    assert_eq!(
        p.authenticate("d", "x"),
        AuthResult::Error("Unsupported password hash format for user: d".to_string())
    );
}

#[test]
fn simple_auth_providers() {
    assert_eq!(NoOpAuthProvider.authenticate("x", ""), AuthResult::Success("x".to_string()));
    assert_eq!(MockAuthProvider.authenticate("x", "test123"), AuthResult::Success("x".to_string()));
    assert_eq!(MockAuthProvider.authenticate("", "test123"), AuthResult::Failed);
    assert_eq!(MockAuthProvider.authenticate("x", "nope"), AuthResult::Failed);
}

#[test]
fn test_parse_groups() {
    let content = r#"
            [groups]
            developers = alice, bob
            admins = charlie
        "#;

    let provider = SvnAuthzProvider::from_content(content).unwrap();
    assert!(provider.groups().contains_key("developers"));
    assert!(provider.groups().contains_key("admins"));

    let developers = provider.groups().get("developers").unwrap();
    assert!(developers.contains(&"alice".to_string()));
    assert!(developers.contains(&"bob".to_string()));
}

#[test]
fn test_parse_access_rules() {
    let content = r#"
            [/]
            * = r
            @admins = rw

            [/private]
            @admins = rw
            * =
        "#;

    let provider = SvnAuthzProvider::from_content(content).unwrap();
    assert!(provider.rules().contains_key("/"));
    assert!(provider.rules().contains_key("/private"));
}

#[test]
fn test_access_check_user() {
    let content = r#"
            [groups]
            admins = charlie

            [/]
            * = r
            @admins = rw

            [/private]
            @admins = rw
            * =
        "#;

    let provider = SvnAuthzProvider::from_content(content).unwrap();

    assert!(matches!(provider.check_access(None, "/", AccessLevel::Read), AuthzResult::Granted));
    assert!(matches!(provider.check_access(None, "/", AccessLevel::Write), AuthzResult::Denied));
    assert!(matches!(
        provider.check_access(Some("charlie"), "/", AccessLevel::Write),
        AuthzResult::Granted
    ));
    assert!(matches!(
        provider.check_access(Some("charlie"), "/private", AccessLevel::Write),
        AuthzResult::Granted
    ));
    assert!(matches!(
        provider.check_access(None, "/private", AccessLevel::Read),
        AuthzResult::Denied
    ));
}

#[test]
fn test_access_check_specific_user() {
    let content = r#"
            [/]
            * = r
            bob = rw

            [/private]
            bob = r
        "#;

    let provider = SvnAuthzProvider::from_content(content).unwrap();

    assert!(matches!(provider.check_access(Some("bob"), "/", AccessLevel::Write), AuthzResult::Granted));
    assert!(matches!(provider.check_access(Some("alice"), "/", AccessLevel::Write), AuthzResult::Denied));
    assert!(matches!(
        provider.check_access(Some("bob"), "/private", AccessLevel::Write),
        AuthzResult::Denied
    ));
}

#[test]
fn test_path_specific_rules() {
    let content = r#"
            [/]
            * = r

            [/trunk/src]
            @developers = rw
        "#;

    let provider = SvnAuthzProvider::from_content(content).unwrap();

    assert!(matches!(provider.check_access(Some("alice"), "/", AccessLevel::Read), AuthzResult::Granted));
    assert!(matches!(provider.check_access(None, "/trunk/src", AccessLevel::Read), AuthzResult::Granted));
}

#[test]
fn authz_errors_and_defaults() {
    assert_eq!(
        SvnAuthzProvider::from_content("[/]\nbob = x\n").err().unwrap(),
        "Invalid access level: x"
    );
    assert_eq!(
        SvnAuthzProvider::from_content("[groups]\nnobody\n").err().unwrap(),
        "Invalid group definition: nobody"
    );
    assert_eq!(
        SvnAuthzProvider::from_content("[groups]\ng = , ,\n").err().unwrap(),
        "No users in group: g"
    );
    assert_eq!(
        SvnAuthzProvider::from_content("[/]\nno equals\n").err().unwrap(),
        "Invalid access rule: no equals"
    );
    let p = SvnAuthzProvider::from_content("[/x]\nbob = R\n").unwrap().with_default_access(AccessLevel::Read);
    assert!(p.can_read(Some("zed"), "/other"));
    assert!(!p.can_write(Some("zed"), "/other"));
    assert!(p.can_read(Some("bob"), "/x"));
}

#[test]
fn mock_authz_provider() {
    let m = MockAuthzProvider;
    assert!(m.can_write(Some("admin"), "/a"));
    assert!(m.can_read(Some("user"), "/a"));
    assert!(!m.can_write(Some("user"), "/a"));
    assert!(m.can_read(None, "/public/x"));
    assert!(!m.can_read(None, "/private"));
    assert!(!m.can_read(Some("other"), "/public"));
}

#[test]
fn nearest_enclosing_section_decides() {
    let p = SvnAuthzProvider::from_content("[/]\n* = r\n[/trunk]\n* =").unwrap();
    assert!(matches!(p.check_access(None, "/trunk/src", AccessLevel::Read), AuthzResult::Denied));
    assert!(matches!(p.check_access(None, "/trunk", AccessLevel::Read), AuthzResult::Denied));
    assert!(matches!(p.check_access(None, "/branches/x", AccessLevel::Read), AuthzResult::Granted));
}
