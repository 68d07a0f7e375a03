use regex::Regex;

#[test]
fn test_expected_dav_header_format() {
        let expected_dav = "1, 2, version-controlled-configuration, http://subversion.tigris.org/xmlns/dav/svn/depth, http://subversion.tigris.org/xmlns/dav/svn/mergeinfo, http://subversion.tigris.org/xmlns/dav/svn/log-revprops";
        
        // DAV header must include WebDAV base classes
        assert!(expected_dav.contains("1"), "DAV header must include '1' (RFC 2518 classes 1)");
        assert!(expected_dav.contains("2"), "DAV header must include '2' (RFC 2518 classes 2)");
        
        // DAV header must include SVN-specific extensions
        assert!(
            expected_dav.contains("version-controlled-configuration"),
            "DAV header must include 'version-controlled-configuration' for DeltaV"
        );
        assert!(
            expected_dav.contains("http://subversion.tigris.org/xmlns/dav/svn/depth"),
            "DAV header must include SVN depth capability"
        );
        assert!(
            expected_dav.contains("http://subversion.tigris.org/xmlns/dav/svn/mergeinfo"),
            "DAV header must include SVN mergeinfo capability"
        );
        assert!(
            expected_dav.contains("http://subversion.tigris.org/xmlns/dav/svn/log-revprops"),
            "DAV header must include SVN log-revprops capability"
        );
}

#[test]
fn test_expected_svn_header_format() {
        let expected_svn = "1, 2";
        
        assert!(expected_svn.contains("1"), "SVN header must indicate version 1 support");
        assert!(expected_svn.contains("2"), "SVN header must indicate version 2 support");
}

#[test]
fn test_expected_allow_header_format() {
        let expected_allow = "OPTIONS, GET, HEAD, POST, PUT, DELETE, PROPFIND, PROPPATCH, REPORT, MERGE, CHECKOUT, CHECKIN, MKCOL, MKACTIVITY, LOCK, UNLOCK, COPY, MOVE";
        
        // Required WebDAV methods
        assert!(expected_allow.contains("OPTIONS"), "Allow header must include OPTIONS");
        assert!(expected_allow.contains("PROPFIND"), "Allow header must include PROPFIND");
        assert!(expected_allow.contains("PROPPATCH"), "Allow header must include PROPPATCH");
        assert!(expected_allow.contains("REPORT"), "Allow header must include REPORT");
        assert!(expected_allow.contains("MERGE"), "Allow header must include MERGE");
        assert!(expected_allow.contains("CHECKOUT"), "Allow header must include CHECKOUT");
        assert!(expected_allow.contains("CHECKIN"), "Allow header must include CHECKIN");
        assert!(expected_allow.contains("MKACTIVITY"), "Allow header must include MKACTIVITY");
        assert!(expected_allow.contains("MKCOL"), "Allow header must include MKCOL");
        assert!(expected_allow.contains("LOCK"), "Allow header must include LOCK");
        assert!(expected_allow.contains("UNLOCK"), "Allow header must include UNLOCK");
        
        // Standard HTTP methods
        assert!(expected_allow.contains("GET"), "Allow header must include GET");
        assert!(expected_allow.contains("PUT"), "Allow header must include PUT");
        assert!(expected_allow.contains("DELETE"), "Allow header must include DELETE");
}

#[test]
fn test_expected_options_xml_response() {
        let expected_response = r#"<?xml version="1.0" encoding="utf-8"?>
<D:options-response xmlns:D="DAV:">
</D:options-response>"#;
        
        assert!(
            expected_response.contains(r#"<?xml version="1.0" encoding="utf-8"?>"#),
            "OPTIONS response should have XML declaration"
        );
        assert!(
            expected_response.contains("options-response"),
            "OPTIONS response should contain options-response element"
        );
        assert!(
            expected_response.contains("xmlns:D=\"DAV:\""),
            "OPTIONS response should declare DAV namespace"
        );
}

#[test]
fn test_propfind_status_element_format() {
        // This is a sample response that documents the expected format
        let sample_response = r#"<?xml version="1.0" encoding="utf-8"?>
<multistatus xmlns="DAV:" xmlns:svn="http://subversion.tigris.org/xmlns/dav/">
  <response>
    <href>/svn/</href>
    <propstat>
      <prop>
        <resourcetype><collection/></resourcetype>
        <version-controlled-configuration><href>/svn/!svn/vcc/default</href></version-controlled-configuration>
        <svn:baseline-relative-path></svn:baseline-relative-path>
        <svn:repository-uuid>test-uuid</svn:repository-uuid>
      </prop>
      <status>200 OK</status>
    </propstat>
  </response>
</multistatus>"#;

        // Status element should be "200 OK" not "HTTP/1.1 200 OK"
        assert!(
            sample_response.contains("<status>200 OK</status>"),
            "Status element should contain '200 OK' without HTTP/1.1 prefix"
        );
        
        // Should NOT contain HTTP/1.1 prefix
        assert!(
            !sample_response.contains("<status>HTTP/1.1"),
            "Status element should NOT contain HTTP/1.1 prefix"
        );
}

#[test]
fn test_propfind_required_properties() {
        let sample_response = r#"<?xml version="1.0" encoding="utf-8"?>
<multistatus xmlns="DAV:" xmlns:svn="http://subversion.tigris.org/xmlns/dav/">
  <response>
    <href>/svn/</href>
    <propstat>
      <prop>
        <resourcetype><collection/></resourcetype>
        <version-controlled-configuration><href>/svn/!svn/vcc/default</href></version-controlled-configuration>
        <svn:baseline-relative-path></svn:baseline-relative-path>
        <svn:repository-uuid>test-uuid</svn:repository-uuid>
      </prop>
      <status>200 OK</status>
    </propstat>
  </response>
</multistatus>"#;

        let required_properties = vec![
            "resourcetype",
            "version-controlled-configuration",
            "svn:baseline-relative-path",
            "svn:repository-uuid",
        ];

        for prop in required_properties {
            assert!(
                sample_response.contains(prop),
                "PROPFIND response must include {} property",
                prop
            );
        }
}

#[test]
fn test_propfind_xml_structure() {
        let sample_response = r#"<?xml version="1.0" encoding="utf-8"?>
<multistatus xmlns="DAV:" xmlns:svn="http://subversion.tigris.org/xmlns/dav/">
  <response>
    <href>/svn/</href>
    <propstat>
      <prop>
        <resourcetype><collection/></resourcetype>
      </prop>
      <status>200 OK</status>
    </propstat>
  </response>
</multistatus>"#;

        // Verify XML declaration
        assert!(
            sample_response.starts_with(r#"<?xml version="1.0" encoding="utf-8"?>"#),
            "Response should start with XML declaration"
        );

        // Verify multistatus root element with DAV namespace
        assert!(
            sample_response.contains("<multistatus") && sample_response.contains("xmlns=\"DAV:\""),
            "Response must have multistatus root element with DAV namespace"
        );

        // Verify SVN namespace
        assert!(
            sample_response.contains("xmlns:svn=\"http://subversion.tigris.org/xmlns/dav/\""),
            "Response must declare SVN namespace"
        );

        // Verify response structure
        assert!(
            sample_response.contains("<response>") && sample_response.contains("</response>"),
            "Response must contain response element"
        );

        assert!(
            sample_response.contains("<href>") && sample_response.contains("</href>"),
            "Response must contain href element"
        );

        assert!(
            sample_response.contains("<propstat>") && sample_response.contains("</propstat>"),
            "Response must contain propstat element"
        );

        assert!(
            sample_response.contains("<prop>") && sample_response.contains("</prop>"),
            "Response must contain prop element"
        );
}

#[test]
fn test_baseline_relative_path_format() {
        // For root path "/svn/", the baseline-relative-path should be empty
        let root_response = "<svn:baseline-relative-path></svn:baseline-relative-path>";
        let path_regex = Regex::new(r"<svn:baseline-relative-path>(.*?)</svn:baseline-relative-path>").unwrap();
        
        if let Some(captures) = path_regex.captures(root_response) {
            let path_value = captures.get(1).map(|m| m.as_str()).unwrap_or("");
            assert_eq!(
                path_value, "",
                "baseline-relative-path for root /svn/ should be empty string"
            );
        }

        // For subdirectory, should be relative path without /svn/ prefix
        let subdir_response = "<svn:baseline-relative-path>trunk/</svn:baseline-relative-path>";
        if let Some(captures) = path_regex.captures(subdir_response) {
            let path_value = captures.get(1).map(|m| m.as_str()).unwrap_or("");
            assert!(
                !path_value.starts_with("/svn/"),
                "baseline-relative-path should NOT have /svn/ prefix"
            );
            assert_eq!(path_value, "trunk/");
        }
}

#[test]
fn test_status_element_no_http_prefix() {
        // Correct format
        let correct_status = "<status>200 OK</status>";
        
        // Incorrect format (what we want to prevent)
        let incorrect_status = "<status>HTTP/1.1 200 OK</status>";
        
        assert!(
            !correct_status.contains("HTTP/1.1"),
            "Status element must not contain HTTP/1.1 prefix"
        );
        
        assert!(
            incorrect_status.contains("HTTP/1.1"),
            "Test setup: incorrect_status should contain HTTP/1.1"
        );
        
        assert_ne!(
            correct_status, incorrect_status,
            "Status format should be '200 OK' not 'HTTP/1.1 200 OK'"
        );
}

#[test]
fn test_baseline_relative_path_no_svn_prefix() {
        // Correct: relative path
        let correct_path = "trunk/";
        
        // Incorrect: includes /svn/ prefix
        let incorrect_path = "/svn/trunk/";
        
        assert!(
            !correct_path.starts_with("/svn/"),
            "baseline-relative-path must NOT include /svn/ prefix"
        );
        
        assert!(
            incorrect_path.starts_with("/svn/"),
            "Test setup: incorrect_path should start with /svn/"
        );
}

#[test]
fn test_svn_webdav_protocol_requirements() {
        // OPTIONS response requirements
        let options_requirements = vec![
            ("DAV header", "1, 2, version-controlled-configuration, svn/depth, svn/mergeinfo, svn/log-revprops"),
            ("SVN header", "1, 2"),
            ("SVN-Youngest-Revision", "non-negative integer"),
            ("Allow header", "All WebDAV methods"),
            ("Content-Type", "text/xml; charset=utf-8"),
        ];

        for (header, expected) in options_requirements {
            assert!(
                !expected.is_empty(),
                "OPTIONS response must include {} header",
                header
            );
        }

        // PROPFIND response requirements
        let propfind_requirements = vec![
            ("Status code", "207 Multi-Status"),
            ("Status element", "200 OK (no HTTP/1.1 prefix)"),
            ("XML declaration", "<?xml version=\"1.0\" encoding=\"utf-8\"?>"),
            ("DAV namespace", "xmlns=\"DAV:\""),
            ("SVN namespace", "xmlns:svn=\"http://subversion.tigris.org/xmlns/dav/\""),
            ("resourcetype", "collection for directories"),
            ("version-controlled-configuration", "VCC href"),
            ("svn:baseline-relative-path", "relative path, no /svn/ prefix"),
            ("svn:repository-uuid", "repository UUID"),
        ];

        for (element, description) in propfind_requirements {
            assert!(
                !description.is_empty(),
                "PROPFIND response must include {}: {}",
                element, description
            );
        }
}
