#[test]
fn test_log_report_xml_structure() {
        let sample = r#"<?xml version="1.0" encoding="utf-8"?>
<S:log-report xmlns:S="svn:" xmlns:D="DAV:">
<S:log-item>
<D:version-name>1</D:version-name>
<D:creator-displayname>alice</D:creator-displayname>
<S:date>1970-01-01T00:16:40.000000Z</S:date>
<D:comment>Initial files</D:comment>
<S:changed-path-item>
<S:modified-path node-kind="file" text-mods="true" prop-mods="false">/hello.txt</S:modified-path>
</S:changed-path-item>
<S:has-children/>
</S:log-item>
</S:log-report>"#;

        assert!(sample.contains("S:log-report"), "Should have log-report root");
        assert!(sample.contains("xmlns:S=\"svn:\""), "Should have svn namespace");
        assert!(sample.contains("D:version-name"), "Should have version-name");
        assert!(sample.contains("D:creator-displayname"), "Should have author");
        assert!(sample.contains("S:date"), "Should have date");
        assert!(sample.contains("D:comment"), "Should have comment");
        assert!(sample.contains("S:changed-path-item"), "Should have changed paths");
}

#[test]
fn test_update_report_xml_structure() {
        let sample = r#"<?xml version="1.0" encoding="utf-8"?>
<S:update-report xmlns:S="svn:" xmlns:V="http://subversion.tigris.org/xmlns/dav/" xmlns:D="DAV:" send-all="true" inline-props="true">
<S:target-revision rev="1"/>
<S:open-directory rev="1">
<D:checked-in><D:href>/svn/!svn/rvr/1/</D:href></D:checked-in>
<S:set-prop name="svn:entry:committed-rev">1</S:set-prop>
<S:add-file name="hello.txt">
<D:checked-in><D:href>/svn/!svn/rvr/1/hello.txt</D:href></D:checked-in>
</S:add-file>
</S:open-directory>
</S:update-report>"#;

        assert!(sample.contains("S:update-report"), "Should have update-report root");
        assert!(sample.contains("send-all=\"true\""), "Should have send-all");
        assert!(sample.contains("S:target-revision"), "Should have target-revision");
        assert!(sample.contains("S:open-directory"), "Should have open-directory");
        assert!(sample.contains("S:add-file"), "Should have add-file for checkout");
        assert!(sample.contains("D:checked-in"), "Should have checked-in href");
}

#[test]
fn test_get_locations_report_xml_structure() {
        let sample = r#"<?xml version="1.0" encoding="utf-8"?>
<S:get-locations-report xmlns:S="svn:" xmlns:D="DAV:">
<S:location rev="1" path="/hello.txt"/>
<S:location rev="2" path="/hello.txt"/>
</S:get-locations-report>"#;

        assert!(sample.contains("S:get-locations-report"), "Should have get-locations-report root");
        assert!(sample.contains("S:location"), "Should have location entries");
        assert!(sample.contains("rev=\"1\""), "Should have rev attribute");
        assert!(sample.contains("path=\"/hello.txt\""), "Should have path attribute");
}

#[test]
fn test_dated_rev_report_xml_structure() {
        let sample = r#"<?xml version="1.0" encoding="utf-8"?>
<S:dated-rev-report xmlns:S="svn:" xmlns:D="DAV:">
<D:version-name>2</D:version-name>
</S:dated-rev-report>"#;

        assert!(sample.contains("S:dated-rev-report"), "Should have dated-rev-report root");
        assert!(sample.contains("D:version-name"), "Should have version-name");
}

#[test]
fn test_mergeinfo_report_xml_structure() {
        let sample = r#"<?xml version="1.0" encoding="utf-8"?>
<S:mergeinfo-report xmlns:S="svn:">
</S:mergeinfo-report>"#;

        assert!(sample.contains("S:mergeinfo-report"), "Should have mergeinfo-report root");
}

#[test]
fn test_deleted_rev_report_xml_structure() {
        let sample = r#"<?xml version="1.0" encoding="utf-8"?>
<S:get-deleted-rev-report xmlns:S="svn:" xmlns:D="DAV:">
<D:version-name>3</D:version-name>
</S:get-deleted-rev-report>"#;

        assert!(sample.contains("S:get-deleted-rev-report"), "Should have get-deleted-rev-report root");
        assert!(sample.contains("D:version-name"), "Should have version-name with deleted rev");
}

#[test]
fn test_inherited_props_report_xml_structure() {
        let sample = r#"<?xml version="1.0" encoding="utf-8"?>
<S:inherited-props-report xmlns:S="svn:" xmlns:D="DAV:">
</S:inherited-props-report>"#;

        assert!(sample.contains("S:inherited-props-report"), "Should have inherited-props-report root");
}

#[test]
fn test_get_locks_report_xml_structure() {
        let sample = r#"<?xml version="1.0" encoding="utf-8"?>
<S:get-locks-report xmlns:S="svn:">
</S:get-locks-report>"#;

        assert!(sample.contains("S:get-locks-report"), "Should have get-locks-report root");
}

#[test]
fn test_report_type_detection() {
        // Update report
        let update_body = r#"<S:update-report xmlns:S="svn:"><S:target-revision>5</S:target-revision></S:update-report>"#;
        assert!(update_body.contains("update-report"));

        // Log report
        let log_body = r#"<S:log-report xmlns:S="svn:"><S:start-revision>10</S:start-revision></S:log-report>"#;
        assert!(log_body.contains("log-report"));

        // Get-locations report
        let locations_body = r#"<S:get-locations xmlns:S="svn:"><S:path>/trunk/file.txt</S:path></S:get-locations>"#;
        assert!(locations_body.contains("get-locations"));

        // Get-dated-rev report
        let dated_body = r#"<S:get-dated-rev-report xmlns:S="svn:"><D:creationdate>2024-01-01T00:00:00Z</D:creationdate></S:get-dated-rev-report>"#;
        assert!(dated_body.contains("get-dated-rev"));

        // Mergeinfo report
        let mergeinfo_body = r#"<S:mergeinfo-report xmlns:S="svn:"><S:path>/trunk</S:path></S:mergeinfo-report>"#;
        assert!(mergeinfo_body.contains("mergeinfo-report"));

        // Get-locks report
        let locks_body = r#"<S:get-locks-report xmlns:S="svn:"><S:path>/trunk</S:path></S:get-locks-report>"#;
        assert!(locks_body.contains("get-locks-report"));

        // Replay report
        let replay_body = r#"<S:replay-report xmlns:S="svn:"><S:revision>5</S:revision></S:replay-report>"#;
        assert!(replay_body.contains("replay-report"));

        // Get-deleted-rev report
        let deleted_body = r#"<S:get-deleted-rev-report xmlns:S="svn:"><S:path>/trunk/old.txt</S:path></S:get-deleted-rev-report>"#;
        assert!(deleted_body.contains("get-deleted-rev"));

        // Inherited-props report
        let inherited_body = r#"<S:inherited-props-report xmlns:S="svn:"><S:path>/trunk</S:path></S:inherited-props-report>"#;
        assert!(inherited_body.contains("inherited-props-report"));
}
