use dsvn::proppatch::{escape_xml, find_xml_blocks, parse_property_element, PropPatchRequest, PropPatchResponse, PropertyModification};

#[test]
fn test_parse_proppatch_set_request() {
    let xml = r#"<?xml version="1.0" encoding="utf-8"?>
<D:propertyupdate xmlns:D="DAV:">
  <D:set>
    <D:prop>
      <svn:executable>*</svn:executable>
    </D:prop>
  </D:set>
</D:propertyupdate>"#;

    let request = PropPatchRequest::from_xml(xml).unwrap();

    assert_eq!(request.modifications.len(), 1);
    match &request.modifications[0] {
        PropertyModification::SetValue { name, value, .. } => {
            assert_eq!(name, "executable");
            assert_eq!(value, "*");
        }
        _ => panic!("Expected Set modification"),
    }
}

#[test]
fn test_parse_proppatch_remove_request() {
    let xml = r#"<?xml version="1.0" encoding="utf-8"?>
<D:propertyupdate xmlns:D="DAV:">
  <D:remove>
    <D:prop>
      <svn:mime-type>application/octet-stream</svn:mime-type>
    </D:prop>
  </D:remove>
</D:propertyupdate>"#;

    let request = PropPatchRequest::from_xml(xml).unwrap();

    assert_eq!(request.modifications.len(), 1);
    match &request.modifications[0] {
        PropertyModification::Remove { name, .. } => {
            assert_eq!(name, "mime-type");
        }
        _ => panic!("Expected Remove modification"),
    }
}

#[test]
fn test_parse_proppatch_multiple_properties() {
    let xml = r#"<?xml version="1.0" encoding="utf-8"?>
<D:propertyupdate xmlns:D="DAV:">
  <D:set>
    <D:prop>
      <svn:executable>*</svn:executable>
    </D:prop>
  </D:set>
  <D:set>
    <D:prop>
      <svn:mime-type>text/plain</svn:mime-type>
    </D:prop>
  </D:set>
</D:propertyupdate>"#;

    let request = PropPatchRequest::from_xml(xml).unwrap();

    assert_eq!(request.modifications.len(), 2);
}

#[test]
fn test_proppatch_response_success_xml() {
    let response = PropPatchResponse::success("/test.txt".to_string());
    let xml = response.to_xml();

    assert!(xml.contains("<D:multistatus"));
    assert!(xml.contains("<D:href>/test.txt</D:href>"));
    assert!(xml.contains("200 OK"));
    assert!(xml.contains("</D:multistatus>"));
}

#[test]
fn test_proppatch_response_error_xml() {
    let response = PropPatchResponse::error("/test.txt".to_string(), "Permission denied".to_string());
    let xml = response.to_xml();

    assert!(xml.contains("403 Forbidden"));
    assert!(xml.contains("Permission denied"));
    assert!(xml.contains("<D:responsedescription>"));
}

#[test]
fn test_find_xml_blocks() {
    let xml = r#"<D:set>content1</D:set><D:set>content2</D:set>"#;
    let blocks = find_xml_blocks(xml, "D:set");
    assert_eq!(blocks.len(), 2);
    assert!(blocks[0].contains("content1"));
    assert!(blocks[1].contains("content2"));
}

#[test]
fn test_escape_xml() {
    assert_eq!(escape_xml("a<b"), "a&lt;b");
    assert_eq!(escape_xml("a&b"), "a&amp;b");
    assert_eq!(escape_xml("a\"b"), "a&quot;b");
}

#[test]
fn test_parse_custom_property() {
    let xml = r#"<?xml version="1.0" encoding="utf-8"?>
<D:propertyupdate xmlns:D="DAV:">
  <D:set>
    <D:prop>
      <my:custom>myvalue</my:custom>
    </D:prop>
  </D:set>
</D:propertyupdate>"#;

    let request = PropPatchRequest::from_xml(xml).unwrap();

    assert_eq!(request.modifications.len(), 1);
    match &request.modifications[0] {
        PropertyModification::SetValue { name, value, .. } => {
            assert_eq!(name, "custom");
            assert_eq!(value, "myvalue");
        }
        _ => panic!("Expected Set modification"),
    }
}

#[test]
fn test_is_valid_proppatch() {
    let xml = r#"<?xml version="1.0" encoding="utf-8"?>
<D:propertyupdate xmlns:D="DAV:">
  <D:set>
    <D:prop>
      <svn:executable>*</svn:executable>
    </D:prop>
  </D:set>
</D:propertyupdate>"#;

    let request = PropPatchRequest::from_xml(xml).unwrap();
    assert!(request.is_valid());
}

#[test]
fn test_empty_proppatch() {
    let xml = r#"<?xml version="1.0" encoding="utf-8"?>
<D:propertyupdate xmlns:D="DAV:">
</D:propertyupdate>"#;

    let request = PropPatchRequest::from_xml(xml).unwrap();
    assert!(!request.is_valid());
    assert_eq!(request.modifications.len(), 0);
}

#[test]
fn escape_all_five_and_response_exact_text() {
    assert_eq!(escape_xml("<&>\"'x"), "&lt;&amp;&gt;&quot;&apos;x");
    let r = PropPatchResponse::error("/a".to_string(), "x<y".to_string());
    assert_eq!(
        r.to_xml(),
        "<?xml version=\"1.0\" encoding=\"utf-8\"?><D:multistatus xmlns:D=\"DAV:\"><D:response><D:href>/a</D:href><D:propstat><D:status>HTTP/1.1 403 Forbidden</D:status><D:responsedescription>x&lt;y</D:responsedescription></D:propstat></D:response></D:multistatus>"
    );
}

#[test]
fn property_element_edge_cases() {
    // A value without its closing tag is empty.
    assert_eq!(
        parse_property_element("<D:set><D:prop>\n<a:b>v</D:prop></D:set>"),
        Some(("b".to_string(), "".to_string()))
    );
    // No element inside the prop.
    assert_eq!(parse_property_element("<D:prop>\nplain</D:prop>"), None);
    // No prop at all.
    assert_eq!(parse_property_element("<D:set>x</D:set>"), None);
    // Sets come before removes, whatever their order in the body.
    let xml = "<D:remove><D:prop>\n<s:r/></s:r></D:prop></D:remove><D:set><D:prop>\n<s:p>1</s:p></D:prop></D:set>";
    let req = PropPatchRequest::from_xml(xml).unwrap();
    assert_eq!(req.href, "/");
    assert_eq!(req.modifications.len(), 2);
    assert!(matches!(&req.modifications[0], PropertyModification::SetValue { name, .. } if name == "p"));
    assert!(matches!(&req.modifications[1], PropertyModification::Remove { name, .. } if name == "r/"));
}

#[test]
fn unclosed_block_stops_the_search() {
    let blocks = find_xml_blocks("<t>a</t><t>b", "t");
    assert_eq!(blocks, vec!["<t>a</t>".to_string()]);
}

#[test]
fn property_element_compact_form() {
    let r = parse_property_element("<D:set><D:prop><svn:executable>*</svn:executable></D:prop></D:set>");
    assert_eq!(r, Some(("executable".to_string(), "*".to_string())));
    let c = parse_property_element("<D:prop><my:custom>value</my:custom></D:prop>");
    assert_eq!(c, Some(("custom".to_string(), "value".to_string())));
}
