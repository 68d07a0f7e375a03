use dsvn::xml::{
    multistatus_of_events, parse_multistatus, Multistatus, PropStat, Response, XmlError, XmlEvent,
    XmlEvents, ESCAPE_FAILURE,
};

#[test]
fn test_parse_multistatus() {
    let xml = r#"<?xml version="1.0" encoding="utf-8"?>
<D:multistatus xmlns:D="DAV:">
  <D:response>
    <D:href>/svn/</D:href>
    <D:propstat>
      <D:status>HTTP/1.1 200 OK</D:status>
    </D:propstat>
  </D:response>
</D:multistatus>"#;

    let result = parse_multistatus(xml);
    assert!(result.is_ok());
    let multistatus = result.unwrap();
    assert_eq!(multistatus.responses.len(), 1);
    assert_eq!(multistatus.responses[0].href, "/svn/");
}

#[test]
fn test_serialize_multistatus() {
    let multistatus = Multistatus::new();
    let xml = multistatus.to_xml();
    assert!(xml.is_ok());
    assert!(xml.unwrap().contains("multistatus"));
}

#[test]
fn parse_reads_statuses_and_unprefixed_names() {
    let xml = "<multistatus><response><href>/a</href><propstat><status>HTTP/1.1 200 OK</status>\
               </propstat><propstat><status>HTTP/1.1 404 Not Found</status></propstat></response>\
               <response><href>/b</href></response></multistatus>";
    let m = parse_multistatus(xml).unwrap();
    assert_eq!(m.responses.len(), 2);
    assert_eq!(m.responses[0].href, "/a");
    assert_eq!(m.responses[0].propstats.len(), 2);
    assert_eq!(m.responses[0].propstats[0].status, "HTTP/1.1 200 OK");
    assert_eq!(m.responses[0].propstats[1].status, "HTTP/1.1 404 Not Found");
    assert!(m.responses[0].propstats[0].props.is_empty());
    assert_eq!(m.responses[1].href, "/b");
    assert!(m.responses[1].propstats.is_empty());
}

#[test]
fn parse_replaces_entities() {
    let m = parse_multistatus("<D:multistatus><D:response><D:href>/a&amp;b&#x41;</D:href></D:response></D:multistatus>")
        .unwrap();
    assert_eq!(m.responses[0].href, "/a&bA");
}

#[test]
fn parse_refuses_unknown_entity() {
    match parse_multistatus("<D:response><D:href>/a&bogus;</D:href></D:response>") {
        Err(XmlError::Parse(m)) => assert_eq!(m, ESCAPE_FAILURE),
        other => panic!("unexpected {:?}", other),
    }
}

#[test]
fn parse_refuses_mismatched_end_tag() {
    assert!(matches!(
        parse_multistatus("<D:multistatus><D:response></D:propstat></D:multistatus>"),
        Err(XmlError::Parse(_))
    ));
}

#[test]
fn parse_ignores_href_outside_response() {
    let m = parse_multistatus("<D:multistatus><D:href>/x</D:href><D:response></D:response></D:multistatus>")
        .unwrap();
    assert_eq!(m.responses.len(), 1);
    assert_eq!(m.responses[0].href, "");
}

#[test]
fn serialize_writes_exact_document() {
    let mut ps = PropStat::new();
    ps.status = "HTTP/1.1 200 OK".to_string();
    let mut r = Response::new();
    r.href = "/svn/a<b".to_string();
    r.propstats.push(ps);
    let mut m = Multistatus::new();
    m.responses.push(r);
    assert_eq!(
        m.to_xml().unwrap(),
        "<D:multistatus xmlns:D=\"DAV:\" xmlns:svn=\"http://subversion.tigris.org/xmlns/dav/\">\
         <D:response><D:href>/svn/a&lt;b</D:href><D:propstat><D:prop></D:prop>\
         <D:status>HTTP/1.1 200 OK</D:status></D:propstat></D:response></D:multistatus>"
    );
}

#[test]
fn serialized_document_reads_back() {
    let mut ps = PropStat::new();
    ps.status = "HTTP/1.1 200 OK".to_string();
    let mut r = Response::new();
    r.href = "/a & b's \"x\"".to_string();
    r.propstats.push(ps);
    let mut m = Multistatus::new();
    m.responses.push(r);
    let back = parse_multistatus(&m.to_xml().unwrap()).unwrap();
    assert_eq!(back.responses.len(), 1);
    assert_eq!(back.responses[0].href, "/a & b's \"x\"");
    assert_eq!(back.responses[0].propstats[0].status, "HTTP/1.1 200 OK");
}

#[test]
fn events_give_the_same_outcome() {
    let evs = vec![
        Ok(XmlEvent::Start("D:response".to_string())),
        Ok(XmlEvent::Start("D:href".to_string())),
        Ok(XmlEvent::Text("/r".to_string())),
        Ok(XmlEvent::End("D:href".to_string())),
        Ok(XmlEvent::End("D:response".to_string())),
        Ok(XmlEvent::Eof),
        Err("never read".to_string()),
    ];
    let m = multistatus_of_events(evs).unwrap();
    assert_eq!(m.responses.len(), 1);
    assert_eq!(m.responses[0].href, "/r");
    let e = multistatus_of_events(vec![Ok(XmlEvent::Other), Err("boom".to_string())]);
    assert!(matches!(e, Err(XmlError::Parse(ref s)) if s == "boom"));
    // an ignored non-text event after an href start tag
    let m = multistatus_of_events(vec![
        Ok(XmlEvent::Start("response".to_string())),
        Ok(XmlEvent::Start("href".to_string())),
        Err("skipped".to_string()),
        Ok(XmlEvent::End("response".to_string())),
    ])
    .unwrap();
    assert_eq!(m.responses.len(), 1);
    assert_eq!(m.responses[0].href, "");
}

#[test]
fn error_messages_follow_the_display() {
    assert_eq!(XmlError::Parse("x".to_string()).message(), "Parse error: x");
    assert_eq!(XmlError::Serialization("y".to_string()).message(), "Serialization error: y");
    assert_eq!(XmlError::InvalidStructure("z".to_string()).message(), "Invalid XML structure: z");
}

#[test]
fn reader_events_in_order() {
    let mut evs = XmlEvents::open("<D:a>\n  x &amp; y \n</D:a><b/>");
    assert!(matches!(evs.next(), Ok(XmlEvent::Start(ref n)) if n == "D:a"));
    assert!(matches!(evs.next(), Ok(XmlEvent::Text(ref t)) if t == "x &amp; y"));
    assert!(matches!(evs.next(), Ok(XmlEvent::End(ref n)) if n == "D:a"));
    assert!(matches!(evs.next(), Ok(XmlEvent::Other)));
    assert!(matches!(evs.next(), Ok(XmlEvent::Eof)));
}
