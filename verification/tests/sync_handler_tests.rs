use dsvn::object::ObjectId;
use dsvn::sync::SyncConfig;
use dsvn::sync_handlers::{
    delta_range, hex_val, object_ids_request, parse_query, parse_query_multi, push_object_record, revs_range,
    route_sync, unknown_endpoint_message, urldecode, SyncEndpoint,
};

#[test]
fn test_parse_query() {
    let q = "from=1&to=10";
    let params = parse_query(q);
    assert_eq!(params.get("from").unwrap(), "1");
    assert_eq!(params.get("to").unwrap(), "10");
}

#[test]
fn test_parse_query_multi() {
    let q = "id=abc123&id=def456&other=1";
    let ids = parse_query_multi(q, "id");
    assert_eq!(ids, vec!["abc123", "def456"]);
}

#[test]
fn test_parse_empty_query() {
    let params = parse_query("");
    assert!(params.len() == 0);
    let ids = parse_query_multi("", "id");
    assert!(ids.is_empty());
}

#[test]
fn test_urldecode() {
    assert_eq!(urldecode("hello%20world"), "hello world");
    assert_eq!(urldecode("a+b"), "a b");
    assert_eq!(urldecode("abc"), "abc");
}

#[test]
fn test_sync_config_default() {
    let config = SyncConfig::default();
    assert!(config.enabled);
    assert_eq!(config.max_cache_age_hours, 720);
    assert!(!config.require_auth);
    assert_eq!(config.allowed_sources, vec!["*".to_string()]);
}

#[test]
fn urldecode_edges() {
    assert_eq!(urldecode("%4"), "@");
    assert_eq!(urldecode("%"), "\u{0}");
    assert_eq!(urldecode("%zz"), "\u{0}");
    assert_eq!(urldecode("%C3%A9"), "\u{c3}\u{a9}");
    assert_eq!(hex_val(b'f'), 15);
    assert_eq!(hex_val(b'B'), 11);
    assert_eq!(hex_val(b'g'), 0);
}

#[test]
fn query_last_value_wins_and_skips_pairs_without_equals() {
    let p = parse_query("a=1&b&a=2&%61=3&&c=x%2By");
    assert_eq!(p.get("a").unwrap(), "3");
    assert_eq!(p.get("c").unwrap(), "x+y");
    assert!(p.get("b").is_none());
    assert_eq!(p.len(), 2);
}

#[test]
fn routing_and_ranges() {
    assert_eq!(route_sync("GET", "/info"), SyncEndpoint::Info);
    assert_eq!(route_sync("POST", "/config"), SyncEndpoint::SetConfig);
    assert_eq!(route_sync("POST", "/info"), SyncEndpoint::Unknown);
    assert_eq!(unknown_endpoint_message("PUT", "/x"), "Unknown sync endpoint: PUT /sync/x");
    assert_eq!(revs_range(&parse_query("to=5"), 9).unwrap(), (1, 5));
    assert_eq!(revs_range(&parse_query(""), 9).unwrap(), (1, 9));
    assert_eq!(revs_range(&parse_query("from=6&to=5"), 9).unwrap_err(), "from must be <= to");
    assert_eq!(delta_range(&parse_query("from=3")).unwrap(), (3, 3));
    assert_eq!(delta_range(&parse_query("from=1&to=500")).unwrap(), (1, 500));
    assert_eq!(
        delta_range(&parse_query("from=1&to=501")).unwrap_err(),
        "Range too large (501 revisions, max 500)"
    );
}

#[test]
fn object_requests_and_records() {
    assert_eq!(
        object_ids_request(&vec![]).unwrap_err(),
        "No object ids specified (use ?id=HEX&id=HEX)"
    );
    let many: Vec<String> = (0..1001).map(|_| "00".repeat(32)).collect();
    assert_eq!(object_ids_request(&many).unwrap_err(), "Too many objects requested (1001, max 1000)");
    assert_eq!(object_ids_request(&vec!["xy".to_string()]).unwrap_err(), "Invalid object id: xy");
    let ok = object_ids_request(&vec!["ab".repeat(32)]).unwrap();
    assert_eq!(ok[0], ObjectId::new([0xab; 32]));
    let mut buf = Vec::new();
    push_object_record(&mut buf, &ok[0], Some(&vec![9u8, 8]));
    push_object_record(&mut buf, &ok[0], None);
    assert_eq!(buf.len(), 32 + 4 + 2 + 32 + 4);
    assert_eq!(&buf[32..38], &[0, 0, 0, 2, 9, 8]);
    assert_eq!(&buf[70..74], &[255, 255, 255, 255]);
}
