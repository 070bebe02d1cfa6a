use bosun::proxy::{forwarded_headers, Direction};
use bosun::proxy::{forwards_request_header, forwards_response_header, is_hop_by_hop, upstream_url};

#[test]
fn upstream_url_joins_base_and_path() {
    assert_eq!(upstream_url("http://frigate:5000", Some("/api/events?limit=1")), "http://frigate:5000/api/events?limit=1");
    assert_eq!(upstream_url("http://frigate:5000///", Some("/api/events")), "http://frigate:5000/api/events");
    assert_eq!(upstream_url("http://frigate:5000/", None), "http://frigate:5000/");
    assert_eq!(upstream_url("http://frigate:5000/base/", Some("/x")), "http://frigate:5000/base/x");
    assert_eq!(upstream_url("", None), "/");
    assert_eq!(upstream_url("///", Some("/é")), "/é");
}

#[test]
fn hop_by_hop_headers_are_known() {
    for name in [
        "connection",
        "keep-alive",
        "proxy-authenticate",
        "proxy-authorization",
        "te",
        "trailer",
        "transfer-encoding",
        "upgrade",
    ] {
        assert!(is_hop_by_hop(name), "{name}");
        assert!(!forwards_request_header(name), "{name}");
        assert!(!forwards_response_header(name), "{name}");
    }
    assert!(!is_hop_by_hop("content-type"));
    assert!(!is_hop_by_hop("trailers"));
}

#[test]
fn host_and_length_are_dropped_one_way_each() {
    assert!(!forwards_request_header("host"));
    assert!(forwards_response_header("host"));
    assert!(forwards_request_header("content-length"));
    assert!(!forwards_response_header("content-length"));
    assert!(forwards_request_header("x-api-key"));
    assert!(forwards_response_header("content-type"));
}

#[test]
fn forwarded_headers_keep_order_and_values() {
    let headers = vec![
        ("host".to_string(), 1),
        ("accept".to_string(), 2),
        ("connection".to_string(), 3),
        ("x-api-key".to_string(), 4),
        ("accept".to_string(), 5),
        ("content-length".to_string(), 6),
    ];
    let req = forwarded_headers(headers.clone(), Direction::Request);
    assert_eq!(
        req,
        vec![
            ("accept".to_string(), 2),
            ("x-api-key".to_string(), 4),
            ("accept".to_string(), 5),
            ("content-length".to_string(), 6),
        ]
    );
    let resp = forwarded_headers(headers, Direction::Response);
    assert_eq!(
        resp,
        vec![
            ("host".to_string(), 1),
            ("accept".to_string(), 2),
            ("x-api-key".to_string(), 4),
            ("accept".to_string(), 5),
        ]
    );
    assert!(forwarded_headers(Vec::<(String, u8)>::new(), Direction::Request).is_empty());
}
