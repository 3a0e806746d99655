use sando::errors::{http_status_of, ProxyError};
use sando::forwarder::{build_target_url, relay_status};
use sando::headers::{
    filter_request_headers, filter_response_headers, is_hop_by_hop_header,
    should_forward_request_header,
};

#[test]
fn test_is_hop_by_hop_header() {
    assert!(is_hop_by_hop_header("connection"));
    assert!(is_hop_by_hop_header("Connection"));
    assert!(is_hop_by_hop_header("HOST"));
    assert!(is_hop_by_hop_header("keep-alive"));
    assert!(is_hop_by_hop_header("transfer-encoding"));

    assert!(!is_hop_by_hop_header("content-type"));
    assert!(!is_hop_by_hop_header("authorization"));
    assert!(!is_hop_by_hop_header("user-agent"));
    assert!(!is_hop_by_hop_header("accept"));
}

#[test]
fn hop_by_hop_covers_whole_fixed_set() {
    for name in [
        "connection",
        "keep-alive",
        "proxy-authenticate",
        "proxy-authorization",
        "te",
        "trailers",
        "transfer-encoding",
        "upgrade",
        "host",
        "TE",
        "Upgrade",
        "PROXY-AUTHORIZATION",
    ] {
        assert!(is_hop_by_hop_header(name), "{} should be hop-by-hop", name);
    }
    assert!(!is_hop_by_hop_header("x-forwarded-for"));
    assert!(!is_hop_by_hop_header("cookie"));
}

#[test]
fn internal_marker_headers_are_not_forwarded() {
    assert!(!should_forward_request_header("x-original-host"));
    assert!(!should_forward_request_header("x-original-anything"));
    assert!(should_forward_request_header("x-request-id"));
    assert!(should_forward_request_header("content-type"));
    assert!(!should_forward_request_header("host"));
}

#[test]
fn request_filter_keeps_order_and_drops_hop_by_hop() {
    let headers = vec![
        ("Host".to_string(), "api.localhost".to_string()),
        ("content-type".to_string(), "application/json".to_string()),
        ("x-original-host".to_string(), "spoofed".to_string()),
        ("Authorization".to_string(), "Bearer token".to_string()),
        ("Connection".to_string(), "keep-alive".to_string()),
        ("accept".to_string(), "*/*".to_string()),
    ];
    let kept = filter_request_headers(&headers);
    assert_eq!(
        kept,
        vec![
            ("content-type".to_string(), "application/json".to_string()),
            ("Authorization".to_string(), "Bearer token".to_string()),
            ("accept".to_string(), "*/*".to_string()),
        ]
    );
}

#[test]
fn response_filter_keeps_internal_marker_headers() {
    let headers = vec![
        ("transfer-encoding".to_string(), "chunked".to_string()),
        ("x-original-host".to_string(), "backend".to_string()),
        ("content-length".to_string(), "42".to_string()),
    ];
    let kept = filter_response_headers(&headers);
    assert_eq!(
        kept,
        vec![
            ("x-original-host".to_string(), "backend".to_string()),
            ("content-length".to_string(), "42".to_string()),
        ]
    );
}

#[test]
fn target_url_carries_path_and_query() {
    assert_eq!(build_target_url(8080, "/path", None), "http://localhost:8080/path");
    assert_eq!(build_target_url(3000, "/", Some("a=b&c=d")), "http://localhost:3000/?a=b&c=d");
    assert_eq!(build_target_url(65535, "", None), "http://localhost:65535");
    assert_eq!(build_target_url(1, "/x", Some("")), "http://localhost:1/x?");
}

#[test]
fn backend_status_passes_through_verbatim() {
    assert_eq!(relay_status(200), 200);
    assert_eq!(relay_status(404), 404);
    assert_eq!(relay_status(999), 999);
    assert_eq!(relay_status(100), 100);
    assert_eq!(relay_status(99), 500);
    assert_eq!(relay_status(1000), 500);
    assert_eq!(relay_status(0), 500);
}

#[test]
fn error_taxonomy_maps_to_wire_statuses() {
    assert_eq!(http_status_of(&ProxyError::NotProxyTraffic), 404);
    assert_eq!(http_status_of(&ProxyError::MalformedHost), 400);
    assert_eq!(http_status_of(&ProxyError::TokenNotFound), 404);
    assert_eq!(http_status_of(&ProxyError::AgentUnavailable), 503);
    assert_eq!(http_status_of(&ProxyError::TunnelStartFailed), 500);
    assert_eq!(http_status_of(&ProxyError::ForwardTimeout), 502);
    assert_eq!(http_status_of(&ProxyError::ForwardTransportError), 502);
    assert_eq!(http_status_of(&ProxyError::InternalRegistryError), 500);
}
