use sando::naming::generate_connection_name;
use sando::router::{extract_subdomain, is_proxy_host, SubdomainError};

#[test]
fn test_generate_connection_name() {
    let name1 = generate_connection_name("abcdef123456789", 8080);
    assert_eq!(name1, "sando-abcdef12-8080");

    let name2 = generate_connection_name("short", 3000);
    assert_eq!(name2, "sando-short-3000");
}

#[test]
fn test_extract_subdomain() {
    assert_eq!(extract_subdomain("api.localhost", "localhost"), Ok("api".to_string()));
    assert_eq!(extract_subdomain("my-service.localhost", "localhost"), Ok("my-service".to_string()));
    assert_eq!(extract_subdomain("test-api.localhost:3000", "localhost"), Ok("test-api".to_string()));

    assert!(extract_subdomain("localhost", "localhost").is_err());
    assert!(extract_subdomain(".localhost", "localhost").is_err());
    assert!(extract_subdomain("example.com", "localhost").is_err());
    assert!(extract_subdomain("", "localhost").is_err());
}

#[test]
fn extract_subdomain_distinguishes_malformed_from_not_applicable() {
    assert_eq!(extract_subdomain(".localhost", "localhost"), Err(SubdomainError::Malformed));
    assert_eq!(extract_subdomain("localhost", "localhost"), Err(SubdomainError::NotApplicable));
    assert_eq!(extract_subdomain("example.com", "localhost"), Err(SubdomainError::NotApplicable));
    assert_eq!(extract_subdomain("", "localhost"), Err(SubdomainError::NotApplicable));
    assert_eq!(extract_subdomain(".localhost:3000", "localhost"), Err(SubdomainError::Malformed));
}

#[test]
fn proxy_host_decision_matches_extraction() {
    assert!(is_proxy_host("api.localhost", "localhost"));
    assert!(is_proxy_host(".localhost", "localhost"));
    assert!(!is_proxy_host("localhost", "localhost"));
    assert!(!is_proxy_host("localhost:3000", "localhost"));
    assert!(!is_proxy_host("example.com", "localhost"));
}

#[test]
fn connection_name_keeps_short_tokens_whole() {
    assert_eq!(generate_connection_name("ab", 1), "sando-ab-1");
    assert_eq!(generate_connection_name("", 0), "sando--0");
    assert_eq!(generate_connection_name("exactly8", 65535), "sando-exactly8-65535");
    assert_eq!(generate_connection_name("exactly89", 9), "sando-exactly8-9");
}
