use apiflow::auth::{check_auth, extract_proxy_key};
use apiflow::config::{ProxyConfig, ServiceConfig, UpstreamEntry};
use apiflow::headers::Header;

fn create_test_config() -> ProxyConfig {
    ProxyConfig {
        listen_port: 8080,
        global_key: None,
        proxy_url: None,
        fallback_retries: 0,
        services: vec![ServiceConfig {
            id: "svc1".into(),
            name: "Test Service".into(),
            base_path: "/api".into(),
            enabled: true,
            upstreams: vec![UpstreamEntry {
                id: "up1".into(),
                label: Some("Upstream 1".into()),
                upstream_base: "http://localhost:9999".into(),
                api_key: None,
                priority: 1,
                enabled: true,
            }],
        }],
    }
}

fn header(name: &str, value: &str) -> Header {
    Header::new(name.to_string(), value.to_string())
}

#[test]
fn test_check_auth_no_key() {
    let config = create_test_config();
    let headers: Vec<Header> = Vec::new();

    assert!(check_auth(&config, &headers).is_ok());
}

#[test]
fn test_check_auth_with_global_key_success() {
    let mut config = create_test_config();
    config.global_key = Some("secret123".into());

    let headers = vec![header("authorization", "Bearer secret123")];

    assert!(check_auth(&config, &headers).is_ok());
}

#[test]
fn test_check_auth_with_global_key_failure() {
    let mut config = create_test_config();
    config.global_key = Some("secret123".into());

    let headers = vec![header("authorization", "Bearer wrong")];

    assert!(check_auth(&config, &headers).is_err());
}

#[test]
fn proxy_key_header_wins_over_authorization() {
    let headers = vec![
        header("authorization", "Bearer other"),
        header("x-proxy-key", "  pk  "),
    ];
    assert_eq!(extract_proxy_key(&headers), Some("pk".to_string()));
}

#[test]
fn bearer_prefix_is_stripped() {
    let headers = vec![header("Authorization", " Bearer tok ")];
    assert_eq!(extract_proxy_key(&headers), Some("tok".to_string()));
}

#[test]
fn bare_authorization_value_is_used_verbatim() {
    let headers = vec![header("authorization", "rawtoken")];
    assert_eq!(extract_proxy_key(&headers), Some("rawtoken".to_string()));
}

#[test]
fn blank_headers_yield_no_key() {
    let headers = vec![header("x-proxy-key", "   "), header("authorization", "   ")];
    assert_eq!(extract_proxy_key(&headers), None);
}

#[test]
fn bearer_with_empty_remainder_falls_back_to_raw_value() {
    // "Bearer " trims to "Bearer", which no longer carries the prefix and is
    // used verbatim.
    let headers = vec![header("authorization", "Bearer ")];
    assert_eq!(extract_proxy_key(&headers), Some("Bearer".to_string()));
}
