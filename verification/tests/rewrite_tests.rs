use apiflow::headers::{filter_response_headers, format_headers, prepare_upstream_headers, Header};

fn header(name: &str, value: &str) -> Header {
    Header::new(name.to_string(), value.to_string())
}

fn values_of<'a>(hs: &'a [Header], name: &str) -> Vec<&'a str> {
    hs.iter()
        .filter(|h| h.name.eq_ignore_ascii_case(name))
        .map(|h| h.value.as_str())
        .collect()
}

#[test]
fn test_prepare_upstream_request() {
    let headers = vec![
        header("content-type", "application/json"),
        header("x-custom", "foo"),
        // Should be filtered out
        header("host", "original.com"),
        header("authorization", "Bearer original"),
    ];
    let api_key = Some("new-key".to_string());

    let outbound = prepare_upstream_headers(&headers, &api_key);

    assert_eq!(values_of(&outbound, "content-type"), vec!["application/json"]);
    assert_eq!(values_of(&outbound, "x-custom"), vec!["foo"]);
    assert!(values_of(&outbound, "host").is_empty()); // filtered

    // Check auth replacement
    assert_eq!(values_of(&outbound, "authorization"), vec!["Bearer new-key"]);
}

#[test]
fn google_scheme_key_injection() {
    let headers = vec![header("x-goog-api-key", "client-key")];
    let api_key = Some("server-key".to_string());

    let outbound = prepare_upstream_headers(&headers, &api_key);

    assert_eq!(values_of(&outbound, "x-goog-api-key"), vec!["server-key"]);
    assert!(values_of(&outbound, "authorization").is_empty());
}

#[test]
fn bearer_scheme_key_injection_drops_proxy_private_headers() {
    let headers = vec![
        header("authorization", "Bearer client-key"),
        header("x-proxy-key", "pk"),
        header("host", "proxy.local"),
        header("accept", "*/*"),
    ];
    let api_key = Some("server-key".to_string());

    let outbound = prepare_upstream_headers(&headers, &api_key);

    assert_eq!(values_of(&outbound, "authorization"), vec!["Bearer server-key"]);
    assert!(values_of(&outbound, "x-proxy-key").is_empty());
    assert!(values_of(&outbound, "host").is_empty());
    assert_eq!(values_of(&outbound, "accept"), vec!["*/*"]);
}

#[test]
fn client_credentials_pass_through_without_configured_key() {
    let headers = vec![
        header("x-goog-api-key", "gk"),
        header("authorization", "Bearer ck"),
        header("accept", "*/*"),
    ];
    let outbound = prepare_upstream_headers(&headers, &None);

    assert_eq!(values_of(&outbound, "x-goog-api-key"), vec!["gk"]);
    assert_eq!(values_of(&outbound, "authorization"), vec!["Bearer ck"]);
}

#[test]
fn format_headers_hides_credentials() {
    let headers = vec![
        header("content-type", "application/json"),
        header("Authorization", "Bearer secret"),
        header("x-proxy-key", "pk"),
        header("x-custom", "foo"),
    ];
    let dump = format_headers(&headers);
    assert_eq!(dump, "content-type: application/json\nx-custom: foo");
}

#[test]
fn response_header_filter_drops_framing_headers() {
    let headers = vec![
        header("Content-Length", "12"),
        header("Transfer-Encoding", "chunked"),
        header("Connection", "keep-alive"),
        header("content-type", "text/plain"),
    ];
    let filtered = filter_response_headers(&headers);
    assert_eq!(filtered.len(), 1);
    assert_eq!(filtered[0].name, "content-type");
}
