use apiflow::forward::{is_streaming_content_type, record_buffered_body, record_response_meta, StreamCapture};
use apiflow::headers::Header;
use apiflow::logentry::{error_body, ProxyLogEntry};
use apiflow::text::truncate_body;

fn entry() -> ProxyLogEntry {
    ProxyLogEntry::denied(
        "id".to_string(),
        "2024-01-01 00:00:00".to_string(),
        "GET".to_string(),
        "/p".to_string(),
        1,
        "127.0.0.1".to_string(),
        401,
        "unauthorized".to_string(),
        0,
    )
}

#[test]
fn streaming_capture_keeps_chunks_in_order() {
    // Three chunks totaling 32 bytes.
    let chunks: [&[u8]; 3] = [b"data: one\n", b"data: two\n", b"data: three\n"];
    assert_eq!(chunks.iter().map(|c| c.len()).sum::<usize>(), 32);

    let mut capture = StreamCapture::new();
    for c in chunks {
        capture.push_chunk(c);
    }
    assert_eq!(capture.body_text(), "data: one\ndata: two\ndata: three\n");
}

#[test]
fn empty_stream_capture_yields_marker() {
    let capture = StreamCapture::new();
    assert_eq!(capture.body_text(), "[stream]");
}

#[test]
fn stream_capture_caps_at_limit() {
    let mut capture = StreamCapture::new();
    let big = vec![b'x'; 70000];
    capture.push_chunk(&big);
    assert_eq!(capture.body_text().len(), 64000);
}

#[test]
fn event_stream_and_ndjson_and_plain_text_stream() {
    assert!(is_streaming_content_type("text/event-stream"));
    assert!(is_streaming_content_type("application/x-ndjson"));
    assert!(is_streaming_content_type("TEXT/EVENT-STREAM; charset=utf-8"));
    assert!(!is_streaming_content_type("application/json"));
}

#[test]
fn plain_text_is_classified_as_streaming() {
    // Deliberate: upstreams streaming plain-text tokens are forwarded as
    // streams.
    assert!(is_streaming_content_type("text/plain"));
    assert!(is_streaming_content_type("text/plain; charset=utf-8"));
}

#[test]
fn response_meta_records_status_headers_and_classification() {
    let mut e = entry();
    let headers = vec![
        Header::new("content-type".into(), "text/event-stream".into()),
        Header::new("authorization".into(), "secret".into()),
    ];
    record_response_meta(&mut e, 200, &headers);
    assert_eq!(e.status, Some(200));
    assert!(e.is_streaming);
    assert_eq!(e.response_headers, Some("content-type: text/event-stream".to_string()));
}

#[test]
fn buffered_error_body_records_snippet() {
    let mut e = entry();
    e.error = None;
    record_buffered_body(&mut e, 500, b"boom happened", 7);
    assert_eq!(e.duration_ms, 7);
    assert_eq!(e.response_body, Some("boom happened".to_string()));
    assert_eq!(e.error, Some("upstream 500: boom happened".to_string()));
}

#[test]
fn buffered_success_keeps_error_absent() {
    let mut e = entry();
    e.error = None;
    record_buffered_body(&mut e, 200, b"ok", 3);
    assert_eq!(e.error, None);
    assert_eq!(e.response_body, Some("ok".to_string()));
}

#[test]
fn truncate_body_caps_and_skips_empty() {
    assert_eq!(truncate_body(b"", 10), None);
    assert_eq!(truncate_body(b"hello", 10), Some("hello".to_string()));
    assert_eq!(truncate_body(b"hello world", 5), Some("hello".to_string()));
}

#[test]
fn lossy_decoding_replaces_invalid_bytes() {
    // Invalid UTF-8 must not come back unchanged.
    let r = truncate_body(&[0x68, 0x69, 0xFF], 10).unwrap();
    assert_eq!(r, "hi\u{FFFD}");
}

#[test]
fn error_body_is_compact_json() {
    assert_eq!(error_body("unauthorized"), "{\"error\":\"unauthorized\"}");
    assert_eq!(
        error_body("upstream request failed"),
        "{\"error\":\"upstream request failed\"}"
    );
}
