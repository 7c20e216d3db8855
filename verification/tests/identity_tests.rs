use apiflow::logentry::{fresh_request_id, local_timestamp};

#[test]
fn request_ids_are_hyphenated_and_distinct() {
    let a = fresh_request_id();
    let b = fresh_request_id();
    assert_eq!(a.len(), 36);
    assert_eq!(b.len(), 36);
    assert_eq!(a.matches('-').count(), 4);
    assert_ne!(a, b);
}

#[test]
fn timestamps_render_date_and_time() {
    let t = local_timestamp();
    assert!(t.len() >= 19);
    assert!(t.contains(':'));
    assert!(t.contains('-'));
}
