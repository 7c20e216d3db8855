use apiflow::logring::{LogRing, MAX_LOGS};
use apiflow::stats::StatsMap;
use apiflow::logentry::ProxyLogEntry;

fn entry(id: &str, port: u16) -> ProxyLogEntry {
    ProxyLogEntry::denied(
        id.to_string(),
        "2024-01-01 00:00:00".to_string(),
        "GET".to_string(),
        "/p".to_string(),
        port,
        "127.0.0.1".to_string(),
        401,
        "unauthorized".to_string(),
        1,
    )
}

fn inflight(id: &str, port: u16) -> ProxyLogEntry {
    let mut e = entry(id, port);
    e.status = None;
    e.error = None;
    e
}

#[test]
fn ring_is_bounded_and_evicts_oldest() {
    let mut ring = LogRing::new();
    for i in 0..(MAX_LOGS + 5) {
        ring.upsert(entry(&format!("id-{i}"), 1));
    }
    assert_eq!(ring.len(), MAX_LOGS);
    let logs = ring.query(None, None);
    assert_eq!(logs.first().unwrap().id, "id-5");
    assert_eq!(logs.last().unwrap().id, format!("id-{}", MAX_LOGS + 4));
}

#[test]
fn upsert_existing_id_keeps_size_and_position() {
    let mut ring = LogRing::new();
    ring.upsert(entry("a", 1));
    ring.upsert(entry("b", 1));
    ring.upsert(entry("c", 1));

    let mut updated = entry("b", 1);
    updated.status = Some(200);
    ring.upsert(updated);

    assert_eq!(ring.len(), 3);
    let logs = ring.query(None, None);
    let ids: Vec<&str> = logs.iter().map(|e| e.id.as_str()).collect();
    assert_eq!(ids, vec!["a", "b", "c"]);
    assert_eq!(logs[1].status, Some(200));
}

#[test]
fn query_filters_by_port_and_honors_limit() {
    let mut ring = LogRing::new();
    for i in 0..10 {
        ring.upsert(entry(&format!("p1-{i}"), 1));
        ring.upsert(entry(&format!("p2-{i}"), 2));
    }
    let only_p2 = ring.query(None, Some(2));
    assert_eq!(only_p2.len(), 10);
    assert!(only_p2.iter().all(|e| e.listen_port == 2));

    let last_three = ring.query(Some(3), Some(1));
    let ids: Vec<&str> = last_three.iter().map(|e| e.id.as_str()).collect();
    assert_eq!(ids, vec!["p1-7", "p1-8", "p1-9"]);
}

#[test]
fn finalize_inflight_marks_only_matching_port() {
    let mut ring = LogRing::new();
    ring.upsert(inflight("open-1", 1));
    ring.upsert(entry("done-1", 1));
    ring.upsert(inflight("open-2", 2));

    ring.finalize_inflight(Some(1));

    let logs = ring.query(None, None);
    let open1 = logs.iter().find(|e| e.id == "open-1").unwrap();
    assert_eq!(open1.status, Some(499));
    assert_eq!(
        open1.error,
        Some("proxy stopped; in-flight request terminated".to_string())
    );
    let done1 = logs.iter().find(|e| e.id == "done-1").unwrap();
    assert_eq!(done1.status, Some(401));
    let open2 = logs.iter().find(|e| e.id == "open-2").unwrap();
    assert_eq!(open2.status, None);
}

#[test]
fn clear_empties_the_ring() {
    let mut ring = LogRing::new();
    ring.upsert(entry("a", 1));
    ring.clear();
    assert_eq!(ring.len(), 0);
}

#[test]
fn stats_backfill_label_and_accumulate() {
    let mut stats = StatsMap::new();
    stats.update("u", &None, 10, false);
    stats.update("u", &Some("Label".to_string()), 5, true);
    let snap = stats.snapshot();
    assert_eq!(snap.len(), 1);
    let s = &snap[0];
    assert_eq!(s.upstream_id, "u");
    assert_eq!(s.upstream_label, Some("Label".to_string()));
    assert_eq!(s.total_requests, 2);
    assert_eq!(s.success_count, 1);
    assert_eq!(s.error_count, 1);
    assert_eq!(s.total_duration_ms, 15);
}

#[test]
fn stats_clear_removes_everything() {
    let mut stats = StatsMap::new();
    stats.update("u", &None, 1, true);
    stats.clear();
    assert!(stats.snapshot().is_empty());
}
