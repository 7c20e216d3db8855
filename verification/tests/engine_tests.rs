use apiflow::config::{ProxyConfig, ServiceConfig, UpstreamEntry};
use apiflow::engine::{
    decide_attempt, final_retry_action, retry_budget, should_retry_status, sub_retry_action,
    AttemptDecision, AttemptOutcome,
};
use apiflow::logentry::{attempt_id, ProxyLogEntry};
use apiflow::route::resolve_route;
use apiflow::stats::StatsMap;

fn config_with_two_upstreams(fallback_retries: u32) -> ProxyConfig {
    let mk = |id: &str, priority: u32| UpstreamEntry {
        id: id.into(),
        label: Some(format!("label-{id}")),
        upstream_base: format!("http://{id}"),
        api_key: None,
        priority,
        enabled: true,
    };
    ProxyConfig {
        listen_port: 8080,
        global_key: None,
        proxy_url: None,
        fallback_retries,
        services: vec![ServiceConfig {
            id: "svc".into(),
            name: "Svc".into(),
            base_path: "/".into(),
            enabled: true,
            upstreams: vec![mk("a", 0), mk("b", 1)],
        }],
    }
}

fn admitted_entry(cfg: &ProxyConfig, path: &str) -> ProxyLogEntry {
    let route = resolve_route(cfg, path).expect("route");
    ProxyLogEntry::admitted(
        "rid".to_string(),
        "2024-01-01 00:00:00".to_string(),
        "GET".to_string(),
        path.to_string(),
        cfg.listen_port,
        "127.0.0.1".to_string(),
        &route,
    )
}

#[test]
fn retryable_statuses_are_5xx_408_429() {
    assert!(should_retry_status(500));
    assert!(should_retry_status(503));
    assert!(should_retry_status(599));
    assert!(should_retry_status(408));
    assert!(should_retry_status(429));
    assert!(!should_retry_status(200));
    assert!(!should_retry_status(404));
    assert!(!should_retry_status(400));
}

#[test]
fn budget_table_matches_design() {
    let b0 = retry_budget(0);
    assert_eq!(b0.retries_per_upstream, 0);
    assert!(!b0.allow_fallback);

    let b1 = retry_budget(1);
    assert_eq!(b1.retries_per_upstream, 0);
    assert!(b1.allow_fallback);

    let b2 = retry_budget(2);
    assert_eq!(b2.retries_per_upstream, 1);
    assert!(b2.allow_fallback);

    let clamped = retry_budget(99);
    assert_eq!(clamped.retries_per_upstream, 9);
    assert!(clamped.allow_fallback);
}

#[test]
fn retry_then_success_logs_sub_entry_and_retry_action() {
    // fallback_retries = 2, one upstream: first attempt 503, second 200.
    let budget = retry_budget(2);
    let n_upstreams = 1;

    let d1 = decide_attempt(&AttemptOutcome::Status(503), 0, 0, n_upstreams, &budget);
    assert_eq!(d1, AttemptDecision::Retry);

    let cfg = config_with_two_upstreams(2);
    let entry = admitted_entry(&cfg, "/x");
    let sub = entry.sub_entry(
        0,
        0,
        503,
        "upstream 503".to_string(),
        sub_retry_action(&d1),
        5,
    );
    assert_eq!(sub.id, "rid-1-1");
    assert_eq!(sub.status, Some(503));
    assert_eq!(sub.retry_action, Some("retry".to_string()));

    let d2 = decide_attempt(&AttemptOutcome::Status(200), 0, 1, n_upstreams, &budget);
    assert_eq!(d2, AttemptDecision::Commit);
    assert_eq!(final_retry_action(0, 1), Some("retry".to_string()));
}

#[test]
fn fallback_across_upstreams_updates_both_stats() {
    // fallback_retries = 1, two upstreams: first returns 500, second 200.
    let budget = retry_budget(1);
    let n_upstreams = 2;

    let d1 = decide_attempt(&AttemptOutcome::Status(500), 0, 0, n_upstreams, &budget);
    assert_eq!(d1, AttemptDecision::Fallback);

    let mut stats = StatsMap::new();
    stats.update("a", &Some("A".to_string()), 3, false);

    let d2 = decide_attempt(&AttemptOutcome::Status(200), 1, 0, n_upstreams, &budget);
    assert_eq!(d2, AttemptDecision::Commit);
    stats.update("b", &Some("B".to_string()), 4, true);

    assert_eq!(final_retry_action(1, 0), Some("fallback".to_string()));

    let snap = stats.snapshot();
    let a = snap.iter().find(|s| s.upstream_id == "a").unwrap();
    let b = snap.iter().find(|s| s.upstream_id == "b").unwrap();
    assert_eq!(a.error_count, 1);
    assert_eq!(a.success_count, 0);
    assert_eq!(b.success_count, 1);
    assert_eq!(b.error_count, 0);
}

#[test]
fn zero_budget_means_single_attempt_no_fallback() {
    // fallback_retries = 0 with two upstreams: one attempt, never a second.
    let budget = retry_budget(0);
    let n_upstreams = 2;

    // A retryable status still commits: no retry, no fallback.
    let d = decide_attempt(&AttemptOutcome::Status(503), 0, 0, n_upstreams, &budget);
    assert_eq!(d, AttemptDecision::Commit);

    // A transport failure gives up instead of falling back.
    let d = decide_attempt(&AttemptOutcome::Transport, 0, 0, n_upstreams, &budget);
    assert_eq!(d, AttemptDecision::FailAll);
}

#[test]
fn transport_errors_prefer_retry_then_fallback() {
    let budget = retry_budget(2);
    assert_eq!(
        decide_attempt(&AttemptOutcome::Transport, 0, 0, 2, &budget),
        AttemptDecision::Retry
    );
    assert_eq!(
        decide_attempt(&AttemptOutcome::Transport, 0, 1, 2, &budget),
        AttemptDecision::Fallback
    );
    assert_eq!(
        decide_attempt(&AttemptOutcome::Transport, 1, 1, 2, &budget),
        AttemptDecision::FailAll
    );
}

#[test]
fn attempt_ids_are_one_based() {
    assert_eq!(attempt_id("abc", 0, 0), "abc-1-1");
    assert_eq!(attempt_id("abc", 2, 10), "abc-3-11");
}

#[test]
fn failed_request_collects_attempt_errors() {
    let cfg = config_with_two_upstreams(1);
    let mut entry = admitted_entry(&cfg, "/x");
    let errors = vec!["connection refused".to_string(), "upstream 500".to_string()];
    entry.finalize_failed(&errors, 42);
    assert_eq!(entry.status, Some(502));
    assert_eq!(entry.duration_ms, 42);
    assert_eq!(
        entry.error,
        Some("upstream failed: connection refused; upstream 500".to_string())
    );
}
