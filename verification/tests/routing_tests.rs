use apiflow::config::{ProxyConfig, ServiceConfig, UpstreamEntry};
use apiflow::route::{enabled_upstreams_sorted, resolve_route, select_service, select_upstream};

fn create_test_config() -> ProxyConfig {
    ProxyConfig {
        listen_port: 8080,
        global_key: None,
        proxy_url: None,
        fallback_retries: 0,
        services: vec![ServiceConfig {
            id: "svc1".into(),
            name: "Test Service".into(),
            base_path: "/api".into(),
            enabled: true,
            upstreams: vec![UpstreamEntry {
                id: "up1".into(),
                label: Some("Upstream 1".into()),
                upstream_base: "http://localhost:9999".into(),
                api_key: None,
                priority: 1,
                enabled: true,
            }],
        }],
    }
}

#[test]
fn select_service_prefers_longest_prefix() {
    let services = vec![
        ServiceConfig {
            id: "1".into(),
            name: "root".into(),
            base_path: "/".into(),
            enabled: true,
            upstreams: vec![],
        },
        ServiceConfig {
            id: "2".into(),
            name: "api".into(),
            base_path: "/api".into(),
            enabled: true,
            upstreams: vec![],
        },
    ];
    let cfg = ProxyConfig {
        listen_port: 1,
        global_key: None,
        proxy_url: None,
        fallback_retries: 0,
        services,
    };

    let svc = select_service(&cfg, "/api/v1").expect("service");
    assert_eq!(svc.name, "api");
}

#[test]
fn select_upstream_respects_priority_and_enabled() {
    let upstreams = vec![
        UpstreamEntry {
            id: "a".into(),
            label: None,
            upstream_base: "http://a".into(),
            api_key: None,
            priority: 5,
            enabled: true,
        },
        UpstreamEntry {
            id: "b".into(),
            label: None,
            upstream_base: "http://b".into(),
            api_key: None,
            priority: 1,
            enabled: false,
        },
        UpstreamEntry {
            id: "c".into(),
            label: None,
            upstream_base: "http://c".into(),
            api_key: None,
            priority: 2,
            enabled: true,
        },
    ];

    let chosen = select_upstream(&upstreams).expect("upstream");
    assert_eq!(chosen.id, "c");
}

#[test]
fn test_resolve_route_success() {
    let config = create_test_config();
    let route = resolve_route(&config, "/api/users/1");

    assert!(route.is_some());
    let r = route.unwrap();
    assert_eq!(r.service_name, "Test Service");
    assert_eq!(r.upstreams[0].upstream_url, "http://localhost:9999/users/1");
}

#[test]
fn test_resolve_route_no_match() {
    let config = create_test_config();
    let route = resolve_route(&config, "/other/path");
    assert!(route.is_none());
}

#[test]
fn longest_prefix_routing_trims_path() {
    let mk_upstream = |base: &str| UpstreamEntry {
        id: format!("up-{base}"),
        label: None,
        upstream_base: base.into(),
        api_key: None,
        priority: 0,
        enabled: true,
    };
    let cfg = ProxyConfig {
        listen_port: 1,
        global_key: None,
        proxy_url: None,
        fallback_retries: 0,
        services: vec![
            ServiceConfig {
                id: "a".into(),
                name: "A".into(),
                base_path: "/".into(),
                enabled: true,
                upstreams: vec![mk_upstream("http://a")],
            },
            ServiceConfig {
                id: "b".into(),
                name: "B".into(),
                base_path: "/api".into(),
                enabled: true,
                upstreams: vec![mk_upstream("http://b")],
            },
        ],
    };
    let r = resolve_route(&cfg, "/api/x").expect("route");
    assert_eq!(r.service_name, "B");
    assert_eq!(r.service_base, "/api");
    assert_eq!(r.upstreams[0].upstream_url, "http://b/x");
}

#[test]
fn enabled_upstreams_sorted_is_stable_for_equal_priorities() {
    let mk = |id: &str, priority: u32, enabled: bool| UpstreamEntry {
        id: id.into(),
        label: None,
        upstream_base: format!("http://{id}"),
        api_key: None,
        priority,
        enabled,
    };
    let ups = vec![mk("x", 2, true), mk("y", 1, true), mk("z", 2, true), mk("w", 2, false)];
    let sorted = enabled_upstreams_sorted(&ups);
    let ids: Vec<&str> = sorted.iter().map(|u| u.id.as_str()).collect();
    assert_eq!(ids, vec!["y", "x", "z"]);
}

#[test]
fn disabled_services_never_match() {
    let mut cfg = create_test_config();
    cfg.services[0].enabled = false;
    assert!(select_service(&cfg, "/api/x").is_none());
    assert!(resolve_route(&cfg, "/api/x").is_none());
}

#[test]
fn byte_prefix_match_accepts_partial_segment() {
    let cfg = create_test_config();
    let r = resolve_route(&cfg, "/apiextra").expect("byte-prefix match");
    assert_eq!(r.upstreams[0].upstream_url, "http://localhost:9999/extra");
}
