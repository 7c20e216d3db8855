use apiflow::config::{normalize_config, reload_guard, ConfigError, ProxyConfig, ServiceConfig, UpstreamEntry};

fn upstream(id: &str, base: &str, priority: u32) -> UpstreamEntry {
    UpstreamEntry {
        id: id.into(),
        label: None,
        upstream_base: base.into(),
        api_key: None,
        priority,
        enabled: true,
    }
}

fn service(id: &str, base_path: &str, upstreams: Vec<UpstreamEntry>) -> ServiceConfig {
    ServiceConfig {
        id: id.into(),
        name: format!("  name-{id}  "),
        base_path: base_path.into(),
        enabled: true,
        upstreams,
    }
}

#[test]
fn admission_normalizes_paths_sorts_upstreams_and_clamps_retries() {
    let cfg = ProxyConfig {
        listen_port: 8080,
        global_key: Some("  gk  ".into()),
        proxy_url: None,
        fallback_retries: 99,
        services: vec![service(
            "s",
            "api/",
            vec![
                upstream("u2", "http://b/", 5),
                upstream("u1", "http://a//", 1),
                upstream("blank", "   ", 3),
            ],
        )],
    };

    let out = normalize_config(&cfg).expect("admitted");

    assert_eq!(out.fallback_retries, 10);
    assert_eq!(out.global_key, Some("gk".to_string()));

    let svc = &out.services[0];
    assert_eq!(svc.base_path, "/api");
    assert_eq!(svc.name, "name-s");

    // The blank upstream is dropped; the rest are sorted by priority with
    // trailing slashes stripped from their bases.
    let ids: Vec<&str> = svc.upstreams.iter().map(|u| u.id.as_str()).collect();
    assert_eq!(ids, vec!["u1", "u2"]);
    assert_eq!(svc.upstreams[0].upstream_base, "http://a");
    assert_eq!(svc.upstreams[1].upstream_base, "http://b");
    let priorities: Vec<u32> = svc.upstreams.iter().map(|u| u.priority).collect();
    let mut sorted = priorities.clone();
    sorted.sort();
    assert_eq!(priorities, sorted);
}

#[test]
fn admission_rejects_port_zero() {
    let cfg = ProxyConfig {
        listen_port: 0,
        global_key: None,
        proxy_url: None,
        fallback_retries: 0,
        services: vec![service("s", "/", vec![upstream("u", "http://a", 0)])],
    };
    assert!(matches!(normalize_config(&cfg), Err(ConfigError::InvalidListenPort)));
}

#[test]
fn admission_rejects_empty_service_list() {
    let cfg = ProxyConfig {
        listen_port: 1,
        global_key: None,
        proxy_url: None,
        fallback_retries: 0,
        services: vec![],
    };
    assert!(matches!(normalize_config(&cfg), Err(ConfigError::NoServices)));
}

#[test]
fn admission_rejects_services_without_usable_upstreams() {
    let cfg = ProxyConfig {
        listen_port: 1,
        global_key: None,
        proxy_url: None,
        fallback_retries: 0,
        services: vec![service("s", "/", vec![upstream("u", "   ", 0)])],
    };
    assert!(matches!(normalize_config(&cfg), Err(ConfigError::NoValidServices)));
}

#[test]
fn blank_optional_fields_become_absent() {
    let mut u = upstream("u", "http://a", 0);
    u.label = Some("   ".into());
    u.api_key = Some(" key ".into());
    let cfg = ProxyConfig {
        listen_port: 1,
        global_key: Some("   ".into()),
        proxy_url: Some("  ".into()),
        fallback_retries: 0,
        services: vec![service("s", "", vec![u])],
    };
    let out = normalize_config(&cfg).expect("admitted");
    assert_eq!(out.global_key, None);
    assert_eq!(out.proxy_url, None);
    assert_eq!(out.services[0].base_path, "/");
    assert_eq!(out.services[0].upstreams[0].label, None);
    assert_eq!(out.services[0].upstreams[0].api_key, Some("key".to_string()));
}

#[test]
fn reload_requires_running_config_on_same_port() {
    assert!(matches!(reload_guard(None, 8080), Err(ConfigError::NotRunning)));
    assert!(matches!(reload_guard(Some(8081), 8080), Err(ConfigError::PortChanged)));
    assert!(reload_guard(Some(8080), 8080).is_ok());
}
