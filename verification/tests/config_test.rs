use advcache::config::{
    is_listing_mode, process_backend, process_backends, process_rule_key, process_upstream, remove_on_ttl, Backend,
    Cluster, ConfigError, RuleKey, TTLMode, Upstream, LISTING_MODE,
};

fn backend() -> Backend {
    Backend {
        id: Some("up".to_string()),
        id_bytes: None,
        enabled: true,
        policy: None,
        scheme: Some("http".to_string()),
        scheme_bytes: None,
        host: Some("localhost:8090".to_string()),
        host_bytes: None,
        rate: Some(10),
        concurrency: None,
        timeout: None,
        max_timeout: None,
        use_max_timeout_header: None,
        use_max_timeout_header_bytes: Some(vec![1]),
        healthcheck: Some("/healthz".to_string()),
        healthcheck_bytes: None,
        addr: None,
        health_path: None,
    }
}

#[test]
fn backend_bytes_are_filled() {
    let mut b = backend();
    process_backend(&mut b);
    assert_eq!(b.id_bytes, Some(b"up".to_vec()));
    assert_eq!(b.scheme_bytes, Some(b"http".to_vec()));
    assert_eq!(b.host_bytes, Some(b"localhost:8090".to_vec()));
    assert_eq!(b.healthcheck_bytes, Some(b"/healthz".to_vec()));
    assert_eq!(b.use_max_timeout_header_bytes, Some(vec![1]));
    let mut list = vec![backend(), backend()];
    process_backends(&mut list);
    assert!(list.iter().all(|b| b.host_bytes == Some(b"localhost:8090".to_vec())));
}

#[test]
fn upstream_needs_a_backend() {
    let mut none = Upstream { policy: None, cluster: None, backend: None };
    assert!(matches!(process_upstream(&mut none), Err(ConfigError::NoBackendConfigured)));
    assert_eq!(ConfigError::NoBackendConfigured.message(), "no backend configured");
    let mut single = Upstream { policy: None, cluster: None, backend: Some(backend()) };
    assert!(process_upstream(&mut single).is_ok());
    assert_eq!(single.backend.unwrap().id_bytes, Some(b"up".to_vec()));
    let mut cluster = Upstream {
        policy: Some("deny".to_string()),
        cluster: Some(Cluster { backends: Some(vec![backend()]) }),
        backend: Some(backend()),
    };
    assert!(process_upstream(&mut cluster).is_ok());
    assert_eq!(cluster.cluster.unwrap().backends.unwrap()[0].id_bytes, Some(b"up".to_vec()));
    assert_eq!(cluster.backend.unwrap().id_bytes, None);
}

#[test]
fn rule_keys_get_byte_forms() {
    let mut key = RuleKey {
        query: Some(vec!["user".to_string()]),
        query_bytes: None,
        headers: Some(vec!["Accept-Encoding".to_string()]),
        headers_map: None,
    };
    process_rule_key(&mut key);
    assert_eq!(key.query_bytes, Some(vec![b"user".to_vec()]));
    assert_eq!(key.headers_map, Some(vec![("accept-encoding".to_string(), b"Accept-Encoding".to_vec())]));
}

#[test]
fn ttl_mode_and_listing_mode() {
    assert_eq!(remove_on_ttl(Some(TTLMode::Remove)), Ok(true));
    assert_eq!(remove_on_ttl(Some(TTLMode::Refresh)), Ok(false));
    assert!(matches!(remove_on_ttl(None), Err(ConfigError::InvalidTtlMode)));
    assert_eq!(ConfigError::InvalidTtlMode.message(), "invalid lifetime.OnTTLMode configured");
    assert!(is_listing_mode(&Some(LISTING_MODE.to_string())));
    assert!(!is_listing_mode(&Some("sampling".to_string())));
    assert!(!is_listing_mode(&None));
}
