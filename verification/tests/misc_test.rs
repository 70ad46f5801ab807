use advcache::config::{Rule, RuleKey, RuleValue};
use advcache::invalidate::{entry_matches, invalidation_filters, read_invalidate_params, select_invalidated, InvalidationCandidate};
use advcache::last_updated_at::{format_timestamp, set_last_updated_at_value, LAST_UPDATED_AT_KEY};
use advcache::liveness::{check_services, probe_timeout, timeout_is_too_short, Config, TimeoutIsTooShortError};
use advcache::policy::Policy;
use advcache::render::response_headers;
use advcache::request_stats::{first_path, response_size, CacheError, PathKind, RequestStats};

#[test]
fn last_updated_header_dates() {
    assert_eq!(LAST_UPDATED_AT_KEY, "Last-Updated-At");
    assert_eq!(set_last_updated_at_value(0), None);
    assert_eq!(
        set_last_updated_at_value(1_136_214_245_000_000_000),
        Some("Mon, 02 Jan 2006 15:04:05 GMT".to_string())
    );
    assert_eq!(set_last_updated_at_value(1), Some("Thu, 01 Jan 1970 00:00:00 GMT".to_string()));
    assert!(set_last_updated_at_value(-1).is_some());
    assert_eq!(format_timestamp(1_136_214_245), Some("20060102T150405".to_string()));
}

fn params(items: &[(&str, &str)]) -> Vec<(String, String)> {
    items.iter().map(|(k, v)| (k.to_string(), v.to_string())).collect()
}

#[test]
fn invalidate_parameters() {
    assert!(read_invalidate_params(&params(&[("a", "1")])).is_none());
    let req = read_invalidate_params(&params(&[("a", "1"), ("_path", "/api"), ("_remove", ""), ("b", "2")])).unwrap();
    assert_eq!(req.path, "/api");
    assert!(req.remove);
    assert_eq!(req.rest, params(&[("a", "1"), ("b", "2")]));
    let req = read_invalidate_params(&params(&[("_path", "/x")])).unwrap();
    assert!(!req.remove);
    assert!(req.rest.is_empty());
}

#[test]
fn invalidate_filters_and_matching() {
    let rule = Rule {
        path: Some("/api".to_string()),
        path_bytes: Some(b"/api".to_vec()),
        cache_key: RuleKey {
            query: Some(vec!["q".to_string()]),
            query_bytes: Some(vec![b"q".to_vec()]),
            headers: None,
            headers_map: None,
        },
        cache_value: RuleValue { headers: None },
    };
    let filters = invalidation_filters(&rule, &params(&[("z", "0"), ("q", "a b")]));
    assert_eq!(filters, vec![(b"q".to_vec(), b"a b".to_vec())]);
    let path = b"/api".to_vec();
    let rp = Some("/api".to_string());
    let queries = vec![(b"x".to_vec(), b"1".to_vec()), (b"q".to_vec(), b"a b".to_vec())];
    assert!(entry_matches(&path, &rp, &path, &rp, &filters, &queries));
    assert!(entry_matches(&path, &rp, &path, &rp, &vec![], &vec![]));
    assert!(!entry_matches(&path, &rp, &b"/other".to_vec(), &rp, &filters, &queries));
    assert!(!entry_matches(&path, &None, &path, &rp, &filters, &queries));
    assert!(!entry_matches(&path, &rp, &path, &rp, &filters, &vec![]));
    let cand = |key: u64, p: &[u8], q: Vec<(Vec<u8>, Vec<u8>)>| InvalidationCandidate {
        key,
        path: p.to_vec(),
        rule_path: rp.clone(),
        queries: q,
    };
    let cands = vec![
        cand(3, b"/api", queries.clone()),
        cand(9, b"/other", queries.clone()),
        cand(4, b"/api", vec![]),
        cand(7, b"/api", vec![(b"q".to_vec(), b"a b".to_vec())]),
    ];
    assert_eq!(select_invalidated(&cands, &path, &rp, &filters), vec![3, 7]);
    assert_eq!(select_invalidated(&cands, &path, &rp, &vec![]), vec![3, 4, 7]);
}

#[test]
fn request_window_accounting() {
    let mut s = RequestStats::new();
    s.on_request();
    s.on_hit();
    s.on_response(PathKind::Cache, 100);
    s.on_request();
    s.on_proxied();
    s.on_response(PathKind::Proxy, 50);
    s.on_request();
    s.on_miss();
    s.on_error(7);
    let w = s.take();
    assert_eq!((w.total, w.hits, w.misses, w.proxied, w.errored), (3, 1, 1, 1, 1));
    assert_eq!((w.duration, w.cache_duration, w.proxy_duration, w.error_duration), (157, 100, 50, 7));
    assert_eq!(s, RequestStats::new());
    assert_eq!(s.take(), RequestStats::new());
    assert_eq!(first_path(true), PathKind::Cache);
    assert_eq!(first_path(false), PathKind::Proxy);
    assert_eq!(response_size(Some("1024")), 1024);
    assert_eq!(response_size(Some("x")), 0);
    assert_eq!(response_size(None), 0);
    assert!(CacheError::NeedRetryThroughProxy.needs_proxy());
    assert!(!CacheError::Other(anyhow::Error::msg("boom")).needs_proxy());
}

#[test]
fn liveness_settings() {
    let c = Config::new();
    assert_eq!(c.timeout, "5s");
    assert_eq!(c.liveness_timeout(), (5, 0));
    let c = Config { timeout: "250ms".to_string() };
    assert_eq!(c.liveness_timeout(), (0, 250_000_000));
    let c = Config { timeout: "soon".to_string() };
    assert_eq!(c.liveness_timeout(), (5, 0));
    let c = Config { timeout: "1hour 12min 5s".to_string() };
    assert_eq!(c.liveness_timeout(), (4325, 0));
    let c = Config { timeout: "18446744073709551615s 1000000000ns".to_string() };
    assert_eq!(c.liveness_timeout(), (5, 0));
    let c = Config { timeout: "100000000000s".to_string() };
    assert_eq!(c.liveness_timeout(), (100_000_000_000, 0));
    let c = Config { timeout: "100000000000ms".to_string() };
    assert_eq!(c.liveness_timeout(), (100_000_000, 0));
    let c = Config { timeout: "1 2s".to_string() };
    assert_eq!(c.liveness_timeout(), (12, 0));
    assert_eq!(probe_timeout(0, 999_999), (0, 10_000_000));
    assert_eq!(probe_timeout(0, 1_000_000), (0, 1_000_000));
    assert_eq!(probe_timeout(3, 0), (3, 0));
    assert_eq!(Config::default().timeout, "5s");
    assert!(timeout_is_too_short(0, 999_999));
    assert!(!timeout_is_too_short(0, 1_000_000));
    assert!(!timeout_is_too_short(1, 0));
    assert!(check_services(&vec![]));
    assert!(check_services(&vec![true, true]));
    assert!(!check_services(&vec![true, false]));
    assert_eq!(TimeoutIsTooShortError.message(), "liveness probe timeout is too short");
}

#[test]
fn lifetime_policy_codes() {
    assert_eq!(Policy::new_lifetime_policy(true).to_u64(), Policy::Remove.to_u64());
    assert_ne!(Policy::new_lifetime_policy(false).to_u64(), Policy::new_lifetime_policy(true).to_u64());
}

#[test]
fn response_headers_in_order() {
    let own = vec![(b"Content-Type".to_vec(), b"text/plain".to_vec())];
    let with_date = response_headers(&own, 1_136_214_245_000_000_000, 12);
    assert_eq!(
        with_date,
        vec![
            (b"Content-Type".to_vec(), b"text/plain".to_vec()),
            (b"Last-Updated-At".to_vec(), b"Mon, 02 Jan 2006 15:04:05 GMT".to_vec()),
            (b"content-length".to_vec(), b"12".to_vec()),
        ]
    );
    let without = response_headers(&vec![], 0, 0);
    assert_eq!(without, vec![(b"content-length".to_vec(), b"0".to_vec())]);
}
