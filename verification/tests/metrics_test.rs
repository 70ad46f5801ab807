use advcache::meter;
use advcache::metrics::{
    add_hard_eviction_stats, add_lifetime_stats, add_soft_eviction_stats, get_status_code_counters, inc_cache_hits,
    inc_cache_misses, inc_errors, inc_panics, inc_proxied, inc_status_code, inc_total, metrics_text,
    render_manual_metrics, set_cache_length, set_cache_memory, GaugeTexts, MetricsRegistry,
};

fn gauges() -> GaugeTexts {
    GaugeTexts {
        rps: "1.5".to_string(),
        avg_total: "0".to_string(),
        avg_cache: "0".to_string(),
        avg_proxy: "0".to_string(),
        avg_error: "0".to_string(),
    }
}

#[test]
fn counters_add_and_wrap() {
    let mut reg = MetricsRegistry::new();
    inc_cache_hits(&mut reg, 3);
    inc_cache_hits(&mut reg, 4);
    assert_eq!(reg.cache_hits, 7);
    inc_cache_misses(&mut reg, u64::MAX);
    inc_cache_misses(&mut reg, 2);
    assert_eq!(reg.cache_misses, 1);
    inc_total(&mut reg, 1);
    inc_errors(&mut reg, 2);
    inc_panics(&mut reg, 3);
    inc_proxied(&mut reg, 4);
    assert_eq!((reg.total_requests, reg.errored_requests, reg.panicked_requests, reg.proxied_requests), (1, 2, 3, 4));
    set_cache_memory(&mut reg, 100);
    set_cache_memory(&mut reg, 50);
    set_cache_length(&mut reg, 9);
    assert_eq!((reg.cache_memory_usage, reg.cache_length), (50, 9));
    add_soft_eviction_stats(&mut reg, 10, 1, 5);
    add_hard_eviction_stats(&mut reg, 20, 2, 3, 4);
    add_lifetime_stats(&mut reg, 1, 2, 3, 4, 5);
    assert_eq!((reg.soft_bytes_evicted, reg.soft_evictions, reg.soft_scans), (10, 1, 5));
    assert_eq!((reg.hard_bytes_evicted, reg.hard_evictions, reg.admission_allowed, reg.admission_not_allowed), (20, 2, 3, 4));
    assert_eq!(
        (reg.refresh_updated, reg.refresh_errors, reg.refresh_scans, reg.refresh_miss, reg.refresh_hits),
        (1, 2, 3, 4, 5)
    );
}

#[test]
fn status_codes_are_counted_below_600() {
    let mut reg = MetricsRegistry::new();
    inc_status_code(&mut reg, 200);
    inc_status_code(&mut reg, 200);
    inc_status_code(&mut reg, 503);
    inc_status_code(&mut reg, 600);
    inc_status_code(&mut reg, u16::MAX);
    let counters = get_status_code_counters(&reg);
    assert_eq!(counters.len(), 600);
    assert_eq!(counters[200], 2);
    assert_eq!(counters[503], 1);
    assert_eq!(counters.iter().sum::<u64>(), 3);
}

#[test]
fn rendered_text_has_every_block_in_order() {
    let mut reg = MetricsRegistry::new();
    inc_cache_hits(&mut reg, 12);
    inc_status_code(&mut reg, 404);
    let text = render_manual_metrics(&reg, &gauges(), 4096);
    assert!(text.starts_with("# HELP cache_hits Total number of cache hits\n# TYPE cache_hits counter\ncache_hits 12\n"));
    assert!(text.contains("# HELP rps Requests per second\n# TYPE rps gauge\nrps 1.5\n"));
    assert!(text.contains("# TYPE resp_status_total counter\nresp_status_total{code=\"404\"} 1\n# HELP process_footprint_bytes"));
    assert!(text.ends_with("# TYPE process_footprint_bytes gauge\nprocess_footprint_bytes 4096\n"));
    assert_eq!(text.matches("# HELP").count(), 27);
    let hits = text.find("cache_hits 12").unwrap();
    let misses = text.find("cache_misses 0").unwrap();
    let refresh = text.find("refresh_miss 0").unwrap();
    assert!(hits < misses && misses < refresh);
}

#[test]
fn metrics_text_puts_process_text_first() {
    let reg = MetricsRegistry::new();
    let manual = render_manual_metrics(&reg, &gauges(), 0);
    assert_eq!(metrics_text(None, &reg, &gauges(), 0), manual);
    assert_eq!(metrics_text(Some("p 1".to_string()), &reg, &gauges(), 0), format!("p 1\n{}", manual));
    assert_eq!(metrics_text(Some("p 1\n".to_string()), &reg, &gauges(), 0), format!("p 1\n{}", manual));
    assert_eq!(metrics_text(Some(String::new()), &reg, &gauges(), 0), format!("\n{}", manual));
}

#[test]
fn meter_forwards_to_the_registry() {
    let mut reg = MetricsRegistry::new();
    meter::add_hits(&mut reg, 1);
    meter::add_misses(&mut reg, 2);
    meter::add_total(&mut reg, 3);
    meter::add_errors(&mut reg, 4);
    meter::add_panics(&mut reg, 5);
    meter::add_proxied_num(&mut reg, 6);
    meter::set_cache_memory(&mut reg, 7);
    meter::set_cache_length(&mut reg, 8);
    assert_eq!(
        (reg.cache_hits, reg.cache_misses, reg.total_requests, reg.errored_requests, reg.panicked_requests, reg.proxied_requests),
        (1, 2, 3, 4, 5, 6)
    );
    assert_eq!((reg.cache_memory_usage, reg.cache_length), (7, 8));
    meter::add_soft_eviction_stat_counters(&mut reg, -1, 2, 3);
    assert_eq!(reg.soft_bytes_evicted, u64::MAX);
    meter::add_hard_eviction_stat_counters(&mut reg, 1, 1, 1, 1);
    meter::add_lifetime_stat_counters(&mut reg, 1, 1, 1, 1, 1);
    meter::inc_status_code(&mut reg, 201);
    meter::flush_status_code_counters();
    assert_eq!(get_status_code_counters(&reg)[201], 1);
    assert_eq!(meter::HITS, "cache_hits");
    assert_eq!(meter::AVG_TOTAL_DURATION, "avg_duration_ns");
}
