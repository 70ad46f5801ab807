//! The metric names and the recording calls that the cache makes.

use crate::controllers::BackendPolicy;
use crate::metrics::{self, MetricsRegistry};
use crate::policy::Policy;
use vstd::prelude::*;

verus! {

/// Metric name.
pub const AVG_TOTAL_DURATION: &'static str = "avg_duration_ns";

/// Metric name.
pub const AVG_CACHE_DURATION: &'static str = "avg_cache_duration_ns";

/// Metric name.
pub const AVG_PROXY_DURATION: &'static str = "avg_proxy_duration_ns";

/// Metric name.
pub const AVG_ERROR_DURATION: &'static str = "avg_error_duration_ns";

/// Metric name.
pub const RPS: &'static str = "rps";

/// Metric name.
pub const TOTAL: &'static str = "total";

/// Metric name.
pub const ERRORED: &'static str = "errors";

/// Metric name.
pub const PANICKED: &'static str = "panics";

/// Metric name.
pub const PROXIED: &'static str = "proxies";

/// Metric name.
pub const HITS: &'static str = "cache_hits";

/// Metric name.
pub const MISSES: &'static str = "cache_misses";

/// Metric name.
pub const MAP_MEMORY_USAGE_METRIC_NAME: &'static str = "cache_memory_usage";

/// Metric name.
pub const MAP_LENGTH: &'static str = "cache_length";

/// Metric name.
pub const TOTAL_SOFT_EVICTIONS: &'static str = "soft_evicted_total_items";

/// Metric name.
pub const TOTAL_SOFT_BYTES_EVICTED: &'static str = "soft_evicted_total_bytes";

/// Metric name.
pub const TOTAL_SOFT_SCANS: &'static str = "soft_evicted_total_scans";

/// Metric name.
pub const TOTAL_HARD_EVICTIONS: &'static str = "hard_evicted_total_items";

/// Metric name.
pub const TOTAL_HARD_BYTES_EVICTED: &'static str = "hard_evicted_total_bytes";

/// Metric name.
pub const TOTAL_ADM_ALLOWED: &'static str = "admission_allowed";

/// Metric name.
pub const TOTAL_ADM_NOT_ALLOWED: &'static str = "admission_not_allowed";

/// Metric name.
pub const REFRESHER_UPDATED: &'static str = "refresh_updated";

/// Metric name.
pub const REFRESHER_ERRORS: &'static str = "refresh_errors";

/// Metric name.
pub const REFRESHER_SCANS: &'static str = "refresh_scans";

/// Metric name.
pub const REFRESHER_HITS: &'static str = "refresh_hits";

/// Metric name.
pub const REFRESHER_MISS: &'static str = "refresh_miss";

/// Metric name.
pub const BACKEND_POLICY: &'static str = "backend_policy";

/// Metric name.
pub const LIFETIME_POLICY: &'static str = "lifetime_policy";

/// Metric name.
pub const IS_BYPASS_ACTIVE: &'static str = "is_bypass_active";

/// Metric name.
pub const IS_COMPRESSION_ACTIVE: &'static str = "is_compression_active";

/// Metric name.
pub const IS_TRACES_ACTIVE: &'static str = "is_traces_active";

/// Metric name.
pub const IS_ADMISSION_ACTIVE: &'static str = "is_admission_active";

/// Adds cache hits.
pub fn add_hits(reg: &mut MetricsRegistry, value: u64)
    ensures
        *final(reg) == (MetricsRegistry { cache_hits: old(reg).cache_hits.wrapping_add(value), ..*old(reg) }),
{
    metrics::inc_cache_hits(reg, value);
}

/// Adds cache misses.
pub fn add_misses(reg: &mut MetricsRegistry, value: u64)
    ensures
        *final(reg) == (MetricsRegistry { cache_misses: old(reg).cache_misses.wrapping_add(value), ..*old(reg) }),
{
    metrics::inc_cache_misses(reg, value);
}

/// Adds requests.
pub fn add_total(reg: &mut MetricsRegistry, value: u64)
    ensures
        *final(reg) == (MetricsRegistry { total_requests: old(reg).total_requests.wrapping_add(value), ..*old(reg) }),
{
    metrics::inc_total(reg, value);
}

/// Adds errored requests.
pub fn add_errors(reg: &mut MetricsRegistry, value: u64)
    ensures
        *final(reg) == (MetricsRegistry { errored_requests: old(reg).errored_requests.wrapping_add(value), ..*old(reg) }),
{
    metrics::inc_errors(reg, value);
}

/// Adds panicked requests.
pub fn add_panics(reg: &mut MetricsRegistry, value: u64)
    ensures
        *final(reg) == (MetricsRegistry { panicked_requests: old(reg).panicked_requests.wrapping_add(value), ..*old(reg) }),
{
    metrics::inc_panics(reg, value);
}

/// Adds proxied requests.
pub fn add_proxied_num(reg: &mut MetricsRegistry, value: u64)
    ensures
        *final(reg) == (MetricsRegistry { proxied_requests: old(reg).proxied_requests.wrapping_add(value), ..*old(reg) }),
{
    metrics::inc_proxied(reg, value);
}

/// Sets the cache memory usage in bytes.
pub fn set_cache_memory(reg: &mut MetricsRegistry, value: u64)
    ensures
        *final(reg) == (MetricsRegistry { cache_memory_usage: value, ..*old(reg) }),
{
    metrics::set_cache_memory(reg, value);
}

/// Sets the number of cached items.
pub fn set_cache_length(reg: &mut MetricsRegistry, value: u64)
    ensures
        *final(reg) == (MetricsRegistry { cache_length: value, ..*old(reg) }),
{
    metrics::set_cache_length(reg, value);
}

/// Records the backend policy; it is not part of the reported metrics.
pub fn set_backend_policy(_value: BackendPolicy) {
}

/// Records the lifetime policy; it is not part of the reported metrics.
pub fn set_lifetime_policy(_value: Policy) {
}

/// Records whether the bypass is active; it is not part of the reported metrics.
pub fn set_is_bypass_active(_value: bool) {
}

/// Records whether compression is active; it is not part of the reported metrics.
pub fn set_is_compression_active(_value: bool) {
}

/// Records whether admission control is active; it is not part of the reported metrics.
pub fn set_is_admission_active(_value: bool) {
}

/// Records whether tracing is active; it is not part of the reported metrics.
pub fn set_is_traces_active(_value: bool) {
}

/// Adds soft eviction statistics; negative counts are added as their
/// two's complement.
pub fn add_soft_eviction_stat_counters(reg: &mut MetricsRegistry, bytes: i64, items: i64, scans: i64)
    ensures
        *final(reg) == (MetricsRegistry {
            soft_evictions: old(reg).soft_evictions.wrapping_add(items as u64),
            soft_bytes_evicted: old(reg).soft_bytes_evicted.wrapping_add(bytes as u64),
            soft_scans: old(reg).soft_scans.wrapping_add(scans as u64),
            ..*old(reg)
        }),
{
    metrics::add_soft_eviction_stats(reg, bytes as u64, items as u64, scans as u64);
}

/// Adds hard eviction and admission statistics; negative counts are added
/// as their two's complement.
pub fn add_hard_eviction_stat_counters(reg: &mut MetricsRegistry, bytes: i64, items: i64, adm_allowed: i64, adm_not_allowed: i64)
    ensures
        *final(reg) == (MetricsRegistry {
            hard_evictions: old(reg).hard_evictions.wrapping_add(items as u64),
            hard_bytes_evicted: old(reg).hard_bytes_evicted.wrapping_add(bytes as u64),
            admission_allowed: old(reg).admission_allowed.wrapping_add(adm_allowed as u64),
            admission_not_allowed: old(reg).admission_not_allowed.wrapping_add(adm_not_allowed as u64),
            ..*old(reg)
        }),
{
    metrics::add_hard_eviction_stats(reg, bytes as u64, items as u64, adm_allowed as u64, adm_not_allowed as u64);
}

/// Adds refresh statistics; negative counts are added as their two's
/// complement.
pub fn add_lifetime_stat_counters(reg: &mut MetricsRegistry, updated: i64, errors: i64, scans: i64, miss: i64, hits: i64)
    ensures
        *final(reg) == (MetricsRegistry {
            refresh_updated: old(reg).refresh_updated.wrapping_add(updated as u64),
            refresh_errors: old(reg).refresh_errors.wrapping_add(errors as u64),
            refresh_scans: old(reg).refresh_scans.wrapping_add(scans as u64),
            refresh_hits: old(reg).refresh_hits.wrapping_add(hits as u64),
            refresh_miss: old(reg).refresh_miss.wrapping_add(miss as u64),
            ..*old(reg)
        }),
{
    metrics::add_lifetime_stats(reg, updated as u64, errors as u64, scans as u64, miss as u64, hits as u64);
}

/// Counts one response with the given status code; codes from 600 up are
/// not counted.
pub fn inc_status_code(reg: &mut MetricsRegistry, code: u16)
    requires
        old(reg).wf(),
    ensures
        final(reg).wf(),
        (code as int) < metrics::STATUS_CODE_SLOTS ==> *final(reg) == (MetricsRegistry {
            status_codes: final(reg).status_codes,
            ..*old(reg)
        }) && final(reg).status_codes@ == old(reg).status_codes@.update(
            code as int,
            old(reg).status_codes@[code as int].wrapping_add(1),
        ),
        (code as int) >= metrics::STATUS_CODE_SLOTS ==> *final(reg) == *old(reg),
{
    metrics::inc_status_code(reg, code);
}

/// Status codes are counted as they come, so there is nothing to flush.
pub fn flush_status_code_counters() {
}

} // verus!
