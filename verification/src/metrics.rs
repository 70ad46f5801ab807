//! Cache metrics: counters and gauges, and their Prometheus text.

use crate::text::{decimal, push_decimal, push_str, string_from_chars};
use vstd::prelude::*;

verus! {

/// Path of the Prometheus metrics endpoint.
pub const PROMETHEUS_METRICS_PATH: &'static str = "/metrics";

/// Number of HTTP status codes that are counted (0 to 599).
pub const STATUS_CODE_SLOTS: usize = 600;

/// The counters and gauges that the cache reports. Gauges that hold a
/// floating-point value keep its bit pattern.
pub struct MetricsRegistry {
    pub cache_hits: u64,
    pub cache_misses: u64,
    pub total_requests: u64,
    pub errored_requests: u64,
    pub proxied_requests: u64,
    pub panicked_requests: u64,
    pub cache_memory_usage: u64,
    pub cache_length: u64,
    pub soft_evictions: u64,
    pub soft_bytes_evicted: u64,
    pub soft_scans: u64,
    pub hard_evictions: u64,
    pub hard_bytes_evicted: u64,
    pub admission_allowed: u64,
    pub admission_not_allowed: u64,
    pub refresh_updated: u64,
    pub refresh_errors: u64,
    pub refresh_scans: u64,
    pub refresh_hits: u64,
    pub refresh_miss: u64,
    pub rps_bits: u64,
    pub avg_total_bits: u64,
    pub avg_cache_bits: u64,
    pub avg_proxy_bits: u64,
    pub avg_error_bits: u64,
    /// Responses counted per status code, indexed by the code.
    pub status_codes: Vec<u64>,
}

/// The text of the floating-point gauges, as they are printed.
pub struct GaugeTexts {
    pub rps: String,
    pub avg_total: String,
    pub avg_cache: String,
    pub avg_proxy: String,
    pub avg_error: String,
}

impl MetricsRegistry {
    /// One counter per status code.
    pub open spec fn wf(&self) -> bool {
        self.status_codes@.len() == STATUS_CODE_SLOTS
    }

    /// Every counter and gauge is zero.
    pub open spec fn is_zero(&self) -> bool {
        &&& self.cache_hits == 0
        &&& self.cache_misses == 0
        &&& self.total_requests == 0
        &&& self.errored_requests == 0
        &&& self.proxied_requests == 0
        &&& self.panicked_requests == 0
        &&& self.cache_memory_usage == 0
        &&& self.cache_length == 0
        &&& self.soft_evictions == 0
        &&& self.soft_bytes_evicted == 0
        &&& self.soft_scans == 0
        &&& self.hard_evictions == 0
        &&& self.hard_bytes_evicted == 0
        &&& self.admission_allowed == 0
        &&& self.admission_not_allowed == 0
        &&& self.refresh_updated == 0
        &&& self.refresh_errors == 0
        &&& self.refresh_scans == 0
        &&& self.refresh_hits == 0
        &&& self.refresh_miss == 0
        &&& self.rps_bits == 0
        &&& self.avg_total_bits == 0
        &&& self.avg_cache_bits == 0
        &&& self.avg_proxy_bits == 0
        &&& self.avg_error_bits == 0
        &&& forall|i: int| 0 <= i < self.status_codes@.len() ==> self.status_codes@[i] == 0
    }

    /// A registry with every counter at zero.
    pub fn new() -> (r: Self)
        ensures
            r.wf(),
            r.is_zero(),
    {
        let mut codes: Vec<u64> = Vec::new();
        let mut i: usize = 0;
        while i < STATUS_CODE_SLOTS
            invariant
                i <= STATUS_CODE_SLOTS,
                codes@.len() == i,
                forall|j: int| 0 <= j < i ==> codes@[j] == 0,
            decreases STATUS_CODE_SLOTS - i,
        {
            codes.push(0);
            i = i + 1;
        }
        MetricsRegistry {
            cache_hits: 0,
            cache_misses: 0,
            total_requests: 0,
            errored_requests: 0,
            proxied_requests: 0,
            panicked_requests: 0,
            cache_memory_usage: 0,
            cache_length: 0,
            soft_evictions: 0,
            soft_bytes_evicted: 0,
            soft_scans: 0,
            hard_evictions: 0,
            hard_bytes_evicted: 0,
            admission_allowed: 0,
            admission_not_allowed: 0,
            refresh_updated: 0,
            refresh_errors: 0,
            refresh_scans: 0,
            refresh_hits: 0,
            refresh_miss: 0,
            rps_bits: 0,
            avg_total_bits: 0,
            avg_cache_bits: 0,
            avg_proxy_bits: 0,
            avg_error_bits: 0,
            status_codes: codes,
        }
    }
}

/// The status code counters.
pub fn get_status_code_counters(reg: &MetricsRegistry) -> (r: &Vec<u64>)
    ensures
        r@ == reg.status_codes@,
{
    &reg.status_codes
}

/// Increments the cache hit counter. Counters wrap around at `u64::MAX`.
pub fn inc_cache_hits(reg: &mut MetricsRegistry, value: u64)
    ensures
        *final(reg) == (MetricsRegistry { cache_hits: old(reg).cache_hits.wrapping_add(value), ..*old(reg) }),
{
    reg.cache_hits = reg.cache_hits.wrapping_add(value);
}

/// Increments the cache miss counter. Counters wrap around at `u64::MAX`.
pub fn inc_cache_misses(reg: &mut MetricsRegistry, value: u64)
    ensures
        *final(reg) == (MetricsRegistry { cache_misses: old(reg).cache_misses.wrapping_add(value), ..*old(reg) }),
{
    reg.cache_misses = reg.cache_misses.wrapping_add(value);
}

/// Increments the request counter. Counters wrap around at `u64::MAX`.
pub fn inc_total(reg: &mut MetricsRegistry, value: u64)
    ensures
        *final(reg) == (MetricsRegistry { total_requests: old(reg).total_requests.wrapping_add(value), ..*old(reg) }),
{
    reg.total_requests = reg.total_requests.wrapping_add(value);
}

/// Increments the errored request counter. Counters wrap around at `u64::MAX`.
pub fn inc_errors(reg: &mut MetricsRegistry, value: u64)
    ensures
        *final(reg) == (MetricsRegistry { errored_requests: old(reg).errored_requests.wrapping_add(value), ..*old(reg) }),
{
    reg.errored_requests = reg.errored_requests.wrapping_add(value);
}

/// Increments the panicked request counter. Counters wrap around at `u64::MAX`.
pub fn inc_panics(reg: &mut MetricsRegistry, value: u64)
    ensures
        *final(reg) == (MetricsRegistry { panicked_requests: old(reg).panicked_requests.wrapping_add(value), ..*old(reg) }),
{
    reg.panicked_requests = reg.panicked_requests.wrapping_add(value);
}

/// Increments the proxied request counter. Counters wrap around at `u64::MAX`.
pub fn inc_proxied(reg: &mut MetricsRegistry, value: u64)
    ensures
        *final(reg) == (MetricsRegistry { proxied_requests: old(reg).proxied_requests.wrapping_add(value), ..*old(reg) }),
{
    reg.proxied_requests = reg.proxied_requests.wrapping_add(value);
}

/// Sets the cache memory usage in bytes.
pub fn set_cache_memory(reg: &mut MetricsRegistry, value: u64)
    ensures
        *final(reg) == (MetricsRegistry { cache_memory_usage: value, ..*old(reg) }),
{
    reg.cache_memory_usage = value;
}

/// Sets the number of cached items.
pub fn set_cache_length(reg: &mut MetricsRegistry, value: u64)
    ensures
        *final(reg) == (MetricsRegistry { cache_length: value, ..*old(reg) }),
{
    reg.cache_length = value;
}

/// Stores the bit pattern of the requests-per-second gauge.
pub fn store_rps_bits(reg: &mut MetricsRegistry, bits: u64)
    ensures
        *final(reg) == (MetricsRegistry { rps_bits: bits, ..*old(reg) }),
{
    reg.rps_bits = bits;
}

/// Stores the bit patterns of the average duration gauges.
pub fn store_avg_response_time_bits(reg: &mut MetricsRegistry, total: u64, cache: u64, proxy: u64, error: u64)
    ensures
        *final(reg) == (MetricsRegistry {
            avg_total_bits: total,
            avg_cache_bits: cache,
            avg_proxy_bits: proxy,
            avg_error_bits: error,
            ..*old(reg)
        }),
{
    reg.avg_total_bits = total;
    reg.avg_cache_bits = cache;
    reg.avg_proxy_bits = proxy;
    reg.avg_error_bits = error;
}

/// Adds soft eviction statistics.
pub fn add_soft_eviction_stats(reg: &mut MetricsRegistry, bytes: u64, items: u64, scans: u64)
    ensures
        *final(reg) == (MetricsRegistry {
            soft_evictions: old(reg).soft_evictions.wrapping_add(items),
            soft_bytes_evicted: old(reg).soft_bytes_evicted.wrapping_add(bytes),
            soft_scans: old(reg).soft_scans.wrapping_add(scans),
            ..*old(reg)
        }),
{
    reg.soft_evictions = reg.soft_evictions.wrapping_add(items);
    reg.soft_bytes_evicted = reg.soft_bytes_evicted.wrapping_add(bytes);
    reg.soft_scans = reg.soft_scans.wrapping_add(scans);
}

/// Adds hard eviction and admission statistics.
pub fn add_hard_eviction_stats(reg: &mut MetricsRegistry, bytes: u64, items: u64, adm_allowed: u64, adm_not_allowed: u64)
    ensures
        *final(reg) == (MetricsRegistry {
            hard_evictions: old(reg).hard_evictions.wrapping_add(items),
            hard_bytes_evicted: old(reg).hard_bytes_evicted.wrapping_add(bytes),
            admission_allowed: old(reg).admission_allowed.wrapping_add(adm_allowed),
            admission_not_allowed: old(reg).admission_not_allowed.wrapping_add(adm_not_allowed),
            ..*old(reg)
        }),
{
    reg.hard_evictions = reg.hard_evictions.wrapping_add(items);
    reg.hard_bytes_evicted = reg.hard_bytes_evicted.wrapping_add(bytes);
    reg.admission_allowed = reg.admission_allowed.wrapping_add(adm_allowed);
    reg.admission_not_allowed = reg.admission_not_allowed.wrapping_add(adm_not_allowed);
}

/// Adds refresh statistics.
pub fn add_lifetime_stats(reg: &mut MetricsRegistry, updated: u64, errors: u64, scans: u64, miss: u64, hits: u64)
    ensures
        *final(reg) == (MetricsRegistry {
            refresh_updated: old(reg).refresh_updated.wrapping_add(updated),
            refresh_errors: old(reg).refresh_errors.wrapping_add(errors),
            refresh_scans: old(reg).refresh_scans.wrapping_add(scans),
            refresh_hits: old(reg).refresh_hits.wrapping_add(hits),
            refresh_miss: old(reg).refresh_miss.wrapping_add(miss),
            ..*old(reg)
        }),
{
    reg.refresh_updated = reg.refresh_updated.wrapping_add(updated);
    reg.refresh_errors = reg.refresh_errors.wrapping_add(errors);
    reg.refresh_scans = reg.refresh_scans.wrapping_add(scans);
    reg.refresh_hits = reg.refresh_hits.wrapping_add(hits);
    reg.refresh_miss = reg.refresh_miss.wrapping_add(miss);
}

/// Counts one response with the given status code; codes from 600 up are
/// not counted.
pub fn inc_status_code(reg: &mut MetricsRegistry, code: u16)
    requires
        old(reg).wf(),
    ensures
        final(reg).wf(),
        (code as int) < STATUS_CODE_SLOTS ==> *final(reg) == (MetricsRegistry {
            status_codes: final(reg).status_codes,
            ..*old(reg)
        }) && final(reg).status_codes@ == old(reg).status_codes@.update(
            code as int,
            old(reg).status_codes@[code as int].wrapping_add(1),
        ),
        (code as int) >= STATUS_CODE_SLOTS ==> *final(reg) == *old(reg),
{
    if (code as usize) < STATUS_CODE_SLOTS {
        let i = code as usize;
        let c = reg.status_codes[i];
        reg.status_codes.set(i, c.wrapping_add(1));
    }
}

/// The HELP and TYPE lines of a metric.
#[verifier::opaque]
pub open spec fn metric_header(name: Seq<char>, help: Seq<char>, kind: Seq<char>) -> Seq<char> {
    "# HELP "@ + name + " "@ + help + "\n"@ + "# TYPE "@ + name + " "@ + kind + "\n"@
}

/// The HELP and TYPE lines of a metric and its sample line.
#[verifier::opaque]
pub open spec fn metric_block(name: Seq<char>, help: Seq<char>, kind: Seq<char>, value: Seq<char>) -> Seq<char> {
    metric_header(name, help, kind) + name + " "@ + value + "\n"@
}

/// The sample line of one status code.
pub open spec fn status_line(code: nat, count: u64) -> Seq<char> {
    "resp_status_total{code=\""@ + decimal(code) + "\"} "@ + decimal(count as nat) + "\n"@
}

/// The sample lines of the codes below `n` that were counted at least once.
pub open spec fn status_lines(counts: Seq<u64>, n: nat) -> Seq<char>
    decreases n,
{
    if n == 0 {
        Seq::empty()
    } else {
        let c = (n - 1) as nat;
        status_lines(counts, c) + if counts[c as int] > 0 {
            status_line(c, counts[c as int])
        } else {
            Seq::empty()
        }
    }
}

/// The Prometheus text of the registry, with the given gauge texts and
/// process footprint.
pub open spec fn manual_metrics_text(m: MetricsRegistry, g: GaugeTexts, footprint: u64) -> Seq<char> {
        Seq::<char>::empty()
        + metric_block("cache_hits"@, "Total number of cache hits"@, "counter"@, decimal(m.cache_hits as nat))
        + metric_block("cache_misses"@, "Total number of cache misses"@, "counter"@, decimal(m.cache_misses as nat))
        + metric_block("total"@, "Total number of requests"@, "counter"@, decimal(m.total_requests as nat))
        + metric_block("errors"@, "Total number of errors"@, "counter"@, decimal(m.errored_requests as nat))
        + metric_block("proxies"@, "Total number of proxied requests"@, "counter"@, decimal(m.proxied_requests as nat))
        + metric_block("panics"@, "Total number of panics"@, "counter"@, decimal(m.panicked_requests as nat))
        + metric_block("rps"@, "Requests per second"@, "gauge"@, g.rps@)
        + metric_block("cache_memory_usage"@, "Cache logical memory usage in bytes (memory used by cache data structures)"@, "gauge"@, decimal(m.cache_memory_usage as nat))
        + metric_block("cache_length"@, "Number of items in cache"@, "gauge"@, decimal(m.cache_length as nat))
        + metric_block("avg_duration_ns"@, "Average total duration in nanoseconds"@, "gauge"@, g.avg_total@)
        + metric_block("avg_cache_duration_ns"@, "Average cache duration in nanoseconds"@, "gauge"@, g.avg_cache@)
        + metric_block("avg_proxy_duration_ns"@, "Average proxy duration in nanoseconds"@, "gauge"@, g.avg_proxy@)
        + metric_block("avg_error_duration_ns"@, "Average error duration in nanoseconds"@, "gauge"@, g.avg_error@)
        + metric_block("soft_evicted_total_items"@, "Total items evicted by soft eviction"@, "counter"@, decimal(m.soft_evictions as nat))
        + metric_block("soft_evicted_total_bytes"@, "Total bytes evicted by soft eviction"@, "counter"@, decimal(m.soft_bytes_evicted as nat))
        + metric_block("soft_evicted_total_scans"@, "Total scans for soft eviction"@, "counter"@, decimal(m.soft_scans as nat))
        + metric_block("hard_evicted_total_items"@, "Total items evicted by hard eviction"@, "counter"@, decimal(m.hard_evictions as nat))
        + metric_block("hard_evicted_total_bytes"@, "Total bytes evicted by hard eviction"@, "counter"@, decimal(m.hard_bytes_evicted as nat))
        + metric_block("admission_allowed"@, "Total items allowed by admission control"@, "counter"@, decimal(m.admission_allowed as nat))
        + metric_block("admission_not_allowed"@, "Total items not allowed by admission control"@, "counter"@, decimal(m.admission_not_allowed as nat))
        + metric_block("refresh_updated"@, "Total items updated by refresh"@, "counter"@, decimal(m.refresh_updated as nat))
        + metric_block("refresh_errors"@, "Total refresh errors"@, "counter"@, decimal(m.refresh_errors as nat))
        + metric_block("refresh_scans"@, "Total refresh scans"@, "counter"@, decimal(m.refresh_scans as nat))
        + metric_block("refresh_hits"@, "Total refresh hits"@, "counter"@, decimal(m.refresh_hits as nat))
        + metric_block("refresh_miss"@, "Total refresh misses"@, "counter"@, decimal(m.refresh_miss as nat))
        + metric_header("resp_status_total"@, "Total number of HTTP responses by status code"@, "counter"@)
        + status_lines(m.status_codes@, STATUS_CODE_SLOTS as nat)
        + metric_block("process_footprint_bytes"@, "Process memory footprint in bytes (cross-platform)"@, "gauge"@, decimal(footprint as nat))
}

/// `t` stands somewhere in `s`, as a run of consecutive characters.
pub open spec fn has_part(s: Seq<char>, t: Seq<char>) -> bool {
    exists|p: int| 0 <= p && p + t.len() <= s.len() && #[trigger] s.subrange(p, p + t.len()) == t
}

/// What stands in a text still stands there after more is appended.
proof fn lemma_parts_kept(s: Seq<char>, u: Seq<char>)
    ensures
        forall|t: Seq<char>| has_part(s, t) ==> #[trigger] has_part(s + u, t),
{
    assert forall|t: Seq<char>| has_part(s, t) implies #[trigger] has_part(s + u, t) by {
        let p = choose|p: int| 0 <= p && p + t.len() <= s.len() && #[trigger] s.subrange(p, p + t.len()) == t;
        assert((s + u).subrange(p, p + t.len()) =~= s.subrange(p, p + t.len()));
    }
}

/// What is appended stands at the end.
proof fn lemma_part_end(s: Seq<char>, t: Seq<char>)
    ensures
        has_part(s + t, t),
{
    assert((s + t).subrange(s.len() as int, (s.len() + t.len()) as int) =~= t);
}

/// A metric block holds its sample line: a line break, the name, a space,
/// the value and a line break.
proof fn lemma_block_line(s: Seq<char>, name: Seq<char>, help: Seq<char>, kind: Seq<char>, value: Seq<char>)
    requires
        has_part(s, metric_block(name, help, kind, value)),
    ensures
        has_part(s, "\n"@ + name + " "@ + value + "\n"@),
{
    reveal_strlit("\n");
    reveal(metric_block);
    reveal(metric_header);
    let b = metric_block(name, help, kind, value);
    let h = metric_header(name, help, kind);
    let line = "\n"@ + name + " "@ + value + "\n"@;
    let p = choose|p: int| 0 <= p && p + b.len() <= s.len() && #[trigger] s.subrange(p, p + b.len()) == b;
    assert(h.len() >= 1);
    assert(h[h.len() - 1] == '\n');
    let q = p + h.len() - 1;
    assert(b.len() == h.len() + name.len() + 1 + value.len() + 1) by {
        reveal_strlit(" ");
    }
    assert forall|j: int| 0 <= j < line.len() implies #[trigger] s.subrange(q, q + line.len())[j] == line[j] by {
        reveal_strlit(" ");
        assert(s.subrange(p, p + b.len())[h.len() - 1 + j] == b[h.len() - 1 + j]);
        assert(s[q + j] == b[h.len() - 1 + j]);
    }
    assert(s.subrange(q, q + line.len()) =~= line);
}

/// A status line of a counted code stands among the status lines.
proof fn lemma_status_part(counts: Seq<u64>, n: nat, c: nat)
    requires
        c < n,
        n <= counts.len(),
        counts[c as int] > 0,
    ensures
        has_part(status_lines(counts, n), status_line(c, counts[c as int])),
    decreases n,
{
    let k = (n - 1) as nat;
    let tail = if counts[k as int] > 0 {
        status_line(k, counts[k as int])
    } else {
        Seq::empty()
    };
    if c == k {
        lemma_part_end(status_lines(counts, k), tail);
    } else {
        lemma_status_part(counts, k, c);
        lemma_parts_kept(status_lines(counts, k), tail);
    }
}

/// What stands in the text before it stands in it with more appended, and
/// what stands in the appended part stands in the whole.
proof fn lemma_parts_kept_at(s: Seq<char>, u: Seq<char>, t: Seq<char>)
    requires
        has_part(u, t),
    ensures
        has_part(s + u, t),
{
    let p = choose|p: int| 0 <= p && p + t.len() <= u.len() && #[trigger] u.subrange(p, p + t.len()) == t;
    let q = s.len() + p;
    assert((s + u).subrange(q, q + t.len()) =~= u.subrange(p, p + t.len()));
}

/// A text is the start of every text made by appending to it.
proof fn lemma_prefix_add(a: Seq<char>, u: Seq<char>)
    ensures
        a.is_prefix_of(a + u),
{
    assert(a =~= (a + u).subrange(0, a.len() as int));
}

/// The start of a start is a start.
proof fn lemma_prefix_trans(a: Seq<char>, b: Seq<char>, c: Seq<char>)
    requires
        a.is_prefix_of(b),
        b.is_prefix_of(c),
    ensures
        a.is_prefix_of(c),
{
    assert(a =~= c.subrange(0, a.len() as int)) by {
        assert forall|j: int| 0 <= j < a.len() implies #[trigger] a[j] == c.subrange(0, a.len() as int)[j] by {
            assert(a[j] == b.subrange(0, a.len() as int)[j]);
            assert(b[j] == c.subrange(0, b.len() as int)[j]);
        }
    }
}

/// What stands in the start of a text stands in the text.
proof fn lemma_part_in_prefix(a: Seq<char>, c: Seq<char>, x: Seq<char>)
    requires
        has_part(a, x),
        a.is_prefix_of(c),
    ensures
        has_part(c, x),
{
    let p = choose|p: int| 0 <= p && p + x.len() <= a.len() && #[trigger] a.subrange(p, p + x.len()) == x;
    assert(c.subrange(p, p + x.len()) =~= a.subrange(p, p + x.len())) by {
        assert forall|j: int| 0 <= j < x.len() implies #[trigger] c.subrange(p, p + x.len())[j] == a.subrange(p, p + x.len())[j] by {
            assert(a[p + j] == c.subrange(0, a.len() as int)[p + j]);
        }
    }
}

/// Each metric of the text carries its own value: for every counter and
/// gauge, the text holds a line with the metric's name and the decimal
/// value of its own registry field (or its own gauge text); every status
/// code counted at least once has a line with its code and its count; and
/// the footprint line holds the footprint.
pub proof fn law_metric_lines(m: MetricsRegistry, g: GaugeTexts, footprint: u64)
    requires
        m.wf(),
    ensures
        has_part(manual_metrics_text(m, g, footprint), "\n"@ + "cache_hits"@ + " "@ + decimal(m.cache_hits as nat) + "\n"@),
        has_part(manual_metrics_text(m, g, footprint), "\n"@ + "cache_misses"@ + " "@ + decimal(m.cache_misses as nat) + "\n"@),
        has_part(manual_metrics_text(m, g, footprint), "\n"@ + "total"@ + " "@ + decimal(m.total_requests as nat) + "\n"@),
        has_part(manual_metrics_text(m, g, footprint), "\n"@ + "errors"@ + " "@ + decimal(m.errored_requests as nat) + "\n"@),
        has_part(manual_metrics_text(m, g, footprint), "\n"@ + "proxies"@ + " "@ + decimal(m.proxied_requests as nat) + "\n"@),
        has_part(manual_metrics_text(m, g, footprint), "\n"@ + "panics"@ + " "@ + decimal(m.panicked_requests as nat) + "\n"@),
        has_part(manual_metrics_text(m, g, footprint), "\n"@ + "rps"@ + " "@ + g.rps@ + "\n"@),
        has_part(manual_metrics_text(m, g, footprint), "\n"@ + "cache_memory_usage"@ + " "@ + decimal(m.cache_memory_usage as nat) + "\n"@),
        has_part(manual_metrics_text(m, g, footprint), "\n"@ + "cache_length"@ + " "@ + decimal(m.cache_length as nat) + "\n"@),
        has_part(manual_metrics_text(m, g, footprint), "\n"@ + "avg_duration_ns"@ + " "@ + g.avg_total@ + "\n"@),
        has_part(manual_metrics_text(m, g, footprint), "\n"@ + "avg_cache_duration_ns"@ + " "@ + g.avg_cache@ + "\n"@),
        has_part(manual_metrics_text(m, g, footprint), "\n"@ + "avg_proxy_duration_ns"@ + " "@ + g.avg_proxy@ + "\n"@),
        has_part(manual_metrics_text(m, g, footprint), "\n"@ + "avg_error_duration_ns"@ + " "@ + g.avg_error@ + "\n"@),
        has_part(manual_metrics_text(m, g, footprint), "\n"@ + "soft_evicted_total_items"@ + " "@ + decimal(m.soft_evictions as nat) + "\n"@),
        has_part(manual_metrics_text(m, g, footprint), "\n"@ + "soft_evicted_total_bytes"@ + " "@ + decimal(m.soft_bytes_evicted as nat) + "\n"@),
        has_part(manual_metrics_text(m, g, footprint), "\n"@ + "soft_evicted_total_scans"@ + " "@ + decimal(m.soft_scans as nat) + "\n"@),
        has_part(manual_metrics_text(m, g, footprint), "\n"@ + "hard_evicted_total_items"@ + " "@ + decimal(m.hard_evictions as nat) + "\n"@),
        has_part(manual_metrics_text(m, g, footprint), "\n"@ + "hard_evicted_total_bytes"@ + " "@ + decimal(m.hard_bytes_evicted as nat) + "\n"@),
        has_part(manual_metrics_text(m, g, footprint), "\n"@ + "admission_allowed"@ + " "@ + decimal(m.admission_allowed as nat) + "\n"@),
        has_part(manual_metrics_text(m, g, footprint), "\n"@ + "admission_not_allowed"@ + " "@ + decimal(m.admission_not_allowed as nat) + "\n"@),
        has_part(manual_metrics_text(m, g, footprint), "\n"@ + "refresh_updated"@ + " "@ + decimal(m.refresh_updated as nat) + "\n"@),
        has_part(manual_metrics_text(m, g, footprint), "\n"@ + "refresh_errors"@ + " "@ + decimal(m.refresh_errors as nat) + "\n"@),
        has_part(manual_metrics_text(m, g, footprint), "\n"@ + "refresh_scans"@ + " "@ + decimal(m.refresh_scans as nat) + "\n"@),
        has_part(manual_metrics_text(m, g, footprint), "\n"@ + "refresh_hits"@ + " "@ + decimal(m.refresh_hits as nat) + "\n"@),
        has_part(manual_metrics_text(m, g, footprint), "\n"@ + "refresh_miss"@ + " "@ + decimal(m.refresh_miss as nat) + "\n"@),
        has_part(manual_metrics_text(m, g, footprint), "\n"@ + "process_footprint_bytes"@ + " "@ + decimal(footprint as nat) + "\n"@),
        forall|c: nat|
            c < STATUS_CODE_SLOTS && #[trigger] m.status_codes@[c as int] > 0 ==> has_part(
                manual_metrics_text(m, g, footprint),
                "resp_status_total{code=\""@ + decimal(c) + "\"} "@ + decimal(m.status_codes@[c as int] as nat) + "\n"@,
            ),
{
    let t0 = Seq::<char>::empty();
    let b1 = metric_block("cache_hits"@, "Total number of cache hits"@, "counter"@, decimal(m.cache_hits as nat));
    let t1 = t0 + b1;
    let b2 = metric_block("cache_misses"@, "Total number of cache misses"@, "counter"@, decimal(m.cache_misses as nat));
    let t2 = t1 + b2;
    let b3 = metric_block("total"@, "Total number of requests"@, "counter"@, decimal(m.total_requests as nat));
    let t3 = t2 + b3;
    let b4 = metric_block("errors"@, "Total number of errors"@, "counter"@, decimal(m.errored_requests as nat));
    let t4 = t3 + b4;
    let b5 = metric_block("proxies"@, "Total number of proxied requests"@, "counter"@, decimal(m.proxied_requests as nat));
    let t5 = t4 + b5;
    let b6 = metric_block("panics"@, "Total number of panics"@, "counter"@, decimal(m.panicked_requests as nat));
    let t6 = t5 + b6;
    let b7 = metric_block("rps"@, "Requests per second"@, "gauge"@, g.rps@);
    let t7 = t6 + b7;
    let b8 = metric_block("cache_memory_usage"@, "Cache logical memory usage in bytes (memory used by cache data structures)"@, "gauge"@, decimal(m.cache_memory_usage as nat));
    let t8 = t7 + b8;
    let b9 = metric_block("cache_length"@, "Number of items in cache"@, "gauge"@, decimal(m.cache_length as nat));
    let t9 = t8 + b9;
    let b10 = metric_block("avg_duration_ns"@, "Average total duration in nanoseconds"@, "gauge"@, g.avg_total@);
    let t10 = t9 + b10;
    let b11 = metric_block("avg_cache_duration_ns"@, "Average cache duration in nanoseconds"@, "gauge"@, g.avg_cache@);
    let t11 = t10 + b11;
    let b12 = metric_block("avg_proxy_duration_ns"@, "Average proxy duration in nanoseconds"@, "gauge"@, g.avg_proxy@);
    let t12 = t11 + b12;
    let b13 = metric_block("avg_error_duration_ns"@, "Average error duration in nanoseconds"@, "gauge"@, g.avg_error@);
    let t13 = t12 + b13;
    let b14 = metric_block("soft_evicted_total_items"@, "Total items evicted by soft eviction"@, "counter"@, decimal(m.soft_evictions as nat));
    let t14 = t13 + b14;
    let b15 = metric_block("soft_evicted_total_bytes"@, "Total bytes evicted by soft eviction"@, "counter"@, decimal(m.soft_bytes_evicted as nat));
    let t15 = t14 + b15;
    let b16 = metric_block("soft_evicted_total_scans"@, "Total scans for soft eviction"@, "counter"@, decimal(m.soft_scans as nat));
    let t16 = t15 + b16;
    let b17 = metric_block("hard_evicted_total_items"@, "Total items evicted by hard eviction"@, "counter"@, decimal(m.hard_evictions as nat));
    let t17 = t16 + b17;
    let b18 = metric_block("hard_evicted_total_bytes"@, "Total bytes evicted by hard eviction"@, "counter"@, decimal(m.hard_bytes_evicted as nat));
    let t18 = t17 + b18;
    let b19 = metric_block("admission_allowed"@, "Total items allowed by admission control"@, "counter"@, decimal(m.admission_allowed as nat));
    let t19 = t18 + b19;
    let b20 = metric_block("admission_not_allowed"@, "Total items not allowed by admission control"@, "counter"@, decimal(m.admission_not_allowed as nat));
    let t20 = t19 + b20;
    let b21 = metric_block("refresh_updated"@, "Total items updated by refresh"@, "counter"@, decimal(m.refresh_updated as nat));
    let t21 = t20 + b21;
    let b22 = metric_block("refresh_errors"@, "Total refresh errors"@, "counter"@, decimal(m.refresh_errors as nat));
    let t22 = t21 + b22;
    let b23 = metric_block("refresh_scans"@, "Total refresh scans"@, "counter"@, decimal(m.refresh_scans as nat));
    let t23 = t22 + b23;
    let b24 = metric_block("refresh_hits"@, "Total refresh hits"@, "counter"@, decimal(m.refresh_hits as nat));
    let t24 = t23 + b24;
    let b25 = metric_block("refresh_miss"@, "Total refresh misses"@, "counter"@, decimal(m.refresh_miss as nat));
    let t25 = t24 + b25;
    let b26 = metric_header("resp_status_total"@, "Total number of HTTP responses by status code"@, "counter"@);
    let t26 = t25 + b26;
    let b27 = status_lines(m.status_codes@, STATUS_CODE_SLOTS as nat);
    let t27 = t26 + b27;
    let b28 = metric_block("process_footprint_bytes"@, "Process memory footprint in bytes (cross-platform)"@, "gauge"@, decimal(footprint as nat));
    let t28 = t27 + b28;
    assert(t28 == manual_metrics_text(m, g, footprint));
    assert(t28.is_prefix_of(t28));
    lemma_prefix_add(t27, b28);
    lemma_prefix_trans(t27, t28, t28);
    lemma_prefix_add(t26, b27);
    lemma_prefix_trans(t26, t27, t28);
    lemma_prefix_add(t25, b26);
    lemma_prefix_trans(t25, t26, t28);
    lemma_prefix_add(t24, b25);
    lemma_prefix_trans(t24, t25, t28);
    lemma_prefix_add(t23, b24);
    lemma_prefix_trans(t23, t24, t28);
    lemma_prefix_add(t22, b23);
    lemma_prefix_trans(t22, t23, t28);
    lemma_prefix_add(t21, b22);
    lemma_prefix_trans(t21, t22, t28);
    lemma_prefix_add(t20, b21);
    lemma_prefix_trans(t20, t21, t28);
    lemma_prefix_add(t19, b20);
    lemma_prefix_trans(t19, t20, t28);
    lemma_prefix_add(t18, b19);
    lemma_prefix_trans(t18, t19, t28);
    lemma_prefix_add(t17, b18);
    lemma_prefix_trans(t17, t18, t28);
    lemma_prefix_add(t16, b17);
    lemma_prefix_trans(t16, t17, t28);
    lemma_prefix_add(t15, b16);
    lemma_prefix_trans(t15, t16, t28);
    lemma_prefix_add(t14, b15);
    lemma_prefix_trans(t14, t15, t28);
    lemma_prefix_add(t13, b14);
    lemma_prefix_trans(t13, t14, t28);
    lemma_prefix_add(t12, b13);
    lemma_prefix_trans(t12, t13, t28);
    lemma_prefix_add(t11, b12);
    lemma_prefix_trans(t11, t12, t28);
    lemma_prefix_add(t10, b11);
    lemma_prefix_trans(t10, t11, t28);
    lemma_prefix_add(t9, b10);
    lemma_prefix_trans(t9, t10, t28);
    lemma_prefix_add(t8, b9);
    lemma_prefix_trans(t8, t9, t28);
    lemma_prefix_add(t7, b8);
    lemma_prefix_trans(t7, t8, t28);
    lemma_prefix_add(t6, b7);
    lemma_prefix_trans(t6, t7, t28);
    lemma_prefix_add(t5, b6);
    lemma_prefix_trans(t5, t6, t28);
    lemma_prefix_add(t4, b5);
    lemma_prefix_trans(t4, t5, t28);
    lemma_prefix_add(t3, b4);
    lemma_prefix_trans(t3, t4, t28);
    lemma_prefix_add(t2, b3);
    lemma_prefix_trans(t2, t3, t28);
    lemma_prefix_add(t1, b2);
    lemma_prefix_trans(t1, t2, t28);
    lemma_part_end(t0, b1);
    lemma_part_in_prefix(t1, t28, b1);
    lemma_block_line(t28, "cache_hits"@, "Total number of cache hits"@, "counter"@, decimal(m.cache_hits as nat));
    lemma_part_end(t1, b2);
    lemma_part_in_prefix(t2, t28, b2);
    lemma_block_line(t28, "cache_misses"@, "Total number of cache misses"@, "counter"@, decimal(m.cache_misses as nat));
    lemma_part_end(t2, b3);
    lemma_part_in_prefix(t3, t28, b3);
    lemma_block_line(t28, "total"@, "Total number of requests"@, "counter"@, decimal(m.total_requests as nat));
    lemma_part_end(t3, b4);
    lemma_part_in_prefix(t4, t28, b4);
    lemma_block_line(t28, "errors"@, "Total number of errors"@, "counter"@, decimal(m.errored_requests as nat));
    lemma_part_end(t4, b5);
    lemma_part_in_prefix(t5, t28, b5);
    lemma_block_line(t28, "proxies"@, "Total number of proxied requests"@, "counter"@, decimal(m.proxied_requests as nat));
    lemma_part_end(t5, b6);
    lemma_part_in_prefix(t6, t28, b6);
    lemma_block_line(t28, "panics"@, "Total number of panics"@, "counter"@, decimal(m.panicked_requests as nat));
    lemma_part_end(t6, b7);
    lemma_part_in_prefix(t7, t28, b7);
    lemma_block_line(t28, "rps"@, "Requests per second"@, "gauge"@, g.rps@);
    lemma_part_end(t7, b8);
    lemma_part_in_prefix(t8, t28, b8);
    lemma_block_line(t28, "cache_memory_usage"@, "Cache logical memory usage in bytes (memory used by cache data structures)"@, "gauge"@, decimal(m.cache_memory_usage as nat));
    lemma_part_end(t8, b9);
    lemma_part_in_prefix(t9, t28, b9);
    lemma_block_line(t28, "cache_length"@, "Number of items in cache"@, "gauge"@, decimal(m.cache_length as nat));
    lemma_part_end(t9, b10);
    lemma_part_in_prefix(t10, t28, b10);
    lemma_block_line(t28, "avg_duration_ns"@, "Average total duration in nanoseconds"@, "gauge"@, g.avg_total@);
    lemma_part_end(t10, b11);
    lemma_part_in_prefix(t11, t28, b11);
    lemma_block_line(t28, "avg_cache_duration_ns"@, "Average cache duration in nanoseconds"@, "gauge"@, g.avg_cache@);
    lemma_part_end(t11, b12);
    lemma_part_in_prefix(t12, t28, b12);
    lemma_block_line(t28, "avg_proxy_duration_ns"@, "Average proxy duration in nanoseconds"@, "gauge"@, g.avg_proxy@);
    lemma_part_end(t12, b13);
    lemma_part_in_prefix(t13, t28, b13);
    lemma_block_line(t28, "avg_error_duration_ns"@, "Average error duration in nanoseconds"@, "gauge"@, g.avg_error@);
    lemma_part_end(t13, b14);
    lemma_part_in_prefix(t14, t28, b14);
    lemma_block_line(t28, "soft_evicted_total_items"@, "Total items evicted by soft eviction"@, "counter"@, decimal(m.soft_evictions as nat));
    lemma_part_end(t14, b15);
    lemma_part_in_prefix(t15, t28, b15);
    lemma_block_line(t28, "soft_evicted_total_bytes"@, "Total bytes evicted by soft eviction"@, "counter"@, decimal(m.soft_bytes_evicted as nat));
    lemma_part_end(t15, b16);
    lemma_part_in_prefix(t16, t28, b16);
    lemma_block_line(t28, "soft_evicted_total_scans"@, "Total scans for soft eviction"@, "counter"@, decimal(m.soft_scans as nat));
    lemma_part_end(t16, b17);
    lemma_part_in_prefix(t17, t28, b17);
    lemma_block_line(t28, "hard_evicted_total_items"@, "Total items evicted by hard eviction"@, "counter"@, decimal(m.hard_evictions as nat));
    lemma_part_end(t17, b18);
    lemma_part_in_prefix(t18, t28, b18);
    lemma_block_line(t28, "hard_evicted_total_bytes"@, "Total bytes evicted by hard eviction"@, "counter"@, decimal(m.hard_bytes_evicted as nat));
    lemma_part_end(t18, b19);
    lemma_part_in_prefix(t19, t28, b19);
    lemma_block_line(t28, "admission_allowed"@, "Total items allowed by admission control"@, "counter"@, decimal(m.admission_allowed as nat));
    lemma_part_end(t19, b20);
    lemma_part_in_prefix(t20, t28, b20);
    lemma_block_line(t28, "admission_not_allowed"@, "Total items not allowed by admission control"@, "counter"@, decimal(m.admission_not_allowed as nat));
    lemma_part_end(t20, b21);
    lemma_part_in_prefix(t21, t28, b21);
    lemma_block_line(t28, "refresh_updated"@, "Total items updated by refresh"@, "counter"@, decimal(m.refresh_updated as nat));
    lemma_part_end(t21, b22);
    lemma_part_in_prefix(t22, t28, b22);
    lemma_block_line(t28, "refresh_errors"@, "Total refresh errors"@, "counter"@, decimal(m.refresh_errors as nat));
    lemma_part_end(t22, b23);
    lemma_part_in_prefix(t23, t28, b23);
    lemma_block_line(t28, "refresh_scans"@, "Total refresh scans"@, "counter"@, decimal(m.refresh_scans as nat));
    lemma_part_end(t23, b24);
    lemma_part_in_prefix(t24, t28, b24);
    lemma_block_line(t28, "refresh_hits"@, "Total refresh hits"@, "counter"@, decimal(m.refresh_hits as nat));
    lemma_part_end(t24, b25);
    lemma_part_in_prefix(t25, t28, b25);
    lemma_block_line(t28, "refresh_miss"@, "Total refresh misses"@, "counter"@, decimal(m.refresh_miss as nat));
    lemma_part_end(t27, b28);
    lemma_part_in_prefix(t28, t28, b28);
    lemma_block_line(t28, "process_footprint_bytes"@, "Process memory footprint in bytes (cross-platform)"@, "gauge"@, decimal(footprint as nat));
    assert forall|c: nat|
        c < STATUS_CODE_SLOTS && #[trigger] m.status_codes@[c as int] > 0 implies has_part(
            t28,
            "resp_status_total{code=\""@ + decimal(c) + "\"} "@ + decimal(m.status_codes@[c as int] as nat) + "\n"@,
        ) by {
        lemma_status_part(m.status_codes@, STATUS_CODE_SLOTS as nat, c);
        lemma_parts_kept_at(t26, b27, status_line(c, m.status_codes@[c as int]));
        lemma_part_in_prefix(t27, t28, status_line(c, m.status_codes@[c as int]));
    }
}

fn push_header(out: &mut Vec<char>, name: &str, help: &str, kind: &str)
    ensures
        final(out)@ == old(out)@ + metric_header(name@, help@, kind@),
{
    push_str(out, "# HELP ");
    push_str(out, name);
    push_str(out, " ");
    push_str(out, help);
    push_str(out, "\n");
    push_str(out, "# TYPE ");
    push_str(out, name);
    push_str(out, " ");
    push_str(out, kind);
    push_str(out, "\n");
    reveal(metric_header);
    assert(out@ =~= old(out)@ + metric_header(name@, help@, kind@));
}

fn push_number_block(out: &mut Vec<char>, name: &str, help: &str, kind: &str, value: u64)
    ensures
        final(out)@ == old(out)@ + metric_block(name@, help@, kind@, decimal(value as nat)),
{
    push_header(out, name, help, kind);
    push_str(out, name);
    push_str(out, " ");
    push_decimal(out, value);
    push_str(out, "\n");
    reveal(metric_block);
    assert(out@ =~= old(out)@ + metric_block(name@, help@, kind@, decimal(value as nat)));
}

fn push_text_block(out: &mut Vec<char>, name: &str, help: &str, kind: &str, value: &str)
    ensures
        final(out)@ == old(out)@ + metric_block(name@, help@, kind@, value@),
{
    push_header(out, name, help, kind);
    push_str(out, name);
    push_str(out, " ");
    push_str(out, value);
    push_str(out, "\n");
    reveal(metric_block);
    assert(out@ =~= old(out)@ + metric_block(name@, help@, kind@, value@));
}

fn push_status_lines(out: &mut Vec<char>, counts: &Vec<u64>)
    requires
        counts@.len() == STATUS_CODE_SLOTS,
    ensures
        final(out)@ == old(out)@ + status_lines(counts@, STATUS_CODE_SLOTS as nat),
{
    let mut code: usize = 0;
    while code < STATUS_CODE_SLOTS
        invariant
            code <= STATUS_CODE_SLOTS,
            counts@.len() == STATUS_CODE_SLOTS,
            out@ == old(out)@ + status_lines(counts@, code as nat),
        decreases STATUS_CODE_SLOTS - code,
    {
        let ghost prev = out@;
        let count = counts[code];
        if count > 0 {
            push_str(out, "resp_status_total{code=\"");
            push_decimal(out, code as u64);
            push_str(out, "\"} ");
            push_decimal(out, count);
            push_str(out, "\n");
            assert(out@ =~= prev + status_line(code as nat, count));
        } else {
            assert(out@ =~= prev + Seq::<char>::empty());
        }
        assert(status_lines(counts@, (code + 1) as nat) == status_lines(counts@, code as nat) + if counts@[code as int] > 0 {
            status_line(code as nat, counts@[code as int])
        } else {
            Seq::<char>::empty()
        });
        code = code + 1;
    }
}

/// Renders the registry as Prometheus text, with the given gauge texts and
/// process footprint in bytes.
pub fn render_manual_metrics(reg: &MetricsRegistry, gauges: &GaugeTexts, footprint: u64) -> (r: String)
    requires
        reg.wf(),
    ensures
        r@ == manual_metrics_text(*reg, *gauges, footprint),
{
    let mut out: Vec<char> = Vec::new();
    push_number_block(&mut out, "cache_hits", "Total number of cache hits", "counter", reg.cache_hits);
    push_number_block(&mut out, "cache_misses", "Total number of cache misses", "counter", reg.cache_misses);
    push_number_block(&mut out, "total", "Total number of requests", "counter", reg.total_requests);
    push_number_block(&mut out, "errors", "Total number of errors", "counter", reg.errored_requests);
    push_number_block(&mut out, "proxies", "Total number of proxied requests", "counter", reg.proxied_requests);
    push_number_block(&mut out, "panics", "Total number of panics", "counter", reg.panicked_requests);
    push_text_block(&mut out, "rps", "Requests per second", "gauge", gauges.rps.as_str());
    push_number_block(&mut out, "cache_memory_usage", "Cache logical memory usage in bytes (memory used by cache data structures)", "gauge", reg.cache_memory_usage);
    push_number_block(&mut out, "cache_length", "Number of items in cache", "gauge", reg.cache_length);
    push_text_block(&mut out, "avg_duration_ns", "Average total duration in nanoseconds", "gauge", gauges.avg_total.as_str());
    push_text_block(&mut out, "avg_cache_duration_ns", "Average cache duration in nanoseconds", "gauge", gauges.avg_cache.as_str());
    push_text_block(&mut out, "avg_proxy_duration_ns", "Average proxy duration in nanoseconds", "gauge", gauges.avg_proxy.as_str());
    push_text_block(&mut out, "avg_error_duration_ns", "Average error duration in nanoseconds", "gauge", gauges.avg_error.as_str());
    push_number_block(&mut out, "soft_evicted_total_items", "Total items evicted by soft eviction", "counter", reg.soft_evictions);
    push_number_block(&mut out, "soft_evicted_total_bytes", "Total bytes evicted by soft eviction", "counter", reg.soft_bytes_evicted);
    push_number_block(&mut out, "soft_evicted_total_scans", "Total scans for soft eviction", "counter", reg.soft_scans);
    push_number_block(&mut out, "hard_evicted_total_items", "Total items evicted by hard eviction", "counter", reg.hard_evictions);
    push_number_block(&mut out, "hard_evicted_total_bytes", "Total bytes evicted by hard eviction", "counter", reg.hard_bytes_evicted);
    push_number_block(&mut out, "admission_allowed", "Total items allowed by admission control", "counter", reg.admission_allowed);
    push_number_block(&mut out, "admission_not_allowed", "Total items not allowed by admission control", "counter", reg.admission_not_allowed);
    push_number_block(&mut out, "refresh_updated", "Total items updated by refresh", "counter", reg.refresh_updated);
    push_number_block(&mut out, "refresh_errors", "Total refresh errors", "counter", reg.refresh_errors);
    push_number_block(&mut out, "refresh_scans", "Total refresh scans", "counter", reg.refresh_scans);
    push_number_block(&mut out, "refresh_hits", "Total refresh hits", "counter", reg.refresh_hits);
    push_number_block(&mut out, "refresh_miss", "Total refresh misses", "counter", reg.refresh_miss);
    push_header(&mut out, "resp_status_total", "Total number of HTTP responses by status code", "counter");
    push_status_lines(&mut out, &reg.status_codes);
    push_number_block(&mut out, "process_footprint_bytes", "Process memory footprint in bytes (cross-platform)", "gauge", footprint);
    string_from_chars(out)
}

/// The process metrics text (ended by a newline where it is not) followed by
/// the cache metrics.
pub open spec fn full_metrics_text(process: Option<String>, m: MetricsRegistry, g: GaugeTexts, footprint: u64) -> Seq<char> {
    match process {
        Some(p) => if p@.len() > 0 && p@.last() == '\n' {
            p@ + manual_metrics_text(m, g, footprint)
        } else {
            p@ + "\n"@ + manual_metrics_text(m, g, footprint)
        },
        None => manual_metrics_text(m, g, footprint),
    }
}

/// Formats all metrics: the process metrics text, where there is one, then
/// the cache metrics.
pub fn metrics_text(process: Option<String>, reg: &MetricsRegistry, gauges: &GaugeTexts, footprint: u64) -> (r: String)
    requires
        reg.wf(),
    ensures
        r@ == full_metrics_text(process, *reg, *gauges, footprint),
{
    let mut out: Vec<char> = Vec::new();
    match &process {
        Some(p) => {
            push_str(&mut out, p.as_str());
            let n = out.len();
            if n == 0 || out[n - 1] != '\n' {
                push_str(&mut out, "\n");
            }
        },
        None => {},
    }
    let manual = render_manual_metrics(reg, gauges, footprint);
    push_str(&mut out, manual.as_str());
    string_from_chars(out)
}

} // verus!
