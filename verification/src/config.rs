//! Configuration sections that the cache logic reads, and the steps that
//! derive their runtime fields after loading.

use std::time::Duration;
use vstd::prelude::*;
use vstd::utf8::encode_utf8;

verus! {

/// Environment name of a production deployment.
pub const PROD: &'static str = "prod";

/// Environment name of a development deployment.
pub const DEV: &'static str = "dev";

/// Environment name of a debugging deployment.
pub const DEBUG: &'static str = "debug";

/// Environment name of a test deployment.
pub const TEST: &'static str = "test";

/// Storage mode that keeps a full LRU list per shard.
pub const LISTING_MODE: &'static str = "listing";

/// When traces are recorded.
#[derive(Debug, Clone, Copy, PartialEq, Eq, Structural)]
pub enum SamplingMode {
    /// Never record.
    Off,
    /// Record all.
    Always,
    /// Record a ratio of the traces.
    Ratio,
}

/// What happens to an entry whose time to live has run out.
#[derive(Debug, Clone, Copy, PartialEq, Eq, Structural)]
pub enum TTLMode {
    /// Remove the entry.
    Remove,
    /// Refresh the entry.
    Refresh,
}

/// Admission control settings.
#[derive(Debug, Clone)]
pub struct Admission {
    pub enabled: bool,
    /// Runtime switch, initialised from `enabled`.
    pub is_enabled: bool,
    pub capacity: Option<usize>,
    pub shards: Option<usize>,
    pub min_table_len_per_shard: Option<usize>,
    pub sample_multiplier: Option<usize>,
    pub door_bits_per_counter: Option<usize>,
}

/// HTTP API settings.
#[derive(Debug, Clone)]
pub struct Api {
    pub name: Option<String>,
    pub port: Option<String>,
}

/// Runtime settings.
#[derive(Debug, Clone)]
pub struct Runtime {
    pub num_cpus: usize,
}

/// Metrics settings.
#[derive(Debug, Clone)]
pub struct Metrics {
    pub enabled: bool,
}

/// Log settings.
#[derive(Debug, Clone)]
pub struct Logs {
    pub level: Option<String>,
}

/// One upstream backend, with the byte forms of its strings.
#[derive(Debug, Clone)]
pub struct Backend {
    pub id: Option<String>,
    pub id_bytes: Option<Vec<u8>>,
    pub enabled: bool,
    pub policy: Option<String>,
    pub scheme: Option<String>,
    pub scheme_bytes: Option<Vec<u8>>,
    pub host: Option<String>,
    pub host_bytes: Option<Vec<u8>>,
    pub rate: Option<usize>,
    pub concurrency: Option<usize>,
    pub timeout: Option<Duration>,
    pub max_timeout: Option<Duration>,
    pub use_max_timeout_header: Option<String>,
    pub use_max_timeout_header_bytes: Option<Vec<u8>>,
    pub healthcheck: Option<String>,
    pub healthcheck_bytes: Option<Vec<u8>>,
    pub addr: Option<String>,
    pub health_path: Option<String>,
}

/// A cluster of backends.
#[derive(Debug, Clone)]
pub struct Cluster {
    pub backends: Option<Vec<Backend>>,
}

/// Upstream settings: a cluster or a single backend.
#[derive(Debug, Clone)]
pub struct Upstream {
    pub policy: Option<String>,
    pub cluster: Option<Cluster>,
    pub backend: Option<Backend>,
}

/// Dump (persistence) settings.
#[derive(Debug, Clone)]
pub struct Dump {
    pub enabled: bool,
    pub dir: Option<String>,
    pub name: Option<String>,
    pub max_versions: Option<usize>,
    pub gzip: bool,
    pub crc32_control: bool,
}

/// Mock data settings.
#[derive(Debug, Clone)]
pub struct Mock {
    pub enabled: bool,
    pub length: Option<usize>,
}

/// Data settings.
#[derive(Debug, Clone)]
pub struct Data {
    pub dump: Option<Dump>,
    pub mock: Option<Mock>,
}

/// Storage settings and the memory limits derived from them.
#[derive(Debug, Clone)]
pub struct Storage {
    pub mode: Option<String>,
    pub is_listing: bool,
    pub size: i64,
    pub soft_memory_limit: i64,
    pub hard_memory_limit: i64,
    pub admission_memory_limit: i64,
}

/// Response compression settings.
#[derive(Debug, Clone)]
pub struct Compression {
    pub enabled: bool,
    pub level: Option<i32>,
}

/// What a rule takes from a request into the cache key.
#[derive(Debug, Clone)]
pub struct RuleKey {
    /// Query parameters kept in the key.
    pub query: Option<Vec<String>>,
    /// The byte forms of `query`.
    pub query_bytes: Option<Vec<Vec<u8>>>,
    /// Request headers kept in the key.
    pub headers: Option<Vec<String>>,
    /// Lower-cased header name and the name's bytes as written, per header.
    pub headers_map: Option<Vec<(String, Vec<u8>)>>,
}

/// What a rule keeps of a response.
#[derive(Debug, Clone)]
pub struct RuleValue {
    pub headers: Option<Vec<String>>,
}

/// Caching rule of one path.
#[derive(Debug, Clone)]
pub struct Rule {
    pub path: Option<String>,
    pub path_bytes: Option<Vec<u8>>,
    pub cache_key: RuleKey,
    pub cache_value: RuleValue,
}

/// Lower-case form of a string as `str::to_lowercase` computes it.
pub uninterp spec fn lowercase(s: Seq<char>) -> Seq<char>;

/// Calls `str::to_lowercase`; the result is named, not described.
#[verifier::external_body]
pub(crate) fn to_lowercase(s: &str) -> (r: String)
    ensures
        r@ == lowercase(s@),
{
    s.to_lowercase()
}

/// The UTF-8 bytes of a string.
pub(crate) fn string_bytes(s: &String) -> (r: Vec<u8>)
    ensures
        r@ == encode_utf8(s@),
{
    vstd::slice::slice_to_vec(s.as_str().as_bytes())
}

/// Whether a storage mode names the listing mode.
pub fn is_listing_mode(mode: &Option<String>) -> (r: bool)
    ensures
        r == (match mode {
            Some(m) => m@ == LISTING_MODE@,
            None => false,
        }),
{
    match mode {
        Some(m) => {
            let listing = String::from_str(LISTING_MODE);
            *m == listing
        },
        None => false,
    }
}

/// Derives the byte forms of a rule key's query names and the lower-cased
/// header name table.
pub fn process_rule_key(key: &mut RuleKey)
    ensures
        final(key).query == old(key).query,
        final(key).headers == old(key).headers,
        match old(key).query {
            Some(q) => final(key).query_bytes matches Some(qb) && qb@.len() == q@.len() && forall|i: int|
                0 <= i < q@.len() ==> (#[trigger] qb@[i])@ == encode_utf8(q@[i]@),
            None => final(key).query_bytes == old(key).query_bytes,
        },
        match old(key).headers {
            Some(h) => final(key).headers_map matches Some(hm) && hm@.len() == h@.len() && forall|i: int|
                0 <= i < h@.len() ==> (#[trigger] hm@[i]).0@ == lowercase(h@[i]@) && hm@[i].1@ == encode_utf8(h@[i]@),
            None => final(key).headers_map == old(key).headers_map,
        },
{
    match &key.query {
        Some(queries) => {
            let mut qb: Vec<Vec<u8>> = Vec::new();
            let mut i: usize = 0;
            while i < queries.len()
                invariant
                    i <= queries@.len(),
                    qb@.len() == i,
                    forall|j: int| 0 <= j < i ==> (#[trigger] qb@[j])@ == encode_utf8(queries@[j]@),
                decreases queries@.len() - i,
            {
                qb.push(string_bytes(&queries[i]));
                i = i + 1;
            }
            key.query_bytes = Some(qb);
        },
        None => {},
    }
    match &key.headers {
        Some(headers) => {
            let mut hm: Vec<(String, Vec<u8>)> = Vec::new();
            let mut i: usize = 0;
            while i < headers.len()
                invariant
                    i <= headers@.len(),
                    hm@.len() == i,
                    forall|j: int| 0 <= j < i ==> (#[trigger] hm@[j]).0@ == lowercase(headers@[j]@) && hm@[j].1@ == encode_utf8(headers@[j]@),
                decreases headers@.len() - i,
            {
                let lower = to_lowercase(headers[i].as_str());
                hm.push((lower, string_bytes(&headers[i])));
                i = i + 1;
            }
            key.headers_map = Some(hm);
        },
        None => {},
    }
}

/// Why a loaded configuration was refused.
#[derive(Debug, Clone, Copy, PartialEq, Eq, Structural)]
pub enum ConfigError {
    /// The upstream section names neither a cluster nor a backend.
    NoBackendConfigured,
    /// The lifetime section has no `on_ttl` mode.
    InvalidTtlMode,
}

impl ConfigError {
    /// The message that the error is reported with.
    pub fn message(&self) -> (r: String)
        ensures
            r@ == (match self {
                ConfigError::NoBackendConfigured => "no backend configured"@,
                ConfigError::InvalidTtlMode => "invalid lifetime.OnTTLMode configured"@,
            }),
    {
        match self {
            ConfigError::NoBackendConfigured => String::from_str("no backend configured"),
            ConfigError::InvalidTtlMode => String::from_str("invalid lifetime.OnTTLMode configured"),
        }
    }
}

/// `derived` is the byte form of `source` where `source` is set, and
/// `previous` where it is not.
pub open spec fn derived_bytes(source: Option<String>, previous: Option<Vec<u8>>, derived: Option<Vec<u8>>) -> bool {
    match source {
        Some(s) => derived matches Some(b) && b@ == encode_utf8(s@),
        None => derived == previous,
    }
}

/// `after` is `before` with the byte forms of its strings filled in.
pub open spec fn backend_processed(before: Backend, after: Backend) -> bool {
    &&& after.id == before.id
    &&& after.enabled == before.enabled
    &&& after.policy == before.policy
    &&& after.scheme == before.scheme
    &&& after.host == before.host
    &&& after.rate == before.rate
    &&& after.concurrency == before.concurrency
    &&& after.timeout == before.timeout
    &&& after.max_timeout == before.max_timeout
    &&& after.use_max_timeout_header == before.use_max_timeout_header
    &&& after.healthcheck == before.healthcheck
    &&& after.addr == before.addr
    &&& after.health_path == before.health_path
    &&& derived_bytes(before.id, before.id_bytes, after.id_bytes)
    &&& derived_bytes(before.scheme, before.scheme_bytes, after.scheme_bytes)
    &&& derived_bytes(before.host, before.host_bytes, after.host_bytes)
    &&& derived_bytes(before.use_max_timeout_header, before.use_max_timeout_header_bytes, after.use_max_timeout_header_bytes)
    &&& derived_bytes(before.healthcheck, before.healthcheck_bytes, after.healthcheck_bytes)
}

fn fill_bytes(source: &Option<String>, target: &mut Option<Vec<u8>>)
    ensures
        derived_bytes(*source, *old(target), *final(target)),
{
    match source {
        Some(s) => {
            *target = Some(string_bytes(s));
        },
        None => {},
    }
}

/// Fills in the byte forms of a backend's id, scheme, host, timeout header
/// name and health-check path.
pub fn process_backend(backend: &mut Backend)
    ensures
        backend_processed(*old(backend), *final(backend)),
{
    fill_bytes(&backend.id, &mut backend.id_bytes);
    fill_bytes(&backend.scheme, &mut backend.scheme_bytes);
    fill_bytes(&backend.host, &mut backend.host_bytes);
    fill_bytes(&backend.use_max_timeout_header, &mut backend.use_max_timeout_header_bytes);
    fill_bytes(&backend.healthcheck, &mut backend.healthcheck_bytes);
}

/// Processes every backend of a list, in place.
pub fn process_backends(backends: &mut Vec<Backend>)
    ensures
        final(backends)@.len() == old(backends)@.len(),
        forall|i: int| 0 <= i < old(backends)@.len() ==> backend_processed(#[trigger] old(backends)@[i], final(backends)@[i]),
{
    let mut rest: Vec<Backend> = Vec::new();
    std::mem::swap(&mut rest, backends);
    let ghost orig = rest@;
    let mut done: Vec<Backend> = Vec::new();
    while rest.len() > 0
        invariant
            done@.len() + rest@.len() == orig.len(),
            rest@ == orig.subrange(done@.len() as int, orig.len() as int),
            forall|i: int| 0 <= i < done@.len() ==> backend_processed(#[trigger] orig[i], done@[i]),
        decreases rest@.len(),
    {
        let mut b = rest.remove(0);
        process_backend(&mut b);
        done.push(b);
    }
    *backends = done;
}

/// Fills in the byte forms of the configured backends: those of the cluster
/// where there is one, else the single backend. Refuses an upstream section
/// with neither.
pub fn process_upstream(upstream: &mut Upstream) -> (r: Result<(), ConfigError>)
    ensures
        r is Err <==> (old(upstream).cluster is None && old(upstream).backend is None),
        r is Err ==> r == Err::<(), ConfigError>(ConfigError::NoBackendConfigured) && *final(upstream) == *old(upstream),
        final(upstream).policy == old(upstream).policy,
        match old(upstream).cluster {
            Some(c) => {
                &&& final(upstream).backend == old(upstream).backend
                &&& final(upstream).cluster matches Some(fc)
                &&& match c.backends {
                    Some(bs) => {
                        &&& fc.backends matches Some(fbs)
                        &&& fbs@.len() == bs@.len()
                        &&& forall|i: int| 0 <= i < bs@.len() ==> backend_processed(#[trigger] bs@[i], fbs@[i])
                    },
                    None => fc.backends is None,
                }
            },
            None => match old(upstream).backend {
                Some(b) => {
                    &&& final(upstream).cluster is None
                    &&& final(upstream).backend matches Some(fb)
                    &&& backend_processed(b, fb)
                },
                None => true,
            },
        },
{
    if upstream.cluster.is_some() {
        let mut cluster = upstream.cluster.take().unwrap();
        let mut list = cluster.backends.take();
        match list {
            Some(ref mut bs) => process_backends(bs),
            None => {},
        }
        cluster.backends = list;
        upstream.cluster = Some(cluster);
        Ok(())
    } else if upstream.backend.is_some() {
        let mut b = upstream.backend.take().unwrap();
        process_backend(&mut b);
        upstream.backend = Some(b);
        Ok(())
    } else {
        Err(ConfigError::NoBackendConfigured)
    }
}

/// Whether entries are removed (rather than refreshed) when their time to
/// live runs out; a lifetime section without a mode is refused.
pub fn remove_on_ttl(on_ttl: Option<TTLMode>) -> (r: Result<bool, ConfigError>)
    ensures
        match on_ttl {
            Some(m) => r == Ok::<bool, ConfigError>(m == TTLMode::Remove),
            None => r == Err::<bool, ConfigError>(ConfigError::InvalidTtlMode),
        },
{
    match on_ttl {
        Some(TTLMode::Remove) => Ok(true),
        Some(TTLMode::Refresh) => Ok(false),
        None => Err(ConfigError::InvalidTtlMode),
    }
}

} // verus!
