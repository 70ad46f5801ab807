# advcache

An in-memory HTTP cache: a sharded map with LRU eviction, a Bloom-like
admission filter, cache-key selection from request headers and query
parameters, Prometheus metrics, on-disk dumps, and the decisions of its
control endpoints. The library in `src/` is written in Verus: every
function carries a contract that the verifier proves.

## Layout

- `src/lru.rs`, `src/shard.rs`, `src/map.rs`: the LRU order, one shard, and
  the sharded map with its length and byte counters.
- `src/door_keeper.rs`: the admission doorkeeper.
- `src/kv_sort.rs`, `src/header_filter.rs`, `src/query_filter.rs`: ordering
  of byte pairs and the selection of what a rule keeps in the cache key.
- `src/config.rs`: configuration sections and the fields derived after
  loading.
- `src/metrics.rs`, `src/meter.rs`: counters, gauges and their text form.
- `src/controllers.rs`, `src/clear.rs`, `src/invalidate.rs`,
  `src/request_stats.rs`, `src/liveness.rs`: what the control endpoints
  decide, and the per-request accounting and error handling of the cache
  handler (the handler's proxying is not part of the library).
- `src/dumper.rs`: dump settings, version directories, file names and the
  record format of shard files.
- `src/entry_codec.rs`: the byte form of a cached entry inside a record.
- `src/footprint.rs`: the process memory footprint from `/proc` texts.
- `src/last_updated_at.rs`, `src/text.rs`: dates and text helpers.
- `src/laws.rs`: properties that span several operations.
- `tests/`: tests of the library.
- `app/`: the service around the library: configuration loading, the HTTP
  endpoints, file I/O for dumps and `/proc`, and the floating-point gauges.
