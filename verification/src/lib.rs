use vstd::prelude::*;

pub mod text;
pub mod policy;
pub mod lru;
pub mod shard;
pub mod map;
pub mod door_keeper;
pub mod kv_sort;
pub mod config;
pub mod metrics;
pub mod meter;
pub mod controllers;
pub mod clear;
pub mod invalidate;
pub mod dumper;
pub mod request_stats;
pub mod laws;
pub mod liveness;
pub mod footprint;
pub mod header_filter;
pub mod query_filter;
pub mod last_updated_at;
pub mod render;
pub mod entry_codec;
