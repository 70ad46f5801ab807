//! Per-window request accounting of the cache handler: what each request
//! adds, and the window that the periodic reporter takes and resets.

use crate::text::parse_usize;
use crate::text::{is_unsigned_text, unsigned_value};
use vstd::prelude::*;

verus! {

/// Which way a request was served.
#[derive(Debug, Clone, Copy, PartialEq, Eq, Structural)]
pub enum PathKind {
    /// Through the cache.
    Cache,
    /// Straight to the upstream.
    Proxy,
}

/// Counts and summed durations (nanoseconds) of the requests of one
/// reporting window. Sums wrap around as the atomic counters they stand
/// for do.
#[derive(Debug, Clone, Copy, PartialEq, Eq, Structural)]
pub struct RequestStats {
    pub total: i64,
    pub hits: i64,
    pub misses: i64,
    pub proxied: i64,
    pub errored: i64,
    pub duration: i64,
    pub cache_duration: i64,
    pub proxy_duration: i64,
    pub error_duration: i64,
}

impl RequestStats {
    /// Every count is zero.
    pub open spec fn is_zero(&self) -> bool {
        &&& self.total == 0
        &&& self.hits == 0
        &&& self.misses == 0
        &&& self.proxied == 0
        &&& self.errored == 0
        &&& self.duration == 0
        &&& self.cache_duration == 0
        &&& self.proxy_duration == 0
        &&& self.error_duration == 0
    }

    /// An empty window.
    pub fn new() -> (r: Self)
        ensures
            r.is_zero(),
    {
        RequestStats { total: 0, hits: 0, misses: 0, proxied: 0, errored: 0, duration: 0, cache_duration: 0, proxy_duration: 0, error_duration: 0 }
    }

    /// Counts a request that came in.
    pub fn on_request(&mut self)
        ensures
            *final(self) == (RequestStats { total: old(self).total.wrapping_add(1), ..*old(self) }),
    {
        self.total = self.total.wrapping_add(1);
    }

    /// Counts a request answered from the cache.
    pub fn on_hit(&mut self)
        ensures
            *final(self) == (RequestStats { hits: old(self).hits.wrapping_add(1), ..*old(self) }),
    {
        self.hits = self.hits.wrapping_add(1);
    }

    /// Counts a request that the cache did not hold.
    pub fn on_miss(&mut self)
        ensures
            *final(self) == (RequestStats { misses: old(self).misses.wrapping_add(1), ..*old(self) }),
    {
        self.misses = self.misses.wrapping_add(1);
    }

    /// Counts a request sent straight to the upstream.
    pub fn on_proxied(&mut self)
        ensures
            *final(self) == (RequestStats { proxied: old(self).proxied.wrapping_add(1), ..*old(self) }),
    {
        self.proxied = self.proxied.wrapping_add(1);
    }

    /// Counts a failed request and its duration.
    pub fn on_error(&mut self, elapsed: i64)
        ensures
            *final(self) == (RequestStats {
                errored: old(self).errored.wrapping_add(1),
                duration: old(self).duration.wrapping_add(elapsed),
                error_duration: old(self).error_duration.wrapping_add(elapsed),
                ..*old(self)
            }),
    {
        self.duration = self.duration.wrapping_add(elapsed);
        self.error_duration = self.error_duration.wrapping_add(elapsed);
        self.errored = self.errored.wrapping_add(1);
    }

    /// Adds the duration of an answered request, to the total and to the
    /// way it was served.
    pub fn on_response(&mut self, kind: PathKind, elapsed: i64)
        ensures
            *final(self) == match kind {
                PathKind::Cache => RequestStats {
                    duration: old(self).duration.wrapping_add(elapsed),
                    cache_duration: old(self).cache_duration.wrapping_add(elapsed),
                    ..*old(self)
                },
                PathKind::Proxy => RequestStats {
                    duration: old(self).duration.wrapping_add(elapsed),
                    proxy_duration: old(self).proxy_duration.wrapping_add(elapsed),
                    ..*old(self)
                },
            },
    {
        self.duration = self.duration.wrapping_add(elapsed);
        match kind {
            PathKind::Cache => {
                self.cache_duration = self.cache_duration.wrapping_add(elapsed);
            },
            PathKind::Proxy => {
                self.proxy_duration = self.proxy_duration.wrapping_add(elapsed);
            },
        }
    }

    /// Takes the window's counts and starts an empty one.
    pub fn take(&mut self) -> (r: RequestStats)
        ensures
            r == *old(self),
            final(self).is_zero(),
    {
        let r = *self;
        *self = RequestStats::new();
        r
    }
}

/// The way a request is served first: through the cache while it is
/// enabled, else straight to the upstream.
pub fn first_path(cache_enabled: bool) -> (r: PathKind)
    ensures
        r == (if cache_enabled { PathKind::Cache } else { PathKind::Proxy }),
{
    if cache_enabled {
        PathKind::Cache
    } else {
        PathKind::Proxy
    }
}

/// Status code of a request that failed on its way.
pub const FAILED_REQUEST_STATUS: u16 = 503;

/// The response size that a `content-length` value gives: its number where
/// it reads as one, else zero.
pub fn response_size(content_length: Option<&str>) -> (r: usize)
    ensures
        r == match content_length {
            Some(s) => if is_unsigned_text(s@) && unsigned_value(s@) <= usize::MAX {
                unsigned_value(s@) as usize
            } else {
                0
            },
            None => 0,
        },
{
    match content_length {
        Some(s) => match parse_usize(s) {
            Some(n) => n,
            None => 0,
        },
        None => 0,
    }
}

#[verifier::external_type_specification]
#[verifier::external_body]
pub struct ExAnyhowError(anyhow::Error);

/// Why serving a request through the cache failed.
pub enum CacheError {
    /// The request has no cache rule (or the cached answer could not be
    /// written): serve it straight from the upstream instead.
    NeedRetryThroughProxy,
    /// Any other failure, answered with 503.
    Other(anyhow::Error),
}

impl CacheError {
    /// Whether the request is retried straight against the upstream.
    pub fn needs_proxy(&self) -> (r: bool)
        ensures
            r == (*self is NeedRetryThroughProxy),
    {
        match self {
            CacheError::NeedRetryThroughProxy => true,
            CacheError::Other(_) => false,
        }
    }
}

} // verus!
