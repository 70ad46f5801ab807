//! What the HTTP control endpoints decide: parameter checks, the answers
//! they give, and the one-time token that guards clearing the cache.

use crate::text::{decimal, push_decimal, push_str, string_from_chars, parse_usize, parse_u64};
use crate::text::{is_unsigned_text, unsigned_value};
use vstd::prelude::*;

verus! {

/// What the proxy does with requests while the upstream is unhealthy.
#[derive(Debug, Clone, Copy, PartialEq, Eq, Structural)]
pub enum BackendPolicy {
    /// Wait for the upstream.
    Await,
    /// Refuse the request.
    Deny,
}

/// The name of a backend policy.
pub open spec fn backend_policy_name(p: BackendPolicy) -> Seq<char> {
    match p {
        BackendPolicy::Await => "await"@,
        BackendPolicy::Deny => "deny"@,
    }
}

/// The answer that shows the current backend policy.
pub struct ShowBackendPolicy {
    pub current: String,
}

impl ShowBackendPolicy {
    /// Names the given policy.
    pub fn new(policy: BackendPolicy) -> (r: Self)
        ensures
            r.current@ == backend_policy_name(policy),
    {
        let current = match policy {
            BackendPolicy::Await => String::from_str("await"),
            BackendPolicy::Deny => String::from_str("deny"),
        };
        ShowBackendPolicy { current }
    }
}

/// Endpoints that switch the backend policy.
pub struct ChangeBackendPolicyController;

impl ChangeBackendPolicyController {
    /// The controller (it holds no state).
    pub fn new() -> (r: Self) {
        ChangeBackendPolicyController
    }
}

impl Default for ChangeBackendPolicyController {
    fn default() -> (r: Self)
        ensures
            r == ChangeBackendPolicyController,
    {
        Self::new()
    }
}

/// Endpoints that switch response compression.
pub struct HttpCompressionController;

impl HttpCompressionController {
    /// The controller (it holds no state).
    pub fn new() -> (r: Self) {
        HttpCompressionController
    }
}

impl Default for HttpCompressionController {
    fn default() -> (r: Self)
        ensures
            r == HttpCompressionController,
    {
        Self::new()
    }
}

/// The Prometheus metrics endpoint.
pub struct PrometheusMetricsController;

impl PrometheusMetricsController {
    /// The controller (it holds no state).
    pub fn new() -> (r: Self) {
        PrometheusMetricsController
    }
}

impl Default for PrometheusMetricsController {
    fn default() -> (r: Self)
        ensures
            r == PrometheusMetricsController,
    {
        Self::new()
    }
}

/// Endpoints that switch tracing.
pub struct TracesController;

impl TracesController {
    /// The controller (it holds no state).
    pub fn new() -> (r: Self) {
        TracesController
    }
}

impl Default for TracesController {
    fn default() -> (r: Self)
        ensures
            r == TracesController,
    {
        Self::new()
    }
}

/// Body of a successful liveness answer.
pub const SUCCESS_RESPONSE: &'static str = "{\n  \"status\": 200,\n  \"message\": \"I'm fine :D\"\n}";

/// Body of a failed liveness answer.
pub const FAILED_RESPONSE: &'static str = "{\n  \"status\": 503,\n  \"message\": \"I'm tired :(\"\n}";

/// Status code and body of the liveness answer.
pub fn probe_response(alive: bool) -> (r: (u16, &'static str))
    ensures
        r == (if alive { (200u16, SUCCESS_RESPONSE) } else { (503u16, FAILED_RESPONSE) }),
{
    if alive {
        (200, SUCCESS_RESPONSE)
    } else {
        (503, FAILED_RESPONSE)
    }
}

/// Something that answers whether the service is alive.
pub trait Prober {
    /// Whether every watched service is alive.
    fn is_alive(&self) -> bool;
}

/// The liveness endpoints.
pub struct LivenessProbeController<P: Prober> {
    probe: P,
}

impl<P: Prober> LivenessProbeController<P> {
    /// The controller over a probe.
    pub fn new(probe: P) -> (r: Self)
        ensures
            r.spec_probe() == probe,
    {
        LivenessProbeController { probe }
    }

    /// The probe that the controller asks.
    pub closed spec fn spec_probe(&self) -> P {
        self.probe
    }

    /// Asks the probe, and answers 200 with the success body when it is
    /// alive, else 503 with the failure body.
    pub fn probe(&self) -> (r: (u16, &'static str))
        ensures
            r == (200u16, SUCCESS_RESPONSE) || r == (503u16, FAILED_RESPONSE),
    {
        let alive = self.probe.is_alive();
        probe_response(alive)
    }
}

/// The endpoints that switch the cache off (bypass) and on.
pub struct BypassOnOffController {
    cache_enabled: bool,
}

impl BypassOnOffController {
    /// The controller over the cache's enabled flag.
    pub fn new(cache_enabled: bool) -> (r: Self)
        ensures
            r.cache_enabled() == cache_enabled,
    {
        BypassOnOffController { cache_enabled }
    }

    /// Whether the cache serves requests.
    pub closed spec fn cache_enabled(&self) -> bool {
        self.cache_enabled
    }

    /// Enables the cache; answers whether requests bypass it (no longer).
    pub fn on(&mut self) -> (r: bool)
        ensures
            final(self).cache_enabled(),
            r == !final(self).cache_enabled(),
    {
        self.cache_enabled = true;
        !self.cache_enabled
    }

    /// Disables the cache; answers whether requests bypass it (now they do).
    pub fn off(&mut self) -> (r: bool)
        ensures
            !final(self).cache_enabled(),
            r == !final(self).cache_enabled(),
    {
        self.cache_enabled = false;
        !self.cache_enabled
    }

    /// Whether requests bypass the cache: exactly while it is disabled.
    pub fn bypass_is(&self) -> (r: bool)
        ensures
            r == !self.cache_enabled(),
    {
        !self.cache_enabled
    }

    /// Whether the cache serves requests.
    pub fn is_enabled(&self) -> (r: bool)
        ensures
            r == self.cache_enabled(),
    {
        self.cache_enabled
    }
}

/// The endpoints that switch admission control; without an admission
/// section there is nothing to switch and it reads as inactive.
pub struct AdmissionController {
    is_enabled: Option<bool>,
}

impl AdmissionController {
    /// The controller over the admission switch (none without an admission
    /// section).
    pub fn new(is_enabled: Option<bool>) -> (r: Self)
        ensures
            r.switch() == is_enabled,
    {
        AdmissionController { is_enabled }
    }

    /// The admission switch.
    pub closed spec fn switch(&self) -> Option<bool> {
        self.is_enabled
    }

    /// Whether admission control is active.
    pub fn get(&self) -> (r: bool)
        ensures
            r == (self.switch() == Some(true)),
    {
        match self.is_enabled {
            Some(b) => b,
            None => false,
        }
    }

    /// Turns admission control on where there is a section; answers the
    /// state after.
    pub fn on(&mut self) -> (r: bool)
        ensures
            final(self).switch() == (if old(self).switch() is Some { Some(true) } else { None::<bool> }),
            r == (final(self).switch() == Some(true)),
    {
        if self.is_enabled.is_some() {
            self.is_enabled = Some(true);
        }
        self.get()
    }

    /// Turns admission control off where there is a section; answers the
    /// state after.
    pub fn off(&mut self) -> (r: bool)
        ensures
            final(self).switch() == (if old(self).switch() is Some { Some(false) } else { None::<bool> }),
            r == (final(self).switch() == Some(true)),
    {
        if self.is_enabled.is_some() {
            self.is_enabled = Some(false);
        }
        self.get()
    }
}

/// The lifetime policy endpoints: whether expired entries are removed or
/// refreshed (none without a lifetime section).
pub struct LifetimeManagerController {
    remove_on_ttl: Option<bool>,
}

impl LifetimeManagerController {
    /// The controller over the policy switch.
    pub fn new(remove_on_ttl: Option<bool>) -> (r: Self)
        ensures
            r.switch() == remove_on_ttl,
    {
        LifetimeManagerController { remove_on_ttl }
    }

    /// The policy switch.
    pub closed spec fn switch(&self) -> Option<bool> {
        self.remove_on_ttl
    }

    /// The name of the current policy.
    pub fn policy(&self) -> (r: &'static str)
        ensures
            r@ == (if self.switch() == Some(true) { "remove"@ } else { "refresh"@ }),
    {
        lifetime_policy_name(self.remove_on_ttl)
    }

    /// Switches to removing expired entries, where there is a section.
    pub fn to_remove_policy(&mut self) -> (r: &'static str)
        ensures
            final(self).switch() == (if old(self).switch() is Some { Some(true) } else { None::<bool> }),
            r@ == (if final(self).switch() == Some(true) { "remove"@ } else { "refresh"@ }),
    {
        if self.remove_on_ttl.is_some() {
            self.remove_on_ttl = Some(true);
        }
        self.policy()
    }

    /// Switches to refreshing expired entries, where there is a section.
    pub fn to_refresh_policy(&mut self) -> (r: &'static str)
        ensures
            final(self).switch() == (if old(self).switch() is Some { Some(false) } else { None::<bool> }),
            r@ == (if final(self).switch() == Some(true) { "remove"@ } else { "refresh"@ }),
    {
        if self.remove_on_ttl.is_some() {
            self.remove_on_ttl = Some(false);
        }
        self.policy()
    }
}

/// Why a numeric query parameter was refused.
#[derive(Debug, Clone, Copy, PartialEq, Eq, Structural)]
pub enum ParamError {
    /// The parameter is absent.
    Missing,
    /// The parameter is not an unsigned number that fits.
    Invalid,
    /// The parameter reads as zero without being written `0`.
    NotPositive,
}

/// The message that a refused parameter is answered with.
pub open spec fn param_error_text(e: ParamError, name: Seq<char>) -> Seq<char> {
    match e {
        ParamError::Missing => "missing '"@ + name + "' parameter"@,
        ParamError::Invalid => "invalid '"@ + name + "' parameter"@,
        ParamError::NotPositive => "'"@ + name + "' value must be positive"@,
    }
}

impl ParamError {
    /// The message for the parameter of the given name.
    pub fn message(&self, name: &str) -> (r: String)
        ensures
            r@ == param_error_text(*self, name@),
    {
        let mut out: Vec<char> = Vec::new();
        match self {
            ParamError::Missing => {
                push_str(&mut out, "missing '");
                push_str(&mut out, name);
                push_str(&mut out, "' parameter");
            },
            ParamError::Invalid => {
                push_str(&mut out, "invalid '");
                push_str(&mut out, name);
                push_str(&mut out, "' parameter");
            },
            ParamError::NotPositive => {
                push_str(&mut out, "'");
                push_str(&mut out, name);
                push_str(&mut out, "' value must be positive");
            },
        }
        string_from_chars(out)
    }
}

/// What a worker-count parameter reads as.
pub open spec fn count_param(to: Option<Seq<char>>) -> Result<usize, ParamError> {
    match to {
        None => Err(ParamError::Missing),
        Some(t) => if is_unsigned_text(t) && unsigned_value(t) <= usize::MAX {
            Ok(unsigned_value(t) as usize)
        } else {
            Err(ParamError::Invalid)
        },
    }
}

/// Reads a numeric parameter: refused where it is absent or not an unsigned
/// number that fits.
pub fn read_count_param(to: Option<&str>) -> (r: Result<usize, ParamError>)
    ensures
        r == count_param(
            match to {
                Some(t) => Some(t@),
                None => None,
            },
        ),
{
    match to {
        None => Err(ParamError::Missing),
        Some(t) => match parse_usize(t) {
            Some(n) => Ok(n),
            None => Err(ParamError::Invalid),
        },
    }
}

/// Reads the number of eviction workers to scale to; a value that reads as
/// zero but is not written `0` is refused.
pub fn eviction_scale_target(to: Option<&str>) -> (r: Result<usize, ParamError>)
    ensures
        match to {
            Some(t) => match count_param(Some(t@)) {
                Ok(n) => if n == 0 && t@ != "0"@ {
                    r == Err::<usize, ParamError>(ParamError::NotPositive)
                } else {
                    r == Ok::<usize, ParamError>(n)
                },
                Err(e) => r == Err::<usize, ParamError>(e),
            },
            None => r == Err::<usize, ParamError>(ParamError::Missing),
        },
{
    let n = match read_count_param(to) {
        Ok(n) => n,
        Err(e) => return Err(e),
    };
    if n == 0 {
        let t = to.unwrap();
        let zero = String::from_str("0");
        let written = String::from_str(t);
        if written != zero {
            return Err(ParamError::NotPositive);
        }
    }
    Ok(n)
}

/// The answer to a rate change.
pub fn rate_updated_message(rate: usize) -> (r: String)
    ensures
        r@ == "rate updated to "@ + decimal(rate as nat),
{
    let mut out: Vec<char> = Vec::new();
    push_str(&mut out, "rate updated to ");
    push_decimal(&mut out, rate as u64);
    string_from_chars(out)
}

/// The name of the lifetime policy: `remove` where entries are removed when
/// their time to live runs out, else (and without a lifetime section)
/// `refresh`.
pub fn lifetime_policy_name(remove_on_ttl: Option<bool>) -> (r: &'static str)
    ensures
        r@ == (if remove_on_ttl == Some(true) { "remove"@ } else { "refresh"@ }),
{
    match remove_on_ttl {
        Some(true) => "remove",
        _ => "refresh",
    }
}

/// Why an entry lookup by key was refused.
#[derive(Debug, Clone, Copy, PartialEq, Eq, Structural)]
pub enum EntryKeyError {
    /// No key was given (answered 404).
    Missing,
    /// The key is not an unsigned 64-bit number (answered 500).
    Invalid,
}

/// Reads the key of an entry lookup.
pub fn parse_entry_key(key: Option<&str>) -> (r: Result<u64, EntryKeyError>)
    ensures
        match key {
            None => r == Err::<u64, EntryKeyError>(EntryKeyError::Missing),
            Some(k) => if is_unsigned_text(k@) && unsigned_value(k@) <= u64::MAX {
                r == Ok::<u64, EntryKeyError>(unsigned_value(k@) as u64)
            } else {
                r == Err::<u64, EntryKeyError>(EntryKeyError::Invalid)
            },
        },
{
    match key {
        None => Err(EntryKeyError::Missing),
        Some(k) => match parse_u64(k) {
            Some(v) => Ok(v),
            None => Err(EntryKeyError::Invalid),
        },
    }
}

/// The status code of an entry lookup: 200 for an entry found, 404 for a
/// missing key or entry, 500 for a malformed key.
pub fn entry_lookup_status(key: Result<u64, EntryKeyError>, found: bool) -> (r: u16)
    ensures
        r == match key {
            Ok(_) => if found { 200u16 } else { 404u16 },
            Err(EntryKeyError::Missing) => 404u16,
            Err(EntryKeyError::Invalid) => 500u16,
        },
{
    match key {
        Ok(_) => if found { 200 } else { 404 },
        Err(EntryKeyError::Missing) => 404,
        Err(EntryKeyError::Invalid) => 500,
    }
}

} // verus!
