use vstd::prelude::*;

verus! {

/// Policy applied to an entry whose time to live has run out.
#[derive(Debug, Clone, Copy, PartialEq, Eq, Structural)]
pub enum Policy {
    /// Remove the entry.
    Remove,
    /// Refresh the entry from upstream.
    Refresh,
}

impl Policy {
    /// Picks the policy from the remove-on-ttl flag.
    pub fn new_lifetime_policy(is_remove_on_ttl: bool) -> (p: Policy)
        ensures
            p == (if is_remove_on_ttl { Policy::Remove } else { Policy::Refresh }),
    {
        if is_remove_on_ttl {
            Policy::Remove
        } else {
            Policy::Refresh
        }
    }

    /// The numeric value under which the policy is exported as a metric.
    pub fn to_u64(self) -> (n: u64)
        ensures
            n == (match self {
                Policy::Remove => 0u64,
                Policy::Refresh => 1u64,
            }),
    {
        match self {
            Policy::Remove => 0,
            Policy::Refresh => 1,
        }
    }
}

/// The metric value of a policy.
pub open spec fn policy_code(p: Policy) -> u64 {
    match p {
        Policy::Remove => 0u64,
        Policy::Refresh => 1u64,
    }
}

impl From<Policy> for u64 {
    fn from(policy: Policy) -> (r: u64) {
        policy.to_u64()
    }
}

impl vstd::std_specs::convert::FromSpecImpl<Policy> for u64 {
    open spec fn obeys_from_spec() -> bool {
        true
    }

    open spec fn from_spec(v: Policy) -> u64 {
        policy_code(v)
    }
}

} // verus!
