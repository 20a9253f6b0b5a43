//! The parameters of the token bucket, and the failure that a refused
//! request gets.

use vstd::prelude::*;
use crate::config::{RateLimitConfig, RouterConfig};
use crate::error::GatewayApiError;

verus! {

/// The size of a token bucket: how many requests it refills each second, and
/// how many it holds at most. Neither is zero.
#[derive(Debug, Clone, Copy, PartialEq, Eq, Structural)]
pub struct RateLimitQuota {
    pub per_second: u32,
    pub burst: u32,
    /// Whether each peer address gets a bucket of its own.
    pub per_ip: bool,
}

/// `n`, or one where `n` is zero.
pub open spec fn at_least_one(n: u32) -> u32 {
    if n == 0 {
        1
    } else {
        n
    }
}

/// The quota that a configured limit stands for: its rate and its burst, each
/// raised to one where it is zero.
pub open spec fn quota_of(limit: RateLimitConfig) -> RateLimitQuota {
    RateLimitQuota {
        per_second: at_least_one(limit.requests_per_second),
        burst: at_least_one(limit.burst_size),
        per_ip: limit.per_ip,
    }
}

/// The quota of the rate limiter that the configuration asks for; `None`
/// where it asks for none.
pub fn rate_limit_quota(config: &RouterConfig) -> (quota: Option<RateLimitQuota>)
    ensures
        quota == (match config.security.rate_limit {
            Some(limit) => Some(quota_of(limit)),
            None => None,
        }),
{
    match config.security.rate_limit {
        Some(limit) => {
            let per_second: u32 = if limit.requests_per_second == 0 {
                1
            } else {
                limit.requests_per_second
            };
            let burst: u32 = if limit.burst_size == 0 {
                1
            } else {
                limit.burst_size
            };
            Some(RateLimitQuota { per_second, burst, per_ip: limit.per_ip })
        },
        None => None,
    }
}

/// The key of the bucket that a request from `peer` draws on: the peer's
/// address where each address has a bucket of its own, else the one bucket of
/// the process, which has the empty key.
pub fn bucket_key(quota: &RateLimitQuota, peer: &str) -> (key: String)
    ensures
        key@ == if quota.per_ip {
            peer@
        } else {
            Seq::<char>::empty()
        },
{
    if quota.per_ip {
        peer.to_owned()
    } else {
        String::new()
    }
}

/// The failure that a request gets when the bucket has no token for it: a
/// client failure with status 429 and the identifier `rate_limited`.
pub fn rate_limited() -> (error: GatewayApiError)
    ensures
        error matches GatewayApiError::ClientError { status, error_type, .. } && status == 429
            && error_type@ == "rate_limited"@,
        error.status() == 429,
{
    GatewayApiError::client_error(429, "Rate limit exceeded", "rate_limited")
}

} // verus!
