//! The retry/backoff policy for one logical request: what to do with each
//! response status the provider sends back.
use vstd::prelude::*;
use crate::decimal::{parse_u64, parse_u64_spec};
use crate::policy::SyncPolicy;

verus! {

/// The status with which the provider throttles a client.
pub const TOO_MANY_REQUESTS: u16 = 429;

/// Why a request to the provider failed.
#[derive(Debug, Clone, Copy, PartialEq, Eq, Structural)]
pub enum ApiError {
    /// Still throttled after every allowed retry.
    RateLimited,
    /// A status outside the success range, other than throttling.
    Status(u16),
}

/// What to do after a response has come back.
#[derive(Debug, Clone, Copy, PartialEq, Eq, Structural)]
pub enum RetryStep {
    /// The response succeeded: hand it on.
    Deliver,
    /// Sleep this many seconds, then send the same request again.
    RetryAfter(u64),
    /// Give up on the request.
    Fail(ApiError),
}

/// Whether a status is in the success range.
pub open spec fn is_success(status: u16) -> bool {
    200 <= status <= 299
}

/// The wait, in seconds, that a `Retry-After` header asks for, or the
/// default where it is absent or not a whole number of seconds.
pub open spec fn retry_after_spec(header: Option<Seq<char>>, default_secs: u64) -> u64 {
    match header {
        Some(h) => match parse_u64_spec(h) {
            Some(v) => v,
            None => default_secs,
        },
        None => default_secs,
    }
}

/// The decision for a response, given the retries already spent on the
/// request: the retries spent afterwards, and the step to take.
pub open spec fn retry_step(
    policy: SyncPolicy,
    retries: u32,
    status: u16,
    header: Option<Seq<char>>,
) -> (u32, RetryStep) {
    if is_success(status) {
        (retries, RetryStep::Deliver)
    } else if status == TOO_MANY_REQUESTS {
        if retries < policy.max_retries {
            (
                (retries + 1) as u32,
                RetryStep::RetryAfter(retry_after_spec(header, policy.default_retry_after_secs)),
            )
        } else {
            (retries, RetryStep::Fail(ApiError::RateLimited))
        }
    } else {
        (retries, RetryStep::Fail(ApiError::Status(status)))
    }
}

/// The wait a throttled response asks for, read from its `Retry-After`
/// header.
pub fn retry_after_secs(header: Option<&str>, default_secs: u64) -> (r: u64)
    ensures
        r == retry_after_spec(
            match header {
                Some(h) => Some(h@),
                None => None,
            },
            default_secs,
        ),
{
    match header {
        Some(h) => match parse_u64(h) {
            Some(v) => v,
            None => default_secs,
        },
        None => default_secs,
    }
}

/// The retries spent so far on one logical request.
pub struct RetryState {
    pub retries: u32,
}

impl RetryState {
    /// The state of a request not yet sent.
    pub fn new() -> (r: RetryState)
        ensures
            r.retries == 0,
    {
        RetryState { retries: 0 }
    }

    /// Decides what follows a response with `status` whose `Retry-After`
    /// header reads `retry_after`.
    pub fn on_response(&mut self, policy: &SyncPolicy, status: u16, retry_after: Option<&str>) -> (r:
        RetryStep)
        ensures
            (final(self).retries, r) == retry_step(
                *policy,
                old(self).retries,
                status,
                match retry_after {
                    Some(h) => Some(h@),
                    None => None,
                },
            ),
    {
        if 200 <= status && status <= 299 {
            RetryStep::Deliver
        } else if status == TOO_MANY_REQUESTS {
            if self.retries < policy.max_retries {
                self.retries = self.retries + 1;
                RetryStep::RetryAfter(retry_after_secs(retry_after, policy.default_retry_after_secs))
            } else {
                RetryStep::Fail(ApiError::RateLimited)
            }
        } else {
            RetryStep::Fail(ApiError::Status(status))
        }
    }
}

/// Throttled responses are retried, each after the wait the response asks
/// for, while fewer than the allowed number of retries have been spent; the
/// next one fails the request with the rate-limit error and asks for no
/// further attempt. Success is handed on, and any other status fails at
/// once with that status, without a retry. With five retries allowed, the
/// sixth throttled response in a row is the one that fails: six requests are
/// sent in all.
pub proof fn lemma_throttle_bound(policy: SyncPolicy, header: Option<Seq<char>>)
    ensures
        forall|k: u32|
            k < policy.max_retries ==> #[trigger] retry_step(policy, k, TOO_MANY_REQUESTS, header)
                == (
                (k + 1) as u32,
                RetryStep::RetryAfter(retry_after_spec(header, policy.default_retry_after_secs)),
            ),
        retry_step(policy, policy.max_retries, TOO_MANY_REQUESTS, header).1 == RetryStep::Fail(
            ApiError::RateLimited,
        ),
        forall|k: u32, s: u16|
            !is_success(s) && s != TOO_MANY_REQUESTS ==> #[trigger] retry_step(policy, k, s, header)
                == (k, RetryStep::Fail(ApiError::Status(s))),
        forall|k: u32, s: u16|
            is_success(s) ==> #[trigger] retry_step(policy, k, s, header) == (k, RetryStep::Deliver),
{
}

} // verus!
