//! The tunable pacing, batching, retry and expiry values of one run.
use vstd::prelude::*;

verus! {

/// Pacing, batching, retry and expiry settings shared by the whole pipeline.
pub struct SyncPolicy {
    /// Delay between successive device-page requests, in milliseconds.
    pub page_delay_ms: u64,
    /// Delay between successive radio-information requests, in milliseconds.
    pub chunk_delay_ms: u64,
    /// Largest number of device IDs in one radio-information request.
    pub chunk_size: usize,
    /// Largest number of retries after "too many requests" for one request.
    pub max_retries: u32,
    /// Wait used when a throttled response names no usable delay, in seconds.
    pub default_retry_after_secs: u64,
    /// Expiry set on each stored device record, in seconds.
    pub record_ttl_secs: u64,
    /// Result limit asked of the radio-information endpoint.
    pub radio_limit: u32,
}

impl SyncPolicy {
    /// The settings the provider's limits call for.
    pub fn standard() -> (r: SyncPolicy)
        ensures
            r.page_delay_ms == 800,
            r.chunk_delay_ms == 500,
            r.chunk_size == 10,
            r.max_retries == 5,
            r.default_retry_after_secs == 60,
            r.record_ttl_secs == 7200,
            r.radio_limit == 100,
    {
        SyncPolicy {
            page_delay_ms: 800,
            chunk_delay_ms: 500,
            chunk_size: 10,
            max_retries: 5,
            default_retry_after_secs: 60,
            record_ttl_secs: 7200,
            radio_limit: 100,
        }
    }
}

} // verus!
