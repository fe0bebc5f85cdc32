use vstd::prelude::*;

verus! {

/// Settings of one run, fixed at start.
pub struct LoadConfig {
    pub url: String,
    pub workers: usize,
    /// Each worker issues this many requests; the count is not divided among them.
    pub requests_per_worker: usize,
    pub max_connections: usize,
    pub max_streams: usize,
    pub wait_timeout_secs: u64,
}

} // verus!
