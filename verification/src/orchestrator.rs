//! The concurrency limit of batch generation.

use vstd::prelude::*;

verus! {

/// Runs batches of requests with at most `max_concurrency` in flight; zero
/// means no limit.
#[derive(Debug, Clone, Copy)]
pub struct LMOrchestrator {
    /// The most requests in flight; zero for no limit.
    pub max_concurrency: usize,
    /// The permits of the semaphore that bounds the requests in flight;
    /// none when unlimited.
    pub semaphore: Option<usize>,
}

impl LMOrchestrator {
    /// An orchestrator with the given limit: a semaphore of that many
    /// permits, or none for zero.
    pub fn new(max_concurrency: usize) -> (r: LMOrchestrator)
        ensures
            r.max_concurrency == max_concurrency,
            r.semaphore == (if max_concurrency > 0 {
                Some(max_concurrency)
            } else {
                None
            }),
    {
        let semaphore = if max_concurrency > 0 { Some(max_concurrency) } else { None };
        LMOrchestrator { max_concurrency, semaphore }
    }

    /// The configured limit.
    pub fn max_concurrency(&self) -> (r: usize)
        ensures
            r == self.max_concurrency,
    {
        self.max_concurrency
    }
}

impl Default for LMOrchestrator {
    /// At most 32 requests in flight.
    fn default() -> (r: LMOrchestrator)
        ensures
            r.max_concurrency == 32,
            r.semaphore == Some(32usize),
    {
        LMOrchestrator::new(32)
    }
}

} // verus!
