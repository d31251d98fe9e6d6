//! Scraper configuration and its validity rule.

use vstd::prelude::*;

verus! {

/// Why a configuration is refused.
#[derive(Debug, Clone, Copy, PartialEq, Eq, Structural)]
pub enum ConfigError {
    /// `concurrency_limit` is zero: no fetch could ever be admitted.
    ZeroConcurrency,
}

/// Settings shared, read-only, by every task of a batch.
#[derive(Debug, Clone, Copy)]
pub struct ScraperConfig {
    /// Most fetches that may be in flight at once; at least one.
    pub concurrency_limit: usize,
    /// Longest time one fetch attempt may take, in milliseconds.
    pub timeout_ms: u64,
    /// Most additional attempts after the first failure.
    pub max_retries: u32,
    /// Pause before each retried attempt, in milliseconds.
    pub retry_delay_ms: u64,
}

impl ScraperConfig {
    /// A configuration is valid when it admits at least one fetch at a time.
    pub open spec fn is_valid(self) -> bool {
        self.concurrency_limit >= 1
    }

    /// Checks the validity rule.
    pub fn validate(&self) -> (r: Result<(), ConfigError>)
        ensures
            r is Ok <==> self.is_valid(),
            r is Err ==> r == Err::<(), ConfigError>(ConfigError::ZeroConcurrency),
    {
        if self.concurrency_limit == 0 {
            Err(ConfigError::ZeroConcurrency)
        } else {
            Ok(())
        }
    }
}

impl Default for ScraperConfig {
    /// Ten fetches at once, thirty seconds per attempt, three retries, half a
    /// second between them.
    fn default() -> (c: Self)
        ensures
            c == (ScraperConfig {
                concurrency_limit: 10,
                timeout_ms: 30_000,
                max_retries: 3,
                retry_delay_ms: 500,
            }),
    {
        ScraperConfig { concurrency_limit: 10, timeout_ms: 30_000, max_retries: 3, retry_delay_ms: 500 }
    }
}

} // verus!
