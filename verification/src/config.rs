//! Engine configuration.

use crate::topic::RetentionPolicy;
use vstd::prelude::*;

verus! {

/// Tunable limits and policies for a [`crate::engine::LogEngine`].
#[derive(Debug, Clone, Copy, PartialEq, Eq, Structural)]
pub struct LogConfig {
    /// Maximum number of topics the broker will host.
    pub max_topics: usize,
    /// Default partition count when a topic is created without one.
    pub default_partitions: u32,
    /// Default retention/segmentation policy for new topics.
    pub default_retention: RetentionPolicy,
    /// Sustained produce rate (records/sec) enforced by the token bucket.
    pub produce_rate_per_sec: u64,
    /// Burst capacity of the produce token bucket (records).
    pub produce_burst: u64,
    /// Maximum records returned by a single fetch.
    pub fetch_max_records: usize,
    /// Per-attempt timeout applied to each storage operation, in milliseconds.
    pub storage_timeout: u64,
}

impl Default for LogConfig {
    fn default() -> (r: LogConfig)
        ensures
            r == (LogConfig {
                max_topics: 1024,
                default_partitions: 3,
                default_retention: RetentionPolicy {
                    segment_max_records: 1024,
                    max_records: 1_000_000,
                },
                produce_rate_per_sec: 1_000_000,
                produce_burst: 100_000,
                fetch_max_records: 1024,
                storage_timeout: 5000,
            }),
    {
        LogConfig {
            max_topics: 1024,
            default_partitions: 3,
            default_retention: RetentionPolicy::default(),
            produce_rate_per_sec: 1_000_000,
            produce_burst: 100_000,
            fetch_max_records: 1024,
            storage_timeout: 5000,
        }
    }
}

} // verus!
