//! Result and statistics types returned by produce/fetch operations.

use crate::record::{copy_records, Record, RecordView};
use crate::units::Offset;
use vstd::prelude::*;

verus! {

/// The outcome of a successful produce (append) operation.
#[derive(Debug, Clone, Copy, PartialEq, Eq)]
pub struct ProduceResult {
    /// Offset assigned to the first appended record.
    pub base_offset: Offset,
    /// Offset assigned to the last appended record.
    pub last_offset: Offset,
    /// Number of records appended.
    pub count: usize,
    /// If retention pruned the head, the new earliest retained offset.
    pub truncated_to: Option<Offset>,
}

/// The outcome of a fetch (read) operation.
#[derive(Debug, PartialEq, Eq)]
pub struct FetchResult {
    /// The records read, in ascending offset order.
    pub records: Vec<Record>,
    /// The next offset a consumer should request to continue tailing.
    pub next_offset: Offset,
    /// The partition's current high-watermark (one past the last committed
    /// record).
    pub high_watermark: Offset,
}

/// What a fetch result holds.
#[verifier::ext_equal]
pub struct FetchResultView {
    pub records: Seq<RecordView>,
    pub next_offset: u64,
    pub high_watermark: u64,
}

impl View for FetchResult {
    type V = FetchResultView;

    open spec fn view(&self) -> FetchResultView {
        FetchResultView {
            records: crate::record::views(self.records@),
            next_offset: self.next_offset.0,
            high_watermark: self.high_watermark.0,
        }
    }
}

impl Clone for FetchResult {
    fn clone(&self) -> (r: FetchResult)
        ensures
            r@ == self@,
    {
        FetchResult {
            records: copy_records(&self.records),
            next_offset: self.next_offset,
            high_watermark: self.high_watermark,
        }
    }
}

impl FetchResult {
    /// An empty result positioned at `high_watermark`.
    pub fn empty(high_watermark: Offset) -> (r: FetchResult)
        ensures
            r@ == (FetchResultView {
                records: Seq::empty(),
                next_offset: high_watermark.0,
                high_watermark: high_watermark.0,
            }),
    {
        FetchResult { records: Vec::new(), next_offset: high_watermark, high_watermark }
    }
}

/// Per-partition statistics.
#[derive(Debug, Clone, Copy, PartialEq, Eq, Default, Structural)]
pub struct PartitionStats {
    /// Partition index.
    pub partition: u32,
    /// Earliest retained offset (advances as retention prunes segments).
    pub start_offset: u64,
    /// One past the last committed record.
    pub high_watermark: u64,
    /// Number of on-disk/in-memory segments.
    pub segments: u64,
}

/// Engine-wide statistics, aggregated across all topics and partitions.
#[derive(Debug, Clone, Copy, PartialEq, Eq, Default, Structural)]
pub struct LogStats {
    /// Number of topics.
    pub topics: u64,
    /// Total number of partitions across all topics.
    pub partitions: u64,
    /// Total committed records currently retained.
    pub records: u64,
    /// Total segments across all partitions.
    pub segments: u64,
    /// Cumulative records ever produced (including pruned ones).
    pub produced_total: u64,
    /// Cumulative records ever served via fetch.
    pub fetched_total: u64,
}

/// What is said of a fetch result is said of its records, each in its place, and
/// of its two offsets.
pub proof fn law_views_show_the_result(result: FetchResult)
    ensures
        result@.records.len() == result.records@.len(),
        forall|i: int|
            0 <= i < result@.records.len() ==> #[trigger] result@.records[i]
                == result.records@[i]@,
        result@.next_offset == result.next_offset.0,
        result@.high_watermark == result.high_watermark.0,
{
}

} // verus!
