//! What storage hands back to the engine.

use crate::record::{Record, RecordView};
use crate::units::Offset;
use std::sync::Arc;
use vstd::prelude::*;

verus! {

/// What a durable append returns: the materialized records (with assigned
/// offsets and timestamps) plus the new head offset if retention pruned data.
#[derive(Debug, Clone)]
pub struct AppendOutcome {
    /// The stored records, shared cheaply for bus fan-out.
    pub records: Arc<Vec<Record>>,
    /// If retention removed segments, the new earliest retained offset.
    pub truncated_to: Option<Offset>,
}

/// What an append outcome holds.
#[verifier::ext_equal]
pub struct AppendOutcomeView {
    pub records: Seq<RecordView>,
    pub truncated_to: Option<Offset>,
}

impl View for AppendOutcome {
    type V = AppendOutcomeView;

    open spec fn view(&self) -> AppendOutcomeView {
        AppendOutcomeView {
            records: crate::record::views((*self.records)@),
            truncated_to: self.truncated_to,
        }
    }
}

/// What is said of an outcome is said of its records, each in its place, and of
/// where retention has left the head.
pub proof fn law_views_show_the_outcome(outcome: AppendOutcome)
    ensures
        outcome@.records.len() == (*outcome.records)@.len(),
        forall|i: int|
            0 <= i < outcome@.records.len() ==> #[trigger] outcome@.records[i]
                == (*outcome.records)@[i]@,
        outcome@.truncated_to == outcome.truncated_to,
{
}

} // verus!
