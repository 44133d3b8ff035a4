//! Dead-letter sinks: destinations for records a connector could not deliver.

use crate::connector;
use crate::connector::{copy_dead_letters, DeadLetterRecord, DeadLetterView};
use vstd::prelude::*;

verus! {

/// In-memory dead-letter queue that retains failed records for inspection.
#[derive(Debug)]
pub struct MemoryDeadLetterSink {
    records: Vec<DeadLetterRecord>,
}

impl View for MemoryDeadLetterSink {
    type V = Seq<DeadLetterView>;

    closed spec fn view(&self) -> Seq<DeadLetterView> {
        connector::dead_letter_views(self.records@)
    }
}

impl MemoryDeadLetterSink {
    /// Create an empty dead-letter queue.
    pub fn new() -> (r: MemoryDeadLetterSink)
        ensures
            r@ == Seq::<DeadLetterView>::empty(),
    {
        let r = MemoryDeadLetterSink { records: Vec::new() };
        assert(r@ =~= Seq::<DeadLetterView>::empty());
        r
    }

    /// A snapshot of all dead-lettered records, in the order they came.
    pub fn records(&self) -> (r: Vec<DeadLetterRecord>)
        ensures
            connector::dead_letter_views(r@) == self@,
    {
        copy_dead_letters(&self.records)
    }

    /// Number of dead-lettered records.
    pub fn len(&self) -> (r: usize)
        ensures
            r == self@.len(),
    {
        self.records.len()
    }

    /// Whether the queue is empty.
    pub fn is_empty(&self) -> (r: bool)
        ensures
            r == (self@.len() == 0),
    {
        self.records.len() == 0
    }

    /// Store a record that could not be delivered.
    pub fn dead_letter(&mut self, record: DeadLetterRecord)
        ensures
            final(self)@ == old(self)@.push(record@),
    {
        let ghost was = self@;
        self.records.push(record);
        assert(self@ =~= was.push(record@));
    }
}

} // verus!
