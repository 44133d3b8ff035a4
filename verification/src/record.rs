//! Records: the unit of data stored in and served from the log.

use crate::invalid::InvalidRecord;
use crate::timestamp::{Instant, Timestamp};
use crate::units::{Offset, MAX_PAYLOAD_BYTES};
use vstd::prelude::*;

verus! {

/// The text of an optional string.
pub open spec fn optional_text(s: Option<String>) -> Option<Seq<char>> {
    match s {
        Some(text) => Some(text@),
        None => None,
    }
}

/// A copy of an optional string.
pub(crate) fn copy_text(s: &Option<String>) -> (r: Option<String>)
    ensures
        r == *s,
{
    match s {
        Some(text) => Some(text.clone()),
        None => None,
    }
}

/// A copy of a payload.
pub(crate) fn copy_bytes(bytes: &Vec<u8>) -> (r: Vec<u8>)
    ensures
        r@ == bytes@,
{
    let r = bytes.clone();
    assert(r@ =~= bytes@);
    r
}

/// What is wrong with a payload.
pub open spec fn payload_problem(payload: Seq<u8>) -> Option<InvalidRecord> {
    if payload.len() == 0 {
        Some(InvalidRecord::EmptyPayload)
    } else if payload.len() > MAX_PAYLOAD_BYTES {
        Some(InvalidRecord::PayloadTooLarge(payload.len() as usize))
    } else {
        None
    }
}

/// A record as submitted by a producer, before an offset has been assigned.
///
/// The payload is treated as opaque bytes. An optional key drives partition
/// routing and log compaction.
#[derive(Debug, PartialEq, Eq)]
pub struct ProduceRecord {
    /// Optional routing/compaction key.
    pub key: Option<String>,
    /// Opaque record payload.
    pub payload: Vec<u8>,
}

/// What a submitted record holds.
#[verifier::ext_equal]
pub struct ProduceRecordView {
    pub key: Option<Seq<char>>,
    pub payload: Seq<u8>,
}

impl View for ProduceRecord {
    type V = ProduceRecordView;

    open spec fn view(&self) -> ProduceRecordView {
        ProduceRecordView { key: optional_text(self.key), payload: self.payload@ }
    }
}

impl Clone for ProduceRecord {
    fn clone(&self) -> (r: ProduceRecord)
        ensures
            r@ == self@,
    {
        ProduceRecord { key: copy_text(&self.key), payload: copy_bytes(&self.payload) }
    }
}

impl ProduceRecord {
    /// Construct and validate a producer record.
    pub fn new(key: Option<String>, payload: Vec<u8>) -> (r: Result<ProduceRecord, InvalidRecord>)
        ensures
            match (r, payload_problem(payload@)) {
                (Ok(record), None) => record.key == key && record.payload == payload,
                (Err(e), Some(problem)) => e == problem,
                _ => false,
            },
    {
        if payload.len() == 0 {
            return Err(InvalidRecord::EmptyPayload);
        }
        if payload.len() > MAX_PAYLOAD_BYTES {
            return Err(InvalidRecord::PayloadTooLarge(payload.len()));
        }
        Ok(ProduceRecord { key, payload })
    }

    /// Validate an already-constructed record.
    pub fn validate(&self) -> (r: Result<(), InvalidRecord>)
        ensures
            match (r, payload_problem(self@.payload)) {
                (Ok(_), None) => true,
                (Err(e), Some(problem)) => e == problem,
                _ => false,
            },
    {
        if self.payload.len() == 0 {
            return Err(InvalidRecord::EmptyPayload);
        }
        if self.payload.len() > MAX_PAYLOAD_BYTES {
            return Err(InvalidRecord::PayloadTooLarge(self.payload.len()));
        }
        Ok(())
    }
}

/// A durably stored record with its assigned offset and broker timestamp.
#[derive(Debug, PartialEq, Eq)]
pub struct Record {
    /// The dense, partition-local position of this record.
    pub offset: Offset,
    /// The broker-assigned append timestamp.
    pub timestamp: Timestamp,
    /// Optional routing/compaction key.
    pub key: Option<String>,
    /// Opaque record payload.
    pub payload: Vec<u8>,
}

/// What a stored record holds.
#[verifier::ext_equal]
pub struct RecordView {
    pub offset: u64,
    pub timestamp: Instant,
    pub key: Option<Seq<char>>,
    pub payload: Seq<u8>,
}

impl View for Record {
    type V = RecordView;

    open spec fn view(&self) -> RecordView {
        RecordView {
            offset: self.offset.0,
            timestamp: self.timestamp@,
            key: optional_text(self.key),
            payload: self.payload@,
        }
    }
}

impl Clone for Record {
    fn clone(&self) -> (r: Record)
        ensures
            r@ == self@,
    {
        Record {
            offset: self.offset,
            timestamp: self.timestamp,
            key: copy_text(&self.key),
            payload: copy_bytes(&self.payload),
        }
    }
}

/// The record that a submitted record becomes once it is stored.
pub open spec fn stored(record: ProduceRecordView, offset: u64, timestamp: Instant) -> RecordView {
    RecordView { offset, timestamp, key: record.key, payload: record.payload }
}

impl Record {
    /// Materialize a stored record from a producer record plus assigned
    /// metadata.
    pub fn from_produce(record: ProduceRecord, offset: Offset, timestamp: Timestamp) -> (r: Record)
        ensures
            r@ == stored(record@, offset.0, timestamp@),
            r.offset == offset,
            r.timestamp == timestamp,
            r.key == record.key,
            r.payload == record.payload,
    {
        Record { offset, timestamp, key: record.key, payload: record.payload }
    }

    /// The on-wire size of this record's payload in bytes.
    pub fn payload_len(&self) -> (r: usize)
        ensures
            r == self@.payload.len(),
    {
        self.payload.len()
    }
}

/// What the records of a list hold.
pub open spec fn views(records: Seq<Record>) -> Seq<RecordView> {
    records.map_values(|r: Record| r@)
}

/// What the submitted records of a list hold.
pub open spec fn produce_views(records: Seq<ProduceRecord>) -> Seq<ProduceRecordView> {
    records.map_values(|r: ProduceRecord| r@)
}

/// A copy of a list of records.
pub(crate) fn copy_records(records: &Vec<Record>) -> (r: Vec<Record>)
    ensures
        views(r@) == views(records@),
{
    let mut out: Vec<Record> = Vec::new();
    let mut i: usize = 0;
    while i < records.len()
        invariant
            i <= records@.len(),
            out@.len() == i,
            forall|k: int| 0 <= k < i ==> (#[trigger] out@[k])@ == records@[k]@,
        decreases records.len() - i,
    {
        out.push(records[i].clone());
        i = i + 1;
    }
    assert(views(out@) =~= views(records@));
    out
}

/// A payload is valid exactly if it holds a byte at least and a mebibyte at most;
/// one that is too large is told of with its size.
pub proof fn law_payloads_are_bounded(payload: Seq<u8>)
    ensures
        payload_problem(payload) is None <==> 0 < payload.len() <= 1_048_576,
        payload.len() == 0 ==> payload_problem(payload) == Some(InvalidRecord::EmptyPayload),
        1_048_576 < payload.len() <= usize::MAX ==> (
        payload_problem(payload) matches Some(InvalidRecord::PayloadTooLarge(n)) && n
            == payload.len()),
{
}

/// Storing a record assigns it an offset and a timestamp, and changes neither its
/// key nor its payload.
pub proof fn law_storing_keeps_the_record(r: ProduceRecordView, offset: u64, timestamp: Instant)
    ensures
        stored(r, offset, timestamp).key == r.key,
        stored(r, offset, timestamp).payload == r.payload,
        stored(r, offset, timestamp).offset == offset,
        stored(r, offset, timestamp).timestamp == timestamp,
{
}

/// What is said of records is said of all that they hold.
pub proof fn law_views_show_the_record(r: Record, submitted: ProduceRecord)
    ensures
        r@.offset == r.offset.0,
        r@.timestamp == r.timestamp@,
        r@.payload == r.payload@,
        r.key is None ==> r@.key is None,
        r.key matches Some(k) ==> r@.key == Some(k@),
        submitted@.payload == submitted.payload@,
        submitted.key is None ==> submitted@.key is None,
        submitted.key matches Some(k) ==> submitted@.key == Some(k@),
{
}

/// What is said of a list of records is said of each, in its place.
pub proof fn law_views_show_each_record(records: Seq<Record>, batch: Seq<ProduceRecord>)
    ensures
        views(records).len() == records.len(),
        forall|i: int| 0 <= i < records.len() ==> #[trigger] views(records)[i] == records[i]@,
        produce_views(batch).len() == batch.len(),
        forall|i: int| 0 <= i < batch.len() ==> #[trigger] produce_views(batch)[i] == batch[i]@,
{
}

} // verus!
