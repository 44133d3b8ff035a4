//! Connector domain types: connector identity, kinds, delivery guarantees,
//! checkpoints, and dead-letter records.
//!
//! **Source** connectors poll an external system and append records to a topic;
//! **sink** connectors read committed records and deliver them outward, with
//! offset checkpointing for resumable restarts and a dead-letter queue for
//! records that repeatedly fail.

use crate::invalid::InvalidRecord;
use crate::record::copy_bytes;
use crate::timestamp::{Instant, Timestamp};
use crate::units;
use crate::units::{Offset, PartitionId, TopicName};
use vstd::prelude::*;
use vstd::string::*;

verus! {

/// Maximum length, in bytes, of a connector id.
pub const MAX_CONNECTOR_ID_LEN: usize = 128;

/// A validated, stable connector identifier.
#[derive(Debug, PartialEq, Eq, PartialOrd, Ord, Hash)]
pub struct ConnectorId(String);

impl View for ConnectorId {
    type V = Seq<char>;

    closed spec fn view(&self) -> Seq<char> {
        self.0@
    }
}

impl Clone for ConnectorId {
    fn clone(&self) -> (r: ConnectorId)
        ensures
            r == *self,
    {
        proof {
            use_type_invariant(self);
        }
        ConnectorId(self.0.clone())
    }
}

impl ConnectorId {
    #[verifier::type_invariant]
    spec fn well_formed(self) -> bool {
        units::name_problem(self@, MAX_CONNECTOR_ID_LEN as nat) is None
    }

    /// Create a connector id, validating length and charset
    /// (`[A-Za-z0-9._-]`, non-empty).
    pub fn new(raw: String) -> (r: Result<ConnectorId, InvalidRecord>)
        ensures
            match (r, units::name_problem(raw@, MAX_CONNECTOR_ID_LEN as nat)) {
                (Ok(id), None) => id@ == raw@,
                (Err(e), Some(problem)) => e == problem,
                _ => false,
            },
    {
        match units::check_name(raw.as_str(), MAX_CONNECTOR_ID_LEN) {
            Some(problem) => Err(problem),
            None => Ok(ConnectorId(raw)),
        }
    }

    /// The id as a string slice.
    pub fn as_str(&self) -> (r: &str)
        ensures
            r@ == self@,
            units::name_problem(self@, MAX_CONNECTOR_ID_LEN as nat) is None,
    {
        proof {
            use_type_invariant(self);
        }
        self.0.as_str()
    }

    /// The id as text.
    pub fn to_string(&self) -> (r: String)
        ensures
            r@ == self@,
    {
        self.0.clone()
    }
}

impl TryFrom<String> for ConnectorId {
    type Error = InvalidRecord;

    fn try_from(value: String) -> (r: Result<ConnectorId, InvalidRecord>)
        ensures
            match (r, units::name_problem(value@, MAX_CONNECTOR_ID_LEN as nat)) {
                (Ok(id), None) => id@ == value@,
                (Err(e), Some(problem)) => e == problem,
                _ => false,
            },
    {
        ConnectorId::new(value)
    }
}

impl vstd::std_specs::convert::TryFromSpecImpl<String> for ConnectorId {
    open spec fn obeys_try_from_spec() -> bool {
        false
    }

    open spec fn try_from_spec(v: String) -> Result<ConnectorId, InvalidRecord> {
        Err(InvalidRecord::EmptyTopicName)
    }
}

impl From<ConnectorId> for String {
    fn from(value: ConnectorId) -> (r: String)
        ensures
            r@ == value@,
    {
        value.0
    }
}

impl vstd::std_specs::convert::FromSpecImpl<ConnectorId> for String {
    open spec fn obeys_from_spec() -> bool {
        true
    }

    closed spec fn from_spec(v: ConnectorId) -> String {
        v.0
    }
}

/// Whether a connector reads from (`Source`) or writes to (`Sink`) an external
/// system.
#[derive(Debug, Clone, Copy, PartialEq, Eq, Structural)]
pub enum ConnectorKind {
    /// Polls an external system and appends records to a topic.
    Source,
    /// Reads committed records and delivers them outward.
    Sink,
}

impl ConnectorKind {
    /// The kind's label.
    pub open spec fn label(self) -> Seq<char> {
        match self {
            ConnectorKind::Source => "source"@,
            ConnectorKind::Sink => "sink"@,
        }
    }

    /// The kind's label.
    pub fn to_string(&self) -> (r: String)
        ensures
            r@ == self.label(),
    {
        match self {
            ConnectorKind::Source => "source".to_owned(),
            ConnectorKind::Sink => "sink".to_owned(),
        }
    }
}

/// The delivery guarantee a sink connector provides.
#[derive(Debug, Clone, Copy, PartialEq, Eq, Structural)]
pub enum DeliveryGuarantee {
    /// Records may be redelivered on failure but are never lost: the checkpoint
    /// advances only after a record is delivered or dead-lettered.
    AtLeastOnce,
    /// The checkpoint advances before delivery; a crash may drop in-flight
    /// records but never redelivers them.
    AtMostOnce,
}

impl Default for DeliveryGuarantee {
    fn default() -> (r: DeliveryGuarantee)
        ensures
            r == DeliveryGuarantee::AtLeastOnce,
    {
        DeliveryGuarantee::AtLeastOnce
    }
}

impl DeliveryGuarantee {
    /// The guarantee's label.
    pub open spec fn label(self) -> Seq<char> {
        match self {
            DeliveryGuarantee::AtLeastOnce => "at-least-once"@,
            DeliveryGuarantee::AtMostOnce => "at-most-once"@,
        }
    }

    /// The guarantee's label.
    pub fn to_string(&self) -> (r: String)
        ensures
            r@ == self.label(),
    {
        match self {
            DeliveryGuarantee::AtLeastOnce => "at-least-once".to_owned(),
            DeliveryGuarantee::AtMostOnce => "at-most-once".to_owned(),
        }
    }
}

/// A durable position: the **next** offset a connector should read for a
/// `(topic, partition)`.
#[derive(Debug, PartialEq, Eq)]
pub struct Checkpoint {
    /// Owning connector.
    pub connector: ConnectorId,
    /// Source topic.
    pub topic: TopicName,
    /// Source partition.
    pub partition: PartitionId,
    /// The next offset to consume (records below this are already handled).
    pub offset: Offset,
}

impl Clone for Checkpoint {
    fn clone(&self) -> (r: Checkpoint)
        ensures
            r == *self,
    {
        Checkpoint {
            connector: self.connector.clone(),
            topic: self.topic.clone(),
            partition: self.partition,
            offset: self.offset,
        }
    }
}

/// A record that could not be delivered and was routed to the dead-letter
/// queue.
#[derive(Debug, PartialEq, Eq)]
pub struct DeadLetterRecord {
    /// Connector that failed to deliver the record.
    pub connector: ConnectorId,
    /// Origin topic.
    pub topic: TopicName,
    /// Origin partition.
    pub partition: PartitionId,
    /// Origin offset.
    pub offset: Offset,
    /// The record payload.
    pub payload: Vec<u8>,
    /// Why delivery failed.
    pub reason: String,
    /// How many delivery attempts were made before giving up.
    pub attempts: u32,
    /// When the record was dead-lettered.
    pub failed_at: Timestamp,
}

/// What a dead-letter record holds.
#[verifier::ext_equal]
pub struct DeadLetterView {
    pub connector: Seq<char>,
    pub topic: Seq<char>,
    pub partition: u32,
    pub offset: u64,
    pub payload: Seq<u8>,
    pub reason: Seq<char>,
    pub attempts: u32,
    pub failed_at: Instant,
}

impl View for DeadLetterRecord {
    type V = DeadLetterView;

    open spec fn view(&self) -> DeadLetterView {
        DeadLetterView {
            connector: self.connector@,
            topic: self.topic@,
            partition: self.partition.0,
            offset: self.offset.0,
            payload: self.payload@,
            reason: self.reason@,
            attempts: self.attempts,
            failed_at: self.failed_at@,
        }
    }
}

impl Clone for DeadLetterRecord {
    fn clone(&self) -> (r: DeadLetterRecord)
        ensures
            r@ == self@,
    {
        DeadLetterRecord {
            connector: self.connector.clone(),
            topic: self.topic.clone(),
            partition: self.partition,
            offset: self.offset,
            payload: copy_bytes(&self.payload),
            reason: self.reason.clone(),
            attempts: self.attempts,
            failed_at: self.failed_at,
        }
    }
}

/// What the dead-letter records of a list hold.
pub open spec fn dead_letter_views(records: Seq<DeadLetterRecord>) -> Seq<DeadLetterView> {
    records.map_values(|r: DeadLetterRecord| r@)
}

/// A copy of a list of dead-letter records.
pub(crate) fn copy_dead_letters(records: &Vec<DeadLetterRecord>) -> (r: Vec<DeadLetterRecord>)
    ensures
        dead_letter_views(r@) == dead_letter_views(records@),
{
    let mut out: Vec<DeadLetterRecord> = Vec::new();
    let mut i: usize = 0;
    while i < records.len()
        invariant
            i <= records@.len(),
            out@.len() == i,
            forall|k: int| 0 <= k < i ==> (#[trigger] out@[k])@ == records@[k]@,
        decreases records.len() - i,
    {
        out.push(records[i].clone());
        i = i + 1;
    }
    assert(dead_letter_views(out@) =~= dead_letter_views(records@));
    out
}

/// The outcome of processing one batch through a sink runtime.
#[derive(Debug, Clone, Copy, PartialEq, Eq, Structural)]
pub struct DeliveryReport {
    /// Records read from the log this round.
    pub polled: u64,
    /// Records successfully delivered.
    pub delivered: u64,
    /// Records routed to the dead-letter queue after exhausting retries.
    pub dead_lettered: u64,
    /// The checkpoint (next offset) after this round.
    pub checkpoint: Offset,
}

impl Default for DeliveryReport {
    fn default() -> (r: DeliveryReport)
        ensures
            r == (DeliveryReport {
                polled: 0,
                delivered: 0,
                dead_lettered: 0,
                checkpoint: Offset(0),
            }),
    {
        DeliveryReport { polled: 0, delivered: 0, dead_lettered: 0, checkpoint: Offset(0) }
    }
}

/// A snapshot of a connector's health for observability/API.
#[derive(Debug, PartialEq, Eq)]
pub struct ConnectorStatus {
    /// Connector id.
    pub id: ConnectorId,
    /// Source or sink.
    pub kind: ConnectorKind,
    /// Delivery guarantee (sinks).
    pub guarantee: DeliveryGuarantee,
    /// Whether the connector is currently running.
    pub running: bool,
    /// Total records delivered (sink) or produced (source).
    pub processed: u64,
    /// Total records dead-lettered.
    pub dead_lettered: u64,
    /// The connector's current checkpoint offset.
    pub checkpoint: Offset,
}

impl Clone for ConnectorStatus {
    fn clone(&self) -> (r: ConnectorStatus)
        ensures
            r == *self,
    {
        ConnectorStatus {
            id: self.id.clone(),
            kind: self.kind,
            guarantee: self.guarantee,
            running: self.running,
            processed: self.processed,
            dead_lettered: self.dead_lettered,
            checkpoint: self.checkpoint,
        }
    }
}

/// What is said of a dead letter is said of all that it holds.
pub proof fn law_views_show_the_letter(letter: DeadLetterRecord)
    ensures
        letter@.connector == letter.connector@,
        letter@.topic == letter.topic@,
        letter@.partition == letter.partition.0,
        letter@.offset == letter.offset.0,
        letter@.payload == letter.payload@,
        letter@.reason == letter.reason@,
        letter@.attempts == letter.attempts,
        letter@.failed_at == letter.failed_at@,
{
}

/// What is said of a list of dead letters is said of each, in its place.
pub proof fn law_views_show_each_letter(letters: Seq<DeadLetterRecord>)
    ensures
        dead_letter_views(letters).len() == letters.len(),
        forall|i: int|
            0 <= i < letters.len() ==> #[trigger] dead_letter_views(letters)[i] == letters[i]@,
{
}

} // verus!
