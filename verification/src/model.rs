//! Input and output objects that map the domain onto the API.

use crate::connector::{
    Checkpoint, ConnectorKind, ConnectorStatus, DeadLetterRecord, DeliveryGuarantee,
    DeliveryReport,
};
use crate::event::{LogEvent, LogEventView};
use crate::record::{Record, RecordView};
use crate::stats::{FetchResult, FetchResultView, LogStats, ProduceResult};
use crate::text;
use crate::timestamp::{Instant, Timestamp};
use crate::topic::TopicConfig;
use vstd::prelude::*;
use vstd::std_specs::convert::{FromSpec, FromSpecImpl};
use vstd::string::*;

verus! {

/// The low 32 bits of a number, which is how the API tells counts.
pub open spec fn low32(n: int) -> u32 {
    (n % 0x1_0000_0000) as u32
}

fn to_u32(n: u64) -> (r: u32)
    ensures
        r == low32(n as int),
{
    (n % 0x1_0000_0000) as u32
}

/// A record as returned to clients. Payloads are surfaced as UTF-8 strings.
#[derive(Debug, Clone)]
pub struct RecordObject {
    /// Partition-local offset.
    pub offset: u64,
    /// Broker append timestamp.
    pub timestamp: Timestamp,
    /// Optional routing/compaction key.
    pub key: Option<String>,
    /// Payload decoded as a UTF-8 string (lossy for non-UTF-8 bytes).
    pub payload: String,
}

/// What a record object holds.
#[verifier::ext_equal]
pub struct RecordObjectView {
    pub offset: u64,
    pub timestamp: Instant,
    pub key: Option<Seq<char>>,
    pub payload: Seq<char>,
}

impl View for RecordObject {
    type V = RecordObjectView;

    open spec fn view(&self) -> RecordObjectView {
        RecordObjectView {
            offset: self.offset,
            timestamp: self.timestamp@,
            key: crate::record::optional_text(self.key),
            payload: self.payload@,
        }
    }
}

/// A record as clients see it.
pub open spec fn shown(r: RecordView) -> RecordObjectView {
    RecordObjectView {
        offset: r.offset,
        timestamp: r.timestamp,
        key: r.key,
        payload: text::text_of(r.payload),
    }
}

impl From<Record> for RecordObject {
    fn from(r: Record) -> (o: RecordObject)
        ensures
            o@ == shown(r@),
    {
        RecordObject {
            offset: r.offset.0,
            timestamp: r.timestamp,
            key: r.key,
            payload: text::utf8_lossy(r.payload.as_slice()),
        }
    }
}

impl FromSpecImpl<Record> for RecordObject {
    open spec fn obeys_from_spec() -> bool {
        false
    }

    open spec fn from_spec(v: Record) -> RecordObject {
        arbitrary()
    }
}

/// A topic's configuration.
#[derive(Debug, Clone)]
pub struct TopicObject {
    /// Topic name.
    pub name: String,
    /// Partition count.
    pub partitions: u32,
    /// Segment roll size (records).
    pub segment_max_records: u64,
    /// Retention bound (records; 0 = unbounded).
    pub max_records: u64,
}

impl TopicObject {
    /// Whether the object tells of the configuration.
    pub open spec fn tells(self, c: TopicConfig) -> bool {
        &&& self.name@ == c.name@
        &&& self.partitions == c.partitions
        &&& self.segment_max_records == c.retention.segment_max_records
        &&& self.max_records == c.retention.max_records
    }
}

impl From<TopicConfig> for TopicObject {
    fn from(c: TopicConfig) -> (o: TopicObject)
        ensures
            o.tells(c),
    {
        TopicObject {
            name: c.name.to_string(),
            partitions: c.partitions,
            segment_max_records: c.retention.segment_max_records,
            max_records: c.retention.max_records,
        }
    }
}

impl FromSpecImpl<TopicConfig> for TopicObject {
    open spec fn obeys_from_spec() -> bool {
        false
    }

    open spec fn from_spec(v: TopicConfig) -> TopicObject {
        arbitrary()
    }
}

/// The result of a produce mutation.
#[derive(Debug, Clone, Copy)]
pub struct ProduceResultObject {
    /// Offset of the first appended record.
    pub base_offset: u64,
    /// Offset of the last appended record.
    pub last_offset: u64,
    /// Number of records appended.
    pub count: u32,
    /// New earliest retained offset if retention pruned data.
    pub truncated_to: Option<u64>,
}

impl From<ProduceResult> for ProduceResultObject {
    fn from(r: ProduceResult) -> (o: ProduceResultObject) {
        ProduceResultObject {
            base_offset: r.base_offset.0,
            last_offset: r.last_offset.0,
            count: to_u32(r.count as u64),
            truncated_to: match r.truncated_to {
                Some(start) => Some(start.0),
                None => None,
            },
        }
    }
}

impl FromSpecImpl<ProduceResult> for ProduceResultObject {
    open spec fn obeys_from_spec() -> bool {
        true
    }

    open spec fn from_spec(v: ProduceResult) -> ProduceResultObject {
        ProduceResultObject {
            base_offset: v.base_offset.0,
            last_offset: v.last_offset.0,
            count: low32(v.count as int),
            truncated_to: match v.truncated_to {
                Some(start) => Some(start.0),
                None => None,
            },
        }
    }
}

/// The result of a fetch query.
#[derive(Debug, Clone)]
pub struct FetchResultObject {
    /// The records read.
    pub records: Vec<RecordObject>,
    /// Offset to request next to continue tailing.
    pub next_offset: u64,
    /// Current high-watermark.
    pub high_watermark: u64,
}

/// What record objects hold.
pub open spec fn object_views(records: Seq<RecordObject>) -> Seq<RecordObjectView> {
    records.map_values(|r: RecordObject| r@)
}

impl FetchResultObject {
    /// Whether the object tells of the result.
    pub open spec fn tells(self, r: FetchResultView) -> bool {
        &&& self.records@.len() == r.records.len()
        &&& forall|i: int|
            0 <= i < r.records.len() ==> (#[trigger] self.records@[i])@ == shown(r.records[i])
        &&& self.next_offset == r.next_offset
        &&& self.high_watermark == r.high_watermark
    }
}

impl From<FetchResult> for FetchResultObject {
    fn from(r: FetchResult) -> (o: FetchResultObject)
        ensures
            o.tells(r@),
            object_views(o.records@) == r@.records.map_values(|v: RecordView| shown(v)),
            o.next_offset == r@.next_offset,
            o.high_watermark == r@.high_watermark,
    {
        let ghost sent = r.records@;
        let mut records: Vec<RecordObject> = Vec::new();
        for next in it: r.records
            invariant
                it.seq() == sent,
                records@.len() == it.index(),
                forall|k: int|
                    0 <= k < it.index() ==> (#[trigger] records@[k])@ == shown(sent[k]@),
        {
            records.push(RecordObject::from(next));
        }
        assert(object_views(records@) =~= crate::record::views(sent).map_values(
            |v: RecordView| shown(v),
        ));
        FetchResultObject {
            records,
            next_offset: r.next_offset.0,
            high_watermark: r.high_watermark.0,
        }
    }
}

impl FromSpecImpl<FetchResult> for FetchResultObject {
    open spec fn obeys_from_spec() -> bool {
        false
    }

    open spec fn from_spec(v: FetchResult) -> FetchResultObject {
        arbitrary()
    }
}

/// Broker statistics.
#[derive(Debug, Clone, Copy)]
pub struct StatsObject {
    /// Number of topics.
    pub topics: u64,
    /// Total partitions.
    pub partitions: u64,
    /// Retained records.
    pub records: u64,
    /// Total segments.
    pub segments: u64,
    /// Cumulative records produced.
    pub produced_total: u64,
    /// Cumulative records fetched.
    pub fetched_total: u64,
}

impl From<LogStats> for StatsObject {
    fn from(s: LogStats) -> (o: StatsObject) {
        StatsObject {
            topics: s.topics,
            partitions: s.partitions,
            records: s.records,
            segments: s.segments,
            produced_total: s.produced_total,
            fetched_total: s.fetched_total,
        }
    }
}

impl FromSpecImpl<LogStats> for StatsObject {
    open spec fn obeys_from_spec() -> bool {
        true
    }

    open spec fn from_spec(v: LogStats) -> StatsObject {
        StatsObject {
            topics: v.topics,
            partitions: v.partitions,
            records: v.records,
            segments: v.segments,
            produced_total: v.produced_total,
            fetched_total: v.fetched_total,
        }
    }
}

/// A single record to produce.
#[derive(Debug, Clone)]
pub struct ProduceInput {
    /// Optional routing/compaction key.
    pub key: Option<String>,
    /// UTF-8 payload.
    pub payload: String,
}

/// A live event delivered over the subscription.
#[derive(Debug, Clone)]
pub struct EventObject {
    /// Event kind: `topic_created`, `records_appended`, or `records_truncated`.
    pub kind: String,
    /// The topic the event pertains to.
    pub topic: String,
    /// Partition, when applicable.
    pub partition: Option<u32>,
    /// Base offset for appends / new start for truncation.
    pub offset: Option<u64>,
    /// Number of records for append events.
    pub count: Option<u32>,
}

impl EventObject {
    /// Whether the object tells of the event.
    pub open spec fn tells(self, e: LogEventView) -> bool {
        &&& self.kind@ == e.kind()
        &&& self.topic@ == e.topic()
        &&& match e {
            LogEventView::TopicCreated { .. } => {
                &&& self.partition is None
                &&& self.offset is None
                &&& self.count is None
            },
            LogEventView::RecordsAppended { topic: _, partition, base_offset, records } => {
                &&& self.partition == Some(partition)
                &&& self.offset == Some(base_offset)
                &&& self.count == Some(low32(records.len() as int))
            },
            LogEventView::RecordsTruncated { topic: _, partition, new_start } => {
                &&& self.partition == Some(partition)
                &&& self.offset == Some(new_start)
                &&& self.count is None
            },
        }
    }
}

impl From<LogEvent> for EventObject {
    fn from(e: LogEvent) -> (o: EventObject)
        ensures
            o.tells(e@),
    {
        let kind = e.kind().to_owned();
        match e {
            LogEvent::TopicCreated { topic, partitions: _ } => EventObject {
                kind,
                topic: topic.to_string(),
                partition: None,
                offset: None,
                count: None,
            },
            LogEvent::RecordsAppended { topic, partition, base_offset, records } => EventObject {
                kind,
                topic: topic.to_string(),
                partition: Some(partition.0),
                offset: Some(base_offset.0),
                count: Some(to_u32(records.len() as u64)),
            },
            LogEvent::RecordsTruncated { topic, partition, new_start } => EventObject {
                kind,
                topic: topic.to_string(),
                partition: Some(partition.0),
                offset: Some(new_start.0),
                count: None,
            },
        }
    }
}

impl FromSpecImpl<LogEvent> for EventObject {
    open spec fn obeys_from_spec() -> bool {
        false
    }

    open spec fn from_spec(v: LogEvent) -> EventObject {
        arbitrary()
    }
}

/// A committed checkpoint (resume position) for a connector partition.
#[derive(Debug, Clone)]
pub struct CheckpointObject {
    /// Owning connector id.
    pub connector: String,
    /// Topic name.
    pub topic: String,
    /// Partition id.
    pub partition: u32,
    /// Last processed offset (exclusive resume position is `offset + 1`). A
    /// checkpoint at the very first offset, when nothing has been processed yet,
    /// shows as zero too.
    pub offset: u64,
}

impl CheckpointObject {
    /// Whether the object tells of the checkpoint.
    pub open spec fn tells(self, c: Checkpoint) -> bool {
        &&& self.connector@ == c.connector@
        &&& self.topic@ == c.topic@
        &&& self.partition == c.partition.0
        &&& self.offset == if c.offset.0 > 0 {
            c.offset.0 - 1
        } else {
            0
        }
    }
}

impl From<Checkpoint> for CheckpointObject {
    fn from(c: Checkpoint) -> (o: CheckpointObject)
        ensures
            o.tells(c),
            o.connector@ == c.connector@,
            o.topic@ == c.topic@,
            o.partition == c.partition.0,
            o.offset == if c.offset.0 > 0 {
                c.offset.0 - 1
            } else {
                0
            },
    {
        CheckpointObject {
            connector: c.connector.to_string(),
            topic: c.topic.to_string(),
            partition: c.partition.0,
            offset: c.offset.0.saturating_sub(1),
        }
    }
}

impl FromSpecImpl<Checkpoint> for CheckpointObject {
    open spec fn obeys_from_spec() -> bool {
        false
    }

    open spec fn from_spec(v: Checkpoint) -> CheckpointObject {
        arbitrary()
    }
}

/// A record that a connector failed to deliver and routed to the dead-letter
/// queue.
#[derive(Debug, Clone)]
pub struct DeadLetterObject {
    /// Owning connector id.
    pub connector: String,
    /// Source topic.
    pub topic: String,
    /// Source partition.
    pub partition: u32,
    /// Source offset.
    pub offset: u64,
    /// Payload decoded as UTF-8 (lossy).
    pub payload: String,
    /// Human-readable failure reason.
    pub reason: String,
    /// Delivery attempts made before giving up.
    pub attempts: u32,
    /// When the record was dead-lettered.
    pub failed_at: Timestamp,
}

impl DeadLetterObject {
    /// Whether the object tells of the dead letter.
    pub open spec fn tells(self, r: DeadLetterRecord) -> bool {
        &&& self.connector@ == r.connector@
        &&& self.topic@ == r.topic@
        &&& self.partition == r.partition.0
        &&& self.offset == r.offset.0
        &&& self.payload@ == text::text_of(r.payload@)
        &&& self.reason@ == r.reason@
        &&& self.attempts == r.attempts
        &&& self.failed_at@ == r.failed_at@
    }
}

impl From<DeadLetterRecord> for DeadLetterObject {
    fn from(r: DeadLetterRecord) -> (o: DeadLetterObject)
        ensures
            o.tells(r),
    {
        DeadLetterObject {
            connector: r.connector.to_string(),
            topic: r.topic.to_string(),
            partition: r.partition.0,
            offset: r.offset.0,
            payload: text::utf8_lossy(r.payload.as_slice()),
            reason: r.reason,
            attempts: r.attempts,
            failed_at: r.failed_at,
        }
    }
}

impl FromSpecImpl<DeadLetterRecord> for DeadLetterObject {
    open spec fn obeys_from_spec() -> bool {
        false
    }

    open spec fn from_spec(v: DeadLetterRecord) -> DeadLetterObject {
        arbitrary()
    }
}

/// The outcome of one connector run.
#[derive(Debug, Clone, Copy)]
pub struct DeliveryReportObject {
    /// Records polled/read this run.
    pub polled: u32,
    /// Records successfully delivered.
    pub delivered: u32,
    /// Records routed to the dead-letter queue.
    pub dead_lettered: u32,
    /// Next offset to consume after this run (the committed checkpoint).
    pub checkpoint: u64,
}

impl From<DeliveryReport> for DeliveryReportObject {
    fn from(r: DeliveryReport) -> (o: DeliveryReportObject) {
        DeliveryReportObject {
            polled: to_u32(r.polled),
            delivered: to_u32(r.delivered),
            dead_lettered: to_u32(r.dead_lettered),
            checkpoint: r.checkpoint.0,
        }
    }
}

impl FromSpecImpl<DeliveryReport> for DeliveryReportObject {
    open spec fn obeys_from_spec() -> bool {
        true
    }

    open spec fn from_spec(v: DeliveryReport) -> DeliveryReportObject {
        DeliveryReportObject {
            polled: low32(v.polled as int),
            delivered: low32(v.delivered as int),
            dead_lettered: low32(v.dead_lettered as int),
            checkpoint: v.checkpoint.0,
        }
    }
}

/// The observable status of a registered connector.
#[derive(Debug, Clone)]
pub struct ConnectorStatusObject {
    /// Connector id.
    pub id: String,
    /// `source` or `sink`.
    pub kind: String,
    /// Delivery guarantee: `at_least_once` or `at_most_once`.
    pub guarantee: String,
    /// Whether the connector is actively running.
    pub running: bool,
    /// Records processed since start.
    pub processed: u64,
    /// Records dead-lettered since start.
    pub dead_lettered: u64,
    /// Current checkpoint offset (next offset to consume).
    pub checkpoint: u64,
}

impl ConnectorStatusObject {
    /// Whether the object tells of the status.
    pub open spec fn tells(self, s: ConnectorStatus) -> bool {
        &&& self.id@ == s.id@
        &&& self.kind@ == match s.kind {
            ConnectorKind::Source => "source"@,
            ConnectorKind::Sink => "sink"@,
        }
        &&& self.guarantee@ == match s.guarantee {
            DeliveryGuarantee::AtLeastOnce => "at_least_once"@,
            DeliveryGuarantee::AtMostOnce => "at_most_once"@,
        }
        &&& self.running == s.running
        &&& self.processed == s.processed
        &&& self.dead_lettered == s.dead_lettered
        &&& self.checkpoint == s.checkpoint.0
    }
}

impl From<ConnectorStatus> for ConnectorStatusObject {
    fn from(s: ConnectorStatus) -> (o: ConnectorStatusObject)
        ensures
            o.tells(s),
    {
        let kind = match s.kind {
            ConnectorKind::Source => "source",
            ConnectorKind::Sink => "sink",
        };
        let guarantee = match s.guarantee {
            DeliveryGuarantee::AtLeastOnce => "at_least_once",
            DeliveryGuarantee::AtMostOnce => "at_most_once",
        };
        ConnectorStatusObject {
            id: s.id.to_string(),
            kind: kind.to_owned(),
            guarantee: guarantee.to_owned(),
            running: s.running,
            processed: s.processed,
            dead_lettered: s.dead_lettered,
            checkpoint: s.checkpoint.0,
        }
    }
}

impl FromSpecImpl<ConnectorStatus> for ConnectorStatusObject {
    open spec fn obeys_from_spec() -> bool {
        false
    }

    open spec fn from_spec(v: ConnectorStatus) -> ConnectorStatusObject {
        arbitrary()
    }
}

/// A record is shown with all that it holds; a payload that is UTF-8 as the text
/// that it encodes.
pub proof fn law_records_are_shown_as_they_are(r: RecordView, payload: Seq<char>)
    ensures
        shown(r).offset == r.offset,
        shown(r).timestamp == r.timestamp,
        shown(r).key == r.key,
        r.payload == vstd::utf8::encode_utf8(payload) ==> shown(r).payload == payload,
{
    vstd::utf8::encode_utf8_valid_utf8(payload);
    vstd::utf8::encode_utf8_decode_utf8(payload);
}

/// A record object holds what it is said to hold.
pub proof fn law_views_show_the_object(o: RecordObject)
    ensures
        o@.offset == o.offset,
        o@.timestamp == o.timestamp@,
        o.key is None ==> o@.key is None,
        o.key matches Some(k) ==> o@.key == Some(k@),
        o@.payload == o.payload@,
{
}

/// Counts are shown as they are while they fit in 32 bits.
pub proof fn law_counts_are_shown_as_they_are(n: int)
    requires
        0 <= n <= u32::MAX,
    ensures
        low32(n) == n,
{
}

/// An object that tells of a topic shows its name, its partition count, its roll
/// size and its retention bound, each in its own field.
pub proof fn law_topic_objects_show_the_topic(o: TopicObject, c: TopicConfig)
    requires
        o.tells(c),
    ensures
        o.name@ == c.name@,
        o.partitions == c.partitions,
        o.segment_max_records == c.retention.segment_max_records,
        o.max_records == c.retention.max_records,
{
}

/// An object that tells of an event names the topic and the kind, and shows where
/// records were appended and how many, or where the partition starts now.
pub proof fn law_event_objects_show_the_event(o: EventObject, e: LogEvent)
    requires
        o.tells(e@),
    ensures
        match e {
            LogEvent::TopicCreated { topic, .. } => {
                &&& o.kind@ == "topic_created"@
                &&& o.topic@ == topic@
                &&& o.partition is None
                &&& o.offset is None
                &&& o.count is None
            },
            LogEvent::RecordsAppended { topic, partition, base_offset, records } => {
                &&& o.kind@ == "records_appended"@
                &&& o.topic@ == topic@
                &&& o.partition == Some(partition.0)
                &&& o.offset == Some(base_offset.0)
                &&& (*records)@.len() <= u32::MAX ==> o.count == Some((*records)@.len() as u32)
            },
            LogEvent::RecordsTruncated { topic, partition, new_start } => {
                &&& o.kind@ == "records_truncated"@
                &&& o.topic@ == topic@
                &&& o.partition == Some(partition.0)
                &&& o.offset == Some(new_start.0)
                &&& o.count is None
            },
        },
{
}

/// An object that tells of a dead letter shows whose it is, which record failed,
/// why, after how many attempts, and when; a payload that is UTF-8 as the text
/// that it encodes.
pub proof fn law_dead_letter_objects_show_the_letter(
    o: DeadLetterObject,
    r: DeadLetterRecord,
    payload: Seq<char>,
)
    requires
        o.tells(r),
    ensures
        o.connector@ == r.connector@,
        o.topic@ == r.topic@,
        o.partition == r.partition.0,
        o.offset == r.offset.0,
        r.payload@ == vstd::utf8::encode_utf8(payload) ==> o.payload@ == payload,
        o.reason@ == r.reason@,
        o.attempts == r.attempts,
        o.failed_at@ == r.failed_at@,
{
    vstd::utf8::encode_utf8_valid_utf8(payload);
    vstd::utf8::encode_utf8_decode_utf8(payload);
}

/// An object that tells of a connector's status shows each figure in its own
/// field, and the kind and the guarantee by their names.
pub proof fn law_status_objects_show_the_status(o: ConnectorStatusObject, s: ConnectorStatus)
    requires
        o.tells(s),
    ensures
        o.id@ == s.id@,
        o.running == s.running,
        o.processed == s.processed,
        o.dead_lettered == s.dead_lettered,
        o.checkpoint == s.checkpoint.0,
        s.kind is Source ==> o.kind@ == "source"@,
        s.kind is Sink ==> o.kind@ == "sink"@,
        s.guarantee is AtLeastOnce ==> o.guarantee@ == "at_least_once"@,
        s.guarantee is AtMostOnce ==> o.guarantee@ == "at_most_once"@,
{
}

/// What an append, a delivery round and the broker's statistics are shown as says
/// of each figure what it is: offsets and totals as they are, and counts as they
/// are while they fit in 32 bits.
pub proof fn law_results_are_shown_as_they_are(
    produced: ProduceResult,
    report: DeliveryReport,
    stats: LogStats,
)
    ensures
        ({
            let o = <ProduceResultObject as FromSpec<ProduceResult>>::from_spec(produced);
            &&& <ProduceResultObject as FromSpec<ProduceResult>>::obeys_from_spec()
            &&& o.base_offset == produced.base_offset.0
            &&& o.last_offset == produced.last_offset.0
            &&& produced.count <= u32::MAX ==> o.count == produced.count
            &&& produced.truncated_to is None ==> o.truncated_to is None
            &&& produced.truncated_to matches Some(start) ==> o.truncated_to == Some(start.0)
        }),
        ({
            let o = <DeliveryReportObject as FromSpec<DeliveryReport>>::from_spec(report);
            &&& <DeliveryReportObject as FromSpec<DeliveryReport>>::obeys_from_spec()
            &&& report.polled <= u32::MAX ==> o.polled == report.polled
            &&& report.delivered <= u32::MAX ==> o.delivered == report.delivered
            &&& report.dead_lettered <= u32::MAX ==> o.dead_lettered == report.dead_lettered
            &&& o.checkpoint == report.checkpoint.0
        }),
        ({
            let o = <StatsObject as FromSpec<LogStats>>::from_spec(stats);
            &&& <StatsObject as FromSpec<LogStats>>::obeys_from_spec()
            &&& o.topics == stats.topics
            &&& o.partitions == stats.partitions
            &&& o.records == stats.records
            &&& o.segments == stats.segments
            &&& o.produced_total == stats.produced_total
            &&& o.fetched_total == stats.fetched_total
        }),
{
}

/// An object that tells of a read shows the records that were read, each in its
/// place, the offset to go on from, and the end of the log.
pub proof fn law_fetch_objects_show_the_result(o: FetchResultObject, r: FetchResult)
    requires
        o.tells(r@),
    ensures
        o.records@.len() == r.records@.len(),
        forall|i: int|
            0 <= i < r.records@.len() ==> {
                &&& (#[trigger] o.records@[i]).offset == r.records@[i].offset.0
                &&& o.records@[i].timestamp@ == r.records@[i].timestamp@
                &&& r.records@[i].key is None ==> o.records@[i].key is None
                &&& r.records@[i].key matches Some(k) ==> (o.records@[i].key matches Some(seen)
                    && seen@ == k@)
            },
        o.next_offset == r.next_offset.0,
        o.high_watermark == r.high_watermark.0,
{
    assert forall|i: int| 0 <= i < r.records@.len() implies {
        &&& (#[trigger] o.records@[i]).offset == r.records@[i].offset.0
        &&& o.records@[i].timestamp@ == r.records@[i].timestamp@
        &&& r.records@[i].key is None ==> o.records@[i].key is None
        &&& r.records@[i].key matches Some(k) ==> (o.records@[i].key matches Some(seen) && seen@
            == k@)
    } by {
        assert(o.records@[i]@ == shown(r@.records[i]));
        assert(r@.records[i] == r.records@[i]@);
    }
}

/// An object that tells of a checkpoint shows whose it is, and the offset that was
/// processed last: consuming resumes one behind it.
pub proof fn law_checkpoint_objects_show_the_last_processed(o: CheckpointObject, c: Checkpoint)
    requires
        o.tells(c),
    ensures
        o.connector@ == c.connector@,
        o.topic@ == c.topic@,
        o.partition == c.partition.0,
        c.offset.0 > 0 ==> o.offset + 1 == c.offset.0,
        c.offset.0 == 0 ==> o.offset == 0,
{
}

} // verus!
