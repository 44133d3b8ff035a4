use connectforge::connector::{
    Checkpoint, ConnectorId, ConnectorKind, ConnectorStatus, DeadLetterRecord, DeliveryGuarantee,
    DeliveryReport,
};
use connectforge::event::LogEvent;
use connectforge::model::{
    CheckpointObject, ConnectorStatusObject, DeadLetterObject, DeliveryReportObject, EventObject,
    FetchResultObject, ProduceInput, ProduceResultObject, RecordObject, StatsObject, TopicObject,
};
use connectforge::record::{ProduceRecord, Record};
use connectforge::schema::{topic_named, MutationRoot, QueryRoot, SubscriptionRoot};
use connectforge::stats::{FetchResult, LogStats, ProduceResult};
use connectforge::timestamp::Timestamp;
use connectforge::topic::{RetentionPolicy, TopicConfig};
use connectforge::units::{Offset, PartitionId, TopicName};
use std::sync::Arc;

fn topic(name: &str) -> TopicName {
    TopicName::new(name.to_string()).unwrap()
}

fn id() -> ConnectorId {
    ConnectorId::new("sink-1".to_string()).unwrap()
}

fn record(offset: u64, payload: &[u8]) -> Record {
    Record {
        offset: Offset(offset),
        timestamp: Timestamp::from_millis(1_000).unwrap(),
        key: Some("k".into()),
        payload: payload.to_vec(),
    }
}

#[test]
fn records_are_surfaced_as_text() {
    let object = RecordObject::from(record(4, &[b'h', b'i', 0xff, b'!']));
    assert_eq!(object.offset, 4);
    assert_eq!(object.timestamp, Timestamp::from_millis(1_000).unwrap());
    assert_eq!(object.key.as_deref(), Some("k"));
    assert_eq!(object.payload, "hi\u{fffd}!");
    assert_eq!(RecordObject::from(record(0, "é".as_bytes())).payload, "é");
}

#[test]
fn results_are_surfaced() {
    let result = ProduceResult {
        base_offset: Offset(3),
        last_offset: Offset(5),
        count: 3,
        truncated_to: Some(Offset(2)),
    };
    let object = ProduceResultObject::from(result);
    assert_eq!((object.base_offset, object.last_offset), (3, 5));
    assert_eq!((object.count, object.truncated_to), (3, Some(2)));

    let object = FetchResultObject::from(FetchResult {
        records: vec![record(7, b"a"), record(8, b"b")],
        next_offset: Offset(9),
        high_watermark: Offset(12),
    });
    let payloads: Vec<&str> = object.records.iter().map(|r| r.payload.as_str()).collect();
    assert_eq!(payloads, ["a", "b"]);
    assert_eq!((object.next_offset, object.high_watermark), (9, 12));

    let object = StatsObject::from(LogStats {
        topics: 1,
        partitions: 2,
        records: 3,
        segments: 4,
        produced_total: 5,
        fetched_total: 6,
    });
    assert_eq!(
        (object.topics, object.partitions, object.records),
        (1, 2, 3)
    );
    assert_eq!(
        (object.segments, object.produced_total, object.fetched_total),
        (4, 5, 6)
    );
}

#[test]
fn counts_are_cut_to_their_width() {
    let object = DeliveryReportObject::from(DeliveryReport {
        polled: (1 << 32) + 2,
        delivered: 1,
        dead_lettered: 1 << 32,
        checkpoint: Offset(9),
    });
    assert_eq!(
        (object.polled, object.delivered, object.dead_lettered),
        (2, 1, 0)
    );
    assert_eq!(object.checkpoint, 9);
}

#[test]
fn events_are_surfaced() {
    let created = EventObject::from(LogEvent::TopicCreated {
        topic: topic("t"),
        partitions: 3,
    });
    assert_eq!(created.kind, "topic_created");
    assert_eq!(created.topic, "t");
    assert_eq!(
        (created.partition, created.offset, created.count),
        (None, None, None)
    );
    let appended = EventObject::from(LogEvent::RecordsAppended {
        topic: topic("t"),
        partition: PartitionId(2),
        base_offset: Offset(5),
        records: Arc::new(vec![record(5, b"x"), record(6, b"y")]),
    });
    assert_eq!(appended.kind, "records_appended");
    assert_eq!(
        (appended.partition, appended.offset, appended.count),
        (Some(2), Some(5), Some(2))
    );
    let truncated = EventObject::from(LogEvent::RecordsTruncated {
        topic: topic("t"),
        partition: PartitionId(1),
        new_start: Offset(8),
    });
    assert_eq!(truncated.kind, "records_truncated");
    assert_eq!(
        (truncated.partition, truncated.offset, truncated.count),
        (Some(1), Some(8), None)
    );
}

fn letter() -> DeadLetterRecord {
    DeadLetterRecord {
        connector: id(),
        topic: topic("events"),
        partition: PartitionId(1),
        offset: Offset(3),
        payload: vec![b'x', 0x80],
        reason: "boom".into(),
        attempts: 3,
        failed_at: Timestamp::from_millis(5).unwrap(),
    }
}

fn status(kind: ConnectorKind, guarantee: DeliveryGuarantee) -> ConnectorStatus {
    ConnectorStatus {
        id: id(),
        kind,
        guarantee,
        running: true,
        processed: 4,
        dead_lettered: 1,
        checkpoint: Offset(5),
    }
}

#[test]
fn connectors_are_surfaced() {
    let object = CheckpointObject::from(Checkpoint {
        connector: id(),
        topic: topic("events"),
        partition: PartitionId(1),
        offset: Offset(5),
    });
    assert_eq!((object.connector.as_str(), object.topic.as_str()), ("sink-1", "events"));
    assert_eq!((object.partition, object.offset), (1, 4));
    let object = CheckpointObject::from(Checkpoint {
        connector: id(),
        topic: topic("events"),
        partition: PartitionId(1),
        offset: Offset(0),
    });
    assert_eq!(object.offset, 0);

    let object = DeadLetterObject::from(letter());
    assert_eq!(object.connector, "sink-1");
    assert_eq!(object.topic, "events");
    assert_eq!((object.partition, object.offset), (1, 3));
    assert_eq!(object.payload, "x\u{fffd}");
    assert_eq!(object.reason, "boom");
    assert_eq!(object.attempts, 3);
    assert_eq!(object.failed_at, Timestamp::from_millis(5).unwrap());

    let object =
        ConnectorStatusObject::from(status(ConnectorKind::Sink, DeliveryGuarantee::AtLeastOnce));
    assert_eq!(object.id, "sink-1");
    assert_eq!(
        (object.kind.as_str(), object.guarantee.as_str()),
        ("sink", "at_least_once")
    );
    assert!(object.running);
    assert_eq!(
        (object.processed, object.dead_lettered, object.checkpoint),
        (4, 1, 5)
    );
    let object =
        ConnectorStatusObject::from(status(ConnectorKind::Source, DeliveryGuarantee::AtMostOnce));
    assert_eq!(
        (object.kind.as_str(), object.guarantee.as_str()),
        ("source", "at_most_once")
    );
}

fn config(name: &str, partitions: u32) -> TopicConfig {
    TopicConfig::new(topic(name), partitions, RetentionPolicy::default()).unwrap()
}

#[test]
fn topics_are_queried() {
    let configs = vec![config("a", 1), config("b", 2), config("b", 3)];
    let found = QueryRoot::topic(&configs, &topic("b")).unwrap();
    assert_eq!((found.name.as_str(), found.partitions), ("b", 2));
    assert!(QueryRoot::topic(&configs, &topic("c")).is_none());
    let all = QueryRoot::topics(configs);
    let names: Vec<&str> = all.iter().map(|t| t.name.as_str()).collect();
    assert_eq!(names, ["a", "b", "b"]);
    let object = TopicObject::from(config("x", 7));
    assert_eq!((object.name.as_str(), object.partitions), ("x", 7));
    let retention = RetentionPolicy::default();
    assert_eq!(object.segment_max_records, retention.segment_max_records);
    assert_eq!(object.max_records, retention.max_records);
}

#[test]
fn connectors_and_dead_letters_are_queried() {
    let statuses = QueryRoot::connectors(vec![status(
        ConnectorKind::Sink,
        DeliveryGuarantee::AtLeastOnce,
    )]);
    assert_eq!((statuses.len(), statuses[0].processed), (1, 4));
    let letters = QueryRoot::dead_letters(vec![letter(), letter()]);
    assert_eq!((letters.len(), letters[1].reason.as_str()), (2, "boom"));
}

fn input(key: Option<&str>, payload: &str) -> ProduceInput {
    ProduceInput {
        key: key.map(String::from),
        payload: payload.into(),
    }
}

#[test]
fn batches_are_read() {
    let batch = MutationRoot::batch(vec![input(None, "hello"), input(Some("k"), "wörld")]).unwrap();
    assert_eq!(
        batch,
        [
            ProduceRecord::new(None, b"hello".to_vec()).unwrap(),
            ProduceRecord::new(Some("k".into()), "wörld".as_bytes().to_vec()).unwrap(),
        ]
    );
    assert!(MutationRoot::batch(Vec::new()).unwrap().is_empty());
    assert_eq!(
        MutationRoot::batch(vec![input(None, "x"), input(None, "")]).unwrap_err(),
        "record payload must not be empty"
    );
}

#[test]
fn names_are_read() {
    assert_eq!(topic_named("orders".into()).unwrap(), topic("orders"));
    assert!(topic_named("no spaces".into()).is_err());
    let names = SubscriptionRoot::names(vec!["a".into(), "b".into()]).unwrap();
    assert_eq!(names, [topic("a"), topic("b")]);
    assert_eq!(
        SubscriptionRoot::names(vec!["a".into(), "".into(), "b c".into()]).unwrap_err(),
        topic_named("".into()).unwrap_err()
    );
}
