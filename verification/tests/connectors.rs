use connectforge::connector::{
    ConnectorId, ConnectorKind, ConnectorStatus, DeadLetterRecord, DeliveryGuarantee,
};
use connectforge::connectors::{CollectingSink, FailingSink, GeneratorSource};
use connectforge::dlq::MemoryDeadLetterSink;
use connectforge::error::PortError;
use connectforge::generator::RecordGenerator;
use connectforge::record::{ProduceRecord, Record};
use connectforge::registry::ConnectorRegistry;
use connectforge::timestamp::Timestamp;
use connectforge::units::{Offset, PartitionId, TopicName};

fn record(offset: u64) -> Record {
    Record {
        offset: Offset(offset),
        timestamp: Timestamp::now(),
        key: None,
        payload: vec![1],
    }
}

#[test]
fn collecting_sink_stores_records() {
    let mut sink = CollectingSink::new();
    assert!(sink.is_empty());
    sink.deliver(&[record(0), record(1)]).unwrap();
    assert_eq!(sink.len(), 2);
    assert_eq!(sink.delivered()[1].offset, Offset(1));
}

#[test]
fn failing_sink_rejects_poison_offsets() {
    let mut sink = FailingSink::new(3);
    assert!(sink.deliver(&[record(1)]).is_ok());
    assert!(sink.deliver(&[record(3)]).is_err());
    assert_eq!(sink.delivered_count(), 1);
}

#[test]
fn failing_sink_takes_all_or_nothing() {
    let mut sink = FailingSink::new(5);
    let err = sink
        .deliver(&[record(1), record(10), record(15)])
        .unwrap_err();
    assert_eq!(
        err,
        PortError::Permanent("poison record at offset 10".into())
    );
    assert_eq!(sink.delivered_count(), 0);
    let mut never = FailingSink::new(0);
    never.deliver(&[record(0), record(5)]).unwrap();
    assert_eq!(never.delivered_count(), 2);
}

#[test]
fn generator_source_emits_then_drains() {
    let mut source = GeneratorSource::new(5, 2, 10, 0xABCD);
    let mut total = 0;
    loop {
        let batch = source.poll();
        if batch.is_empty() {
            break;
        }
        total += batch.len();
    }
    assert_eq!(total, 5);
    assert_eq!(source.remaining(), 0);
}

#[test]
fn generator_source_batches() {
    let mut source = GeneratorSource::new(5, 2, 10, 1);
    let sizes: Vec<usize> = (0..4).map(|_| source.poll().len()).collect();
    assert_eq!(sizes, [2, 2, 1, 0]);
    // A batch holds at least one record.
    let mut single = GeneratorSource::new(2, 0, 10, 1);
    assert_eq!(single.poll().len(), 1);
    assert_eq!(single.remaining(), 1);
}

#[test]
fn is_deterministic_for_a_seed() {
    let mut a = RecordGenerator::new(100, 8, 42);
    let mut b = RecordGenerator::new(100, 8, 42);
    for _ in 0..50 {
        assert_eq!(a.next_record(), b.next_record());
    }
}

#[test]
fn keys_stay_within_space() {
    let mut g = RecordGenerator::new(4, 4, 7);
    for _ in 0..100 {
        let r = g.next_record();
        let key = r.key.unwrap();
        let n: u64 = key.strip_prefix("key-").unwrap().parse().unwrap();
        assert!(n < 4);
    }
}

#[test]
fn generated_records_are_filled_up() {
    let mut g = RecordGenerator::new(1, 20, 0);
    assert_eq!(
        g.next_record(),
        ProduceRecord::new(Some("key-0".into()), b"record-0-1..........".to_vec()).unwrap()
    );
    assert_eq!(g.next_record().payload, b"record-0-2..........");
    // From the state 1: one step of the xorshift gives 0x40822041.
    let mut g = RecordGenerator::new(u64::MAX, 0, 1);
    assert_eq!(g.next_record().payload, b"record-1082269761-1");
}

fn dlq_record() -> DeadLetterRecord {
    DeadLetterRecord {
        connector: ConnectorId::new("sink-1".to_string()).unwrap(),
        topic: TopicName::new("events".to_string()).unwrap(),
        partition: PartitionId(0),
        offset: Offset(7),
        payload: vec![1, 2, 3],
        reason: "permanent failure".into(),
        attempts: 3,
        failed_at: Timestamp::now(),
    }
}

#[test]
fn retains_dead_lettered_records() {
    let mut dlq = MemoryDeadLetterSink::new();
    assert!(dlq.is_empty());
    dlq.dead_letter(dlq_record());
    assert_eq!(dlq.len(), 1);
    assert_eq!(dlq.records()[0].offset, Offset(7));
}

fn status(id: &str, processed: u64) -> ConnectorStatus {
    ConnectorStatus {
        id: ConnectorId::new(id.to_string()).unwrap(),
        kind: ConnectorKind::Sink,
        guarantee: DeliveryGuarantee::AtLeastOnce,
        running: true,
        processed,
        dead_lettered: 0,
        checkpoint: Offset(0),
    }
}

#[test]
fn upsert_replaces_by_id() {
    let mut reg = ConnectorRegistry::new();
    reg.upsert_status(status("sink-1", 1));
    reg.upsert_status(status("sink-1", 5));
    let all = reg.statuses();
    assert_eq!(all.len(), 1);
    assert_eq!(all[0].processed, 5);
}

#[test]
fn upsert_keeps_the_order_of_ids() {
    let mut reg = ConnectorRegistry::new();
    for (id, n) in [("a", 1), ("b", 2), ("c", 3), ("b", 4)] {
        reg.upsert_status(status(id, n));
    }
    let seen: Vec<(String, u64)> = reg
        .statuses()
        .iter()
        .map(|s| (s.id.to_string(), s.processed))
        .collect();
    assert_eq!(
        seen,
        [("a".to_string(), 1), ("b".to_string(), 4), ("c".to_string(), 3)]
    );
}

#[test]
fn dead_letters_accumulate() {
    let mut reg = ConnectorRegistry::new();
    reg.extend_dead_letters(vec![DeadLetterRecord {
        connector: ConnectorId::new("sink-1".to_string()).unwrap(),
        topic: TopicName::new("events".to_string()).unwrap(),
        partition: PartitionId(0),
        offset: Offset(3),
        payload: vec![9],
        reason: "boom".into(),
        attempts: 3,
        failed_at: Timestamp::now(),
    }]);
    assert_eq!(reg.dead_letters().len(), 1);
}

#[test]
fn dead_letters_can_be_replaced() {
    let mut reg = ConnectorRegistry::new();
    reg.extend_dead_letters(vec![dlq_record(), dlq_record()]);
    reg.extend_dead_letters(vec![dlq_record()]);
    assert_eq!(reg.dead_letters().len(), 3);
    reg.set_dead_letters(vec![dlq_record()]);
    assert_eq!(reg.dead_letters().len(), 1);
}
