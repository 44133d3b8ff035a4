use connectforge::connector::{ConnectorId, ConnectorKind, DeliveryGuarantee};
use connectforge::error::{CoreError, PortError};
use connectforge::event::{LogEvent, Received};
use connectforge::invalid::InvalidRecord;
use connectforge::record::{ProduceRecord, Record};
use connectforge::stats::FetchResult;
use connectforge::text::{comes_before, parse_u64, same, to_decimal, to_fixed_digits};
use connectforge::timestamp::{Timestamp, MAX_SECONDS, MIN_SECONDS};
use connectforge::topic::{fnv1a, RetentionPolicy, TopicConfig};
use connectforge::units::{
    Offset, PartitionId, SegmentId, TopicName, MAX_PAYLOAD_BYTES, MAX_TOPIC_NAME_LEN,
};

fn topic(name: &str) -> TopicName {
    TopicName::new(name.to_string()).unwrap()
}

fn cfg(partitions: u32) -> TopicConfig {
    TopicConfig::new(topic("t"), partitions, RetentionPolicy::default()).unwrap()
}

#[test]
fn offset_advances_and_measures_distance() {
    let base = Offset::zero();
    let next = base.next();
    assert_eq!(next.value(), 1);
    assert_eq!(next.saturating_sub(base), 1);
    assert_eq!(base.saturating_sub(next), 0);
}

#[test]
fn topic_name_accepts_valid_and_rejects_invalid() {
    assert!(TopicName::new("orders.v1_2-A".to_string()).is_ok());
    assert_eq!(
        TopicName::new("".to_string()),
        Err(InvalidRecord::EmptyTopicName)
    );
    assert_eq!(
        TopicName::new("bad name".to_string()),
        Err(InvalidRecord::InvalidTopicChar)
    );
    let long = "a".repeat(MAX_TOPIC_NAME_LEN + 1);
    assert_eq!(
        TopicName::new(long),
        Err(InvalidRecord::TopicNameTooLong(MAX_TOPIC_NAME_LEN + 1))
    );
}

#[test]
fn topic_name_serde_roundtrip() {
    let t = topic("events");
    let json = serde_json::to_string(&String::from(t.clone())).unwrap();
    assert_eq!(json, "\"events\"");
    let text: String = serde_json::from_str(&json).unwrap();
    let back = TopicName::try_from(text).unwrap();
    assert_eq!(back, t);
}

#[test]
fn segment_id_zero_pads() {
    assert_eq!(SegmentId(42).to_string(), "00000000000000000042");
}

#[test]
fn ids_display_their_numbers() {
    assert_eq!(Offset(1203).to_string(), "1203");
    assert_eq!(PartitionId(7).to_string(), "7");
    assert_eq!(SegmentId(u64::MAX).to_string(), "18446744073709551615");
    assert_eq!(SegmentId::default().value(), 0);
    assert_eq!(PartitionId::default().value(), 0);
    assert_eq!(Offset::default(), Offset::zero());
    assert_eq!(topic("a.b").to_string(), "a.b");
}

#[test]
fn names_at_the_limits() {
    assert!(TopicName::new("a".repeat(MAX_TOPIC_NAME_LEN)).is_ok());
    assert!(ConnectorId::new("x".repeat(128)).is_ok());
    assert_eq!(
        ConnectorId::new("x".repeat(129)),
        Err(InvalidRecord::TopicNameTooLong(129))
    );
    // Length counts bytes, and is looked at before the characters.
    assert_eq!(
        TopicName::new("é".repeat(128)),
        Err(InvalidRecord::TopicNameTooLong(256))
    );
    assert_eq!(
        TopicName::new("é".to_string()),
        Err(InvalidRecord::InvalidTopicChar)
    );
    for bad in ["a/b", "a b", "a\u{0}", "@", "[", "`", "{", ":", "/"] {
        assert_eq!(
            TopicName::new(bad.to_string()),
            Err(InvalidRecord::InvalidTopicChar)
        );
    }
    for good in ["a", "z", "A", "Z", "0", "9", "-", "_", ".", ".."] {
        assert_eq!(TopicName::new(good.to_string()).unwrap().as_str(), good);
    }
}

#[test]
fn connector_id_validates() {
    assert!(ConnectorId::new("file-sink_1.v2".to_string()).is_ok());
    assert!(ConnectorId::new("".to_string()).is_err());
    assert!(ConnectorId::new("bad name".to_string()).is_err());
    assert!(ConnectorId::new("x".repeat(200)).is_err());
}

#[test]
fn displays() {
    assert_eq!(ConnectorKind::Source.to_string(), "source");
    assert_eq!(ConnectorKind::Sink.to_string(), "sink");
    assert_eq!(DeliveryGuarantee::default().to_string(), "at-least-once");
}

#[test]
fn displays_at_most_once() {
    assert_eq!(DeliveryGuarantee::AtMostOnce.to_string(), "at-most-once");
}

#[test]
fn id_roundtrips_through_string() {
    let id = ConnectorId::new("c1".to_string()).unwrap();
    let s: String = id.clone().into();
    assert_eq!(ConnectorId::try_from(s).unwrap(), id);
}

#[test]
fn codes_are_distinct_and_stable() {
    assert_eq!(InvalidRecord::EmptyPayload.code(), "EMPTY_PAYLOAD");
    assert_eq!(
        InvalidRecord::PayloadTooLarge(1).code(),
        "PAYLOAD_TOO_LARGE"
    );
    assert_eq!(InvalidRecord::ZeroPartitions.code(), "ZERO_PARTITIONS");
}

#[test]
fn every_invalid_record_has_its_code_and_message() {
    let all = [
        (
            InvalidRecord::EmptyPayload,
            "EMPTY_PAYLOAD",
            "record payload must not be empty",
        ),
        (
            InvalidRecord::PayloadTooLarge(1048577),
            "PAYLOAD_TOO_LARGE",
            "record payload of 1048577 bytes exceeds the maximum",
        ),
        (
            InvalidRecord::EmptyTopicName,
            "EMPTY_TOPIC_NAME",
            "topic name must not be empty",
        ),
        (
            InvalidRecord::TopicNameTooLong(256),
            "TOPIC_NAME_TOO_LONG",
            "topic name of 256 bytes exceeds the maximum",
        ),
        (
            InvalidRecord::InvalidTopicChar,
            "INVALID_TOPIC_CHAR",
            "topic name may only contain [A-Za-z0-9._-]",
        ),
        (
            InvalidRecord::ZeroPartitions,
            "ZERO_PARTITIONS",
            "a topic must have at least one partition",
        ),
        (
            InvalidRecord::ZeroSegmentSize,
            "ZERO_SEGMENT_SIZE",
            "segment roll size must be greater than zero",
        ),
    ];
    for (e, code, message) in all {
        assert_eq!(e.code(), code);
        assert_eq!(e.to_string(), message);
    }
}

#[test]
fn rejects_empty_payload() {
    assert_eq!(
        ProduceRecord::new(None, Vec::new()),
        Err(InvalidRecord::EmptyPayload)
    );
}

#[test]
fn rejects_oversize_payload() {
    let big = vec![0u8; MAX_PAYLOAD_BYTES + 1];
    assert_eq!(
        ProduceRecord::new(None, big),
        Err(InvalidRecord::PayloadTooLarge(MAX_PAYLOAD_BYTES + 1))
    );
}

#[test]
fn payload_at_the_limit_is_accepted() {
    let record = ProduceRecord::new(None, vec![0u8; MAX_PAYLOAD_BYTES]).unwrap();
    assert_eq!(record.validate(), Ok(()));
    let empty = ProduceRecord {
        key: None,
        payload: Vec::new(),
    };
    assert_eq!(empty.validate(), Err(InvalidRecord::EmptyPayload));
    let large = ProduceRecord {
        key: None,
        payload: vec![0u8; MAX_PAYLOAD_BYTES + 1],
    };
    assert_eq!(
        large.validate(),
        Err(InvalidRecord::PayloadTooLarge(MAX_PAYLOAD_BYTES + 1))
    );
}

#[test]
fn from_produce_carries_fields() {
    let pr = ProduceRecord::new(Some("k".into()), b"hi".to_vec()).unwrap();
    let ts = Timestamp::now();
    let rec = Record::from_produce(pr, Offset(7), ts);
    assert_eq!(rec.offset, Offset(7));
    assert_eq!(rec.timestamp, ts);
    assert_eq!(rec.key.as_deref(), Some("k"));
    assert_eq!(rec.payload_len(), 2);
}

#[test]
fn empty_fetch_positions_at_high_watermark() {
    let r = FetchResult::empty(Offset(9));
    assert!(r.records.is_empty());
    assert_eq!(r.next_offset, Offset(9));
    assert_eq!(r.high_watermark, Offset(9));
}

#[test]
fn rejects_zero_partitions() {
    assert_eq!(
        TopicConfig::new(topic("t"), 0, RetentionPolicy::default()),
        Err(InvalidRecord::ZeroPartitions)
    );
}

#[test]
fn rejects_zero_segment_size() {
    let policy = RetentionPolicy {
        segment_max_records: 0,
        max_records: 10,
    };
    assert_eq!(policy.validate(), Err(InvalidRecord::ZeroSegmentSize));
}

#[test]
fn topic_config_reports_the_first_problem() {
    let policy = RetentionPolicy {
        segment_max_records: 0,
        max_records: 10,
    };
    assert_eq!(
        TopicConfig::new(topic("t"), 0, policy),
        Err(InvalidRecord::ZeroPartitions)
    );
    assert_eq!(
        TopicConfig::new(topic("t"), 1, policy),
        Err(InvalidRecord::ZeroSegmentSize)
    );
    let fallback = RetentionPolicy::default();
    assert_eq!(fallback.segment_max_records, 1024);
    assert_eq!(fallback.max_records, 1_000_000);
}

#[test]
fn keyed_routing_is_stable_and_in_range() {
    let cfg = cfg(8);
    let a = cfg.partition_for(Some("user-42"), 0);
    let b = cfg.partition_for(Some("user-42"), 999);
    assert_eq!(a, b, "same key must map to same partition");
    assert!(a.value() < 8);
}

#[test]
fn keyless_routing_uses_round_robin() {
    let cfg = cfg(4);
    assert_eq!(cfg.partition_for(None, 5).value(), 1);
    assert_eq!(cfg.partition_for(None, 6).value(), 2);
}

#[test]
fn fnv1a_matches_its_published_values() {
    assert_eq!(fnv1a(b""), 0xcbf29ce484222325);
    assert_eq!(fnv1a(b"a"), 0xaf63dc4c8601ec8c);
    assert_eq!(fnv1a(b"foobar"), 0x85944171f73967e8);
    assert_eq!(
        cfg(7).partition_for(Some("foobar"), 3).value() as u64,
        0x85944171f73967e8u64 % 7
    );
}

#[test]
fn retryable_classification() {
    assert!(PortError::Unavailable("x".into()).is_retryable());
    assert!(PortError::Transient("x".into()).is_retryable());
    assert!(!PortError::NotFound("x".into()).is_retryable());
    assert!(!PortError::Permanent("x".into()).is_retryable());
}

#[test]
fn invalid_record_maps_to_core_error() {
    let e: CoreError = InvalidRecord::EmptyPayload.into();
    assert_eq!(e.code(), "EMPTY_PAYLOAD");
}

#[test]
fn port_error_maps_to_core_error() {
    let e: CoreError = PortError::Transient("db".into()).into();
    assert_eq!(e.code(), "PORT_ERROR");
}

#[test]
fn every_core_error_has_its_code_and_message() {
    let all = [
        (
            CoreError::Invalid(InvalidRecord::EmptyPayload),
            "EMPTY_PAYLOAD",
            "record payload must not be empty",
        ),
        (
            CoreError::RateLimited,
            "RATE_LIMITED",
            "produce rate limit exceeded",
        ),
        (
            CoreError::EmptyBatch,
            "EMPTY_BATCH",
            "produce batch must contain at least one record",
        ),
        (
            CoreError::TopicExists("t".into()),
            "TOPIC_EXISTS",
            "topic 't' already exists",
        ),
        (
            CoreError::TopicNotFound("t".into()),
            "TOPIC_NOT_FOUND",
            "topic 't' not found",
        ),
        (
            CoreError::PartitionOutOfRange {
                topic: "t".into(),
                partition: 5,
                count: 2,
            },
            "PARTITION_OUT_OF_RANGE",
            "partition 5 out of range for topic 't' with 2 partitions",
        ),
        (
            CoreError::CapacityExceeded(1024),
            "CAPACITY_EXCEEDED",
            "topic capacity of 1024 reached",
        ),
        (CoreError::Timeout, "TIMEOUT", "storage operation timed out"),
        (
            CoreError::Port(PortError::NotFound("t/0".into())),
            "PORT_ERROR",
            "not found: t/0",
        ),
    ];
    for (e, code, message) in all {
        assert_eq!(e.code(), code);
        assert_eq!(e.to_string(), message);
        assert_eq!(e.clone(), e);
    }
    assert_eq!(
        PortError::Unavailable("x".into()).to_string(),
        "dependency unavailable: x"
    );
    assert_eq!(
        PortError::Transient("x".into()).to_string(),
        "transient failure: x"
    );
    assert_eq!(
        PortError::Permanent("x".into()).to_string(),
        "permanent failure: x"
    );
}

#[test]
fn kind_and_topic_accessors() {
    let t = topic("t");
    let ev = LogEvent::TopicCreated {
        topic: t.clone(),
        partitions: 3,
    };
    assert_eq!(ev.kind(), "topic_created");
    assert_eq!(ev.topic(), &t);

    let ev = LogEvent::RecordsTruncated {
        topic: t.clone(),
        partition: PartitionId(0),
        new_start: Offset(5),
    };
    assert_eq!(ev.kind(), "records_truncated");
}

#[test]
fn topic_filter_excludes_other_topics() {
    let filter = vec![topic("wanted")];
    let other = LogEvent::TopicCreated {
        topic: topic("other"),
        partitions: 1,
    };
    let wanted = LogEvent::TopicCreated {
        topic: topic("wanted"),
        partitions: 1,
    };
    let seen: Vec<&LogEvent> = [&other, &wanted]
        .into_iter()
        .filter(|e| e.concerns(&filter))
        .collect();
    assert_eq!(seen.len(), 1);
    assert_eq!(seen[0].topic().as_str(), "wanted");
    assert!(other.concerns(&Vec::new()));
}

#[test]
fn subscribers_see_what_they_asked_for_in_order() {
    let filter = vec![topic("x"), topic("y")];
    let event = |name: &str, partitions: u32| {
        Received::Event(LogEvent::TopicCreated {
            topic: topic(name),
            partitions,
        })
    };
    let received = vec![
        event("y", 1),
        event("z", 2),
        event("x", 3),
        Received::Lagged,
        event("y", 4),
    ];
    let seen: Vec<u32> = received
        .into_iter()
        .filter_map(|r| r.hand_on(&filter))
        .map(|e| match e {
            LogEvent::TopicCreated { partitions, .. } => partitions,
            other => panic!("{other:?}"),
        })
        .collect();
    assert_eq!(seen, [1, 3, 4]);
    assert!(event("z", 1).hand_on(&Vec::new()).is_some());
}

#[test]
fn numerals_read_back() {
    for n in [0, 9, 10, 99, 1_000_000_007, u64::MAX] {
        assert_eq!(to_decimal(n), n.to_string());
        assert_eq!(parse_u64(&to_decimal(n)), Some(n));
        assert_eq!(parse_u64(&to_fixed_digits(n, 20)), Some(n));
    }
    assert_eq!(to_fixed_digits(1234, 2), "34");
    assert_eq!(to_fixed_digits(7, 0), "");
    for text in [
        "", "+", "-0", "-1", " 1", "1 ", "1_0", "٣", "1é", "0x1", "18446744073709551616",
        "99999999999999999999", "++1", "1+",
    ] {
        assert_eq!(parse_u64(text), text.parse::<u64>().ok(), "{text}");
    }
    assert_eq!(parse_u64("+12"), Some(12));
    assert_eq!(parse_u64("0007"), Some(7));
    assert_eq!(parse_u64("00000000000000000000000001"), Some(1));
}

#[test]
fn text_order_is_that_of_strings() {
    let words = ["", "a", "ab", "b", "Z", "é", "ab\u{10000}", "ab\u{ffff}", "-", "."];
    for a in words {
        for b in words {
            assert_eq!(comes_before(a, b), a < b, "{a:?} {b:?}");
            assert_eq!(same(a, b), a == b);
        }
    }
}

#[test]
fn timestamps_agree_with_the_calendar() {
    let before = chrono::Utc::now().timestamp_millis();
    let now = Timestamp::now();
    let after = chrono::Utc::now().timestamp_millis();
    assert!(before <= now.millis() && now.millis() <= after);

    assert!(Timestamp::new(MIN_SECONDS, 0).is_some());
    assert!(Timestamp::new(MIN_SECONDS - 1, 0).is_none());
    assert!(Timestamp::new(MAX_SECONDS, 999_999_999).is_some());
    assert!(Timestamp::new(MAX_SECONDS + 1, 0).is_none());
    assert!(Timestamp::new(i64::MIN, 0).is_none());
    assert!(Timestamp::new(i64::MAX, 0).is_none());
    assert!(Timestamp::new(0, 2_000_000_000).is_none());
    assert!(Timestamp::new(0, 1_000_000_000).is_none());
    // A leap second.
    let leap = Timestamp::new(59, 1_500_000_000).unwrap();
    assert_eq!(leap.millis(), 60_500);
    assert_eq!(leap.seconds(), 59);
    assert_eq!(leap.nanos(), 1_500_000_000);
    assert!(Timestamp::new(-1, 1_500_000_000).is_some());

    let t = Timestamp::new(12, 345_678_901).unwrap();
    assert_eq!(t.millis(), 12_345);
    let back = Timestamp::from_millis(t.millis()).unwrap();
    assert_eq!((back.seconds(), back.nanos()), (12, 345_000_000));
    let early = Timestamp::from_millis(-1).unwrap();
    assert_eq!((early.seconds(), early.nanos()), (-1, 999_000_000));
    assert_eq!(early.millis(), -1);
    assert_eq!(
        Timestamp::new(-1, 999_999_999).unwrap().millis(),
        -1
    );

    assert!(Timestamp::from_millis(MIN_SECONDS * 1000).is_some());
    assert!(Timestamp::from_millis(MIN_SECONDS * 1000 - 1).is_none());
    assert!(Timestamp::from_millis(MAX_SECONDS * 1000 + 999).is_some());
    assert!(Timestamp::from_millis(MAX_SECONDS * 1000 + 1000).is_none());
    assert!(Timestamp::from_millis(i64::MIN).is_none());
    assert!(Timestamp::from_millis(i64::MAX).is_none());
}
