use connectforge::config::LogConfig;
use connectforge::engine::{
    CreateCall, CreateEvent, CreateStep, FetchCall, FetchEvent, FetchStep, LogEngine, ProduceCall,
    ProduceEvent, ProduceStep, Produced, Reply, Verdict,
};
use connectforge::error::{CoreError, PortError};
use connectforge::event::LogEvent;
use connectforge::ports::AppendOutcome;
use connectforge::record::{ProduceRecord, Record};
use connectforge::retry::{equal_jitter, RetryPolicy};
use connectforge::stats::{FetchResult, LogStats};
use connectforge::topic::{RetentionPolicy, TopicConfig};
use connectforge::units::{Offset, PartitionId, TopicName};
use std::sync::Arc;

fn topic() -> TopicName {
    TopicName::new("orders".to_string()).unwrap()
}

fn engine() -> LogEngine {
    LogEngine::new(LogConfig::default())
}

fn outcome(call: &ProduceCall, step: &ProduceStep, from: u64) -> AppendOutcome {
    let ProduceStep::Append(_, timestamp, _) = step else {
        panic!("not an append: {step:?}");
    };
    let records: Vec<Record> = call
        .records()
        .iter()
        .enumerate()
        .map(|(i, r)| Record::from_produce(r.clone(), Offset(from + i as u64), *timestamp))
        .collect();
    AppendOutcome {
        records: Arc::new(records),
        truncated_to: None,
    }
}

/// Takes a call as far as its append.
fn routed(engine: &mut LogEngine, records: Vec<ProduceRecord>, count: u32) -> (ProduceCall, ProduceStep) {
    let mut call = ProduceCall::new(topic(), records);
    let n = call.records().len();
    match engine.produce(&mut call, ProduceEvent::Start) {
        ProduceStep::Acquire(wanted) => assert_eq!(wanted, n),
        other => panic!("{other:?}"),
    }
    assert!(matches!(
        engine.produce(&mut call, ProduceEvent::Acquired(true)),
        ProduceStep::Count(1)
    ));
    let step = engine.produce(
        &mut call,
        ProduceEvent::Counted(Reply::Answered(Ok(Some(count)))),
    );
    (call, step)
}

fn done(step: ProduceStep) -> Result<Produced, CoreError> {
    match step {
        ProduceStep::Done(result) => result,
        other => panic!("not over: {other:?}"),
    }
}

#[test]
fn defaults_are_sane() {
    let c = LogConfig::default();
    assert!(c.max_topics > 0);
    assert!(c.default_partitions >= 1);
    assert!(c.produce_burst >= 1);
    assert!(c.fetch_max_records > 0);
}

#[test]
fn produce_appends_and_publishes() {
    let mut engine = engine();
    let rec = ProduceRecord::new(Some("k".into()), b"hello".to_vec()).unwrap();
    let (mut call, step) = routed(&mut engine, vec![rec], 3);
    let appended = outcome(&call, &step, 0);
    let out = done(engine.produce(
        &mut call,
        ProduceEvent::Appended(Reply::Answered(Ok(appended))),
    ))
    .unwrap();
    assert_eq!(out.result.count, 1);
    assert_eq!(out.result.base_offset, Offset(0));
    assert_eq!(out.events.len(), 1);
    assert_eq!(out.events[0].kind(), "records_appended");
}

#[test]
fn produce_empty_batch_is_rejected() {
    let mut engine = engine();
    let mut call = ProduceCall::new(topic(), Vec::new());
    let err = done(engine.produce(&mut call, ProduceEvent::Start)).unwrap_err();
    assert_eq!(err.code(), "EMPTY_BATCH");
}

#[test]
fn produce_unknown_topic_fails() {
    let mut engine = engine();
    let rec = ProduceRecord::new(None, b"x".to_vec()).unwrap();
    let mut call = ProduceCall::new(topic(), vec![rec]);
    engine.produce(&mut call, ProduceEvent::Start);
    engine.produce(&mut call, ProduceEvent::Acquired(true));
    let err = done(engine.produce(
        &mut call,
        ProduceEvent::Counted(Reply::Answered(Ok(None))),
    ))
    .unwrap_err();
    assert_eq!(err.code(), "TOPIC_NOT_FOUND");
    assert_eq!(err, CoreError::TopicNotFound("orders".into()));
}

#[test]
fn fetch_rejects_out_of_range_partition() {
    let engine = engine();
    let mut call = FetchCall::new(topic(), PartitionId(5), Offset::zero(), 10);
    assert!(matches!(
        engine.fetch(&mut call, FetchEvent::Start),
        FetchStep::Count(1)
    ));
    let FetchStep::Done(Err(err)) = engine.fetch(
        &mut call,
        FetchEvent::Counted(Reply::Answered(Ok(Some(2)))),
    ) else {
        panic!("expected an error");
    };
    assert_eq!(err.code(), "PARTITION_OUT_OF_RANGE");
    assert_eq!(
        err,
        CoreError::PartitionOutOfRange {
            topic: "orders".into(),
            partition: 5,
            count: 2
        }
    );
}

#[test]
fn store_call_retries_transient_then_succeeds() {
    let mut engine = engine();
    let rec = ProduceRecord::new(None, b"x".to_vec()).unwrap();
    let (mut call, step) = routed(&mut engine, vec![rec], 1);
    let ProduceStep::Append(partition, timestamp, 1) = step else {
        panic!("{step:?}");
    };
    let mut calls = 1;
    let step = engine.produce(
        &mut call,
        ProduceEvent::Appended(Reply::Answered(Err(PortError::Transient("flap".into())))),
    );
    let ProduceStep::Append(again, same_time, 2) = step else {
        panic!("{step:?}");
    };
    calls += 1;
    assert_eq!((again, same_time), (partition, timestamp));
    let appended = outcome(&call, &step, 0);
    let out = done(engine.produce(
        &mut call,
        ProduceEvent::Appended(Reply::Answered(Ok(appended))),
    ))
    .unwrap();
    assert_eq!(out.result.count, 1);
    assert!(calls >= 2);
}

#[test]
fn invalid_records_and_spent_budgets_are_refused() {
    let mut engine = engine();
    let good = ProduceRecord::new(None, b"x".to_vec()).unwrap();
    let bad = ProduceRecord {
        key: None,
        payload: Vec::new(),
    };
    let mut call = ProduceCall::new(topic(), vec![good.clone(), bad]);
    let err = done(engine.produce(&mut call, ProduceEvent::Start)).unwrap_err();
    assert_eq!(err.code(), "EMPTY_PAYLOAD");

    let mut call = ProduceCall::new(topic(), vec![good]);
    engine.produce(&mut call, ProduceEvent::Start);
    let err = done(engine.produce(&mut call, ProduceEvent::Acquired(false))).unwrap_err();
    assert_eq!(err, CoreError::RateLimited);
}

#[test]
fn keyed_batches_stay_and_keyless_ones_take_turns() {
    let mut engine = engine();
    let keyed = || vec![ProduceRecord::new(Some("user-42".into()), vec![1]).unwrap()];
    let keyless = || vec![ProduceRecord::new(None, vec![1]).unwrap()];
    let partition = |step: &ProduceStep| match step {
        ProduceStep::Append(p, _, _) => p.value(),
        other => panic!("{other:?}"),
    };
    let (_, first) = routed(&mut engine, keyed(), 8);
    let mut seen = Vec::new();
    for _ in 0..5 {
        let (_, step) = routed(&mut engine, keyless(), 3);
        seen.push(partition(&step));
    }
    assert_eq!(seen, [0, 1, 2, 0, 1]);
    let (_, second) = routed(&mut engine, keyed(), 8);
    assert_eq!(partition(&first), partition(&second));
    let config = TopicConfig::new(topic(), 8, RetentionPolicy::default()).unwrap();
    assert_eq!(
        config.partition_for(Some("user-42"), 0).value(),
        partition(&first)
    );
}

#[test]
fn pruning_is_reported_and_published() {
    let mut engine = engine();
    let batch: Vec<ProduceRecord> = (1..4)
        .map(|i| ProduceRecord::new(None, vec![i]).unwrap())
        .collect();
    let (mut call, step) = routed(&mut engine, batch, 1);
    let mut appended = outcome(&call, &step, 10);
    appended.truncated_to = Some(Offset(8));
    let out = done(engine.produce(
        &mut call,
        ProduceEvent::Appended(Reply::Answered(Ok(appended))),
    ))
    .unwrap();
    assert_eq!(out.result.base_offset, Offset(10));
    assert_eq!(out.result.last_offset, Offset(12));
    assert_eq!(out.result.count, 3);
    assert_eq!(out.result.truncated_to, Some(Offset(8)));
    let kinds: Vec<&str> = out.events.iter().map(LogEvent::kind).collect();
    assert_eq!(kinds, ["records_appended", "records_truncated"]);
    assert!(matches!(
        &out.events[0],
        LogEvent::RecordsAppended { base_offset: Offset(10), records, .. } if records.len() == 3
    ));
}

#[test]
fn storage_failures_end_the_call() {
    let engine = engine();
    let limit = engine.retry().max_attempts;
    assert!(matches!(
        engine.topics(limit, Reply::Answered(Err(PortError::Transient("x".into())))),
        Verdict::Done(Err(CoreError::Port(PortError::Transient(_))))
    ));
    assert!(matches!(
        engine.topics(1, Reply::Answered(Err(PortError::Unavailable("x".into())))),
        Verdict::Retry(2)
    ));
    assert!(matches!(
        engine.topics(1, Reply::Answered(Err(PortError::Permanent("x".into())))),
        Verdict::Done(Err(CoreError::Port(PortError::Permanent(_))))
    ));
    assert!(matches!(
        engine.topics(1, Reply::TimedOut),
        Verdict::Retry(2)
    ));
    assert!(matches!(
        engine.topics(limit, Reply::TimedOut),
        Verdict::Done(Err(CoreError::Timeout))
    ));
    let stats = LogStats {
        topics: 1,
        ..LogStats::default()
    };
    match engine.stats(1, Reply::Answered(Ok(stats))) {
        Verdict::Done(Ok(s)) => assert_eq!(s, stats),
        other => panic!("{other:?}"),
    }
}

#[test]
fn create_topic_checks_capacity_and_existence() {
    let engine = LogEngine::new(LogConfig {
        max_topics: 1,
        ..LogConfig::default()
    });
    let retention = RetentionPolicy::default();

    let mut call = CreateCall::new(topic(), 0, retention);
    assert!(matches!(
        engine.create_topic(&mut call, CreateEvent::Start),
        CreateStep::List(1)
    ));
    let CreateStep::Create(config, 1) = engine.create_topic(
        &mut call,
        CreateEvent::Listed(Reply::Answered(Ok(Vec::new()))),
    ) else {
        panic!("expected a creation");
    };
    assert_eq!(config.partitions, 3);
    let CreateStep::Create(_, 2) = engine.create_topic(
        &mut call,
        CreateEvent::Created(Reply::Answered(Err(PortError::Transient("x".into())))),
    ) else {
        panic!("expected a retry");
    };
    let CreateStep::Done(Ok((made, event))) = engine.create_topic(
        &mut call,
        CreateEvent::Created(Reply::Answered(Ok(true))),
    ) else {
        panic!("expected success");
    };
    assert_eq!(made, config);
    assert!(matches!(
        event,
        LogEvent::TopicCreated { partitions: 3, .. }
    ));

    let mut call = CreateCall::new(topic(), 1, retention);
    engine.create_topic(&mut call, CreateEvent::Start);
    let CreateStep::Done(Err(e)) = engine.create_topic(
        &mut call,
        CreateEvent::Listed(Reply::Answered(Ok(vec![config]))),
    ) else {
        panic!("expected a refusal");
    };
    assert_eq!(e, CoreError::CapacityExceeded(1));

    let mut call = CreateCall::new(topic(), 1, retention);
    engine.create_topic(&mut call, CreateEvent::Start);
    engine.create_topic(
        &mut call,
        CreateEvent::Listed(Reply::Answered(Ok(Vec::new()))),
    );
    let CreateStep::Done(Err(e)) = engine.create_topic(
        &mut call,
        CreateEvent::Created(Reply::Answered(Ok(false))),
    ) else {
        panic!("expected a refusal");
    };
    assert_eq!(e, CoreError::TopicExists("orders".into()));

    let bad = RetentionPolicy {
        segment_max_records: 0,
        max_records: 1,
    };
    let mut call = CreateCall::new(topic(), 1, bad);
    let CreateStep::Done(Err(e)) = engine.create_topic(&mut call, CreateEvent::Start) else {
        panic!("expected a refusal");
    };
    assert_eq!(e.code(), "ZERO_SEGMENT_SIZE");
}

#[test]
fn fetch_clamps_what_it_asks_for() {
    let engine = engine();
    for (asked, wanted) in [(0, 1), (1, 1), (10, 10), (5000, 1024)] {
        let mut call = FetchCall::new(topic(), PartitionId(1), Offset(4), asked);
        engine.fetch(&mut call, FetchEvent::Start);
        match engine.fetch(
            &mut call,
            FetchEvent::Counted(Reply::Answered(Ok(Some(2)))),
        ) {
            FetchStep::Fetch(PartitionId(1), Offset(4), max, 1) => assert_eq!(max, wanted),
            other => panic!("{other:?}"),
        }
        assert!(matches!(
            engine.fetch(
                &mut call,
                FetchEvent::Fetched(Reply::Answered(Err(PortError::Unavailable("x".into()))))
            ),
            FetchStep::Fetch(_, _, _, 2)
        ));
        let result = FetchResult::empty(Offset(4));
        match engine.fetch(
            &mut call,
            FetchEvent::Fetched(Reply::Answered(Ok(result.clone()))),
        ) {
            FetchStep::Done(Ok(got)) => assert_eq!(got, result),
            other => panic!("{other:?}"),
        }
    }
    let mut call = FetchCall::new(topic(), PartitionId(0), Offset(0), 1);
    engine.fetch(&mut call, FetchEvent::Start);
    assert!(matches!(
        engine.fetch(&mut call, FetchEvent::Counted(Reply::Answered(Ok(None)))),
        FetchStep::Done(Err(CoreError::TopicNotFound(_)))
    ));
    let mut call = FetchCall::new(topic(), PartitionId(0), Offset(0), 1);
    engine.fetch(&mut call, FetchEvent::Start);
    for attempt in 2..4 {
        match engine.fetch(&mut call, FetchEvent::Counted(Reply::TimedOut)) {
            FetchStep::Count(n) => assert_eq!(n, attempt),
            other => panic!("{other:?}"),
        }
    }
    assert!(matches!(
        engine.fetch(&mut call, FetchEvent::Counted(Reply::TimedOut)),
        FetchStep::Done(Err(CoreError::Timeout))
    ));
}

#[test]
fn pauses_double_up_to_the_maximum() {
    let policy = RetryPolicy {
        max_attempts: 9,
        base_delay: 20,
        max_delay: 100,
    };
    let pauses: Vec<u64> = (0..7).map(|n| policy.pause_before(n)).collect();
    assert_eq!(pauses, [0, 0, 20, 40, 80, 100, 100]);
    let policy = RetryPolicy {
        max_attempts: 2,
        base_delay: u64::MAX,
        max_delay: u64::MAX,
    };
    assert_eq!(policy.pause_before(9), u64::MAX);
}

#[test]
fn jitter_keeps_half_of_the_pause() {
    let pauses: Vec<u64> = (0..8).map(|chance| equal_jitter(5, chance)).collect();
    assert_eq!(pauses, [3, 4, 5, 3, 4, 5, 3, 4]);
    assert_eq!(equal_jitter(0, 9), 0);
    assert_eq!(equal_jitter(u64::MAX, 0), u64::MAX / 2 + 1);
}
