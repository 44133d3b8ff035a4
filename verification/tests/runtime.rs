use connectforge::connector::{
    Checkpoint, ConnectorId, ConnectorKind, DeadLetterRecord, DeliveryGuarantee, DeliveryReport,
};
use connectforge::error::{CoreError, PortError};
use connectforge::pipeline::{
    summary, Pipeline, PipelineAction, PipelineEvent, PipelineMode, PipelineTotals,
};
use connectforge::record::{ProduceRecord, Record};
use connectforge::sink::{SinkAction, SinkConfig, SinkEvent, SinkRuntime};
use connectforge::source::{SourceAction, SourceEvent, SourceRuntime};
use connectforge::stats::FetchResult;
use connectforge::timestamp::Timestamp;
use connectforge::units::{Offset, PartitionId, TopicName};

fn record(offset: u64) -> Record {
    Record {
        offset: Offset(offset),
        timestamp: Timestamp::now(),
        key: None,
        payload: vec![offset as u8],
    }
}

fn id() -> ConnectorId {
    ConnectorId::new("sink-1".to_string()).unwrap()
}

fn topic() -> TopicName {
    TopicName::new("events".to_string()).unwrap()
}

fn sink(config: SinkConfig) -> SinkRuntime {
    SinkRuntime::new(id(), topic(), PartitionId(0), config)
}

/// What stands around a sink: a log, a saved checkpoint, an adapter that
/// delivers, and a dead-letter queue, with a trace of all that was done.
struct World {
    log: Vec<Record>,
    checkpoint: Option<Offset>,
    save_fails: bool,
    queue_fails: bool,
    deliveries: Vec<(u64, u32)>,
    letters: Vec<DeadLetterRecord>,
    trace: Vec<String>,
}

fn world(log: Vec<Record>) -> World {
    World {
        log,
        checkpoint: None,
        save_fails: false,
        queue_fails: false,
        deliveries: Vec::new(),
        letters: Vec::new(),
        trace: Vec::new(),
    }
}

fn run(
    runtime: &mut SinkRuntime,
    world: &mut World,
    deliver: &mut dyn FnMut(&Record, u32) -> Result<(), PortError>,
) -> Result<DeliveryReport, CoreError> {
    let mut action = runtime.run_once(SinkEvent::Start);
    loop {
        let event = match action {
            SinkAction::Done(result) => return result,
            SinkAction::Load => {
                world.trace.push("load".into());
                SinkEvent::Loaded(Ok(world.checkpoint))
            }
            SinkAction::Fetch(from, max) => {
                world.trace.push(format!("fetch {} {}", from.value(), max));
                let records: Vec<Record> = world
                    .log
                    .iter()
                    .filter(|r| r.offset.value() >= from.value())
                    .take(max)
                    .cloned()
                    .collect();
                let next = records.last().map_or(from, |r| r.offset.next());
                SinkEvent::Fetched(Ok(FetchResult {
                    records,
                    next_offset: next,
                    high_watermark: next,
                }))
            }
            SinkAction::Save(checkpoint) => {
                world.trace.push(format!("save {}", checkpoint.offset.value()));
                assert_eq!(checkpoint.connector, id());
                assert_eq!(checkpoint.topic, topic());
                if world.save_fails {
                    SinkEvent::Saved(Err(PortError::Transient("disk".into())))
                } else {
                    world.checkpoint = Some(checkpoint.offset);
                    SinkEvent::Saved(Ok(()))
                }
            }
            SinkAction::Deliver(record, attempt) => {
                world
                    .trace
                    .push(format!("deliver {} {}", record.offset.value(), attempt));
                world.deliveries.push((record.offset.value(), attempt));
                SinkEvent::Delivered(deliver(&record, attempt))
            }
            SinkAction::DeadLetter(letter) => {
                world.trace.push(format!("bury {}", letter.offset.value()));
                if world.queue_fails {
                    SinkEvent::DeadLettered(Err(PortError::Unavailable("queue".into())))
                } else {
                    world.letters.push(letter);
                    SinkEvent::DeadLettered(Ok(()))
                }
            }
        };
        action = runtime.run_once(event);
    }
}

#[test]
fn delivers_all_records_and_checkpoints() {
    let mut world = world(vec![record(0), record(1), record(2)]);
    let mut runtime = sink(SinkConfig::default());
    let report = run(&mut runtime, &mut world, &mut |_, _| Ok(())).unwrap();
    assert_eq!(report.polled, 3);
    assert_eq!(report.delivered, 3);
    assert_eq!(report.dead_lettered, 0);
    assert_eq!(report.checkpoint, Offset(3));
    assert!(world.letters.is_empty());
}

#[test]
fn permanent_failure_dead_letters() {
    let mut world = world(vec![record(0)]);
    let mut runtime = sink(SinkConfig::default());
    let report = run(&mut runtime, &mut world, &mut |_, _| {
        Err(PortError::Permanent("bad record".into()))
    })
    .unwrap();
    assert_eq!(report.delivered, 0);
    assert_eq!(report.dead_lettered, 1);
    assert_eq!(runtime.dead_lettered(), 1);
    assert_eq!(world.letters.len(), 1);
}

#[test]
fn retries_transient_then_succeeds() {
    let mut world = world(vec![record(0)]);
    let mut attempts = 0u32;
    let cfg = SinkConfig {
        base_backoff: 1,
        ..SinkConfig::default()
    };
    let mut runtime = sink(cfg);
    let report = run(&mut runtime, &mut world, &mut |_, _| {
        attempts += 1;
        if attempts == 1 {
            Err(PortError::Transient("flaky".into()))
        } else {
            Ok(())
        }
    })
    .unwrap();
    assert_eq!(report.delivered, 1);
    assert!(attempts >= 2);
    assert!(world.letters.is_empty());
}

#[test]
fn empty_partition_reports_zero() {
    let mut world = world(vec![]);
    let mut runtime = sink(SinkConfig::default());
    let report = run(&mut runtime, &mut world, &mut |_, _| {
        panic!("nothing to deliver")
    })
    .unwrap();
    assert_eq!(report.polled, 0);
    assert!(world.letters.is_empty());
}

#[test]
fn at_least_once_saves_after_delivery() {
    let mut world = world(vec![record(4), record(5)]);
    let mut runtime = sink(SinkConfig::default());
    run(&mut runtime, &mut world, &mut |_, _| Ok(())).unwrap();
    assert_eq!(
        world.trace,
        ["load", "fetch 0 500", "deliver 4 1", "deliver 5 1", "save 6"]
    );
    assert_eq!(world.checkpoint, Some(Offset(6)));
    assert_eq!(runtime.cursor(), Some(Offset(6)));
}

#[test]
fn at_most_once_saves_before_delivery() {
    let mut world = world(vec![record(0), record(1)]);
    let mut runtime = sink(SinkConfig {
        guarantee: DeliveryGuarantee::AtMostOnce,
        ..SinkConfig::default()
    });
    let report = run(&mut runtime, &mut world, &mut |r, _| {
        if r.offset.value() == 0 {
            Err(PortError::Permanent("no".into()))
        } else {
            Ok(())
        }
    })
    .unwrap();
    assert_eq!(
        world.trace,
        ["load", "fetch 0 500", "save 2", "deliver 0 1", "bury 0", "deliver 1 1"]
    );
    assert_eq!(
        report,
        DeliveryReport {
            polled: 2,
            delivered: 1,
            dead_lettered: 1,
            checkpoint: Offset(2)
        }
    );
    // Nothing is left to read, and nothing is redelivered.
    world.trace.clear();
    let again = run(&mut runtime, &mut world, &mut |_, _| Ok(())).unwrap();
    assert_eq!(again.polled, 0);
    assert_eq!(world.trace, ["fetch 2 500"]);
}

#[test]
fn failed_save_redelivers_at_least_once() {
    let mut world = world(vec![record(0), record(1)]);
    let mut runtime = sink(SinkConfig::default());
    world.save_fails = true;
    let err = run(&mut runtime, &mut world, &mut |_, _| Ok(())).unwrap_err();
    assert_eq!(err, CoreError::Port(PortError::Transient("disk".into())));
    assert_eq!(runtime.cursor(), Some(Offset(0)));
    world.save_fails = false;
    let report = run(&mut runtime, &mut world, &mut |_, _| Ok(())).unwrap();
    assert_eq!(report.delivered, 2);
    assert_eq!(world.deliveries, [(0, 1), (1, 1), (0, 1), (1, 1)]);
    assert_eq!(runtime.processed(), 4);
}

#[test]
fn failed_save_delivers_nothing_at_most_once() {
    let mut world = world(vec![record(0)]);
    world.save_fails = true;
    let mut runtime = sink(SinkConfig {
        guarantee: DeliveryGuarantee::AtMostOnce,
        ..SinkConfig::default()
    });
    assert!(run(&mut runtime, &mut world, &mut |_, _| Ok(())).is_err());
    assert!(world.deliveries.is_empty());
}

#[test]
fn at_most_once_never_goes_back() {
    let mut world = world(vec![record(0), record(1)]);
    world.queue_fails = true;
    let mut runtime = sink(SinkConfig {
        guarantee: DeliveryGuarantee::AtMostOnce,
        ..SinkConfig::default()
    });
    let refuse = |_: &Record, _: u32| Err(PortError::Permanent("no".into()));
    assert!(run(&mut runtime, &mut world, &mut { refuse }).is_err());
    assert_eq!(
        world.trace,
        ["load", "fetch 0 500", "save 2", "deliver 0 1", "bury 0"]
    );
    world.trace.clear();
    let report = run(&mut runtime, &mut world, &mut { refuse }).unwrap();
    assert_eq!(world.trace, ["fetch 2 500"]);
    assert_eq!((report.polled, report.checkpoint), (0, Offset(2)));
}

#[test]
fn failed_dead_letter_stops_the_round() {
    let mut world = world(vec![record(0), record(1)]);
    world.queue_fails = true;
    let mut runtime = sink(SinkConfig::default());
    let err = run(&mut runtime, &mut world, &mut |_, _| {
        Err(PortError::Permanent("no".into()))
    })
    .unwrap_err();
    assert_eq!(err, CoreError::Port(PortError::Unavailable("queue".into())));
    assert_eq!(world.checkpoint, None);
    assert_eq!(runtime.dead_lettered(), 0);
}

#[test]
fn exhausted_retries_dead_letter_with_the_reason() {
    let mut world = world(vec![record(7)]);
    let mut runtime = sink(SinkConfig::default());
    let report = run(&mut runtime, &mut world, &mut |_, _| {
        Err(PortError::Unavailable("down".into()))
    })
    .unwrap();
    assert_eq!(world.deliveries, [(7, 1), (7, 2), (7, 3)]);
    assert_eq!(report.dead_lettered, 1);
    let letter = &world.letters[0];
    assert_eq!(letter.connector, id());
    assert_eq!(letter.topic, topic());
    assert_eq!(letter.partition, PartitionId(0));
    assert_eq!(letter.offset, Offset(7));
    assert_eq!(letter.payload, vec![7]);
    assert_eq!(letter.reason, "dependency unavailable: down");
    assert_eq!(letter.attempts, 3);
}

#[test]
fn attempts_tell_how_many_were_made() {
    let mut once = world(vec![record(0)]);
    let mut runtime = sink(SinkConfig {
        max_attempts: 0,
        ..SinkConfig::default()
    });
    run(&mut runtime, &mut once, &mut |_, _| {
        Err(PortError::Transient("x".into()))
    })
    .unwrap();
    assert_eq!(once.deliveries, [(0, 1)]);
    assert_eq!(once.letters[0].attempts, 1);

    let mut twice = world(vec![record(0)]);
    let mut runtime = sink(SinkConfig::default());
    run(&mut runtime, &mut twice, &mut |_, attempt| {
        if attempt == 1 {
            Err(PortError::Transient("x".into()))
        } else {
            Err(PortError::NotFound("gone".into()))
        }
    })
    .unwrap();
    assert_eq!(twice.deliveries, [(0, 1), (0, 2)]);
    assert_eq!(twice.letters.len(), 1);
    assert_eq!(twice.letters[0].attempts, 2);
    assert_eq!(twice.letters[0].reason, "not found: gone");
}

#[test]
fn restart_resumes_at_the_checkpoint() {
    let mut world = world((0..5).map(record).collect());
    let cfg = SinkConfig {
        batch_size: 2,
        ..SinkConfig::default()
    };
    let mut first = sink(cfg);
    run(&mut first, &mut world, &mut |_, _| Ok(())).unwrap();
    let mut second = sink(cfg);
    world.trace.clear();
    run(&mut second, &mut world, &mut |_, _| Ok(())).unwrap();
    assert_eq!(
        world.trace,
        ["load", "fetch 2 2", "deliver 2 1", "deliver 3 1", "save 4"]
    );
}

#[test]
fn failed_load_and_fetch_surface() {
    let mut runtime = sink(SinkConfig::default());
    assert!(matches!(
        runtime.run_once(SinkEvent::Start),
        SinkAction::Load
    ));
    let action = runtime.run_once(SinkEvent::Loaded(Err(PortError::Permanent("x".into()))));
    assert!(matches!(
        action,
        SinkAction::Done(Err(CoreError::Port(PortError::Permanent(_))))
    ));
    assert_eq!(runtime.cursor(), None);
    runtime.run_once(SinkEvent::Start);
    runtime.run_once(SinkEvent::Loaded(Ok(None)));
    let action = runtime.run_once(SinkEvent::Fetched(Err(PortError::NotFound("t".into()))));
    assert!(matches!(
        action,
        SinkAction::Done(Err(CoreError::Port(PortError::NotFound(_))))
    ));
}

#[test]
fn status_tells_the_checkpoint() {
    let mut runtime = sink(SinkConfig::default());
    let err = runtime
        .status(Err(PortError::Transient("x".into())))
        .unwrap_err();
    assert_eq!(err.code(), "PORT_ERROR");
    let status = runtime.status(Ok(Some(Offset(9)))).unwrap();
    assert_eq!(status.id, id());
    assert_eq!(status.kind, ConnectorKind::Sink);
    assert_eq!(status.guarantee, DeliveryGuarantee::AtLeastOnce);
    assert!(status.running);
    assert_eq!(status.checkpoint, Offset(9));
    // The position is remembered.
    let status = runtime.status(Ok(Some(Offset(1)))).unwrap();
    assert_eq!(status.checkpoint, Offset(9));
    let fresh = sink(SinkConfig::default()).status(Ok(None)).unwrap();
    assert_eq!(fresh.checkpoint, Offset(0));
    assert_eq!((fresh.processed, fresh.dead_lettered), (0, 0));
}

#[test]
fn sink_defaults() {
    let c = SinkConfig::default();
    assert_eq!(c.guarantee, DeliveryGuarantee::AtLeastOnce);
    assert_eq!((c.max_attempts, c.batch_size, c.base_backoff), (3, 500, 20));
    assert_eq!(
        DeliveryReport::default(),
        DeliveryReport {
            polled: 0,
            delivered: 0,
            dead_lettered: 0,
            checkpoint: Offset(0)
        }
    );
    let c = Checkpoint {
        connector: id(),
        topic: topic(),
        partition: PartitionId(1),
        offset: Offset(2),
    };
    assert_eq!(c.clone(), c);
}

#[test]
fn source_polls_and_appends() {
    let mut runtime = SourceRuntime::new(
        ConnectorId::new("src-1".to_string()).unwrap(),
        topic(),
        PartitionId(0),
    );
    assert!(matches!(
        runtime.run_once(SourceEvent::Start),
        SourceAction::Poll
    ));
    let polled = vec![
        ProduceRecord::new(None, vec![1]).unwrap(),
        ProduceRecord::new(None, vec![2]).unwrap(),
    ];
    match runtime.run_once(SourceEvent::Polled(Ok(polled.clone()))) {
        SourceAction::Append(records, _) => assert_eq!(records, polled),
        other => panic!("{other:?}"),
    }
    match runtime.run_once(SourceEvent::Appended(Ok(()))) {
        SourceAction::Done(Ok(n)) => assert_eq!(n, 2),
        other => panic!("{other:?}"),
    }
    assert_eq!(runtime.produced(), 2);
}

#[test]
fn source_status_tells_what_was_produced() {
    let mut runtime = SourceRuntime::new(id(), topic(), PartitionId(0));
    runtime.run_once(SourceEvent::Start);
    runtime.run_once(SourceEvent::Polled(Ok(vec![
        ProduceRecord::new(None, vec![1]).unwrap(),
        ProduceRecord::new(None, vec![2]).unwrap(),
    ])));
    runtime.run_once(SourceEvent::Appended(Ok(())));
    let status = runtime.status();
    assert_eq!(status.id, id());
    assert_eq!(status.kind, ConnectorKind::Source);
    assert_eq!(status.guarantee, DeliveryGuarantee::AtLeastOnce);
    assert!(status.running);
    assert_eq!((status.processed, status.dead_lettered), (2, 0));
    assert_eq!(status.checkpoint, Offset(0));
}

fn report(polled: u64, delivered: u64, dead_lettered: u64) -> PipelineEvent {
    PipelineEvent::Sunk(DeliveryReport {
        polled,
        delivered,
        dead_lettered,
        checkpoint: Offset(0),
    })
}

#[test]
fn pipeline_drains_the_source_and_then_the_sink() {
    let mut pipeline = Pipeline::new(PipelineMode::Drain);
    assert_eq!(pipeline.step(PipelineEvent::Start), PipelineAction::RunSource);
    assert_eq!(pipeline.step(PipelineEvent::Sourced(500)), PipelineAction::RunSource);
    assert_eq!(pipeline.step(PipelineEvent::Sourced(7)), PipelineAction::RunSource);
    assert_eq!(pipeline.step(PipelineEvent::Sourced(0)), PipelineAction::RunSink);
    assert_eq!(pipeline.step(report(500, 499, 1)), PipelineAction::RunSink);
    assert_eq!(pipeline.step(report(7, 5, 2)), PipelineAction::RunSink);
    let totals = PipelineTotals {
        sourced: 507,
        delivered: 504,
        dead_lettered: 3,
    };
    assert_eq!(pipeline.step(report(0, 0, 0)), PipelineAction::Done(totals));
    assert_eq!(
        summary("demo", DeliveryGuarantee::AtLeastOnce, totals, 3),
        [
            "ConnectForge connector demo",
            "  topic               : demo",
            "  guarantee           : at-least-once",
            "  records sourced     : 507",
            "  records delivered   : 504",
            "  records dead-lettered: 3",
            "  dlq size            : 3",
        ]
    );
}

#[test]
fn pipeline_totals_have_an_end() {
    let mut pipeline = Pipeline::new(PipelineMode::Drain);
    pipeline.step(PipelineEvent::Start);
    assert!(pipeline.has_room(&PipelineEvent::Sourced(u64::MAX)));
    pipeline.step(PipelineEvent::Sourced(u64::MAX));
    assert!(!pipeline.has_room(&PipelineEvent::Sourced(1)));
    pipeline.step(PipelineEvent::Sourced(0));
    pipeline.step(report(1, u64::MAX, 0));
    assert!(!pipeline.has_room(&report(1, 1, 0)));
    assert!(pipeline.has_room(&report(1, 0, 1)));
}

#[test]
fn pipeline_tick_runs_the_source_once_and_publishes() {
    let mut pipeline = Pipeline::new(PipelineMode::Tick);
    pipeline.step(PipelineEvent::Start);
    assert_eq!(pipeline.step(PipelineEvent::Sourced(200)), PipelineAction::RunSink);
    assert_eq!(pipeline.step(report(200, 200, 0)), PipelineAction::RunSink);
    assert_eq!(pipeline.step(report(0, 0, 0)), PipelineAction::Publish);
    assert_eq!(
        pipeline.step(PipelineEvent::Published),
        PipelineAction::Done(PipelineTotals {
            sourced: 200,
            delivered: 200,
            dead_lettered: 0
        })
    );
}

#[test]
fn idle_and_failing_sources() {
    let mut runtime = SourceRuntime::new(id(), topic(), PartitionId(3));
    assert_eq!(runtime.partition(), PartitionId(3));
    assert_eq!(runtime.topic(), &topic());
    assert_eq!(runtime.id(), &id());
    runtime.run_once(SourceEvent::Start);
    assert!(matches!(
        runtime.run_once(SourceEvent::Polled(Ok(Vec::new()))),
        SourceAction::Done(Ok(0))
    ));
    runtime.run_once(SourceEvent::Start);
    assert!(matches!(
        runtime.run_once(SourceEvent::Polled(Err(PortError::Transient("x".into())))),
        SourceAction::Done(Err(CoreError::Port(PortError::Transient(_))))
    ));
    runtime.run_once(SourceEvent::Start);
    runtime.run_once(SourceEvent::Polled(Ok(vec![
        ProduceRecord::new(None, vec![1]).unwrap()
    ])));
    assert!(matches!(
        runtime.run_once(SourceEvent::Appended(Err(PortError::NotFound("t".into())))),
        SourceAction::Done(Err(CoreError::Port(PortError::NotFound(_))))
    ));
    assert_eq!(runtime.produced(), 0);
}
