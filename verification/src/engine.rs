//! The log engine: the transactional heart of the broker.
//!
//! Producing is the write/command path (validate, rate-limit, durably append,
//! publish), fetching the read/query path (pull records by offset). Every
//! storage call may be tried again after a transient failure. The engine
//! performs nothing itself: a call is told what happened last and says what to
//! do next.

use crate::config::LogConfig;
use crate::error::{CoreError, CoreErrorView, PortError};
use crate::event;
use crate::event::{LogEvent, LogEventView};
use crate::invalid::InvalidRecord;
use crate::ports::{AppendOutcome, AppendOutcomeView};
use crate::record;
use crate::record::{ProduceRecord, ProduceRecordView};
use crate::retry;
use crate::retry::RetryPolicy;
use crate::stats::{FetchResult, FetchResultView, LogStats, ProduceResult};
use crate::timestamp::Timestamp;
use crate::topic;
use crate::topic::{slot_for, RetentionPolicy, TopicConfig};
use crate::units::{Offset, PartitionId, TopicName};
use vstd::prelude::*;
use vstd::string::*;

verus! {

/// How a storage operation ended.
#[derive(Debug)]
pub enum Reply<T> {
    /// The store answered.
    Answered(Result<T, PortError>),
    /// The store did not answer in time.
    TimedOut,
}

/// What follows from the end of a storage operation.
#[derive(Debug)]
pub enum Verdict<T> {
    /// The operation is to be tried again; the number counts the attempts from
    /// one.
    Retry(u32),
    /// The operation is over.
    Done(Result<T, CoreError>),
}

/// The broker engine.
#[derive(Debug)]
pub struct LogEngine {
    config: LogConfig,
    retry: RetryPolicy,
    round_robin: u64,
}

/// What is known of an engine: its configuration, its retry policy, and whose
/// turn it is among the partitions.
#[verifier::ext_equal]
pub struct EngineView {
    pub config: LogConfig,
    pub retry: RetryPolicy,
    pub round_robin: u64,
}

impl View for LogEngine {
    type V = EngineView;

    closed spec fn view(&self) -> EngineView {
        EngineView { config: self.config, retry: self.retry, round_robin: self.round_robin }
    }
}

impl EngineView {
    /// What follows from the end of a storage operation in its `attempt`-th
    /// attempt: a transient failure, and an attempt that timed out, are tried
    /// again while attempts are left.
    pub open spec fn verdict<T>(self, attempt: u32, reply: Reply<T>) -> Verdict<T> {
        match reply {
            Reply::Answered(Ok(value)) => Verdict::Done(Ok(value)),
            Reply::Answered(Err(e)) => if retry::retries(self.retry.max_attempts, attempt, e) {
                Verdict::Retry((attempt + 1) as u32)
            } else {
                Verdict::Done(Err(CoreError::Port(e)))
            },
            Reply::TimedOut => if retry::left(self.retry.max_attempts, attempt) {
                Verdict::Retry((attempt + 1) as u32)
            } else {
                Verdict::Done(Err(CoreError::Timeout))
            },
        }
    }
}

impl LogEngine {
    /// Assemble an engine from its config.
    pub fn new(config: LogConfig) -> (r: LogEngine)
        ensures
            r@ == (EngineView {
                config,
                retry: RetryPolicy { max_attempts: 3, base_delay: 20, max_delay: 1000 },
                round_robin: 0,
            }),
    {
        LogEngine { config, retry: RetryPolicy::default(), round_robin: 0 }
    }

    /// The configuration.
    pub fn config(&self) -> (r: LogConfig)
        ensures
            r == self@.config,
    {
        self.config
    }

    /// The retry policy of storage operations.
    pub fn retry(&self) -> (r: RetryPolicy)
        ensures
            r == self@.retry,
    {
        self.retry
    }

    /// What follows from the end of a storage operation.
    pub fn store_call<T>(&self, attempt: u32, reply: Reply<T>) -> (r: Verdict<T>)
        ensures
            r == self@.verdict(attempt, reply),
    {
        match reply {
            Reply::Answered(Ok(value)) => Verdict::Done(Ok(value)),
            Reply::Answered(Err(e)) => {
                if retry::can_retry(self.retry.max_attempts, attempt, &e) {
                    Verdict::Retry(attempt + 1)
                } else {
                    Verdict::Done(Err(CoreError::Port(e)))
                }
            },
            Reply::TimedOut => {
                if retry::has_left(self.retry.max_attempts, attempt) {
                    Verdict::Retry(attempt + 1)
                } else {
                    Verdict::Done(Err(CoreError::Timeout))
                }
            },
        }
    }

    /// List all topics (query): what follows from the store's listing.
    pub fn topics(&self, attempt: u32, reply: Reply<Vec<TopicConfig>>) -> (r: Verdict<
        Vec<TopicConfig>,
    >)
        ensures
            r == self@.verdict(attempt, reply),
    {
        self.store_call(attempt, reply)
    }

    /// Aggregate broker statistics (query): what follows from the store's
    /// statistics.
    pub fn stats(&self, attempt: u32, reply: Reply<LogStats>) -> (r: Verdict<LogStats>)
        ensures
            r == self@.verdict(attempt, reply),
    {
        self.store_call(attempt, reply)
    }
}

/// What a produce call waits for.
#[derive(Debug, Clone, Copy)]
pub enum ProducePhase {
    /// To be started.
    New,
    /// The produce budget.
    Acquiring,
    /// The topic's partition count, in so many attempts.
    Counting(u32),
    /// The append to a partition with a timestamp, in so many attempts.
    Appending(PartitionId, Timestamp, u32),
    /// Nothing more.
    Closed,
}

/// A batch of records on its way to a topic.
#[derive(Debug)]
pub struct ProduceCall {
    topic: TopicName,
    records: Vec<ProduceRecord>,
    phase: ProducePhase,
}

/// What is known of a produce call.
#[verifier::ext_equal]
pub struct ProduceCallView {
    pub topic: Seq<char>,
    pub records: Seq<ProduceRecordView>,
    pub phase: ProducePhase,
}

impl View for ProduceCall {
    type V = ProduceCallView;

    closed spec fn view(&self) -> ProduceCallView {
        ProduceCallView {
            topic: self.topic@,
            records: record::produce_views(self.records@),
            phase: self.phase,
        }
    }
}

impl ProduceCall {
    /// A call to produce a batch of records to a topic.
    pub fn new(topic: TopicName, records: Vec<ProduceRecord>) -> (r: ProduceCall)
        ensures
            r@ == (ProduceCallView {
                topic: topic@,
                records: record::produce_views(records@),
                phase: ProducePhase::New,
            }),
    {
        ProduceCall { topic, records, phase: ProducePhase::New }
    }

    /// The topic.
    pub fn topic(&self) -> (r: &TopicName)
        ensures
            r@ == self@.topic,
    {
        &self.topic
    }

    /// The batch.
    pub fn records(&self) -> (r: &Vec<ProduceRecord>)
        ensures
            record::produce_views(r@) == self@.records,
    {
        &self.records
    }
}

/// What happened to a produce call last.
#[derive(Debug)]
pub enum ProduceEvent {
    /// The call is to start.
    Start,
    /// The produce budget covered the batch, or did not.
    Acquired(bool),
    /// The store told the topic's partition count, or that it is unknown.
    Counted(Reply<Option<u32>>),
    /// The store appended the batch.
    Appended(Reply<AppendOutcome>),
}

/// The outcome of a successful produce call, with the events to publish.
#[derive(Debug)]
pub struct Produced {
    /// What the caller is told.
    pub result: ProduceResult,
    /// What is fanned out on the bus, in order.
    pub events: Vec<LogEvent>,
}

/// What a produced batch holds.
#[verifier::ext_equal]
pub struct ProducedView {
    pub result: ProduceResult,
    pub events: Seq<LogEventView>,
}

impl View for Produced {
    type V = ProducedView;

    open spec fn view(&self) -> ProducedView {
        ProducedView { result: self.result, events: event::event_views(self.events@) }
    }
}

/// What a produce call wants done next.
#[derive(Debug)]
pub enum ProduceStep {
    /// Take the budget for so many records.
    Acquire(usize),
    /// Ask for the topic's partition count.
    Count(u32),
    /// Append the batch to the partition, with the timestamp.
    Append(PartitionId, Timestamp, u32),
    /// The call is over.
    Done(Result<Produced, CoreError>),
}

/// What a produce step holds.
#[verifier::ext_equal]
pub enum ProduceStepView {
    Acquire(nat),
    Count(u32),
    Append(PartitionId, Timestamp, u32),
    Done(Result<ProducedView, CoreErrorView>),
}

impl View for ProduceStep {
    type V = ProduceStepView;

    open spec fn view(&self) -> ProduceStepView {
        match *self {
            ProduceStep::Acquire(n) => ProduceStepView::Acquire(n as nat),
            ProduceStep::Count(attempt) => ProduceStepView::Count(attempt),
            ProduceStep::Append(partition, timestamp, attempt) => ProduceStepView::Append(
                partition,
                timestamp,
                attempt,
            ),
            ProduceStep::Done(Ok(produced)) => ProduceStepView::Done(Ok(produced@)),
            ProduceStep::Done(Err(e)) => ProduceStepView::Done(Err(e@)),
        }
    }
}

/// What is wrong with the first bad record of a batch.
pub open spec fn first_problem(records: Seq<ProduceRecordView>) -> Option<InvalidRecord>
    decreases records.len(),
{
    if records.len() == 0 {
        None
    } else {
        match record::payload_problem(records[0].payload) {
            Some(problem) => Some(problem),
            None => first_problem(records.skip(1)),
        }
    }
}

/// What a stored batch is reported and published as.
pub open spec fn produced(
    topic: Seq<char>,
    partition: PartitionId,
    outcome: AppendOutcomeView,
) -> ProducedView {
    let records = outcome.records;
    let base = if records.len() > 0 {
        records[0].offset
    } else {
        0
    };
    let last = if records.len() > 0 {
        records.last().offset
    } else {
        0
    };
    let appended = seq![
        LogEventView::RecordsAppended {
            topic,
            partition: partition.0,
            base_offset: base,
            records,
        },
    ];
    ProducedView {
        result: ProduceResult {
            base_offset: Offset(base),
            last_offset: Offset(last),
            count: records.len() as usize,
            truncated_to: outcome.truncated_to,
        },
        events: match outcome.truncated_to {
            Some(start) => appended.push(
                LogEventView::RecordsTruncated { topic, partition: partition.0, new_start: start.0 },
            ),
            None => appended,
        },
    }
}

/// An engine, a produce call, and what is to be done next.
pub struct ProduceTurn {
    pub engine: EngineView,
    pub call: ProduceCallView,
    pub step: ProduceStepView,
}

impl EngineView {
    /// The call is over.
    pub open spec fn produce_ends(
        self,
        call: ProduceCallView,
        result: Result<ProducedView, CoreErrorView>,
    ) -> ProduceTurn {
        ProduceTurn {
            engine: self,
            call: ProduceCallView { phase: ProducePhase::Closed, ..call },
            step: ProduceStepView::Done(result),
        }
    }

    /// The topic's partition count is asked for.
    pub open spec fn produce_counts(self, call: ProduceCallView, attempt: u32) -> ProduceTurn {
        ProduceTurn {
            engine: self,
            call: ProduceCallView { phase: ProducePhase::Counting(attempt), ..call },
            step: ProduceStepView::Count(attempt),
        }
    }

    /// The batch is appended.
    pub open spec fn produce_appends(
        self,
        call: ProduceCallView,
        partition: PartitionId,
        timestamp: Timestamp,
        attempt: u32,
    ) -> ProduceTurn {
        ProduceTurn {
            engine: self,
            call: ProduceCallView {
                phase: ProducePhase::Appending(partition, timestamp, attempt),
                ..call
            },
            step: ProduceStepView::Append(partition, timestamp, attempt),
        }
    }

    /// The engine after a batch has been routed: a keyless one takes a turn.
    pub open spec fn routing(self, key: Option<Seq<char>>) -> EngineView {
        match key {
            Some(_) => self,
            None => EngineView {
                round_robin: ((self.round_robin + 1) % 0x1_0000_0000_0000_0000) as u64,
                ..self
            },
        }
    }

    /// What a produce call makes of an event that it awaits. The batch goes to a
    /// single partition: by the first record's key, or else in turn.
    pub open spec fn produce(
        self,
        call: ProduceCallView,
        event: ProduceEvent,
        now: Timestamp,
    ) -> ProduceTurn {
        match (call.phase, event) {
            (ProducePhase::New, ProduceEvent::Start) => if call.records.len() == 0 {
                self.produce_ends(call, Err(CoreErrorView::EmptyBatch))
            } else {
                match first_problem(call.records) {
                    Some(problem) => self.produce_ends(call, Err(CoreErrorView::Invalid(problem))),
                    None => ProduceTurn {
                        engine: self,
                        call: ProduceCallView { phase: ProducePhase::Acquiring, ..call },
                        step: ProduceStepView::Acquire(call.records.len()),
                    },
                }
            },
            (ProducePhase::Acquiring, ProduceEvent::Acquired(granted)) => if granted {
                self.produce_counts(call, 1)
            } else {
                self.produce_ends(call, Err(CoreErrorView::RateLimited))
            },
            (ProducePhase::Counting(attempt), ProduceEvent::Counted(reply)) => {
                match self.verdict(attempt, reply) {
                    Verdict::Retry(next) => self.produce_counts(call, next),
                    Verdict::Done(Err(e)) => self.produce_ends(call, Err(e@)),
                    Verdict::Done(Ok(None)) => self.produce_ends(
                        call,
                        Err(CoreErrorView::TopicNotFound(call.topic)),
                    ),
                    Verdict::Done(Ok(Some(count))) => {
                        let key = call.records[0].key;
                        let slot = topic::routed(key, self.round_robin, count);
                        self.routing(key).produce_appends(
                            call,
                            PartitionId(slot as u32),
                            now,
                            1,
                        )
                    },
                }
            },
            (
                ProducePhase::Appending(partition, timestamp, attempt),
                ProduceEvent::Appended(reply),
            ) => match self.verdict(attempt, reply) {
                Verdict::Retry(next) => self.produce_appends(call, partition, timestamp, next),
                Verdict::Done(Err(e)) => self.produce_ends(call, Err(e@)),
                Verdict::Done(Ok(outcome)) => self.produce_ends(
                    call,
                    Ok(produced(call.topic, partition, outcome@)),
                ),
            },
            _ => self.produce_ends(call, Err(CoreErrorView::EmptyBatch)),
        }
    }
}

impl ProduceCallView {
    /// Whether the event answers what the call wants done, and a topic has
    /// partitions.
    pub open spec fn awaits(self, event: ProduceEvent) -> bool {
        match (self.phase, event) {
            (ProducePhase::New, ProduceEvent::Start) => true,
            (ProducePhase::Acquiring, ProduceEvent::Acquired(_)) => true,
            (ProducePhase::Counting(_), ProduceEvent::Counted(reply)) => {
                reply matches Reply::Answered(Ok(Some(count))) ==> count > 0
            },
            (ProducePhase::Appending(_, _, _), ProduceEvent::Appended(_)) => true,
            _ => false,
        }
    }

    /// What always holds of a call: once it is past its validation, the batch
    /// holds a record and every record is valid.
    pub open spec fn wf(self) -> bool {
        match self.phase {
            ProducePhase::New | ProducePhase::Closed => true,
            _ => self.records.len() > 0 && first_problem(self.records) is None,
        }
    }
}

impl LogEngine {
    fn check_batch(records: &Vec<ProduceRecord>) -> (r: Option<InvalidRecord>)
        ensures
            r == first_problem(record::produce_views(records@)),
    {
        let ghost all = record::produce_views(records@);
        let mut i: usize = 0;
        assert(all.skip(0) =~= all);
        while i < records.len()
            invariant
                i <= records@.len(),
                all == record::produce_views(records@),
                first_problem(all) == first_problem(all.skip(i as int)),
            decreases records.len() - i,
        {
            let ghost rest = all.skip(i as int);
            assert(rest[0] == records@[i as int]@);
            assert(rest.skip(1) =~= all.skip(i as int + 1));
            match records[i].validate() {
                Err(problem) => {
                    return Some(problem);
                },
                Ok(()) => {},
            }
            i = i + 1;
        }
        None
    }

    fn report(topic: &TopicName, partition: PartitionId, outcome: AppendOutcome) -> (r: Produced)
        ensures
            r@ == produced(topic@, partition, outcome@),
    {
        let ghost view = outcome@;
        let records = outcome.records;
        let n: usize = records.len();
        let base_offset = if n > 0 {
            assert(view.records[0] == (*records)@[0]@);
            records[0].offset
        } else {
            Offset(0)
        };
        let last_offset = if n > 0 {
            assert(view.records.last() == (*records)@[n - 1]@);
            records[n - 1].offset
        } else {
            Offset(0)
        };
        let result = ProduceResult {
            base_offset,
            last_offset,
            count: n,
            truncated_to: outcome.truncated_to,
        };
        let mut events: Vec<LogEvent> = Vec::new();
        events.push(
            LogEvent::RecordsAppended { topic: topic.clone(), partition, base_offset, records },
        );
        if let Some(new_start) = outcome.truncated_to {
            events.push(LogEvent::RecordsTruncated { topic: topic.clone(), partition, new_start });
        }
        assert(event::event_views(events@) =~= produced(topic@, partition, view).events);
        Produced { result, events }
    }

    fn route(&mut self, key: Option<&str>, count: u32) -> (r: PartitionId)
        requires
            count > 0,
        ensures
            ({
                let k = match key {
                    Some(k) => Some(k@),
                    None => None,
                };
                &&& r.0 == topic::routed(k, old(self)@.round_robin, count)
                &&& r.0 < count
                &&& final(self)@ == old(self)@.routing(k)
            }),
    {
        let slot = slot_for(key, self.round_robin, count);
        if key.is_none() {
            self.round_robin = self.round_robin.wrapping_add(1);
        }
        slot
    }

    /// Take a produce call one step further. `now` is the timestamp of records
    /// that are routed now.
    pub fn produce_at(&mut self, call: &mut ProduceCall, event: ProduceEvent, now: Timestamp) -> (r:
        ProduceStep)
        requires
            old(call)@.wf(),
            old(call)@.awaits(event),
        ensures
            old(self)@.produce(old(call)@, event, now) == (ProduceTurn {
                engine: final(self)@,
                call: final(call)@,
                step: r@,
            }),
            final(call)@.wf(),
    {
        let phase = call.phase;
        call.phase = ProducePhase::Closed;
        match (phase, event) {
            (ProducePhase::New, ProduceEvent::Start) => {
                if call.records.len() == 0 {
                    return ProduceStep::Done(Err(CoreError::EmptyBatch));
                }
                match LogEngine::check_batch(&call.records) {
                    Some(problem) => ProduceStep::Done(Err(CoreError::Invalid(problem))),
                    None => {
                        call.phase = ProducePhase::Acquiring;
                        ProduceStep::Acquire(call.records.len())
                    },
                }
            },
            (ProducePhase::Acquiring, ProduceEvent::Acquired(granted)) => {
                if granted {
                    call.phase = ProducePhase::Counting(1);
                    ProduceStep::Count(1)
                } else {
                    ProduceStep::Done(Err(CoreError::RateLimited))
                }
            },
            (ProducePhase::Counting(attempt), ProduceEvent::Counted(reply)) => {
                match self.store_call(attempt, reply) {
                    Verdict::Retry(next) => {
                        call.phase = ProducePhase::Counting(next);
                        ProduceStep::Count(next)
                    },
                    Verdict::Done(Err(e)) => ProduceStep::Done(Err(e)),
                    Verdict::Done(Ok(None)) => ProduceStep::Done(
                        Err(CoreError::TopicNotFound(call.topic.to_string())),
                    ),
                    Verdict::Done(Ok(Some(count))) => {
                        assert(call@.records[0] == call.records@[0]@);
                        let key = match &call.records[0].key {
                            Some(k) => Some(k.as_str()),
                            None => None,
                        };
                        let partition = self.route(key, count);
                        call.phase = ProducePhase::Appending(partition, now, 1);
                        ProduceStep::Append(partition, now, 1)
                    },
                }
            },
            (
                ProducePhase::Appending(partition, timestamp, attempt),
                ProduceEvent::Appended(reply),
            ) => match self.store_call(attempt, reply) {
                Verdict::Retry(next) => {
                    call.phase = ProducePhase::Appending(partition, timestamp, next);
                    ProduceStep::Append(partition, timestamp, next)
                },
                Verdict::Done(Err(e)) => ProduceStep::Done(Err(e)),
                Verdict::Done(Ok(outcome)) => ProduceStep::Done(
                    Ok(LogEngine::report(&call.topic, partition, outcome)),
                ),
            },
            _ => {
                assert(false);
                ProduceStep::Done(Err(CoreError::EmptyBatch))
            },
        }
    }

    /// Produce a batch of records to a topic (command), one step at a time.
    ///
    /// The batch is routed to a single partition — by the first record's key
    /// (stable hash, preserving per-key ordering) or round-robin when keyless —
    /// then durably appended and fanned out on the bus.
    pub fn produce(&mut self, call: &mut ProduceCall, event: ProduceEvent) -> (r: ProduceStep)
        requires
            old(call)@.wf(),
            old(call)@.awaits(event),
        ensures
            exists|now: Timestamp|
                now@.valid() && #[trigger] old(self)@.produce(old(call)@, event, now) == (
                ProduceTurn { engine: final(self)@, call: final(call)@, step: r@ }),
            final(call)@.wf(),
    {
        let now = Timestamp::now();
        self.produce_at(call, event, now)
    }
}

/// What a call to create a topic waits for.
#[derive(Debug, Clone, Copy)]
pub enum CreatePhase {
    /// To be started.
    New,
    /// The list of existing topics, in so many attempts.
    Listing(u32),
    /// The store to create the topic, in so many attempts.
    Creating(u32),
    /// Nothing more.
    Closed,
}

/// A topic on its way to being created.
#[derive(Debug)]
pub struct CreateCall {
    name: TopicName,
    partitions: u32,
    retention: RetentionPolicy,
    phase: CreatePhase,
}

/// What is known of a call to create a topic.
#[verifier::ext_equal]
pub struct CreateCallView {
    pub name: TopicName,
    pub partitions: u32,
    pub retention: RetentionPolicy,
    pub phase: CreatePhase,
}

impl View for CreateCall {
    type V = CreateCallView;

    closed spec fn view(&self) -> CreateCallView {
        CreateCallView {
            name: self.name,
            partitions: self.partitions,
            retention: self.retention,
            phase: self.phase,
        }
    }
}

impl CreateCall {
    /// A call to create a topic; zero partitions stand for the engine's default.
    pub fn new(name: TopicName, partitions: u32, retention: RetentionPolicy) -> (r: CreateCall)
        ensures
            r@ == (CreateCallView { name, partitions, retention, phase: CreatePhase::New }),
    {
        CreateCall { name, partitions, retention, phase: CreatePhase::New }
    }
}

/// What happened to a call to create a topic last.
#[derive(Debug)]
pub enum CreateEvent {
    /// The call is to start.
    Start,
    /// The store listed the existing topics.
    Listed(Reply<Vec<TopicConfig>>),
    /// The store created the topic, or had one of that name.
    Created(Reply<bool>),
}

/// What a call to create a topic wants done next.
#[derive(Debug)]
pub enum CreateStep {
    /// List the existing topics.
    List(u32),
    /// Create the topic.
    Create(TopicConfig, u32),
    /// The call is over; a created topic comes with its configuration and the
    /// event to publish.
    Done(Result<(TopicConfig, LogEvent), CoreError>),
}

/// What a step to create a topic holds.
#[verifier::ext_equal]
pub enum CreateStepView {
    List(u32),
    Create(TopicConfig, u32),
    Done(Result<(TopicConfig, LogEventView), CoreErrorView>),
}

impl View for CreateStep {
    type V = CreateStepView;

    open spec fn view(&self) -> CreateStepView {
        match *self {
            CreateStep::List(attempt) => CreateStepView::List(attempt),
            CreateStep::Create(config, attempt) => CreateStepView::Create(config, attempt),
            CreateStep::Done(Ok((config, event))) => CreateStepView::Done(Ok((config, event@))),
            CreateStep::Done(Err(e)) => CreateStepView::Done(Err(e@)),
        }
    }
}

/// A call to create a topic, and what is to be done next.
pub struct CreateTurn {
    pub call: CreateCallView,
    pub step: CreateStepView,
}

impl CreateCallView {
    /// Whether the event answers what the call wants done.
    pub open spec fn awaits(self, event: CreateEvent) -> bool {
        match (self.phase, event) {
            (CreatePhase::New, CreateEvent::Start) => true,
            (CreatePhase::Listing(_), CreateEvent::Listed(_)) => true,
            (CreatePhase::Creating(_), CreateEvent::Created(_)) => true,
            _ => false,
        }
    }

    /// The call is over.
    pub open spec fn ends(
        self,
        result: Result<(TopicConfig, LogEventView), CoreErrorView>,
    ) -> CreateTurn {
        CreateTurn {
            call: CreateCallView { phase: CreatePhase::Closed, ..self },
            step: CreateStepView::Done(result),
        }
    }
}

impl EngineView {
    /// The configuration of the topic that a call is to create.
    pub open spec fn topic_config(self, call: CreateCallView) -> TopicConfig {
        TopicConfig {
            name: call.name,
            partitions: if call.partitions == 0 {
                self.config.default_partitions
            } else {
                call.partitions
            },
            retention: call.retention,
        }
    }

    /// The existing topics are asked for.
    pub open spec fn create_lists(self, call: CreateCallView, attempt: u32) -> CreateTurn {
        CreateTurn {
            call: CreateCallView { phase: CreatePhase::Listing(attempt), ..call },
            step: CreateStepView::List(attempt),
        }
    }

    /// The store is asked to create the topic.
    pub open spec fn create_creates(self, call: CreateCallView, attempt: u32) -> CreateTurn {
        CreateTurn {
            call: CreateCallView { phase: CreatePhase::Creating(attempt), ..call },
            step: CreateStepView::Create(self.topic_config(call), attempt),
        }
    }

    /// What a call to create a topic makes of an event that it awaits.
    pub open spec fn create_topic(self, call: CreateCallView, event: CreateEvent) -> CreateTurn {
        let config = self.topic_config(call);
        match (call.phase, event) {
            (CreatePhase::New, CreateEvent::Start) => match topic::topic_problem(
                config.partitions,
                config.retention,
            ) {
                Some(problem) => call.ends(Err(CoreErrorView::Invalid(problem))),
                None => self.create_lists(call, 1),
            },
            (CreatePhase::Listing(attempt), CreateEvent::Listed(reply)) => match self.verdict(
                attempt,
                reply,
            ) {
                Verdict::Retry(next) => self.create_lists(call, next),
                Verdict::Done(Err(e)) => call.ends(Err(e@)),
                Verdict::Done(Ok(existing)) => if existing@.len() >= self.config.max_topics {
                    call.ends(Err(CoreErrorView::CapacityExceeded(self.config.max_topics)))
                } else {
                    self.create_creates(call, 1)
                },
            },
            (CreatePhase::Creating(attempt), CreateEvent::Created(reply)) => match self.verdict(
                attempt,
                reply,
            ) {
                Verdict::Retry(next) => self.create_creates(call, next),
                Verdict::Done(Err(e)) => call.ends(Err(e@)),
                Verdict::Done(Ok(created)) => if created {
                    call.ends(
                        Ok(
                            (
                                config,
                                LogEventView::TopicCreated {
                                    topic: call.name@,
                                    partitions: config.partitions,
                                },
                            ),
                        ),
                    )
                } else {
                    call.ends(Err(CoreErrorView::TopicExists(call.name@)))
                },
            },
            _ => call.ends(Err(CoreErrorView::Timeout)),
        }
    }
}

impl LogEngine {
    fn topic_config(&self, call: &CreateCall) -> (r: TopicConfig)
        ensures
            r == self@.topic_config(call@),
    {
        let partitions: u32 = if call.partitions == 0 {
            self.config.default_partitions
        } else {
            call.partitions
        };
        TopicConfig { name: call.name.clone(), partitions, retention: call.retention }
    }

    /// Create a new topic (command), one step at a time. A created topic is
    /// published as [`LogEvent::TopicCreated`].
    pub fn create_topic(&self, call: &mut CreateCall, event: CreateEvent) -> (r: CreateStep)
        requires
            old(call)@.awaits(event),
        ensures
            self@.create_topic(old(call)@, event) == (CreateTurn { call: final(call)@, step: r@ }),
    {
        let phase = call.phase;
        call.phase = CreatePhase::Closed;
        let config = self.topic_config(call);
        match (phase, event) {
            (CreatePhase::New, CreateEvent::Start) => {
                match TopicConfig::new(config.name, config.partitions, config.retention) {
                    Err(problem) => CreateStep::Done(Err(CoreError::Invalid(problem))),
                    Ok(_) => {
                        call.phase = CreatePhase::Listing(1);
                        CreateStep::List(1)
                    },
                }
            },
            (CreatePhase::Listing(attempt), CreateEvent::Listed(reply)) => {
                match self.store_call(attempt, reply) {
                    Verdict::Retry(next) => {
                        call.phase = CreatePhase::Listing(next);
                        CreateStep::List(next)
                    },
                    Verdict::Done(Err(e)) => CreateStep::Done(Err(e)),
                    Verdict::Done(Ok(existing)) => {
                        if existing.len() >= self.config.max_topics {
                            CreateStep::Done(
                                Err(CoreError::CapacityExceeded(self.config.max_topics)),
                            )
                        } else {
                            call.phase = CreatePhase::Creating(1);
                            CreateStep::Create(config, 1)
                        }
                    },
                }
            },
            (CreatePhase::Creating(attempt), CreateEvent::Created(reply)) => {
                match self.store_call(attempt, reply) {
                    Verdict::Retry(next) => {
                        call.phase = CreatePhase::Creating(next);
                        CreateStep::Create(config, next)
                    },
                    Verdict::Done(Err(e)) => CreateStep::Done(Err(e)),
                    Verdict::Done(Ok(created)) => {
                        if created {
                            let topic = call.name.clone();
                            let partitions: u32 = config.partitions;
                            CreateStep::Done(
                                Ok((config, LogEvent::TopicCreated { topic, partitions })),
                            )
                        } else {
                            CreateStep::Done(Err(CoreError::TopicExists(call.name.to_string())))
                        }
                    },
                }
            },
            _ => {
                assert(false);
                CreateStep::Done(Err(CoreError::Timeout))
            },
        }
    }
}

/// What a fetch call waits for.
#[derive(Debug, Clone, Copy)]
pub enum FetchPhase {
    /// To be started.
    New,
    /// The topic's partition count, in so many attempts.
    Counting(u32),
    /// The records, in so many attempts.
    Fetching(u32),
    /// Nothing more.
    Closed,
}

/// A read of a partition on its way through the engine.
#[derive(Debug)]
pub struct FetchCall {
    topic: TopicName,
    partition: PartitionId,
    from: Offset,
    max: usize,
    phase: FetchPhase,
}

/// What is known of a fetch call.
#[verifier::ext_equal]
pub struct FetchCallView {
    pub topic: Seq<char>,
    pub partition: PartitionId,
    pub from: Offset,
    pub max: usize,
    pub phase: FetchPhase,
}

impl View for FetchCall {
    type V = FetchCallView;

    closed spec fn view(&self) -> FetchCallView {
        FetchCallView {
            topic: self.topic@,
            partition: self.partition,
            from: self.from,
            max: self.max,
            phase: self.phase,
        }
    }
}

impl FetchCall {
    /// A call to read up to `max` records of a partition from `from` on.
    pub fn new(topic: TopicName, partition: PartitionId, from: Offset, max: usize) -> (r: FetchCall)
        ensures
            r@ == (FetchCallView { topic: topic@, partition, from, max, phase: FetchPhase::New }),
    {
        FetchCall { topic, partition, from, max, phase: FetchPhase::New }
    }

    /// The topic.
    pub fn topic(&self) -> (r: &TopicName)
        ensures
            r@ == self@.topic,
    {
        &self.topic
    }
}

/// What happened to a fetch call last.
#[derive(Debug)]
pub enum FetchEvent {
    /// The call is to start.
    Start,
    /// The store told the topic's partition count, or that it is unknown.
    Counted(Reply<Option<u32>>),
    /// The store read the records.
    Fetched(Reply<FetchResult>),
}

/// What a fetch call wants done next.
#[derive(Debug)]
pub enum FetchStep {
    /// Ask for the topic's partition count.
    Count(u32),
    /// Read up to so many records of the partition from the offset on.
    Fetch(PartitionId, Offset, usize, u32),
    /// The call is over.
    Done(Result<FetchResult, CoreError>),
}

/// What a fetch step holds.
#[verifier::ext_equal]
pub enum FetchStepView {
    Count(u32),
    Fetch(PartitionId, Offset, usize, u32),
    Done(Result<FetchResultView, CoreErrorView>),
}

impl View for FetchStep {
    type V = FetchStepView;

    open spec fn view(&self) -> FetchStepView {
        match *self {
            FetchStep::Count(attempt) => FetchStepView::Count(attempt),
            FetchStep::Fetch(partition, from, max, attempt) => FetchStepView::Fetch(
                partition,
                from,
                max,
                attempt,
            ),
            FetchStep::Done(Ok(result)) => FetchStepView::Done(Ok(result@)),
            FetchStep::Done(Err(e)) => FetchStepView::Done(Err(e@)),
        }
    }
}

/// A fetch call, and what is to be done next.
pub struct FetchTurn {
    pub call: FetchCallView,
    pub step: FetchStepView,
}

impl FetchCallView {
    /// Whether the event answers what the call wants done.
    pub open spec fn awaits(self, event: FetchEvent) -> bool {
        match (self.phase, event) {
            (FetchPhase::New, FetchEvent::Start) => true,
            (FetchPhase::Counting(_), FetchEvent::Counted(_)) => true,
            (FetchPhase::Fetching(_), FetchEvent::Fetched(_)) => true,
            _ => false,
        }
    }

    /// The call is over.
    pub open spec fn ends(self, result: Result<FetchResultView, CoreErrorView>) -> FetchTurn {
        FetchTurn {
            call: FetchCallView { phase: FetchPhase::Closed, ..self },
            step: FetchStepView::Done(result),
        }
    }
}

impl EngineView {
    /// How many records a fetch reads at most: at least one, and no more than
    /// the engine allows.
    pub open spec fn fetch_max(self, max: usize) -> usize {
        if max < 1 {
            1
        } else if max > self.config.fetch_max_records {
            self.config.fetch_max_records
        } else {
            max
        }
    }

    /// The topic's partition count is asked for.
    pub open spec fn fetch_counts(self, call: FetchCallView, attempt: u32) -> FetchTurn {
        FetchTurn {
            call: FetchCallView { phase: FetchPhase::Counting(attempt), ..call },
            step: FetchStepView::Count(attempt),
        }
    }

    /// The records are asked for.
    pub open spec fn fetch_reads(self, call: FetchCallView, attempt: u32) -> FetchTurn {
        FetchTurn {
            call: FetchCallView { phase: FetchPhase::Fetching(attempt), ..call },
            step: FetchStepView::Fetch(
                call.partition,
                call.from,
                self.fetch_max(call.max),
                attempt,
            ),
        }
    }

    /// What a fetch call makes of an event that it awaits.
    pub open spec fn fetch(self, call: FetchCallView, event: FetchEvent) -> FetchTurn {
        match (call.phase, event) {
            (FetchPhase::New, FetchEvent::Start) => self.fetch_counts(call, 1),
            (FetchPhase::Counting(attempt), FetchEvent::Counted(reply)) => match self.verdict(
                attempt,
                reply,
            ) {
                Verdict::Retry(next) => self.fetch_counts(call, next),
                Verdict::Done(Err(e)) => call.ends(Err(e@)),
                Verdict::Done(Ok(None)) => call.ends(
                    Err(CoreErrorView::TopicNotFound(call.topic)),
                ),
                Verdict::Done(Ok(Some(count))) => if call.partition.0 >= count {
                    call.ends(
                        Err(
                            CoreErrorView::PartitionOutOfRange {
                                topic: call.topic,
                                partition: call.partition.0,
                                count,
                            },
                        ),
                    )
                } else {
                    self.fetch_reads(call, 1)
                },
            },
            (FetchPhase::Fetching(attempt), FetchEvent::Fetched(reply)) => match self.verdict(
                attempt,
                reply,
            ) {
                Verdict::Retry(next) => self.fetch_reads(call, next),
                Verdict::Done(Err(e)) => call.ends(Err(e@)),
                Verdict::Done(Ok(result)) => call.ends(Ok(result@)),
            },
            _ => call.ends(Err(CoreErrorView::Timeout)),
        }
    }
}

impl LogEngine {
    fn fetch_max(&self, max: usize) -> (r: usize)
        requires
            self@.config.fetch_max_records >= 1,
        ensures
            r == self@.fetch_max(max),
    {
        if max < 1 {
            1
        } else if max > self.config.fetch_max_records {
            self.config.fetch_max_records
        } else {
            max
        }
    }

    /// Fetch records from a partition (query), one step at a time. The engine's
    /// bound on the records of a single fetch must allow for one.
    pub fn fetch(&self, call: &mut FetchCall, event: FetchEvent) -> (r: FetchStep)
        requires
            old(call)@.awaits(event),
            self@.config.fetch_max_records >= 1,
        ensures
            self@.fetch(old(call)@, event) == (FetchTurn { call: final(call)@, step: r@ }),
    {
        let phase = call.phase;
        call.phase = FetchPhase::Closed;
        match (phase, event) {
            (FetchPhase::New, FetchEvent::Start) => {
                call.phase = FetchPhase::Counting(1);
                FetchStep::Count(1)
            },
            (FetchPhase::Counting(attempt), FetchEvent::Counted(reply)) => {
                match self.store_call(attempt, reply) {
                    Verdict::Retry(next) => {
                        call.phase = FetchPhase::Counting(next);
                        FetchStep::Count(next)
                    },
                    Verdict::Done(Err(e)) => FetchStep::Done(Err(e)),
                    Verdict::Done(Ok(None)) => FetchStep::Done(
                        Err(CoreError::TopicNotFound(call.topic.to_string())),
                    ),
                    Verdict::Done(Ok(Some(count))) => {
                        if call.partition.0 >= count {
                            FetchStep::Done(
                                Err(
                                    CoreError::PartitionOutOfRange {
                                        topic: call.topic.to_string(),
                                        partition: call.partition.0,
                                        count,
                                    },
                                ),
                            )
                        } else {
                            call.phase = FetchPhase::Fetching(1);
                            FetchStep::Fetch(call.partition, call.from, self.fetch_max(call.max), 1)
                        }
                    },
                }
            },
            (FetchPhase::Fetching(attempt), FetchEvent::Fetched(reply)) => {
                match self.store_call(attempt, reply) {
                    Verdict::Retry(next) => {
                        call.phase = FetchPhase::Fetching(next);
                        FetchStep::Fetch(call.partition, call.from, self.fetch_max(call.max), next)
                    },
                    Verdict::Done(Err(e)) => FetchStep::Done(Err(e)),
                    Verdict::Done(Ok(result)) => FetchStep::Done(Ok(result)),
                }
            },
            _ => {
                assert(false);
                FetchStep::Done(Err(CoreError::Timeout))
            },
        }
    }
}

/// A batch that is not valid, or holds nothing, is refused before anything is
/// asked of the budget or the store, and leaves the engine as it was.
pub proof fn law_bad_batches_are_refused_first(
    engine: EngineView,
    call: ProduceCallView,
    now: Timestamp,
)
    requires
        call.phase is New,
    ensures
        ({
            let turn = engine.produce(call, ProduceEvent::Start, now);
            &&& turn.engine == engine
            &&& call.records.len() == 0 ==> turn.step == ProduceStepView::Done(
                Err(CoreErrorView::EmptyBatch),
            )
            &&& call.records.len() > 0 ==> match first_problem(call.records) {
                Some(problem) => turn.step == ProduceStepView::Done(
                    Err(CoreErrorView::Invalid(problem)),
                ),
                None => turn.step == ProduceStepView::Acquire(call.records.len()),
            }
        }),
{
}

/// A batch is valid if and only if each of its records is.
pub proof fn law_first_problem_is_a_problem(records: Seq<ProduceRecordView>)
    ensures
        first_problem(records) is None <==> forall|i: int|
            0 <= i < records.len() ==> record::payload_problem(
                (#[trigger] records[i]).payload,
            ) is None,
    decreases records.len(),
{
    if records.len() > 0 {
        law_first_problem_is_a_problem(records.skip(1));
        let rest = records.skip(1);
        if first_problem(records) is None {
            assert forall|i: int| 0 <= i < records.len() implies record::payload_problem(
                (#[trigger] records[i]).payload,
            ) is None by {
                if i > 0 {
                    assert(rest[i - 1] == records[i]);
                }
            }
        } else if record::payload_problem(records[0].payload) is None {
            let i = choose|i: int|
                0 <= i < rest.len() && !(record::payload_problem(
                    (#[trigger] rest[i]).payload,
                ) is None);
            assert(records[i + 1] == rest[i]);
        }
    }
}

/// Whatever a store is asked to append holds at least one record, and every
/// record of it is valid; and the partition is one of those that the store told
/// of.
pub proof fn law_appends_are_valid(
    engine: EngineView,
    call: ProduceCallView,
    count: u32,
    attempt: u32,
    now: Timestamp,
)
    requires
        call.wf(),
        call.phase == ProducePhase::Counting(attempt),
        count > 0,
    ensures
        ({
            let event = ProduceEvent::Counted(Reply::Answered(Ok(Some(count))));
            let turn = engine.produce(call, event, now);
            &&& turn.call.records == call.records
            &&& call.records.len() > 0
            &&& first_problem(call.records) is None
            &&& turn.step matches ProduceStepView::Append(partition, timestamp, first)
                && partition.0 < count && timestamp == now && first == 1
        }),
{
}

/// Batches that start with the same key go to the same partition of a topic,
/// whatever was produced in between.
pub proof fn law_same_key_same_partition(
    engine: EngineView,
    other: EngineView,
    call: ProduceCallView,
    other_call: ProduceCallView,
    count: u32,
    attempt: u32,
    now: Timestamp,
    later: Timestamp,
)
    requires
        call.wf(),
        other_call.wf(),
        call.phase == ProducePhase::Counting(attempt),
        other_call.phase == ProducePhase::Counting(attempt),
        call.records[0].key is Some,
        call.records[0].key == other_call.records[0].key,
        count > 0,
    ensures
        ({
            let event = ProduceEvent::Counted(Reply::Answered(Ok(Some(count))));
            let one = engine.produce(call, event, now).step;
            let two = other.produce(other_call, event, later).step;
            &&& one matches ProduceStepView::Append(p, _, _) && two matches ProduceStepView::Append(
                q,
                _,
                _,
            ) && p == q
            &&& engine.produce(call, event, now).engine == engine
        }),
{
}

/// Keyless batches take turns: after one, the next goes to the partition behind
/// it, and after the last partition to the first.
pub proof fn law_keyless_batches_take_turns(
    engine: EngineView,
    call: ProduceCallView,
    other_call: ProduceCallView,
    count: u32,
    attempt: u32,
    now: Timestamp,
    later: Timestamp,
)
    requires
        call.wf(),
        other_call.wf(),
        call.phase == ProducePhase::Counting(attempt),
        other_call.phase == ProducePhase::Counting(attempt),
        call.records[0].key is None,
        other_call.records[0].key is None,
        count > 0,
        engine.round_robin < u64::MAX,
    ensures
        ({
            let event = ProduceEvent::Counted(Reply::Answered(Ok(Some(count))));
            let first = engine.produce(call, event, now);
            let second = first.engine.produce(other_call, event, later);
            first.step matches ProduceStepView::Append(p, _, _)
                && second.step matches ProduceStepView::Append(q, _, _) && q.0 == if p.0 == count
                - 1 {
                0
            } else {
                p.0 + 1
            }
        }),
{
    topic::law_keyless_routing_goes_round(engine.round_robin, count);
}

/// A storage operation is tried again only after a transient failure or a
/// timeout, and never more often than the policy allows; and it ends with such a
/// failure, or as timed out, only when no attempts are left.
pub proof fn law_retries_are_bounded<T>(engine: EngineView, attempt: u32, reply: Reply<T>)
    ensures
        engine.verdict(attempt, reply) matches Verdict::Retry(next) ==> {
            &&& reply is TimedOut || (reply matches Reply::Answered(Err(e)) && e.retryable())
            &&& next == attempt + 1
            &&& next <= retry::limit(engine.retry.max_attempts)
        },
        engine.verdict(attempt, reply) matches Verdict::Done(Err(e)) ==> {
            &&& reply is TimedOut <==> e is Timeout
            &&& reply is TimedOut ==> attempt >= retry::limit(engine.retry.max_attempts)
            &&& reply matches Reply::Answered(Err(cause)) ==> e == CoreError::Port(cause) && (
            cause.retryable() ==> attempt >= retry::limit(engine.retry.max_attempts))
        },
{
}

/// A batch that is tried again goes to the same partition with the same
/// timestamp.
pub proof fn law_retried_appends_are_the_same(
    engine: EngineView,
    call: ProduceCallView,
    partition: PartitionId,
    timestamp: Timestamp,
    attempt: u32,
    reply: Reply<AppendOutcome>,
    now: Timestamp,
)
    requires
        call.phase == ProducePhase::Appending(partition, timestamp, attempt),
    ensures
        ({
            let turn = engine.produce(call, ProduceEvent::Appended(reply), now);
            &&& turn.engine == engine
            &&& turn.step matches ProduceStepView::Append(p, t, n) ==> p == partition && t
                == timestamp && n == attempt + 1 && turn.call.records == call.records
        }),
{
}

/// A batch that was stored is reported as it was stored. The reported range goes
/// from the offset of the first stored record to that of the last one, whether
/// or not anything was pruned, and as many are counted as were stored; with
/// consecutive offsets, the range is as long as the count. Where nothing was
/// stored, it is told as a count of zero at the very first offset.
pub proof fn law_reports_tell_what_was_stored(
    engine: EngineView,
    call: ProduceCallView,
    partition: PartitionId,
    timestamp: Timestamp,
    attempt: u32,
    outcome: AppendOutcome,
    now: Timestamp,
)
    requires
        call.phase == ProducePhase::Appending(partition, timestamp, attempt),
    ensures
        ({
            let stored = (*outcome.records)@;
            let n = stored.len() as int;
            let turn = engine.produce(
                call,
                ProduceEvent::Appended(Reply::Answered(Ok(outcome))),
                now,
            );
            turn.step matches ProduceStepView::Done(Ok(produced)) && {
                &&& n > 0 ==> produced.result.base_offset == stored[0].offset
                &&& n > 0 ==> produced.result.last_offset == stored[n - 1].offset
                &&& n == 0 ==> produced.result.base_offset.0 == 0
                    && produced.result.last_offset.0 == 0
                &&& n <= usize::MAX ==> produced.result.count == n
                &&& produced.result.truncated_to == outcome.truncated_to
                &&& n > 0 && (forall|i: int|
                    0 <= i < n ==> (#[trigger] stored[i]).offset.0 == stored[0].offset.0 + i)
                    ==> produced.result.last_offset.0 == produced.result.base_offset.0 + n - 1
            }
        }),
{
    let stored = (*outcome.records)@;
    let n = stored.len() as int;
    if n > 0 {
        assert(outcome@.records[0] == stored[0]@);
        assert(outcome@.records.last() == stored[n - 1]@);
        if forall|i: int|
            0 <= i < n ==> (#[trigger] stored[i]).offset.0 == stored[0].offset.0 + i {
            assert(stored[n - 1].offset.0 == stored[0].offset.0 + (n - 1));
        }
    }
}

/// Subscribers hear of a stored batch what its producer is told: first that the
/// stored records themselves were appended, to the topic and partition that they
/// went to and from the reported offset on; and then, exactly if anything was
/// pruned, where that partition starts now.
pub proof fn law_events_tell_what_was_stored(
    engine: EngineView,
    call: ProduceCallView,
    partition: PartitionId,
    timestamp: Timestamp,
    attempt: u32,
    outcome: AppendOutcome,
    now: Timestamp,
)
    requires
        call.phase == ProducePhase::Appending(partition, timestamp, attempt),
    ensures
        ({
            let turn = engine.produce(
                call,
                ProduceEvent::Appended(Reply::Answered(Ok(outcome))),
                now,
            );
            turn.step matches ProduceStepView::Done(Ok(produced)) && {
                &&& produced.events.len() == if outcome.truncated_to is Some {
                    2int
                } else {
                    1
                }
                &&& produced.events[0] matches LogEventView::RecordsAppended {
                    topic,
                    partition: place,
                    base_offset,
                    records,
                } && {
                    &&& topic == call.topic
                    &&& place == partition.0
                    &&& base_offset == produced.result.base_offset.0
                    &&& records.len() == (*outcome.records)@.len()
                    &&& forall|i: int|
                        0 <= i < records.len() ==> #[trigger] records[i]
                            == (*outcome.records)@[i]@
                }
                &&& outcome.truncated_to matches Some(start) ==> (
                produced.events[1] matches LogEventView::RecordsTruncated {
                    topic,
                    partition: place,
                    new_start,
                } && topic == call.topic && place == partition.0 && new_start == start.0)
            }
        }),
{
}

/// A batch goes where its first record's key sends it, which is where
/// [`TopicConfig::partition_for`] places that key; a batch whose first record has
/// no key goes where the engine's turn counter points.
pub proof fn law_batches_are_routed_by_their_first_key(
    engine: EngineView,
    call: ProduceCallView,
    count: u32,
    attempt: u32,
    now: Timestamp,
)
    requires
        call.phase == ProducePhase::Counting(attempt),
        call.records.len() > 0,
        count > 0,
    ensures
        ({
            let event = ProduceEvent::Counted(Reply::Answered(Ok(Some(count))));
            let turn = engine.produce(call, event, now);
            turn.step matches ProduceStepView::Append(partition, timestamp, first) && {
                &&& call.records[0].key matches Some(key) ==> {
                    &&& partition.0 == topic::fnv1a_hash(vstd::utf8::encode_utf8(key)) as int
                        % count as int
                    &&& turn.engine.round_robin == engine.round_robin
                }
                &&& call.records[0].key is None ==> {
                    &&& partition.0 == engine.round_robin as int % count as int
                    &&& engine.round_robin < u64::MAX ==> turn.engine.round_robin
                        == engine.round_robin + 1
                    &&& engine.round_robin == u64::MAX ==> turn.engine.round_robin == 0
                }
                &&& timestamp == now
                &&& first == 1
                &&& turn.engine.config == engine.config
                &&& turn.engine.retry == engine.retry
            }
        }),
{
}

/// A produce call goes through its stages in order and ends as its stages do: the
/// budget is taken for the whole batch, a batch that it does not cover is rate
/// limited, a topic that the store does not know is named as not found, and only
/// a topic that it knows is appended to.
pub proof fn law_produce_goes_stage_by_stage(
    engine: EngineView,
    call: ProduceCallView,
    granted: bool,
    count: Option<u32>,
    attempt: u32,
    now: Timestamp,
)
    ensures
        call.phase is Acquiring ==> {
            let turn = engine.produce(call, ProduceEvent::Acquired(granted), now);
            &&& turn.engine == engine
            &&& granted ==> turn.step == ProduceStepView::Count(1)
            &&& !granted ==> turn.step == ProduceStepView::Done(Err(CoreErrorView::RateLimited))
        },
        call.phase == ProducePhase::Counting(attempt) ==> {
            let event = ProduceEvent::Counted(Reply::Answered(Ok(count)));
            let turn = engine.produce(call, event, now);
            &&& count is None ==> turn.engine == engine && turn.step == ProduceStepView::Done(
                Err(CoreErrorView::TopicNotFound(call.topic)),
            )
            &&& count is Some ==> turn.step is Append
        },
        call.phase is New && call.records.len() > 0 && (forall|i: int|
            0 <= i < call.records.len() ==> 0 < (#[trigger] call.records[i]).payload.len()
                <= 1_048_576) ==> engine.produce(call, ProduceEvent::Start, now).step
            == ProduceStepView::Acquire(call.records.len()),
{
    if call.phase is New && call.records.len() > 0 && (forall|i: int|
        0 <= i < call.records.len() ==> 0 < (#[trigger] call.records[i]).payload.len()
            <= 1_048_576) {
        law_first_problem_is_a_problem(call.records);
    }
}

/// A produce call waits for what it asked for, and never changes what it is
/// about: its topic and its batch. A call that is over waits for nothing.
pub proof fn law_produce_waits_for_what_it_asked(
    engine: EngineView,
    call: ProduceCallView,
    event: ProduceEvent,
    now: Timestamp,
)
    ensures
        ({
            let turn = engine.produce(call, event, now);
            &&& turn.call.topic == call.topic
            &&& turn.call.records == call.records
            &&& turn.engine.config == engine.config
            &&& turn.engine.retry == engine.retry
            &&& match turn.step {
                ProduceStepView::Acquire(n) => turn.call.phase is Acquiring && n
                    == call.records.len(),
                ProduceStepView::Count(n) => turn.call.phase == ProducePhase::Counting(n),
                ProduceStepView::Append(partition, timestamp, n) => turn.call.phase
                    == ProducePhase::Appending(partition, timestamp, n),
                ProduceStepView::Done(_) => turn.call.phase is Closed,
            }
        }),
{
}

/// The first bad record of a batch is the one that is told of: the records in
/// front of it are valid, and the problem is its own.
pub proof fn law_first_bad_record_is_told(records: Seq<ProduceRecordView>)
    ensures
        first_problem(records) matches Some(problem) ==> exists|i: int|
            0 <= i < records.len() && #[trigger] record::payload_problem(records[i].payload)
                == Some(problem) && forall|j: int|
                0 <= j < i ==> record::payload_problem(
                    (#[trigger] records[j]).payload,
                ) is None,
    decreases records.len(),
{
    if first_problem(records) is Some && record::payload_problem(records[0].payload) is None {
        let rest = records.skip(1);
        let problem = first_problem(records)->Some_0;
        law_first_bad_record_is_told(rest);
        let k = choose|k: int|
            0 <= k < rest.len() && #[trigger] record::payload_problem(rest[k].payload) == Some(
                problem,
            ) && forall|j: int|
                0 <= j < k ==> record::payload_problem((#[trigger] rest[j]).payload) is None;
        assert(rest[k] == records[k + 1]);
        assert forall|j: int| 0 <= j < k + 1 implies record::payload_problem(
            (#[trigger] records[j]).payload,
        ) is None by {
            if j > 0 {
                assert(rest[j - 1] == records[j]);
            }
        }
        assert(record::payload_problem(records[k + 1].payload) == Some(problem));
    } else if first_problem(records) is Some {
        assert(record::payload_problem(records[0].payload) == first_problem(records));
    }
}

/// What a storage operation answers is final: the store's value as it is, or its
/// failure as it is unless trying again can help and attempts are left. An
/// operation is tried at least once, and then as often as the policy says.
pub proof fn law_answers_are_handed_on<T>(
    engine: EngineView,
    attempt: u32,
    value: T,
    e: PortError,
)
    requires
        attempt >= 1,
    ensures
        engine.verdict(attempt, Reply::Answered(Ok(value))) == Verdict::<T>::Done(Ok(value)),
        engine.verdict(attempt, Reply::<T>::Answered(Err(e))) == if (e is Unavailable
            || e is Transient) && attempt < engine.retry.max_attempts {
            Verdict::<T>::Retry((attempt + 1) as u32)
        } else {
            Verdict::<T>::Done(Err(CoreError::Port(e)))
        },
        engine.verdict(attempt, Reply::<T>::TimedOut) == if attempt < engine.retry.max_attempts {
            Verdict::<T>::Retry((attempt + 1) as u32)
        } else {
            Verdict::<T>::Done(Err(CoreError::Timeout))
        },
{
}

/// The topic that the store is asked to create, in every attempt, and that is
/// announced once it is there, is the one that was asked for: its name, its
/// retention, and its partition count, where only a count of zero stands for the
/// engine's default. The announced count is that of the created topic.
pub proof fn law_topics_are_created_as_asked(
    engine: EngineView,
    call: CreateCallView,
    event: CreateEvent,
)
    ensures
        ({
            let turn = engine.create_topic(call, event);
            &&& turn.step matches CreateStepView::Create(config, _) ==> {
                &&& config.name == call.name
                &&& config.retention == call.retention
                &&& call.partitions != 0 ==> config.partitions == call.partitions
                &&& call.partitions == 0 ==> config.partitions
                    == engine.config.default_partitions
            }
            &&& turn.step matches CreateStepView::Done(Ok((config, published))) ==> {
                &&& config.name == call.name
                &&& config.retention == call.retention
                &&& call.partitions != 0 ==> config.partitions == call.partitions
                &&& call.partitions == 0 ==> config.partitions
                    == engine.config.default_partitions
                &&& published matches LogEventView::TopicCreated { topic, partitions } && topic
                    == call.name@ && partitions == config.partitions
            }
        }),
{
}

/// A topic is created only where it may be: its configuration is valid, there are
/// fewer topics than the engine allows, and there is none of that name. Each
/// refusal says which of these failed.
pub proof fn law_topics_are_created_where_they_may_be(
    engine: EngineView,
    call: CreateCallView,
    existing: Vec<TopicConfig>,
    created: bool,
    attempt: u32,
)
    ensures
        call.phase is New ==> {
            let step = engine.create_topic(call, CreateEvent::Start).step;
            let none = call.partitions == 0 && engine.config.default_partitions == 0;
            &&& none ==> step == CreateStepView::Done(
                Err(CoreErrorView::Invalid(InvalidRecord::ZeroPartitions)),
            )
            &&& !none && call.retention.segment_max_records == 0 ==> step == CreateStepView::Done(
                Err(CoreErrorView::Invalid(InvalidRecord::ZeroSegmentSize)),
            )
            &&& !none && call.retention.segment_max_records > 0 ==> step == CreateStepView::List(1)
        },
        call.phase == CreatePhase::Listing(attempt) ==> {
            let event = CreateEvent::Listed(Reply::Answered(Ok(existing)));
            let step = engine.create_topic(call, event).step;
            &&& existing@.len() >= engine.config.max_topics ==> step == CreateStepView::Done(
                Err(CoreErrorView::CapacityExceeded(engine.config.max_topics)),
            )
            &&& existing@.len() < engine.config.max_topics ==> (
            step matches CreateStepView::Create(_, first) && first == 1)
        },
        call.phase == CreatePhase::Creating(attempt) ==> {
            let event = CreateEvent::Created(Reply::Answered(Ok(created)));
            let step = engine.create_topic(call, event).step;
            &&& created ==> (step matches CreateStepView::Done(Ok(_)))
            &&& !created ==> step == CreateStepView::Done(
                Err(CoreErrorView::TopicExists(call.name@)),
            )
        },
{
}

/// A call to create a topic waits for what it asked for, and never changes what
/// it is about.
pub proof fn law_create_waits_for_what_it_asked(
    engine: EngineView,
    call: CreateCallView,
    event: CreateEvent,
)
    ensures
        ({
            let turn = engine.create_topic(call, event);
            &&& turn.call.name == call.name
            &&& turn.call.partitions == call.partitions
            &&& turn.call.retention == call.retention
            &&& match turn.step {
                CreateStepView::List(n) => turn.call.phase == CreatePhase::Listing(n),
                CreateStepView::Create(_, n) => turn.call.phase == CreatePhase::Creating(n),
                CreateStepView::Done(_) => turn.call.phase is Closed,
            }
        }),
{
}

/// A read that succeeds is answered with what the store answered: the same
/// records, the same offset to go on from, and the same end of the log. So if the
/// store's answer goes on behind its last record, a consumer that goes on from
/// there misses nothing.
pub proof fn law_fetch_hands_on_the_answer(
    engine: EngineView,
    call: FetchCallView,
    attempt: u32,
    result: FetchResult,
)
    requires
        call.phase == FetchPhase::Fetching(attempt),
    ensures
        ({
            let event = FetchEvent::Fetched(Reply::Answered(Ok(result)));
            let turn = engine.fetch(call, event);
            turn.step matches FetchStepView::Done(Ok(answer)) && {
                &&& answer.records.len() == result.records@.len()
                &&& forall|i: int|
                    0 <= i < answer.records.len() ==> #[trigger] answer.records[i]
                        == result.records@[i]@
                &&& answer.next_offset == result.next_offset.0
                &&& answer.high_watermark == result.high_watermark.0
                &&& result.records@.len() > 0 && result.next_offset.0
                    == result.records@.last().offset.0 + 1 ==> answer.next_offset
                    == answer.records.last().offset + 1
            }
        }),
{
    if result.records@.len() > 0 {
        assert(result@.records.last() == result.records@.last()@);
    }
}

/// What the store is asked to read, in every attempt, is what was asked for: the
/// partition, the offset, and as many records as were wanted, but one at least
/// and no more than the engine allows.
pub proof fn law_fetch_asks_as_it_was_asked(
    engine: EngineView,
    call: FetchCallView,
    event: FetchEvent,
)
    requires
        engine.config.fetch_max_records >= 1,
    ensures
        engine.fetch(call, event).step matches FetchStepView::Fetch(partition, from, most, _) ==> {
            &&& partition == call.partition
            &&& from == call.from
            &&& 1 <= most <= engine.config.fetch_max_records
            &&& 1 <= call.max <= engine.config.fetch_max_records ==> most == call.max
            &&& call.max == 0 ==> most == 1
            &&& call.max > engine.config.fetch_max_records ==> most
                == engine.config.fetch_max_records
        },
{
}

/// A read reaches the store exactly if the topic exists and has the partition;
/// otherwise the call says what is missing.
pub proof fn law_fetch_reads_what_exists(
    engine: EngineView,
    call: FetchCallView,
    attempt: u32,
    count: Option<u32>,
)
    ensures
        call.phase is New ==> engine.fetch(call, FetchEvent::Start).step
            == FetchStepView::Count(1),
        call.phase == FetchPhase::Counting(attempt) ==> {
            let event = FetchEvent::Counted(Reply::Answered(Ok(count)));
            let step = engine.fetch(call, event).step;
            match count {
                None => step == FetchStepView::Done(Err(CoreErrorView::TopicNotFound(call.topic))),
                Some(n) => {
                    &&& call.partition.0 < n ==> (step matches FetchStepView::Fetch(_, _, _, first)
                        && first == 1)
                    &&& call.partition.0 >= n ==> step == FetchStepView::Done(
                        Err(
                            CoreErrorView::PartitionOutOfRange {
                                topic: call.topic,
                                partition: call.partition.0,
                                count: n,
                            },
                        ),
                    )
                },
            }
        },
{
}

/// A fetch call waits for what it asked for, and never changes what it is about.
pub proof fn law_fetch_waits_for_what_it_asked(
    engine: EngineView,
    call: FetchCallView,
    event: FetchEvent,
)
    ensures
        ({
            let turn = engine.fetch(call, event);
            &&& turn.call == (FetchCallView { phase: turn.call.phase, ..call })
            &&& match turn.step {
                FetchStepView::Count(n) => turn.call.phase == FetchPhase::Counting(n),
                FetchStepView::Fetch(_, _, _, n) => turn.call.phase == FetchPhase::Fetching(n),
                FetchStepView::Done(_) => turn.call.phase is Closed,
            }
        }),
{
}

/// A storage failure, or a timeout, at any stage of a call means the same: the
/// operation is asked for again in the next attempt while that can help and
/// attempts are left, and otherwise the call ends with that very failure.
pub proof fn law_storage_failures_reach_the_caller(
    engine: EngineView,
    produce: ProduceCallView,
    create: CreateCallView,
    fetch: FetchCallView,
    partition: PartitionId,
    timestamp: Timestamp,
    attempt: u32,
    e: PortError,
    now: Timestamp,
)
    requires
        attempt >= 1,
    ensures
        ({
            let again = (e is Unavailable || e is Transient) && attempt
                < engine.retry.max_attempts;
            let next = (attempt + 1) as u32;
            let port = CoreErrorView::Port(e);
            &&& produce.phase == ProducePhase::Counting(attempt) ==> engine.produce(
                produce,
                ProduceEvent::Counted(Reply::Answered(Err(e))),
                now,
            ).step == if again {
                ProduceStepView::Count(next)
            } else {
                ProduceStepView::Done(Err(port))
            }
            &&& produce.phase == ProducePhase::Appending(partition, timestamp, attempt)
                ==> engine.produce(
                produce,
                ProduceEvent::Appended(Reply::Answered(Err(e))),
                now,
            ).step == if again {
                ProduceStepView::Append(partition, timestamp, next)
            } else {
                ProduceStepView::Done(Err(port))
            }
            &&& create.phase == CreatePhase::Listing(attempt) ==> engine.create_topic(
                create,
                CreateEvent::Listed(Reply::Answered(Err(e))),
            ).step == if again {
                CreateStepView::List(next)
            } else {
                CreateStepView::Done(Err(port))
            }
            &&& create.phase == CreatePhase::Creating(attempt) ==> {
                let step = engine.create_topic(
                    create,
                    CreateEvent::Created(Reply::Answered(Err(e))),
                ).step;
                if again {
                    step matches CreateStepView::Create(_, n) && n == next
                } else {
                    step == CreateStepView::Done(Err(port))
                }
            }
            &&& fetch.phase == FetchPhase::Counting(attempt) ==> engine.fetch(
                fetch,
                FetchEvent::Counted(Reply::Answered(Err(e))),
            ).step == if again {
                FetchStepView::Count(next)
            } else {
                FetchStepView::Done(Err(port))
            }
            &&& fetch.phase == FetchPhase::Fetching(attempt) ==> {
                let step = engine.fetch(fetch, FetchEvent::Fetched(Reply::Answered(Err(e)))).step;
                if again {
                    step matches FetchStepView::Fetch(_, _, _, n) && n == next
                } else {
                    step == FetchStepView::Done(Err(port))
                }
            }
        }),
{
}

/// An operation that times out is asked for again while attempts are left, at any
/// stage of a call, and otherwise the call ends as timed out.
pub proof fn law_timeouts_reach_the_caller(
    engine: EngineView,
    produce: ProduceCallView,
    create: CreateCallView,
    fetch: FetchCallView,
    partition: PartitionId,
    timestamp: Timestamp,
    attempt: u32,
    now: Timestamp,
)
    requires
        attempt >= 1,
    ensures
        ({
            let again = attempt < engine.retry.max_attempts;
            let next = (attempt + 1) as u32;
            let over = CoreErrorView::Timeout;
            &&& produce.phase == ProducePhase::Counting(attempt) ==> engine.produce(
                produce,
                ProduceEvent::Counted(Reply::TimedOut),
                now,
            ).step == if again {
                ProduceStepView::Count(next)
            } else {
                ProduceStepView::Done(Err(over))
            }
            &&& produce.phase == ProducePhase::Appending(partition, timestamp, attempt)
                ==> engine.produce(produce, ProduceEvent::Appended(Reply::TimedOut), now).step
                == if again {
                ProduceStepView::Append(partition, timestamp, next)
            } else {
                ProduceStepView::Done(Err(over))
            }
            &&& create.phase == CreatePhase::Listing(attempt) ==> engine.create_topic(
                create,
                CreateEvent::Listed(Reply::TimedOut),
            ).step == if again {
                CreateStepView::List(next)
            } else {
                CreateStepView::Done(Err(over))
            }
            &&& create.phase == CreatePhase::Creating(attempt) ==> {
                let step = engine.create_topic(create, CreateEvent::Created(Reply::TimedOut)).step;
                if again {
                    step matches CreateStepView::Create(_, n) && n == next
                } else {
                    step == CreateStepView::Done(Err(over))
                }
            }
            &&& fetch.phase == FetchPhase::Counting(attempt) ==> engine.fetch(
                fetch,
                FetchEvent::Counted(Reply::TimedOut),
            ).step == if again {
                FetchStepView::Count(next)
            } else {
                FetchStepView::Done(Err(over))
            }
            &&& fetch.phase == FetchPhase::Fetching(attempt) ==> {
                let step = engine.fetch(fetch, FetchEvent::Fetched(Reply::TimedOut)).step;
                if again {
                    step matches FetchStepView::Fetch(_, _, _, n) && n == next
                } else {
                    step == FetchStepView::Done(Err(over))
                }
            }
        }),
{
}

/// What is produced can be fetched. A batch that a partition in memory takes in
/// under an unbounded policy is reported at the end of its log, and a read from
/// the reported first offset, of as many records as were reported, gives the
/// batch back: keys and payloads in the order they were submitted, at consecutive
/// offsets up to the reported last one.
pub proof fn law_what_is_produced_is_fetched(
    engine: EngineView,
    call: ProduceCallView,
    partition: PartitionId,
    timestamp: Timestamp,
    attempt: u32,
    outcome: AppendOutcome,
    policy: RetentionPolicy,
    p: crate::memstore::PartitionView,
    now: Timestamp,
)
    requires
        call.phase == ProducePhase::Appending(partition, timestamp, attempt),
        call.records.len() > 0,
        p.dense(),
        p.divided(),
        p.next() + call.records.len() <= u64::MAX,
        policy.max_records == 0,
        outcome@.records == crate::memstore::stored_batch(
            call.records,
            p.next(),
            timestamp@,
        ),
    ensures
        ({
            let turn = engine.produce(
                call,
                ProduceEvent::Appended(Reply::Answered(Ok(outcome))),
                now,
            );
            let after = p.appended(call.records, timestamp@, policy);
            turn.step matches ProduceStepView::Done(Ok(produced)) && {
                let base = produced.result.base_offset.0;
                let read = after.served(base, call.records.len());
                &&& base == p.next()
                &&& produced.result.last_offset.0 == p.next() + call.records.len() - 1
                &&& read.records.len() == call.records.len()
                &&& read.high_watermark == produced.result.last_offset.0 + 1
                &&& forall|i: int|
                    0 <= i < call.records.len() ==> {
                        &&& (#[trigger] read.records[i]).offset == base + i
                        &&& read.records[i].key == call.records[i].key
                        &&& read.records[i].payload == call.records[i].payload
                        &&& read.records[i].timestamp == timestamp@
                    }
            }
        }),
{
    let n = call.records.len();
    let batch = crate::memstore::stored_batch(call.records, p.next(), timestamp@);
    assert(batch[0].offset == p.next());
    assert(batch.last().offset == p.next() + n - 1);
    crate::memstore::law_stored_batches_are_read_back(p, call.records, timestamp@, policy);
    let turn = engine.produce(call, ProduceEvent::Appended(Reply::Answered(Ok(outcome))), now);
    assert(turn.step == ProduceStepView::Done(Ok(produced(call.topic, partition, outcome@))));
}

/// What is said of a step is said of all that it holds.
pub proof fn law_views_show_the_step(
    produce: ProduceStep,
    create: CreateStep,
    fetch: FetchStep,
)
    ensures
        match produce {
            ProduceStep::Acquire(n) => produce@ == ProduceStepView::Acquire(n as nat),
            ProduceStep::Count(n) => produce@ == ProduceStepView::Count(n),
            ProduceStep::Append(p, t, n) => produce@ == ProduceStepView::Append(p, t, n),
            ProduceStep::Done(Ok(produced)) => {
                produce@ matches ProduceStepView::Done(Ok(told)) && told.result == produced.result
                    && told.events.len() == produced.events@.len() && forall|i: int|
                    0 <= i < told.events.len() ==> #[trigger] told.events[i]
                        == produced.events@[i]@
            },
            ProduceStep::Done(Err(e)) => produce@ == ProduceStepView::Done(Err(e@)),
        },
        match create {
            CreateStep::List(n) => create@ == CreateStepView::List(n),
            CreateStep::Create(config, n) => create@ == CreateStepView::Create(config, n),
            CreateStep::Done(Ok((config, event))) => create@ == CreateStepView::Done(
                Ok((config, event@)),
            ),
            CreateStep::Done(Err(e)) => create@ == CreateStepView::Done(Err(e@)),
        },
        match fetch {
            FetchStep::Count(n) => fetch@ == FetchStepView::Count(n),
            FetchStep::Fetch(p, from, most, n) => fetch@ == FetchStepView::Fetch(p, from, most, n),
            FetchStep::Done(Ok(result)) => fetch@ == FetchStepView::Done(Ok(result@)),
            FetchStep::Done(Err(e)) => fetch@ == FetchStepView::Done(Err(e@)),
        },
{
}

} // verus!
