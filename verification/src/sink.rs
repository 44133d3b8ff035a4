//! The sink runtime: delivery with offset checkpointing and a dead-letter
//! queue.
//!
//! A [`SinkRuntime`] reads committed records, delivers each outward with bounded
//! retries, routes records that exhaust their retries to a dead-letter queue,
//! and persists a checkpoint so that a restart resumes exactly where it left
//! off. It performs nothing itself: told what happened last, it says what to do
//! next.

use crate::connector::{
    Checkpoint, ConnectorId, ConnectorKind, ConnectorStatus, DeadLetterRecord, DeadLetterView,
    DeliveryGuarantee, DeliveryReport,
};
use crate::error::{CoreError, PortError};
use crate::record;
use crate::record::{copy_bytes, Record, RecordView};
use crate::retry;
use crate::stats::FetchResult;
use crate::timestamp::{Instant, Timestamp};
use crate::units::{Offset, PartitionId, TopicName};
use vstd::prelude::*;

verus! {

/// Configuration for a sink connector runtime.
#[derive(Debug, Clone, Copy, PartialEq, Eq, Structural)]
pub struct SinkConfig {
    /// Delivery guarantee.
    pub guarantee: DeliveryGuarantee,
    /// Maximum delivery attempts before dead-lettering (>= 1).
    pub max_attempts: u32,
    /// Maximum records to read per poll round.
    pub batch_size: usize,
    /// Base retry backoff, in milliseconds.
    pub base_backoff: u64,
}

impl Default for SinkConfig {
    fn default() -> (r: SinkConfig)
        ensures
            r == (SinkConfig {
                guarantee: DeliveryGuarantee::AtLeastOnce,
                max_attempts: 3,
                batch_size: 500,
                base_backoff: 20,
            }),
    {
        SinkConfig {
            guarantee: DeliveryGuarantee::AtLeastOnce,
            max_attempts: 3,
            batch_size: 500,
            base_backoff: 20,
        }
    }
}

/// A batch on its way through a sink.
#[derive(Debug)]
struct Batch {
    records: Vec<Record>,
    next: Offset,
    index: usize,
    attempt: u32,
    delivered: u64,
    dead: u64,
}

/// What is known of a batch: its records, the offset behind the last of them,
/// which record is in hand and in which attempt, and how the earlier ones fared.
#[verifier::ext_equal]
pub struct BatchView {
    pub records: Seq<RecordView>,
    pub next: u64,
    pub index: int,
    pub attempt: u32,
    pub delivered: int,
    pub dead: int,
}

impl View for Batch {
    type V = BatchView;

    closed spec fn view(&self) -> BatchView {
        BatchView {
            records: record::views(self.records@),
            next: self.next.0,
            index: self.index as int,
            attempt: self.attempt,
            delivered: self.delivered as int,
            dead: self.dead as int,
        }
    }
}

#[derive(Debug)]
enum Phase {
    Idle,
    Loading,
    Fetching(Offset),
    Precommitting(Batch),
    Delivering(Batch),
    Burying(Batch),
    Committing(Batch),
}

/// Where a round stands.
#[verifier::ext_equal]
pub enum PhaseView {
    /// No round is under way.
    Idle,
    /// The saved checkpoint is being loaded.
    Loading,
    /// A batch from this offset on is being read.
    Fetching(u64),
    /// The checkpoint behind the batch is being saved, before its delivery.
    Precommitting(BatchView),
    /// The record in hand is being delivered.
    Delivering(BatchView),
    /// The record in hand is being dead-lettered.
    Burying(BatchView),
    /// The checkpoint behind the batch is being saved, after its delivery.
    Committing(BatchView),
}

impl View for Phase {
    type V = PhaseView;

    closed spec fn view(&self) -> PhaseView {
        match *self {
            Phase::Idle => PhaseView::Idle,
            Phase::Loading => PhaseView::Loading,
            Phase::Fetching(start) => PhaseView::Fetching(start.0),
            Phase::Precommitting(batch) => PhaseView::Precommitting(batch@),
            Phase::Delivering(batch) => PhaseView::Delivering(batch@),
            Phase::Burying(batch) => PhaseView::Burying(batch@),
            Phase::Committing(batch) => PhaseView::Committing(batch@),
        }
    }
}

/// What happened to a sink last.
#[derive(Debug)]
pub enum SinkEvent {
    /// A round is to start.
    Start,
    /// The saved checkpoint was loaded.
    Loaded(Result<Option<Offset>, PortError>),
    /// Records were read from the log.
    Fetched(Result<FetchResult, PortError>),
    /// A checkpoint was saved.
    Saved(Result<(), PortError>),
    /// A record was delivered.
    Delivered(Result<(), PortError>),
    /// A record was dead-lettered.
    DeadLettered(Result<(), PortError>),
}

/// What a sink wants done next.
#[derive(Debug)]
pub enum SinkAction {
    /// Load the saved checkpoint.
    Load,
    /// Read up to so many records from this offset on.
    Fetch(Offset, usize),
    /// Save a checkpoint.
    Save(Checkpoint),
    /// Deliver a record; the number counts the attempts from one.
    Deliver(Record, u32),
    /// Store a record in the dead-letter queue.
    DeadLetter(DeadLetterRecord),
    /// Nothing: the round is over.
    Done(Result<DeliveryReport, CoreError>),
}

/// What a sink action holds.
#[verifier::ext_equal]
pub enum SinkActionView {
    Load,
    Fetch(u64, nat),
    Save(Checkpoint),
    Deliver(RecordView, u32),
    DeadLetter(DeadLetterView),
    Done(Result<DeliveryReport, CoreError>),
}

impl View for SinkAction {
    type V = SinkActionView;

    open spec fn view(&self) -> SinkActionView {
        match *self {
            SinkAction::Load => SinkActionView::Load,
            SinkAction::Fetch(from, max) => SinkActionView::Fetch(from.0, max as nat),
            SinkAction::Save(checkpoint) => SinkActionView::Save(checkpoint),
            SinkAction::Deliver(r, attempt) => SinkActionView::Deliver(r@, attempt),
            SinkAction::DeadLetter(letter) => SinkActionView::DeadLetter(letter@),
            SinkAction::Done(result) => SinkActionView::Done(result),
        }
    }
}

/// What is known of a sink: who it is and what it reads, its configuration, how
/// many records it has delivered and dead-lettered, its checkpoint once it is
/// known, and where its round stands.
#[verifier::ext_equal]
pub struct SinkView {
    pub id: ConnectorId,
    pub topic: TopicName,
    pub partition: PartitionId,
    pub config: SinkConfig,
    pub processed: u64,
    pub dead: u64,
    pub cursor: Option<Offset>,
    pub phase: PhaseView,
}

/// A sink's state after an event, and what it wants done.
pub struct SinkTurn {
    pub state: SinkView,
    pub action: SinkActionView,
}

impl SinkView {
    /// The checkpoint of this sink at an offset.
    pub open spec fn checkpoint(self, offset: u64) -> Checkpoint {
        Checkpoint {
            connector: self.id,
            topic: self.topic,
            partition: self.partition,
            offset: Offset(offset),
        }
    }

    /// The status of this sink, where loading its checkpoint returned `loaded`.
    pub open spec fn status(self, loaded: Result<Option<Offset>, PortError>) -> Result<
        ConnectorStatus,
        CoreError,
    > {
        let told = |checkpoint: Offset|
            ConnectorStatus {
                id: self.id,
                kind: ConnectorKind::Sink,
                guarantee: self.config.guarantee,
                running: true,
                processed: self.processed,
                dead_lettered: self.dead,
                checkpoint,
            };
        match (self.cursor, loaded) {
            (Some(cached), _) => Ok(told(cached)),
            (None, Ok(Some(saved))) => Ok(told(saved)),
            (None, Ok(None)) => Ok(told(Offset(0))),
            (None, Err(e)) => Err(CoreError::Port(e)),
        }
    }

    /// The round ends with an error of a port.
    pub open spec fn failed(self, e: PortError) -> SinkTurn {
        SinkTurn {
            state: SinkView { phase: PhaseView::Idle, ..self },
            action: SinkActionView::Done(Err(CoreError::Port(e))),
        }
    }

    /// The round ends with a report.
    pub open spec fn reported(
        self,
        polled: int,
        delivered: int,
        dead: int,
        checkpoint: u64,
    ) -> SinkTurn {
        SinkTurn {
            state: SinkView { phase: PhaseView::Idle, ..self },
            action: SinkActionView::Done(
                Ok(
                    DeliveryReport {
                        polled: polled as u64,
                        delivered: delivered as u64,
                        dead_lettered: dead as u64,
                        checkpoint: Offset(checkpoint),
                    },
                ),
            ),
        }
    }

    /// A batch is read from the checkpoint on.
    pub open spec fn fetching(self, start: u64) -> SinkTurn {
        SinkTurn {
            state: SinkView {
                cursor: Some(Offset(start)),
                phase: PhaseView::Fetching(start),
                ..self
            },
            action: SinkActionView::Fetch(start, self.config.batch_size as nat),
        }
    }

    /// The next record of the batch is delivered. Behind the last one, a sink
    /// that delivers at least once saves its checkpoint, and another one, which
    /// has saved it already, ends the round.
    pub open spec fn going_on(self, batch: BatchView) -> SinkTurn {
        if batch.index < batch.records.len() {
            SinkTurn {
                state: SinkView { phase: PhaseView::Delivering(batch), ..self },
                action: SinkActionView::Deliver(batch.records[batch.index], batch.attempt),
            }
        } else if self.config.guarantee is AtLeastOnce {
            SinkTurn {
                state: SinkView { phase: PhaseView::Committing(batch), ..self },
                action: SinkActionView::Save(self.checkpoint(batch.next)),
            }
        } else {
            self.reported(
                batch.records.len() as int,
                batch.delivered,
                batch.dead,
                batch.next,
            )
        }
    }

    /// A batch was read: nothing of it ends the round, and otherwise a sink that
    /// delivers at most once saves its checkpoint first.
    pub open spec fn read(self, start: u64, records: Seq<RecordView>) -> SinkTurn {
        if records.len() == 0 {
            self.reported(0, 0, 0, start)
        } else {
            let batch = BatchView {
                records,
                next: (records.last().offset + 1) as u64,
                index: 0,
                attempt: 1,
                delivered: 0,
                dead: 0,
            };
            if self.config.guarantee is AtMostOnce {
                SinkTurn {
                    state: SinkView { phase: PhaseView::Precommitting(batch), ..self },
                    action: SinkActionView::Save(self.checkpoint(batch.next)),
                }
            } else {
                self.going_on(batch)
            }
        }
    }

    /// The dead letter of the record in hand.
    pub open spec fn letter(self, batch: BatchView, e: PortError, now: Instant) -> DeadLetterView {
        let r = batch.records[batch.index];
        DeadLetterView {
            connector: self.id@,
            topic: self.topic@,
            partition: self.partition.0,
            offset: r.offset,
            payload: r.payload,
            reason: e.message(),
            attempts: batch.attempt,
            failed_at: now,
        }
    }

    /// The delivery of the record in hand failed: it is tried again while that
    /// can help and attempts are left, and is dead-lettered otherwise.
    pub open spec fn refused(self, batch: BatchView, e: PortError, now: Instant) -> SinkTurn {
        if retry::retries(self.config.max_attempts, batch.attempt, e) {
            self.going_on(BatchView { attempt: (batch.attempt + 1) as u32, ..batch })
        } else {
            SinkTurn {
                state: SinkView { phase: PhaseView::Burying(batch), ..self },
                action: SinkActionView::DeadLetter(self.letter(batch, e, now)),
            }
        }
    }

    /// What a sink makes of an event that it awaits.
    #[verifier::opaque]
    pub open spec fn turn(self, event: SinkEvent, now: Instant) -> SinkTurn {
        match (self.phase, event) {
            (PhaseView::Idle, SinkEvent::Start) => match self.cursor {
                Some(cached) => self.fetching(cached.0),
                None => SinkTurn {
                    state: SinkView { phase: PhaseView::Loading, ..self },
                    action: SinkActionView::Load,
                },
            },
            (PhaseView::Loading, SinkEvent::Loaded(Ok(saved))) => self.fetching(
                match saved {
                    Some(offset) => offset.0,
                    None => 0,
                },
            ),
            (PhaseView::Loading, SinkEvent::Loaded(Err(e))) => self.failed(e),
            (PhaseView::Fetching(start), SinkEvent::Fetched(Ok(batch))) => self.read(
                start,
                record::views(batch.records@),
            ),
            (PhaseView::Fetching(_), SinkEvent::Fetched(Err(e))) => self.failed(e),
            (PhaseView::Precommitting(batch), SinkEvent::Saved(Ok(_))) => SinkView {
                cursor: Some(Offset(batch.next)),
                ..self
            }.going_on(batch),
            (PhaseView::Precommitting(_), SinkEvent::Saved(Err(e))) => self.failed(e),
            (PhaseView::Delivering(batch), SinkEvent::Delivered(Ok(_))) => SinkView {
                processed: wrapped(self.processed),
                ..self
            }.going_on(
                BatchView {
                    index: batch.index + 1,
                    attempt: 1,
                    delivered: batch.delivered + 1,
                    ..batch
                },
            ),
            (PhaseView::Delivering(batch), SinkEvent::Delivered(Err(e))) => self.refused(
                batch,
                e,
                now,
            ),
            (PhaseView::Burying(batch), SinkEvent::DeadLettered(Ok(_))) => SinkView {
                dead: wrapped(self.dead),
                ..self
            }.going_on(
                BatchView { index: batch.index + 1, attempt: 1, dead: batch.dead + 1, ..batch },
            ),
            (PhaseView::Burying(_), SinkEvent::DeadLettered(Err(e))) => self.failed(e),
            (PhaseView::Committing(batch), SinkEvent::Saved(Ok(_))) => SinkView {
                cursor: Some(Offset(batch.next)),
                ..self
            }.reported(batch.records.len() as int, batch.delivered, batch.dead, batch.next),
            (PhaseView::Committing(_), SinkEvent::Saved(Err(e))) => self.failed(e),
            _ => SinkTurn { state: self, action: SinkActionView::Load },
        }
    }

    /// Whether the event answers what the sink wants done, and a batch that was
    /// read leaves room for an offset behind it.
    pub open spec fn awaits(self, event: SinkEvent) -> bool {
        match (self.phase, event) {
            (PhaseView::Idle, SinkEvent::Start) => true,
            (PhaseView::Loading, SinkEvent::Loaded(_)) => true,
            (PhaseView::Fetching(_), SinkEvent::Fetched(Ok(batch))) => batch.records@.len() > 0
                ==> batch.records@.last()@.offset < u64::MAX,
            (PhaseView::Fetching(_), SinkEvent::Fetched(Err(_))) => true,
            (PhaseView::Precommitting(_), SinkEvent::Saved(_)) => true,
            (PhaseView::Delivering(_), SinkEvent::Delivered(_)) => true,
            (PhaseView::Burying(_), SinkEvent::DeadLettered(_)) => true,
            (PhaseView::Committing(_), SinkEvent::Saved(_)) => true,
            _ => false,
        }
    }

    /// Whether a batch in hand makes sense for the sink's configuration.
    pub open spec fn carries(self, batch: BatchView) -> bool {
        &&& 0 < batch.records.len() <= usize::MAX
        &&& 0 <= batch.index <= batch.records.len()
        &&& batch.next == batch.records.last().offset + 1
        &&& 1 <= batch.attempt <= retry::limit(self.config.max_attempts)
        &&& 0 <= batch.delivered
        &&& 0 <= batch.dead
        &&& batch.delivered + batch.dead == batch.index
    }

    /// What always holds of a sink.
    pub open spec fn wf(self) -> bool {
        match self.phase {
            PhaseView::Idle | PhaseView::Loading => true,
            PhaseView::Fetching(start) => self.cursor == Some(Offset(start)),
            PhaseView::Precommitting(batch) => {
                &&& self.carries(batch)
                &&& self.config.guarantee is AtMostOnce
                &&& batch.index == 0
            },
            PhaseView::Delivering(batch) | PhaseView::Burying(batch) => {
                &&& self.carries(batch)
                &&& batch.index < batch.records.len()
            },
            PhaseView::Committing(batch) => {
                &&& self.carries(batch)
                &&& self.config.guarantee is AtLeastOnce
                &&& batch.index == batch.records.len()
            },
        }
    }
}

/// The successor of a 64-bit count, which starts over once it is full.
pub open spec fn wrapped(n: u64) -> u64 {
    ((n + 1) % 0x1_0000_0000_0000_0000) as u64
}

/// What is said of an action is said of all that it holds.
pub proof fn law_views_show_the_action(action: SinkAction)
    ensures
        action is Load <==> action@ is Load,
        action matches SinkAction::Fetch(from, max) ==> action@ == SinkActionView::Fetch(
            from.0,
            max as nat,
        ),
        action matches SinkAction::Save(checkpoint) ==> action@ == SinkActionView::Save(
            checkpoint,
        ),
        action matches SinkAction::Deliver(r, attempt) ==> action@ == SinkActionView::Deliver(
            r@,
            attempt,
        ),
        action matches SinkAction::DeadLetter(letter) ==> action@ == SinkActionView::DeadLetter(
            letter@,
        ),
        action matches SinkAction::Done(result) ==> action@ == SinkActionView::Done(result),
{
}

/// Drives a single sink connector over one `(topic, partition)`.
#[derive(Debug)]
pub struct SinkRuntime {
    id: ConnectorId,
    topic: TopicName,
    partition: PartitionId,
    config: SinkConfig,
    processed: u64,
    dead: u64,
    cursor: Option<Offset>,
    phase: Phase,
}

impl View for SinkRuntime {
    type V = SinkView;

    closed spec fn view(&self) -> SinkView {
        SinkView {
            id: self.id,
            topic: self.topic,
            partition: self.partition,
            config: self.config,
            processed: self.processed,
            dead: self.dead,
            cursor: self.cursor,
            phase: self.phase@,
        }
    }
}

impl SinkRuntime {
    /// A sink that has not read anything yet.
    pub fn new(
        id: ConnectorId,
        topic: TopicName,
        partition: PartitionId,
        config: SinkConfig,
    ) -> (r: SinkRuntime)
        ensures
            r@ == (SinkView {
                id,
                topic,
                partition,
                config,
                processed: 0,
                dead: 0,
                cursor: None,
                phase: PhaseView::Idle,
            }),
            r@.wf(),
    {
        SinkRuntime {
            id,
            topic,
            partition,
            config,
            processed: 0,
            dead: 0,
            cursor: None,
            phase: Phase::Idle,
        }
    }

    /// The topic read.
    pub fn topic(&self) -> (r: &TopicName)
        ensures
            *r == self@.topic,
    {
        &self.topic
    }

    /// The connector's id.
    pub fn id(&self) -> (r: &ConnectorId)
        ensures
            *r == self@.id,
    {
        &self.id
    }

    /// The partition read.
    pub fn partition(&self) -> (r: PartitionId)
        ensures
            r == self@.partition,
    {
        self.partition
    }

    /// The configuration.
    pub fn config(&self) -> (r: SinkConfig)
        ensures
            r == self@.config,
    {
        self.config
    }

    /// Total records delivered so far.
    pub fn processed(&self) -> (r: u64)
        ensures
            r == self@.processed,
    {
        self.processed
    }

    /// Total records dead-lettered so far.
    pub fn dead_lettered(&self) -> (r: u64)
        ensures
            r == self@.dead,
    {
        self.dead
    }

    /// The checkpoint, once it is known.
    pub fn cursor(&self) -> (r: Option<Offset>)
        ensures
            r == self@.cursor,
    {
        self.cursor
    }

    /// The connector's current status snapshot. Where the checkpoint is not
    /// known yet, `loaded` is what loading it returned; it is remembered.
    pub fn status(&mut self, loaded: Result<Option<Offset>, PortError>) -> (r: Result<
        ConnectorStatus,
        CoreError,
    >)
        ensures
            r == old(self)@.status(loaded),
            ({
                let resolved: Result<Offset, PortError> = match (old(self)@.cursor, loaded) {
                    (Some(cached), _) => Ok(cached),
                    (None, Ok(Some(saved))) => Ok(saved),
                    (None, Ok(None)) => Ok(Offset(0)),
                    (None, Err(e)) => Err(e),
                };
                match resolved {
                    Ok(checkpoint) => {
                        &&& r == Ok::<ConnectorStatus, CoreError>(
                            ConnectorStatus {
                                id: old(self)@.id,
                                kind: ConnectorKind::Sink,
                                guarantee: old(self)@.config.guarantee,
                                running: true,
                                processed: old(self)@.processed,
                                dead_lettered: old(self)@.dead,
                                checkpoint,
                            },
                        )
                        &&& final(self)@ == (SinkView { cursor: Some(checkpoint), ..old(self)@ })
                    },
                    Err(e) => {
                        &&& r == Err::<ConnectorStatus, CoreError>(CoreError::Port(e))
                        &&& final(self)@ == old(self)@
                    },
                }
            }),
    {
        let checkpoint = match self.cursor {
            Some(cached) => cached,
            None => match loaded {
                Ok(Some(saved)) => saved,
                Ok(None) => Offset(0),
                Err(e) => {
                    return Err(CoreError::Port(e));
                },
            },
        };
        self.cursor = Some(checkpoint);
        Ok(
            ConnectorStatus {
                id: self.id.clone(),
                kind: ConnectorKind::Sink,
                guarantee: self.config.guarantee,
                running: true,
                processed: self.processed,
                dead_lettered: self.dead,
                checkpoint,
            },
        )
    }

    fn checkpoint(&self, offset: Offset) -> (r: Checkpoint)
        ensures
            r == self@.checkpoint(offset.0),
    {
        Checkpoint {
            connector: self.id.clone(),
            topic: self.topic.clone(),
            partition: self.partition,
            offset,
        }
    }

    fn fetching(&mut self, start: Offset) -> (r: SinkAction)
        ensures
            old(self)@.fetching(start.0) == (SinkTurn { state: final(self)@, action: r@ }),
    {
        self.cursor = Some(start);
        self.phase = Phase::Fetching(start);
        SinkAction::Fetch(start, self.config.batch_size)
    }

    fn reported(&mut self, polled: u64, delivered: u64, dead_lettered: u64, checkpoint: Offset) -> (r:
        SinkAction)
        ensures
            old(self)@.reported(
                polled as int,
                delivered as int,
                dead_lettered as int,
                checkpoint.0,
            ) == (SinkTurn { state: final(self)@, action: r@ }),
    {
        self.phase = Phase::Idle;
        SinkAction::Done(Ok(DeliveryReport { polled, delivered, dead_lettered, checkpoint }))
    }

    fn failed(&mut self, e: PortError) -> (r: SinkAction)
        ensures
            old(self)@.failed(e) == (SinkTurn { state: final(self)@, action: r@ }),
    {
        self.phase = Phase::Idle;
        SinkAction::Done(Err(CoreError::Port(e)))
    }

    fn going_on(&mut self, batch: Batch) -> (r: SinkAction)
        requires
            old(self)@.carries(batch@),
        ensures
            old(self)@.going_on(batch@) == (SinkTurn { state: final(self)@, action: r@ }),
    {
        if batch.index < batch.records.len() {
            let delivery = batch.records[batch.index].clone();
            let attempt = batch.attempt;
            self.phase = Phase::Delivering(batch);
            return SinkAction::Deliver(delivery, attempt);
        }
        match self.config.guarantee {
            DeliveryGuarantee::AtLeastOnce => {
                let save = self.checkpoint(batch.next);
                self.phase = Phase::Committing(batch);
                SinkAction::Save(save)
            },
            DeliveryGuarantee::AtMostOnce => self.reported(
                batch.records.len() as u64,
                batch.delivered,
                batch.dead,
                batch.next,
            ),
        }
    }

    fn read(&mut self, start: Offset, records: Vec<Record>) -> (r: SinkAction)
        requires
            records@.len() > 0 ==> records@.last()@.offset < u64::MAX,
        ensures
            old(self)@.read(start.0, record::views(records@)) == (SinkTurn {
                state: final(self)@,
                action: r@,
            }),
            record::views(records@).len() <= usize::MAX,
    {
        let n: usize = records.len();
        let ghost views = record::views(records@);
        if n == 0 {
            return self.reported(0, 0, 0, start);
        }
        assert(views.last() == records@.last()@);
        let next = records[n - 1].offset.next();
        let batch = Batch { records, next, index: 0, attempt: 1, delivered: 0, dead: 0 };
        match self.config.guarantee {
            DeliveryGuarantee::AtMostOnce => {
                let save = self.checkpoint(next);
                self.phase = Phase::Precommitting(batch);
                SinkAction::Save(save)
            },
            DeliveryGuarantee::AtLeastOnce => self.going_on(batch),
        }
    }

    fn refused(&mut self, batch: Batch, e: PortError, now: Timestamp) -> (r: SinkAction)
        requires
            old(self)@.carries(batch@),
            batch@.index < batch@.records.len(),
        ensures
            old(self)@.refused(batch@, e, now@) == (SinkTurn { state: final(self)@, action: r@ }),
    {
        if retry::can_retry(self.config.max_attempts, batch.attempt, &e) {
            let attempt: u32 = batch.attempt + 1;
            return self.going_on(Batch { attempt, ..batch });
        }
        let failed = &batch.records[batch.index];
        let letter = DeadLetterRecord {
            connector: self.id.clone(),
            topic: self.topic.clone(),
            partition: self.partition,
            offset: failed.offset,
            payload: copy_bytes(&failed.payload),
            reason: e.to_string(),
            attempts: batch.attempt,
            failed_at: now,
        };
        self.phase = Phase::Burying(batch);
        SinkAction::DeadLetter(letter)
    }

    /// Take a round one step further: given what happened last, say what to do
    /// next. `now` is when a record that is given up now is dead-lettered.
    pub fn run_once_at(&mut self, event: SinkEvent, now: Timestamp) -> (r: SinkAction)
        requires
            old(self)@.wf(),
            old(self)@.awaits(event),
        ensures
            old(self)@.turn(event, now@) == (SinkTurn { state: final(self)@, action: r@ }),
            final(self)@.wf(),
    {
        proof {
            reveal(SinkView::turn);
        }
        let mut phase = Phase::Idle;
        std::mem::swap(&mut phase, &mut self.phase);
        match (phase, event) {
            (Phase::Idle, SinkEvent::Start) => match self.cursor {
                Some(cached) => self.fetching(cached),
                None => {
                    self.phase = Phase::Loading;
                    SinkAction::Load
                },
            },
            (Phase::Loading, SinkEvent::Loaded(Ok(saved))) => {
                let start = match saved {
                    Some(offset) => offset,
                    None => Offset(0),
                };
                self.fetching(start)
            },
            (Phase::Loading, SinkEvent::Loaded(Err(e))) => self.failed(e),
            (Phase::Fetching(start), SinkEvent::Fetched(Ok(batch))) => self.read(
                start,
                batch.records,
            ),
            (Phase::Fetching(_), SinkEvent::Fetched(Err(e))) => self.failed(e),
            (Phase::Precommitting(batch), SinkEvent::Saved(Ok(()))) => {
                self.cursor = Some(batch.next);
                self.going_on(batch)
            },
            (Phase::Precommitting(_), SinkEvent::Saved(Err(e))) => self.failed(e),
            (Phase::Delivering(batch), SinkEvent::Delivered(Ok(()))) => {
                self.processed = self.processed.wrapping_add(1);
                let total: usize = batch.records.len();
                assert(batch.index < total);
                let index: usize = batch.index + 1;
                let delivered: u64 = batch.delivered + 1;
                self.going_on(Batch { index, attempt: 1, delivered, ..batch })
            },
            (Phase::Delivering(batch), SinkEvent::Delivered(Err(e))) => self.refused(
                batch,
                e,
                now,
            ),
            (Phase::Burying(batch), SinkEvent::DeadLettered(Ok(()))) => {
                self.dead = self.dead.wrapping_add(1);
                let total: usize = batch.records.len();
                assert(batch.index < total);
                let index: usize = batch.index + 1;
                let dead: u64 = batch.dead + 1;
                self.going_on(Batch { index, attempt: 1, dead, ..batch })
            },
            (Phase::Burying(_), SinkEvent::DeadLettered(Err(e))) => self.failed(e),
            (Phase::Committing(batch), SinkEvent::Saved(Ok(()))) => {
                self.cursor = Some(batch.next);
                self.reported(
                    batch.records.len() as u64,
                    batch.delivered,
                    batch.dead,
                    batch.next,
                )
            },
            (Phase::Committing(_), SinkEvent::Saved(Err(e))) => self.failed(e),
            _ => {
                assert(false);
                SinkAction::Load
            },
        }
    }

    /// Take a round one step further: read, deliver with retries, dead-letter
    /// failures, checkpoint. Begin a round with [`SinkEvent::Start`], then report
    /// how each action went, until the round is over. Start rounds repeatedly to
    /// drain a partition; a `polled == 0` report means the connector is caught
    /// up.
    pub fn run_once(&mut self, event: SinkEvent) -> (r: SinkAction)
        requires
            old(self)@.wf(),
            old(self)@.awaits(event),
        ensures
            exists|now: Instant|
                now.valid() && #[trigger] old(self)@.turn(event, now) == (SinkTurn {
                    state: final(self)@,
                    action: r@,
                }),
            final(self)@.wf(),
    {
        let now = Timestamp::now();
        self.run_once_at(event, now)
    }
}

} // verus!
