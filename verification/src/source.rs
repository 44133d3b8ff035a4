//! The source runtime: poll, then append to a topic partition.

use crate::connector::{ConnectorId, ConnectorKind, ConnectorStatus, DeliveryGuarantee};
use crate::error::{CoreError, PortError};
use crate::record;
use crate::record::{ProduceRecord, ProduceRecordView};
use crate::timestamp::{Instant, Timestamp};
use crate::units::{Offset, PartitionId, TopicName};
use vstd::prelude::*;

verus! {

/// What a source waits for.
#[derive(Debug, Clone, Copy, PartialEq, Eq, Structural)]
pub enum SourcePhase {
    /// No round is under way.
    Idle,
    /// The source is being polled.
    Polling,
    /// So many records are being appended.
    Appending(u64),
}

/// What happened to a source last.
#[derive(Debug)]
pub enum SourceEvent {
    /// A round is to start.
    Start,
    /// The source was polled; no records mean that it is idle.
    Polled(Result<Vec<ProduceRecord>, PortError>),
    /// The records were appended.
    Appended(Result<(), PortError>),
}

/// What a source wants done next.
#[derive(Debug)]
pub enum SourceAction {
    /// Poll the source.
    Poll,
    /// Append the records with the timestamp.
    Append(Vec<ProduceRecord>, Timestamp),
    /// Nothing: the round is over, with so many records produced.
    Done(Result<u64, CoreError>),
}

/// What a source action holds.
#[verifier::ext_equal]
pub enum SourceActionView {
    Poll,
    Append(Seq<ProduceRecordView>, Instant),
    Done(Result<u64, CoreError>),
}

impl View for SourceAction {
    type V = SourceActionView;

    open spec fn view(&self) -> SourceActionView {
        match *self {
            SourceAction::Poll => SourceActionView::Poll,
            SourceAction::Append(records, timestamp) => SourceActionView::Append(
                record::produce_views(records@),
                timestamp@,
            ),
            SourceAction::Done(result) => SourceActionView::Done(result),
        }
    }
}

/// What is known of a source: who it is and what it feeds, how many records it
/// has produced, and where its round stands.
#[verifier::ext_equal]
pub struct SourceView {
    pub id: ConnectorId,
    pub topic: TopicName,
    pub partition: PartitionId,
    pub produced: u64,
    pub phase: SourcePhase,
}

/// A source's state after an event, and what it wants done.
pub struct SourceTurn {
    pub state: SourceView,
    pub action: SourceActionView,
}

impl SourceView {
    /// The status of this source.
    pub open spec fn status(self) -> ConnectorStatus {
        ConnectorStatus {
            id: self.id,
            kind: ConnectorKind::Source,
            guarantee: DeliveryGuarantee::AtLeastOnce,
            running: true,
            processed: self.produced,
            dead_lettered: 0,
            checkpoint: Offset(0),
        }
    }

    /// The round ends.
    pub open spec fn ends(self, result: Result<u64, CoreError>) -> SourceTurn {
        SourceTurn {
            state: SourceView { phase: SourcePhase::Idle, ..self },
            action: SourceActionView::Done(result),
        }
    }

    /// What a source makes of an event that it awaits.
    pub open spec fn turn(self, event: SourceEvent, now: Instant) -> SourceTurn {
        match (self.phase, event) {
            (SourcePhase::Idle, SourceEvent::Start) => SourceTurn {
                state: SourceView { phase: SourcePhase::Polling, ..self },
                action: SourceActionView::Poll,
            },
            (SourcePhase::Polling, SourceEvent::Polled(Ok(records))) => if records@.len() == 0 {
                self.ends(Ok(0))
            } else {
                SourceTurn {
                    state: SourceView {
                        phase: SourcePhase::Appending(records@.len() as u64),
                        ..self
                    },
                    action: SourceActionView::Append(record::produce_views(records@), now),
                }
            },
            (SourcePhase::Polling, SourceEvent::Polled(Err(e))) => self.ends(
                Err(CoreError::Port(e)),
            ),
            (SourcePhase::Appending(count), SourceEvent::Appended(Ok(_))) => SourceView {
                produced: ((self.produced + count) % 0x1_0000_0000_0000_0000) as u64,
                ..self
            }.ends(Ok(count)),
            (SourcePhase::Appending(_), SourceEvent::Appended(Err(e))) => self.ends(
                Err(CoreError::Port(e)),
            ),
            _ => self.ends(Ok(0)),
        }
    }

    /// Whether the event answers what the source wants done.
    pub open spec fn awaits(self, event: SourceEvent) -> bool {
        match (self.phase, event) {
            (SourcePhase::Idle, SourceEvent::Start) => true,
            (SourcePhase::Polling, SourceEvent::Polled(_)) => true,
            (SourcePhase::Appending(_), SourceEvent::Appended(_)) => true,
            _ => false,
        }
    }
}

/// Drives a single source connector: poll → append to a topic partition.
#[derive(Debug)]
pub struct SourceRuntime {
    id: ConnectorId,
    topic: TopicName,
    partition: PartitionId,
    produced: u64,
    phase: SourcePhase,
}

impl View for SourceRuntime {
    type V = SourceView;

    closed spec fn view(&self) -> SourceView {
        SourceView {
            id: self.id,
            topic: self.topic,
            partition: self.partition,
            produced: self.produced,
            phase: self.phase,
        }
    }
}

/// What is said of an action is said of all that it holds.
pub proof fn law_views_show_the_action(action: SourceAction)
    ensures
        action is Poll <==> action@ is Poll,
        action matches SourceAction::Append(records, timestamp) ==> (
        action@ matches SourceActionView::Append(batch, at) && at == timestamp@ && batch.len()
            == records@.len() && forall|i: int|
            0 <= i < batch.len() ==> #[trigger] batch[i] == records@[i]@),
        action matches SourceAction::Done(result) ==> action@ == SourceActionView::Done(result),
{
}

impl SourceRuntime {
    /// A source that has not produced anything yet.
    pub fn new(id: ConnectorId, topic: TopicName, partition: PartitionId) -> (r: SourceRuntime)
        ensures
            r@ == (SourceView { id, topic, partition, produced: 0, phase: SourcePhase::Idle }),
    {
        SourceRuntime { id, topic, partition, produced: 0, phase: SourcePhase::Idle }
    }

    /// The connector's id.
    pub fn id(&self) -> (r: &ConnectorId)
        ensures
            *r == self@.id,
    {
        &self.id
    }

    /// The topic appended to.
    pub fn topic(&self) -> (r: &TopicName)
        ensures
            *r == self@.topic,
    {
        &self.topic
    }

    /// The partition appended to.
    pub fn partition(&self) -> (r: PartitionId)
        ensures
            r == self@.partition,
    {
        self.partition
    }

    /// Total records produced so far.
    pub fn produced(&self) -> (r: u64)
        ensures
            r == self@.produced,
    {
        self.produced
    }

    /// The connector's current status snapshot.
    pub fn status(&self) -> (r: ConnectorStatus)
        ensures
            r == self@.status(),
            r == (ConnectorStatus {
                id: self@.id,
                kind: ConnectorKind::Source,
                guarantee: DeliveryGuarantee::AtLeastOnce,
                running: true,
                processed: self@.produced,
                dead_lettered: 0,
                checkpoint: Offset(0),
            }),
    {
        ConnectorStatus {
            id: self.id.clone(),
            kind: ConnectorKind::Source,
            guarantee: DeliveryGuarantee::AtLeastOnce,
            running: true,
            processed: self.produced,
            dead_lettered: 0,
            checkpoint: Offset(0),
        }
    }

    /// Take a round one step further. `now` is the timestamp of records that
    /// were polled now.
    pub fn run_once_at(&mut self, event: SourceEvent, now: Timestamp) -> (r: SourceAction)
        requires
            old(self)@.awaits(event),
        ensures
            old(self)@.turn(event, now@) == (SourceTurn { state: final(self)@, action: r@ }),
    {
        let phase = self.phase;
        self.phase = SourcePhase::Idle;
        match (phase, event) {
            (SourcePhase::Idle, SourceEvent::Start) => {
                self.phase = SourcePhase::Polling;
                SourceAction::Poll
            },
            (SourcePhase::Polling, SourceEvent::Polled(Ok(records))) => {
                if records.len() == 0 {
                    return SourceAction::Done(Ok(0));
                }
                self.phase = SourcePhase::Appending(records.len() as u64);
                SourceAction::Append(records, now)
            },
            (SourcePhase::Polling, SourceEvent::Polled(Err(e))) => SourceAction::Done(
                Err(CoreError::Port(e)),
            ),
            (SourcePhase::Appending(count), SourceEvent::Appended(Ok(()))) => {
                self.produced = self.produced.wrapping_add(count);
                SourceAction::Done(Ok(count))
            },
            (SourcePhase::Appending(_), SourceEvent::Appended(Err(e))) => SourceAction::Done(
                Err(CoreError::Port(e)),
            ),
            _ => {
                assert(false);
                SourceAction::Done(Ok(0))
            },
        }
    }

    /// Poll the source once and append whatever it returns, one step at a time.
    /// The round ends with the number of records produced (0 = source is idle).
    pub fn run_once(&mut self, event: SourceEvent) -> (r: SourceAction)
        requires
            old(self)@.awaits(event),
        ensures
            exists|now: Instant|
                now.valid() && #[trigger] old(self)@.turn(event, now) == (SourceTurn {
                    state: final(self)@,
                    action: r@,
                }),
    {
        let now = Timestamp::now();
        self.run_once_at(event, now)
    }
}

/// What a source polled is appended as it came, and counted once it is stored;
/// a round that fails counts nothing.
pub proof fn law_polled_records_are_appended(
    s: SourceView,
    records: Vec<ProduceRecord>,
    outcome: Result<(), PortError>,
    first: Instant,
    second: Instant,
)
    requires
        s.phase is Polling,
        0 < records@.len() <= u64::MAX,
    ensures
        ({
            let polled = s.turn(SourceEvent::Polled(Ok(records)), first);
            let stored = polled.state.turn(SourceEvent::Appended(outcome), second);
            &&& polled.action == SourceActionView::Append(record::produce_views(records@), first)
            &&& polled.state.produced == s.produced
            &&& outcome is Ok ==> stored.action == SourceActionView::Done(
                Ok::<u64, CoreError>(records@.len() as u64),
            ) && stored.state.produced == (s.produced + records@.len()) % 0x1_0000_0000_0000_0000
            &&& outcome matches Err(e) ==> stored.action == SourceActionView::Done(
                Err::<u64, CoreError>(CoreError::Port(e)),
            ) && stored.state.produced == s.produced
        }),
{
}

/// A round of a source starts with a poll. A source that has nothing to give ends
/// the round with nothing produced, and one that fails with that failure; neither
/// changes its total. Whatever happens, a source stays who it is and feeds what it
/// feeds.
pub proof fn law_source_rounds(
    s: SourceView,
    event: SourceEvent,
    none: Vec<ProduceRecord>,
    e: PortError,
    now: Instant,
)
    requires
        none@.len() == 0,
    ensures
        s.turn(event, now).state.id == s.id,
        s.turn(event, now).state.topic == s.topic,
        s.turn(event, now).state.partition == s.partition,
        s.phase is Idle ==> {
            let next = s.turn(SourceEvent::Start, now);
            &&& next.action is Poll
            &&& next.state == (SourceView { phase: SourcePhase::Polling, ..s })
        },
        s.phase is Polling ==> {
            let idle = s.turn(SourceEvent::Polled(Ok(none)), now);
            let failed = s.turn(SourceEvent::Polled(Err(e)), now);
            &&& idle.action == SourceActionView::Done(Ok::<u64, CoreError>(0))
            &&& idle.state == (SourceView { phase: SourcePhase::Idle, ..s })
            &&& failed.action == SourceActionView::Done(Err::<u64, CoreError>(CoreError::Port(e)))
            &&& failed.state == (SourceView { phase: SourcePhase::Idle, ..s })
        },
{
}

/// What a source appends is what was polled, record by record and in order; and
/// once it is stored, the source is ready for its next round.
pub proof fn law_sources_append_what_was_polled(
    s: SourceView,
    records: Vec<ProduceRecord>,
    first: Instant,
    second: Instant,
)
    requires
        s.phase is Polling,
        0 < records@.len() <= u64::MAX,
    ensures
        ({
            let polled = s.turn(SourceEvent::Polled(Ok(records)), first);
            let stored = polled.state.turn(SourceEvent::Appended(Ok(())), second);
            &&& polled.action matches SourceActionView::Append(batch, at) && {
                &&& at == first
                &&& batch.len() == records@.len()
                &&& forall|i: int|
                    0 <= i < batch.len() ==> #[trigger] batch[i] == records@[i]@
            }
            &&& stored.state.phase is Idle
            &&& stored.action matches SourceActionView::Done(Ok(n)) && n == records@.len()
            &&& s.produced + records@.len() <= u64::MAX ==> stored.state.produced == s.produced
                + records@.len()
        }),
{
}

/// A source's status tells who it is and how many records it has produced: each
/// round that is stored adds its records to that, and no other round does.
pub proof fn law_status_counts_what_was_stored(
    s: SourceView,
    records: Vec<ProduceRecord>,
    outcome: Result<(), PortError>,
    first: Instant,
    second: Instant,
)
    requires
        s.phase is Polling,
        0 < records@.len(),
        s.produced + records@.len() <= u64::MAX,
    ensures
        ({
            let polled = s.turn(SourceEvent::Polled(Ok(records)), first);
            let after = polled.state.turn(SourceEvent::Appended(outcome), second).state;
            &&& after.status().id == s.id
            &&& after.status().kind == ConnectorKind::Source
            &&& after.status().running
            &&& after.status().dead_lettered == 0
            &&& after.status().checkpoint.0 == 0
            &&& after.status().guarantee == DeliveryGuarantee::AtLeastOnce
            &&& after.status().processed == s.produced + if outcome is Ok {
                records@.len() as int
            } else {
                0
            }
        }),
{
}

} // verus!
