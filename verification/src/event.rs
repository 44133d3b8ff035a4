//! Domain events published on the broker's control/data bus.
//!
//! Subscribers receive [`LogEvent`]s as records are appended, topics created,
//! or retention prunes the head of a partition. `RecordsAppended` carries the
//! appended records themselves so that a subscriber can tail live data without
//! polling.

use crate::record;
use crate::record::{Record, RecordView};
use crate::text;
use crate::units::{Offset, PartitionId, TopicName};
use std::sync::Arc;
use vstd::prelude::*;

verus! {

/// An event describing a state change in the log.
#[derive(Debug, Clone)]
pub enum LogEvent {
    /// A new topic was created.
    TopicCreated {
        /// The topic name.
        topic: TopicName,
        /// Number of partitions.
        partitions: u32,
    },
    /// One or more records were committed to a partition.
    RecordsAppended {
        /// The topic.
        topic: TopicName,
        /// The partition the records landed on.
        partition: PartitionId,
        /// Offset of the first appended record.
        base_offset: Offset,
        /// The appended records, shared cheaply across subscribers.
        records: Arc<Vec<Record>>,
    },
    /// Retention pruned the head of a partition.
    RecordsTruncated {
        /// The topic.
        topic: TopicName,
        /// The partition.
        partition: PartitionId,
        /// The new earliest retained offset.
        new_start: Offset,
    },
}

/// What an event holds.
#[verifier::ext_equal]
pub enum LogEventView {
    TopicCreated { topic: Seq<char>, partitions: u32 },
    RecordsAppended {
        topic: Seq<char>,
        partition: u32,
        base_offset: u64,
        records: Seq<RecordView>,
    },
    RecordsTruncated { topic: Seq<char>, partition: u32, new_start: u64 },
}

impl View for LogEvent {
    type V = LogEventView;

    open spec fn view(&self) -> LogEventView {
        match *self {
            LogEvent::TopicCreated { topic, partitions } => LogEventView::TopicCreated {
                topic: topic@,
                partitions,
            },
            LogEvent::RecordsAppended { topic, partition, base_offset, records } => {
                LogEventView::RecordsAppended {
                    topic: topic@,
                    partition: partition.0,
                    base_offset: base_offset.0,
                    records: record::views((*records)@),
                }
            },
            LogEvent::RecordsTruncated { topic, partition, new_start } => {
                LogEventView::RecordsTruncated {
                    topic: topic@,
                    partition: partition.0,
                    new_start: new_start.0,
                }
            },
        }
    }
}

impl LogEventView {
    /// The topic this event pertains to.
    pub open spec fn topic(self) -> Seq<char> {
        match self {
            LogEventView::TopicCreated { topic, .. } => topic,
            LogEventView::RecordsAppended { topic, .. } => topic,
            LogEventView::RecordsTruncated { topic, .. } => topic,
        }
    }

    /// The label of the kind of event.
    pub open spec fn kind(self) -> Seq<char> {
        match self {
            LogEventView::TopicCreated { .. } => "topic_created"@,
            LogEventView::RecordsAppended { .. } => "records_appended"@,
            LogEventView::RecordsTruncated { .. } => "records_truncated"@,
        }
    }
}

/// Whether a subscription to some topics (none means all) covers an event.
pub open spec fn covers(topics: Seq<TopicName>, event: LogEventView) -> bool {
    topics.len() == 0 || exists|i: int|
        0 <= i < topics.len() && (#[trigger] topics[i])@ == event.topic()
}

/// What a subscriber's end of the bus brings.
#[derive(Debug)]
pub enum Received {
    /// The next event that was published.
    Event(LogEvent),
    /// The subscriber was too slow, and missed events.
    Lagged,
}

/// What the events of a list hold.
pub open spec fn event_views(events: Seq<LogEvent>) -> Seq<LogEventView> {
    events.map_values(|e: LogEvent| e@)
}

impl LogEvent {
    /// A stable event-kind label, useful for metrics and filtering.
    pub fn kind(&self) -> (r: &'static str)
        ensures
            r@ == self@.kind(),
    {
        match self {
            LogEvent::TopicCreated { topic: _, partitions: _ } => "topic_created",
            LogEvent::RecordsAppended { topic: _, partition: _, base_offset: _, records: _ } => {
                "records_appended"
            },
            LogEvent::RecordsTruncated { topic: _, partition: _, new_start: _ } => {
                "records_truncated"
            },
        }
    }

    /// The topic this event pertains to.
    pub fn topic(&self) -> (r: &TopicName)
        ensures
            r@ == self@.topic(),
    {
        match self {
            LogEvent::TopicCreated { topic, partitions: _ } => topic,
            LogEvent::RecordsAppended { topic, partition: _, base_offset: _, records: _ } => topic,
            LogEvent::RecordsTruncated { topic, partition: _, new_start: _ } => topic,
        }
    }

    /// Whether a subscription to some topics (none means all) covers the event.
    pub fn concerns(&self, topics: &Vec<TopicName>) -> (r: bool)
        ensures
            r == covers(topics@, self@),
    {
        if topics.len() == 0 {
            return true;
        }
        let mine = self.topic();
        let mut i: usize = 0;
        while i < topics.len()
            invariant
                i <= topics@.len(),
                mine@ == self@.topic(),
                forall|k: int| 0 <= k < i ==> (#[trigger] topics@[k])@ != mine@,
            decreases topics.len() - i,
        {
            if text::same(topics[i].as_str(), mine.as_str()) {
                assert(topics@[i as int]@ == self@.topic());
                return true;
            }
            i = i + 1;
        }
        false
    }
}

impl Received {
    /// What a subscription to some topics hands on of what it receives.
    pub open spec fn handed_on(self, topics: Seq<TopicName>) -> Option<LogEvent> {
        match self {
            Received::Event(event) => if covers(topics, event@) {
                Some(event)
            } else {
                None
            },
            Received::Lagged => None,
        }
    }

    /// What a subscription to some topics hands on of what it receives: the
    /// event, if it is covered. A slow subscriber skips what it missed.
    pub fn hand_on(self, topics: &Vec<TopicName>) -> (r: Option<LogEvent>)
        ensures
            r == self.handed_on(topics@),
    {
        match self {
            Received::Event(event) => {
                if event.concerns(topics) {
                    Some(event)
                } else {
                    None
                }
            },
            Received::Lagged => None,
        }
    }
}

/// What a subscription to some topics yields of all that it receives.
pub open spec fn yielded(received: Seq<Received>, topics: Seq<TopicName>) -> Seq<LogEvent>
    decreases received.len(),
{
    if received.len() == 0 {
        Seq::empty()
    } else {
        let earlier = yielded(received.drop_last(), topics);
        match received.last().handed_on(topics) {
            Some(event) => earlier.push(event),
            None => earlier,
        }
    }
}

/// A subscriber that receives the published events, and is never too slow, sees
/// exactly those that it subscribed to, in the order they were published, each
/// once.
pub proof fn law_subscription_is_a_filter(published: Seq<LogEvent>, topics: Seq<TopicName>)
    ensures
        yielded(published.map_values(|e: LogEvent| Received::Event(e)), topics)
            == published.filter(|e: LogEvent| covers(topics, e@)),
    decreases published.len(),
{
    reveal(Seq::filter);
    let received = published.map_values(|e: LogEvent| Received::Event(e));
    if published.len() > 0 {
        let earlier = published.drop_last();
        assert(received.drop_last() =~= earlier.map_values(|e: LogEvent| Received::Event(e)));
        assert(received.last() == Received::Event(published.last()));
        law_subscription_is_a_filter(earlier, topics);
    }
}

/// What is said of an event is said of all that it holds.
pub proof fn law_views_show_the_event(e: LogEvent)
    ensures
        e matches LogEvent::TopicCreated { topic, partitions } ==> (
        e@ matches LogEventView::TopicCreated { topic: t, partitions: n } && t == topic@ && n
            == partitions),
        e matches LogEvent::RecordsAppended { topic, partition, base_offset, records } ==> (
        e@ matches LogEventView::RecordsAppended {
            topic: t,
            partition: p,
            base_offset: base,
            records: told,
        } && t == topic@ && p == partition.0 && base == base_offset.0 && told.len()
            == (*records)@.len() && forall|i: int|
            0 <= i < told.len() ==> #[trigger] told[i] == (*records)@[i]@),
        e matches LogEvent::RecordsTruncated { topic, partition, new_start } ==> (
        e@ matches LogEventView::RecordsTruncated { topic: t, partition: p, new_start: start } && t
            == topic@ && p == partition.0 && start == new_start.0),
{
}

/// A subscription hands on an event exactly if it asked for no topic in
/// particular, or for the one that the event is about; and hands it on as it is.
pub proof fn law_subscriptions_cover_their_topics(e: LogEvent, topics: Seq<TopicName>)
    ensures
        ({
            let about = match e {
                LogEvent::TopicCreated { topic, .. } => topic@,
                LogEvent::RecordsAppended { topic, .. } => topic@,
                LogEvent::RecordsTruncated { topic, .. } => topic@,
            };
            let got = Received::Event(e).handed_on(topics);
            &&& topics.len() == 0 ==> got == Some(e)
            &&& (exists|i: int| 0 <= i < topics.len() && (#[trigger] topics[i])@ == about) ==> got
                == Some(e)
            &&& topics.len() > 0 && (forall|i: int|
                0 <= i < topics.len() ==> (#[trigger] topics[i])@ != about) ==> got is None
        }),
        Received::Lagged.handed_on(topics) is None,
{
}

} // verus!
