//! Error types for the engine.
//!
//! [`PortError`] is what adapters return; [`CoreError`] is what the engine
//! surfaces to callers. Keeping them separate lets the engine classify
//! transient failures for retry without leaking adapter details.

use crate::invalid::InvalidRecord;
use crate::text;
use vstd::prelude::*;
use vstd::string::*;

verus! {

/// An error returned by a port (storage or event-sink adapter).
#[derive(Debug, PartialEq, Eq)]
pub enum PortError {
    /// The dependency is currently unavailable; the operation may succeed if
    /// retried after backoff.
    Unavailable(String),
    /// The requested topic or partition does not exist.
    NotFound(String),
    /// A transient failure that is safe to retry.
    Transient(String),
    /// A permanent failure that must not be retried.
    Permanent(String),
}

impl Clone for PortError {
    fn clone(&self) -> (r: PortError)
        ensures
            r == *self,
    {
        match self {
            PortError::Unavailable(s) => PortError::Unavailable(s.clone()),
            PortError::NotFound(s) => PortError::NotFound(s.clone()),
            PortError::Transient(s) => PortError::Transient(s.clone()),
            PortError::Permanent(s) => PortError::Permanent(s.clone()),
        }
    }
}

impl PortError {
    /// Whether retrying the operation could plausibly succeed.
    pub open spec fn retryable(self) -> bool {
        self is Unavailable || self is Transient
    }

    /// What the error says to a reader.
    pub open spec fn message(self) -> Seq<char> {
        match self {
            PortError::Unavailable(s) => "dependency unavailable: "@ + s@,
            PortError::NotFound(s) => "not found: "@ + s@,
            PortError::Transient(s) => "transient failure: "@ + s@,
            PortError::Permanent(s) => "permanent failure: "@ + s@,
        }
    }

    /// Whether retrying the operation could plausibly succeed.
    pub fn is_retryable(&self) -> (r: bool)
        ensures
            r == self.retryable(),
    {
        match self {
            PortError::Unavailable(_) | PortError::Transient(_) => true,
            PortError::NotFound(_) | PortError::Permanent(_) => false,
        }
    }

    /// What the error says to a reader.
    pub fn to_string(&self) -> (r: String)
        ensures
            r@ == self.message(),
    {
        match self {
            PortError::Unavailable(s) => "dependency unavailable: ".to_owned().concat(s.as_str()),
            PortError::NotFound(s) => "not found: ".to_owned().concat(s.as_str()),
            PortError::Transient(s) => "transient failure: ".to_owned().concat(s.as_str()),
            PortError::Permanent(s) => "permanent failure: ".to_owned().concat(s.as_str()),
        }
    }
}

/// An error surfaced by the engine to its API/callers.
#[derive(Debug, PartialEq, Eq)]
pub enum CoreError {
    /// A record or configuration value failed domain validation.
    Invalid(InvalidRecord),
    /// The produce rate limit was exceeded; the caller should back off.
    RateLimited,
    /// A produce call carried no records.
    EmptyBatch,
    /// A topic with the same name already exists.
    TopicExists(String),
    /// The referenced topic does not exist.
    TopicNotFound(String),
    /// The referenced partition is out of range for the topic.
    PartitionOutOfRange {
        /// Topic name.
        topic: String,
        /// Requested partition.
        partition: u32,
        /// Number of partitions the topic actually has.
        count: u32,
    },
    /// The maximum number of topics has been reached.
    CapacityExceeded(usize),
    /// A storage operation timed out even after retries.
    Timeout,
    /// An underlying port failed permanently.
    Port(PortError),
}

impl Clone for CoreError {
    fn clone(&self) -> (r: CoreError)
        ensures
            r == *self,
    {
        match self {
            CoreError::Invalid(e) => CoreError::Invalid(*e),
            CoreError::RateLimited => CoreError::RateLimited,
            CoreError::EmptyBatch => CoreError::EmptyBatch,
            CoreError::TopicExists(t) => CoreError::TopicExists(t.clone()),
            CoreError::TopicNotFound(t) => CoreError::TopicNotFound(t.clone()),
            CoreError::PartitionOutOfRange { topic, partition, count } => {
                CoreError::PartitionOutOfRange {
                    topic: topic.clone(),
                    partition: *partition,
                    count: *count,
                }
            },
            CoreError::CapacityExceeded(n) => CoreError::CapacityExceeded(*n),
            CoreError::Timeout => CoreError::Timeout,
            CoreError::Port(e) => CoreError::Port(e.clone()),
        }
    }
}

impl From<InvalidRecord> for CoreError {
    fn from(e: InvalidRecord) -> (r: CoreError) {
        CoreError::Invalid(e)
    }
}

impl vstd::std_specs::convert::FromSpecImpl<InvalidRecord> for CoreError {
    open spec fn obeys_from_spec() -> bool {
        true
    }

    open spec fn from_spec(v: InvalidRecord) -> CoreError {
        CoreError::Invalid(v)
    }
}

impl From<PortError> for CoreError {
    fn from(e: PortError) -> (r: CoreError) {
        CoreError::Port(e)
    }
}

impl vstd::std_specs::convert::FromSpecImpl<PortError> for CoreError {
    open spec fn obeys_from_spec() -> bool {
        true
    }

    open spec fn from_spec(v: PortError) -> CoreError {
        CoreError::Port(v)
    }
}

impl CoreError {
    /// The stable code of the error.
    pub open spec fn code_text(self) -> Seq<char> {
        match self {
            CoreError::Invalid(e) => e.code_text(),
            CoreError::RateLimited => "RATE_LIMITED"@,
            CoreError::EmptyBatch => "EMPTY_BATCH"@,
            CoreError::TopicExists(_) => "TOPIC_EXISTS"@,
            CoreError::TopicNotFound(_) => "TOPIC_NOT_FOUND"@,
            CoreError::PartitionOutOfRange { .. } => "PARTITION_OUT_OF_RANGE"@,
            CoreError::CapacityExceeded(_) => "CAPACITY_EXCEEDED"@,
            CoreError::Timeout => "TIMEOUT"@,
            CoreError::Port(_) => "PORT_ERROR"@,
        }
    }

    /// What the error says to a reader.
    pub open spec fn message(self) -> Seq<char> {
        match self {
            CoreError::Invalid(e) => e.message(),
            CoreError::RateLimited => "produce rate limit exceeded"@,
            CoreError::EmptyBatch => "produce batch must contain at least one record"@,
            CoreError::TopicExists(t) => "topic '"@ + t@ + "' already exists"@,
            CoreError::TopicNotFound(t) => "topic '"@ + t@ + "' not found"@,
            CoreError::PartitionOutOfRange { topic, partition, count } => "partition "@
                + text::decimal(partition as nat) + " out of range for topic '"@ + topic@
                + "' with "@ + text::decimal(count as nat) + " partitions"@,
            CoreError::CapacityExceeded(n) => "topic capacity of "@ + text::decimal(n as nat)
                + " reached"@,
            CoreError::Timeout => "storage operation timed out"@,
            CoreError::Port(e) => e.message(),
        }
    }

    /// A stable, machine-readable error code.
    pub fn code(&self) -> (r: &'static str)
        ensures
            r@ == self.code_text(),
    {
        match self {
            CoreError::Invalid(e) => e.code(),
            CoreError::RateLimited => "RATE_LIMITED",
            CoreError::EmptyBatch => "EMPTY_BATCH",
            CoreError::TopicExists(_) => "TOPIC_EXISTS",
            CoreError::TopicNotFound(_) => "TOPIC_NOT_FOUND",
            CoreError::PartitionOutOfRange { topic: _, partition: _, count: _ } => {
                "PARTITION_OUT_OF_RANGE"
            },
            CoreError::CapacityExceeded(_) => "CAPACITY_EXCEEDED",
            CoreError::Timeout => "TIMEOUT",
            CoreError::Port(_) => "PORT_ERROR",
        }
    }

    /// What the error says to a reader.
    pub fn to_string(&self) -> (r: String)
        ensures
            r@ == self.message(),
    {
        match self {
            CoreError::Invalid(e) => e.to_string(),
            CoreError::RateLimited => "produce rate limit exceeded".to_owned(),
            CoreError::EmptyBatch => "produce batch must contain at least one record".to_owned(),
            CoreError::TopicExists(t) => "topic '".to_owned().concat(t.as_str()).concat(
                "' already exists",
            ),
            CoreError::TopicNotFound(t) => "topic '".to_owned().concat(t.as_str()).concat(
                "' not found",
            ),
            CoreError::PartitionOutOfRange { topic, partition, count } => {
                "partition ".to_owned().concat(text::to_decimal(*partition as u64).as_str()).concat(
                    " out of range for topic '",
                ).concat(topic.as_str()).concat("' with ").concat(
                    text::to_decimal(*count as u64).as_str(),
                ).concat(" partitions")
            },
            CoreError::CapacityExceeded(n) => "topic capacity of ".to_owned().concat(
                text::to_decimal(*n as u64).as_str(),
            ).concat(" reached"),
            CoreError::Timeout => "storage operation timed out".to_owned(),
            CoreError::Port(e) => e.to_string(),
        }
    }
}

/// What an engine error holds.
#[verifier::ext_equal]
pub enum CoreErrorView {
    Invalid(InvalidRecord),
    RateLimited,
    EmptyBatch,
    TopicExists(Seq<char>),
    TopicNotFound(Seq<char>),
    PartitionOutOfRange { topic: Seq<char>, partition: u32, count: u32 },
    CapacityExceeded(usize),
    Timeout,
    Port(PortError),
}

impl View for CoreError {
    type V = CoreErrorView;

    open spec fn view(&self) -> CoreErrorView {
        match *self {
            CoreError::Invalid(e) => CoreErrorView::Invalid(e),
            CoreError::RateLimited => CoreErrorView::RateLimited,
            CoreError::EmptyBatch => CoreErrorView::EmptyBatch,
            CoreError::TopicExists(topic) => CoreErrorView::TopicExists(topic@),
            CoreError::TopicNotFound(topic) => CoreErrorView::TopicNotFound(topic@),
            CoreError::PartitionOutOfRange { topic, partition, count } => {
                CoreErrorView::PartitionOutOfRange { topic: topic@, partition, count }
            },
            CoreError::CapacityExceeded(n) => CoreErrorView::CapacityExceeded(n),
            CoreError::Timeout => CoreErrorView::Timeout,
            CoreError::Port(e) => CoreErrorView::Port(e),
        }
    }
}

/// What a port failure says ends with what the adapter said of it.
pub proof fn law_failures_name_their_cause(e: PortError)
    ensures
        ({
            let cause = match e {
                PortError::Unavailable(s) => s@,
                PortError::NotFound(s) => s@,
                PortError::Transient(s) => s@,
                PortError::Permanent(s) => s@,
            };
            &&& e.message().len() >= cause.len()
            &&& e.message().skip(e.message().len() - cause.len()) == cause
            &&& CoreError::Port(e).message() == e.message()
        }),
        e.retryable() <==> !(e is NotFound || e is Permanent),
{
    let cause = match e {
        PortError::Unavailable(s) => s@,
        PortError::NotFound(s) => s@,
        PortError::Transient(s) => s@,
        PortError::Permanent(s) => s@,
    };
    assert(e.message().skip(e.message().len() - cause.len()) =~= cause);
}

/// An engine error shows to a caller just as it is.
pub proof fn law_error_views_show_the_error(e: CoreError)
    ensures
        e matches CoreError::Invalid(problem) ==> e@ == CoreErrorView::Invalid(problem),
        e is RateLimited <==> e@ is RateLimited,
        e is EmptyBatch <==> e@ is EmptyBatch,
        e is Timeout <==> e@ is Timeout,
        e matches CoreError::TopicExists(t) ==> e@ == CoreErrorView::TopicExists(t@),
        e matches CoreError::TopicNotFound(t) ==> e@ == CoreErrorView::TopicNotFound(t@),
        e matches CoreError::CapacityExceeded(n) ==> e@ == CoreErrorView::CapacityExceeded(n),
        e matches CoreError::Port(cause) ==> e@ == CoreErrorView::Port(cause),
        e matches CoreError::PartitionOutOfRange { topic, partition, count } ==> (
        e@ matches CoreErrorView::PartitionOutOfRange { topic: t, partition: p, count: n } && t
            == topic@ && p == partition && n == count),
{
}

} // verus!
