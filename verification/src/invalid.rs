//! Domain validation errors.

use crate::text;
use vstd::prelude::*;
use vstd::string::*;

verus! {

/// A record, topic or configuration value that violates a domain invariant.
#[derive(Debug, Clone, Copy, PartialEq, Eq, Structural)]
pub enum InvalidRecord {
    /// The payload contained no bytes.
    EmptyPayload,
    /// The payload exceeded the maximum permitted size.
    PayloadTooLarge(usize),
    /// The topic name was empty.
    EmptyTopicName,
    /// The topic name exceeded the maximum length.
    TopicNameTooLong(usize),
    /// The topic name contained a disallowed character.
    InvalidTopicChar,
    /// A topic was configured with zero partitions.
    ZeroPartitions,
    /// A retention policy specified a zero-record segment roll size.
    ZeroSegmentSize,
}

impl InvalidRecord {
    /// The stable code of the error.
    pub open spec fn code_text(self) -> Seq<char> {
        match self {
            InvalidRecord::EmptyPayload => "EMPTY_PAYLOAD"@,
            InvalidRecord::PayloadTooLarge(_) => "PAYLOAD_TOO_LARGE"@,
            InvalidRecord::EmptyTopicName => "EMPTY_TOPIC_NAME"@,
            InvalidRecord::TopicNameTooLong(_) => "TOPIC_NAME_TOO_LONG"@,
            InvalidRecord::InvalidTopicChar => "INVALID_TOPIC_CHAR"@,
            InvalidRecord::ZeroPartitions => "ZERO_PARTITIONS"@,
            InvalidRecord::ZeroSegmentSize => "ZERO_SEGMENT_SIZE"@,
        }
    }

    /// What the error says to a reader.
    pub open spec fn message(self) -> Seq<char> {
        match self {
            InvalidRecord::EmptyPayload => "record payload must not be empty"@,
            InvalidRecord::PayloadTooLarge(n) => "record payload of "@ + text::decimal(n as nat)
                + " bytes exceeds the maximum"@,
            InvalidRecord::EmptyTopicName => "topic name must not be empty"@,
            InvalidRecord::TopicNameTooLong(n) => "topic name of "@ + text::decimal(n as nat)
                + " bytes exceeds the maximum"@,
            InvalidRecord::InvalidTopicChar => "topic name may only contain [A-Za-z0-9._-]"@,
            InvalidRecord::ZeroPartitions => "a topic must have at least one partition"@,
            InvalidRecord::ZeroSegmentSize => "segment roll size must be greater than zero"@,
        }
    }

    /// A stable, machine-readable error code for API responses and metrics.
    pub fn code(&self) -> (r: &'static str)
        ensures
            r@ == self.code_text(),
    {
        match self {
            InvalidRecord::EmptyPayload => "EMPTY_PAYLOAD",
            InvalidRecord::PayloadTooLarge(_) => "PAYLOAD_TOO_LARGE",
            InvalidRecord::EmptyTopicName => "EMPTY_TOPIC_NAME",
            InvalidRecord::TopicNameTooLong(_) => "TOPIC_NAME_TOO_LONG",
            InvalidRecord::InvalidTopicChar => "INVALID_TOPIC_CHAR",
            InvalidRecord::ZeroPartitions => "ZERO_PARTITIONS",
            InvalidRecord::ZeroSegmentSize => "ZERO_SEGMENT_SIZE",
        }
    }

    /// What the error says to a reader.
    pub fn to_string(&self) -> (r: String)
        ensures
            r@ == self.message(),
    {
        match self {
            InvalidRecord::EmptyPayload => "record payload must not be empty".to_owned(),
            InvalidRecord::PayloadTooLarge(n) => "record payload of ".to_owned().concat(
                text::to_decimal(*n as u64).as_str(),
            ).concat(" bytes exceeds the maximum"),
            InvalidRecord::EmptyTopicName => "topic name must not be empty".to_owned(),
            InvalidRecord::TopicNameTooLong(n) => "topic name of ".to_owned().concat(
                text::to_decimal(*n as u64).as_str(),
            ).concat(" bytes exceeds the maximum"),
            InvalidRecord::InvalidTopicChar => {
                "topic name may only contain [A-Za-z0-9._-]".to_owned()
            },
            InvalidRecord::ZeroPartitions => "a topic must have at least one partition".to_owned(),
            InvalidRecord::ZeroSegmentSize => {
                "segment roll size must be greater than zero".to_owned()
            },
        }
    }
}

} // verus!
