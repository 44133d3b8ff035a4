//! Topic configuration, retention policy, and partition routing.

use crate::invalid::InvalidRecord;
use crate::units::{PartitionId, TopicName};
use vstd::prelude::*;
use vstd::string::*;
use vstd::utf8::*;

verus! {

/// How much data a partition retains before the oldest segments are pruned.
///
/// Retention is expressed in whole records; whenever a partition holds more
/// than `max_records` committed records, entire trailing-from-the-head segments
/// are deleted until the bound is satisfied.
#[derive(Debug, Clone, Copy, PartialEq, Eq, Structural)]
pub struct RetentionPolicy {
    /// Roll a new segment once the active one reaches this many records.
    pub segment_max_records: u64,
    /// Retain at most this many records per partition (0 = unbounded).
    pub max_records: u64,
}

impl Default for RetentionPolicy {
    fn default() -> (r: RetentionPolicy)
        ensures
            r.segment_max_records == 1024,
            r.max_records == 1_000_000,
    {
        RetentionPolicy { segment_max_records: 1024, max_records: 1_000_000 }
    }
}

impl RetentionPolicy {
    /// How many records a segment takes before the next one is opened: the roll
    /// size, but no more than the partition may retain, so that the bound can be
    /// satisfied by whole segments while the newest records stay; and one at
    /// least.
    pub open spec fn capacity(self) -> u64 {
        let most = if 0 < self.max_records < self.segment_max_records {
            self.max_records
        } else {
            self.segment_max_records
        };
        if most == 0 {
            1
        } else {
            most
        }
    }

    /// How many records a segment takes: see [`RetentionPolicy::capacity`].
    pub fn segment_capacity(&self) -> (r: u64)
        ensures
            r == self.capacity(),
    {
        let most: u64 = if 0 < self.max_records && self.max_records < self.segment_max_records {
            self.max_records
        } else {
            self.segment_max_records
        };
        if most == 0 {
            1
        } else {
            most
        }
    }

    /// Validate the policy: a roll size of zero would cause unbounded segment
    /// creation.
    pub fn validate(&self) -> (r: Result<(), InvalidRecord>)
        ensures
            r == if self.segment_max_records == 0 {
                Err::<(), InvalidRecord>(InvalidRecord::ZeroSegmentSize)
            } else {
                Ok::<(), InvalidRecord>(())
            },
    {
        if self.segment_max_records == 0 {
            return Err(InvalidRecord::ZeroSegmentSize);
        }
        Ok(())
    }
}

/// Immutable configuration for a topic.
#[derive(Debug, PartialEq, Eq)]
pub struct TopicConfig {
    /// The topic's validated name.
    pub name: TopicName,
    /// Number of partitions (must be >= 1).
    pub partitions: u32,
    /// Retention/segmentation policy applied to every partition.
    pub retention: RetentionPolicy,
}

impl Clone for TopicConfig {
    fn clone(&self) -> (r: TopicConfig)
        ensures
            r == *self,
    {
        TopicConfig {
            name: self.name.clone(),
            partitions: self.partitions,
            retention: self.retention,
        }
    }
}

/// What is wrong with a topic of so many partitions under a policy.
pub open spec fn topic_problem(partitions: u32, retention: RetentionPolicy) -> Option<
    InvalidRecord,
> {
    if partitions == 0 {
        Some(InvalidRecord::ZeroPartitions)
    } else if retention.segment_max_records == 0 {
        Some(InvalidRecord::ZeroSegmentSize)
    } else {
        None
    }
}

/// Where the FNV-1a hash starts.
pub const FNV_OFFSET: u64 = 0xcbf2_9ce4_8422_2325;

/// What the FNV-1a hash multiplies by.
pub const FNV_PRIME: u64 = 0x0000_0100_0000_01b3;

/// The 64-bit FNV-1a hash.
pub open spec fn fnv1a_hash(bytes: Seq<u8>) -> u64
    decreases bytes.len(),
{
    if bytes.len() == 0 {
        FNV_OFFSET
    } else {
        ((fnv1a_hash(bytes.drop_last()) ^ (bytes.last() as u64)) * FNV_PRIME
            % 0x1_0000_0000_0000_0000) as u64
    }
}

/// The partition, of `count`, that a record belongs to: a keyed record is
/// placed by the hash of its key, a keyless one by a turn counter.
pub open spec fn routed(key: Option<Seq<char>>, turn: u64, count: u32) -> int {
    match key {
        Some(k) => fnv1a_hash(encode_utf8(k)) as int % count as int,
        None => turn as int % count as int,
    }
}

/// FNV-1a 64-bit hash: small, dependency-free, and stable across runs.
pub fn fnv1a(bytes: &[u8]) -> (r: u64)
    ensures
        r == fnv1a_hash(bytes@),
{
    let mut hash: u64 = FNV_OFFSET;
    let mut i: usize = 0;
    assert(bytes@.take(0) =~= Seq::<u8>::empty());
    while i < bytes.len()
        invariant
            i <= bytes@.len(),
            hash == fnv1a_hash(bytes@.take(i as int)),
        decreases bytes.len() - i,
    {
        proof {
            let next = bytes@.take(i as int + 1);
            assert(next.drop_last() =~= bytes@.take(i as int));
            assert(next.last() == bytes@[i as int]);
        }
        hash = (hash ^ (bytes[i] as u64)).wrapping_mul(FNV_PRIME);
        i = i + 1;
    }
    assert(bytes@.take(bytes@.len() as int) =~= bytes@);
    hash
}

/// Finds the partition of a record: see [`routed`].
pub(crate) fn slot_for(key: Option<&str>, turn: u64, count: u32) -> (r: PartitionId)
    requires
        count > 0,
    ensures
        r.0 < count,
        r.0 == routed(
            match key {
                Some(k) => Some(k@),
                None => None,
            },
            turn,
            count,
        ),
{
    let slot: u64 = match key {
        Some(k) => fnv1a(k.as_bytes()) % (count as u64),
        None => turn % (count as u64),
    };
    PartitionId(slot as u32)
}

impl TopicConfig {
    /// Construct and validate a topic configuration.
    pub fn new(name: TopicName, partitions: u32, retention: RetentionPolicy) -> (r: Result<
        TopicConfig,
        InvalidRecord,
    >)
        ensures
            match (r, topic_problem(partitions, retention)) {
                (Ok(config), None) => config == (TopicConfig { name, partitions, retention }),
                (Err(e), Some(problem)) => e == problem,
                _ => false,
            },
    {
        if partitions == 0 {
            return Err(InvalidRecord::ZeroPartitions);
        }
        match retention.validate() {
            Err(e) => Err(e),
            Ok(()) => Ok(TopicConfig { name, partitions, retention }),
        }
    }

    /// Deterministically map an optional key to a partition.
    ///
    /// Keyed records use a stable FNV-1a hash so that a given key always lands
    /// on the same partition (ordering guarantee). Keyless records are spread
    /// by the caller-supplied `round_robin` counter.
    pub fn partition_for(&self, key: Option<&str>, round_robin: u64) -> (r: PartitionId)
        requires
            self.partitions > 0,
        ensures
            r.0 < self.partitions,
            r.0 == routed(
                match key {
                    Some(k) => Some(k@),
                    None => None,
                },
                round_robin,
                self.partitions,
            ),
    {
        slot_for(key, round_robin, self.partitions)
    }
}

/// A key always lands on the same partition, whatever the turn counter says.
pub proof fn law_keyed_routing_is_stable(key: Seq<char>, turn: u64, other_turn: u64, count: u32)
    requires
        count > 0,
    ensures
        routed(Some(key), turn, count) == routed(Some(key), other_turn, count),
        0 <= routed(Some(key), turn, count) < count,
{
}

/// Keyless records that take consecutive turns go round the partitions in
/// order.
pub proof fn law_keyless_routing_goes_round(turn: u64, count: u32)
    requires
        count > 0,
        turn < u64::MAX,
    ensures
        0 <= routed(None, turn, count) < count,
        routed(None, (turn + 1) as u64, count) == if routed(None, turn, count) == count - 1 {
            0
        } else {
            routed(None, turn, count) + 1
        },
{
    let t = turn as int;
    let c = count as int;
    vstd::arithmetic::div_mod::lemma_fundamental_div_mod(t, c);
    if t % c == c - 1 {
        assert(t + 1 == (t / c + 1) * c) by (nonlinear_arith)
            requires
                t == c * (t / c) + t % c,
                t % c == c - 1,
        ;
        vstd::arithmetic::div_mod::lemma_fundamental_div_mod_converse(t + 1, c, t / c + 1, 0);
    } else {
        assert(t + 1 == (t / c) * c + (t % c + 1)) by (nonlinear_arith)
            requires
                t == c * (t / c) + t % c,
        ;
        vstd::arithmetic::div_mod::lemma_fundamental_div_mod_converse(
            t + 1,
            c,
            t / c,
            t % c + 1,
        );
    }
}

/// A topic is valid exactly if it has a partition and its segments may hold a
/// record; a missing partition is told of first.
pub proof fn law_topics_are_checked(partitions: u32, retention: RetentionPolicy)
    ensures
        topic_problem(partitions, retention) is None <==> partitions >= 1
            && retention.segment_max_records >= 1,
        partitions == 0 ==> topic_problem(partitions, retention) == Some(
            InvalidRecord::ZeroPartitions,
        ),
        partitions >= 1 && retention.segment_max_records == 0 ==> topic_problem(
            partitions,
            retention,
        ) == Some(InvalidRecord::ZeroSegmentSize),
{
}

/// A segment takes as many records as the roll size says, unless a partition may
/// not retain as many; then it takes as many as may be retained.
pub proof fn law_segments_take_what_they_may(policy: RetentionPolicy)
    requires
        policy.segment_max_records >= 1,
    ensures
        1 <= policy.capacity() <= policy.segment_max_records,
        policy.max_records == 0 ==> policy.capacity() == policy.segment_max_records,
        policy.max_records >= policy.segment_max_records ==> policy.capacity()
            == policy.segment_max_records,
        1 <= policy.max_records <= policy.segment_max_records ==> policy.capacity()
            == policy.max_records,
{
}

/// The hash takes in a key byte by byte: each is mixed into the hash of the bytes
/// before it, which is then multiplied.
pub proof fn law_hash_takes_in_each_byte(bytes: Seq<u8>, next: u8)
    ensures
        fnv1a_hash(Seq::empty()) == 0xcbf2_9ce4_8422_2325,
        fnv1a_hash(bytes.push(next)) == (fnv1a_hash(bytes) ^ (next as u64)) * 0x0000_0100_0000_01b3
            % 0x1_0000_0000_0000_0000,
{
    assert(bytes.push(next).drop_last() =~= bytes);
}

/// A keyed record is placed by the hash of its key's bytes, a keyless one by the
/// turn counter; both by what is left when divided by the number of partitions.
pub proof fn law_routing_divides(key: Seq<char>, turn: u64, count: u32)
    requires
        count > 0,
    ensures
        (fnv1a_hash(encode_utf8(key)) - routed(Some(key), turn, count)) % count as int == 0,
        0 <= routed(Some(key), turn, count) < count,
        (turn - routed(None, turn, count)) % count as int == 0,
        0 <= routed(None, turn, count) < count,
{
    let h = fnv1a_hash(encode_utf8(key)) as int;
    let t = turn as int;
    let c = count as int;
    assert((h - h % c) % c == 0 && (t - t % c) % c == 0) by {
        vstd::arithmetic::div_mod::lemma_fundamental_div_mod(h, c);
        vstd::arithmetic::div_mod::lemma_fundamental_div_mod(t, c);
        vstd::arithmetic::div_mod::lemma_mod_multiples_basic(h / c, c);
        vstd::arithmetic::div_mod::lemma_mod_multiples_basic(t / c, c);
        assert(c * (h / c) == (h / c) * c && c * (t / c) == (t / c) * c) by (nonlinear_arith);
    }
}

} // verus!
