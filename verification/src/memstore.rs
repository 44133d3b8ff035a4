//! An in-memory log store. It mirrors the semantics of the durable one: dense
//! per-partition offsets, segment rolling, and head retention, with the records
//! kept in memory.

use crate::error::PortError;
use crate::namemap::NameMap;
use crate::ports::{AppendOutcome, AppendOutcomeView};
use crate::record;
use crate::record::{ProduceRecord, ProduceRecordView, Record, RecordView};
use crate::stats::{FetchResult, FetchResultView, LogStats};
use crate::tally;
use crate::text;
use crate::timestamp::{Instant, Timestamp};
use crate::topic::{RetentionPolicy, TopicConfig};
use crate::units::{Offset, PartitionId, TopicName};
use std::sync::Arc;
use vstd::prelude::*;
use vstd::string::*;

verus! {

/// What a partition holds: the retained records, the offset of the first of
/// them, and the base offset of each segment, head first.
#[verifier::ext_equal]
pub struct PartitionView {
    pub start: int,
    pub records: Seq<RecordView>,
    pub bases: Seq<int>,
}

/// The records of a batch once they are stored from offset `from` on.
pub open spec fn stored_batch(batch: Seq<ProduceRecordView>, from: int, timestamp: Instant) -> Seq<
    RecordView,
> {
    Seq::new(batch.len(), |i: int| record::stored(batch[i], (from + i) as u64, timestamp))
}

/// The bases of the segments after `n` more records, the first of them at offset
/// `next`: a record opens a new segment where there is none yet or the active
/// one has taken as many as it can.
pub open spec fn rolled(bases: Seq<int>, next: int, capacity: u64, n: nat) -> Seq<int>
    decreases n,
{
    if n == 0 {
        bases
    } else {
        let before = rolled(bases, next, capacity, (n - 1) as nat);
        let offset = next + n - 1;
        if before.len() == 0 || offset - before.last() >= capacity {
            before.push(offset)
        } else {
            before
        }
    }
}

/// The bases of the segments that end before offset `next`, with an empty one
/// behind them where the last alone holds more than the policy allows: it keeps
/// the place of the next record once the others are pruned.
pub open spec fn opened(bases: Seq<int>, next: int, policy: RetentionPolicy) -> Seq<int> {
    if policy.max_records != 0 && bases.len() > 0 && next - bases.last() > policy.max_records {
        bases.push(next)
    } else {
        bases
    }
}

/// How many segments at the head a policy prunes, of segments that end before
/// offset `next`: as many as it takes to satisfy the bound.
pub open spec fn pruned(bases: Seq<int>, next: int, policy: RetentionPolicy) -> nat
    decreases bases.len(),
{
    if policy.max_records == 0 || bases.len() == 0 || next - bases[0] <= policy.max_records {
        0
    } else {
        1 + pruned(bases.skip(1), next, policy)
    }
}

impl PartitionView {
    /// A partition without records.
    pub open spec fn empty() -> PartitionView {
        PartitionView { start: 0, records: Seq::empty(), bases: Seq::empty() }
    }

    /// One past the offset of the last record.
    pub open spec fn next(self) -> int {
        self.start + self.records.len()
    }

    /// Whether the retained records carry consecutive offsets.
    pub open spec fn dense(self) -> bool {
        &&& self.start >= 0
        &&& self.next() <= u64::MAX
        &&& forall|i: int|
            0 <= i < self.records.len() ==> #[trigger] self.records[i].offset == self.start + i
    }

    /// Whether the segments divide the retained records: the first one starts
    /// with the first record, and each holds at least one. Only where all the
    /// records ever appended were pruned, there is one empty segment.
    pub open spec fn divided(self) -> bool {
        &&& self.bases.len() == 0 ==> self.records.len() == 0
        &&& self.bases.len() > 0 ==> self.bases[0] == self.start && self.next() > 0
        &&& forall|i: int| 0 < i < self.bases.len() ==> #[trigger] self.bases[i] < self.next()
        &&& forall|i: int, j: int|
            0 <= i < j < self.bases.len() ==> #[trigger] self.bases[i] < #[trigger] self.bases[j]
    }

    /// Whether no more is retained than a policy allows.
    pub open spec fn within(self, policy: RetentionPolicy) -> bool {
        policy.max_records != 0 ==> self.records.len() <= policy.max_records
    }

    /// The bases of the segments after a batch of `n` records has been stored,
    /// before any is pruned.
    pub open spec fn extended(self, n: nat, policy: RetentionPolicy) -> Seq<int> {
        opened(
            rolled(self.bases, self.next(), policy.capacity(), n),
            self.next() + n,
            policy,
        )
    }

    /// The partition after a batch has been stored and the policy applied: whole
    /// segments at the head are pruned until the bound is satisfied.
    pub open spec fn appended(
        self,
        batch: Seq<ProduceRecordView>,
        timestamp: Instant,
        policy: RetentionPolicy,
    ) -> PartitionView {
        let all = self.records + stored_batch(batch, self.next(), timestamp);
        let bases = self.extended(batch.len(), policy);
        let gone = pruned(bases, self.next() + batch.len(), policy) as int;
        let start = if gone > 0 {
            bases[gone]
        } else {
            self.start
        };
        PartitionView { start, records: all.skip(start - self.start), bases: bases.skip(gone) }
    }

    /// What is reported of a batch that is stored under a policy.
    pub open spec fn outcome(
        self,
        batch: Seq<ProduceRecordView>,
        timestamp: Instant,
        policy: RetentionPolicy,
    ) -> AppendOutcomeView {
        let after = self.appended(batch, timestamp, policy);
        AppendOutcomeView {
            records: stored_batch(batch, self.next(), timestamp),
            truncated_to: if after.start > self.start {
                Some(Offset(after.start as u64))
            } else {
                None
            },
        }
    }

    /// Where a read from `from` starts: never before the first retained record.
    pub open spec fn effective(self, from: u64) -> int {
        if from >= self.start {
            from as int
        } else {
            self.start
        }
    }

    /// What a read of up to `max` records from `from` returns.
    pub open spec fn served(self, from: u64, max: nat) -> FetchResultView {
        let begin = self.effective(from);
        let skipped = if begin >= self.next() {
            self.records.len() as int
        } else {
            begin - self.start
        };
        let rest = self.records.skip(skipped);
        let records = if rest.len() > max {
            rest.take(max as int)
        } else {
            rest
        };
        FetchResultView {
            records,
            next_offset: (begin + records.len()) as u64,
            high_watermark: self.next() as u64,
        }
    }
}

#[derive(Debug)]
struct Partition {
    records: Vec<Record>,
    start_offset: u64,
    next_offset: u64,
    bases: Vec<u64>,
}

impl View for Partition {
    type V = PartitionView;

    closed spec fn view(&self) -> PartitionView {
        PartitionView {
            start: self.start_offset as int,
            records: record::views(self.records@),
            bases: self.bases@.map_values(|b: u64| b as int),
        }
    }
}

impl Partition {
    closed spec fn wf(self) -> bool {
        &&& self@.dense()
        &&& self@.divided()
        &&& self.next_offset == self@.next()
    }

    fn new() -> (r: Partition)
        ensures
            r.wf(),
            r@ == PartitionView::empty(),
            r.next_offset == 0,
    {
        let r = Partition {
            records: Vec::new(),
            start_offset: 0,
            next_offset: 0,
            bases: Vec::new(),
        };
        assert(r@.records =~= Seq::<RecordView>::empty());
        assert(r@.bases =~= Seq::<int>::empty());
        r
    }

    fn append(
        &mut self,
        records: Vec<ProduceRecord>,
        timestamp: Timestamp,
        policy: RetentionPolicy,
    ) -> (r: AppendOutcome)
        requires
            old(self).wf(),
            old(self).next_offset + records@.len() <= u64::MAX,
        ensures
            final(self).wf(),
            final(self)@.within(policy),
            final(self)@ == old(self)@.appended(
                record::produce_views(records@),
                timestamp@,
                policy,
            ),
            final(self).next_offset == old(self).next_offset + records@.len(),
            r@.records == stored_batch(
                record::produce_views(records@),
                old(self)@.next(),
                timestamp@,
            ),
            r@.truncated_to == if final(self)@.start > old(self)@.start {
                Some(Offset(final(self)@.start as u64))
            } else {
                None
            },
    {
        let ghost was = *self;
        let ghost batch = record::produce_views(records@);
        let ghost sent = records@;
        let mut materialized: Vec<Record> = Vec::new();
        for next in it: records
            invariant
                it.seq() == sent,
                batch == record::produce_views(sent),
                was.wf(),
                was.next_offset + sent.len() <= u64::MAX,
                self.wf(),
                self.next_offset == was.next_offset + it.index(),
                self.start_offset == was.start_offset,
                materialized@.len() == it.index(),
                self.records@.len() == was.records@.len() + it.index(),
                forall|k: int|
                    0 <= k < it.index() ==> (#[trigger] materialized@[k])@ == record::stored(
                        batch[k],
                        (was@.next() + k) as u64,
                        timestamp@,
                    ),
                self@.records == was@.records + record::views(materialized@),
                self@.bases == rolled(
                    was@.bases,
                    was@.next(),
                    policy.capacity(),
                    it.index() as nat,
                ),
        {
            let ghost held = self@.bases;
            let n: usize = self.bases.len();
            let roll = if n == 0 {
                true
            } else {
                assert(held.last() == self.bases@[n - 1]);
                assert(held[n - 1] <= self@.next());
                self.next_offset - self.bases[n - 1] >= policy.segment_capacity()
            };
            if roll {
                self.bases.push(self.next_offset);
                assert(self@.bases =~= held.push(self.next_offset as int));
            }
            let stored = Record::from_produce(next, Offset(self.next_offset), timestamp);
            let ghost before = *self;
            let ghost done = materialized@;
            materialized.push(stored.clone());
            self.records.push(stored);
            self.next_offset = self.next_offset + 1;
            assert(record::views(materialized@) =~= record::views(done).push(stored@));
            assert(self@.records =~= before@.records.push(stored@));
            assert(self@.records =~= was@.records + record::views(materialized@));
        }
        assert(record::views(materialized@) =~= stored_batch(batch, was@.next(), timestamp@));
        proof {
            law_retention_prunes_whole_segments(was@, batch, timestamp@, policy);
            law_offsets_stay_dense(was@, batch, timestamp@, policy);
        }
        let truncated_to = self.retain(policy);
        assert(self@ == was@.appended(batch, timestamp@, policy));
        AppendOutcome { records: Arc::new(materialized), truncated_to }
    }

    /// Prune whole head segments until the retention bound is satisfied. Returns
    /// the new start offset if anything was pruned.
    fn retain(&mut self, policy: RetentionPolicy) -> (r: Option<Offset>)
        requires
            old(self).wf(),
        ensures
            ({
                let p = old(self)@;
                let bases = opened(p.bases, p.next(), policy);
                let gone = pruned(bases, p.next(), policy) as int;
                let start = if gone > 0 {
                    bases[gone]
                } else {
                    p.start
                };
                &&& final(self)@ == (PartitionView {
                    start,
                    records: p.records.skip(start - p.start),
                    bases: bases.skip(gone),
                })
                &&& r == if start > p.start {
                    Some(Offset(start as u64))
                } else {
                    None
                }
            }),
            final(self).next_offset == old(self).next_offset,
    {
        let ghost p = self@;
        let ghost all = opened(p.bases, p.next(), policy);
        let next: u64 = self.next_offset;
        let held: usize = self.bases.len();
        if policy.max_records != 0 && held > 0 {
            assert(p.bases.last() == self.bases@[held - 1]);
            assert(p.bases[held - 1] <= next);
            if next - self.bases[held - 1] > policy.max_records {
                self.bases.push(next);
            }
        }
        assert(self@.bases =~= all);
        let ghost ready = *self;
        proof {
            lemma_opened(p, policy, 0);
            lemma_pruned(all, next as int, policy);
        }
        assert forall|i: int| 0 <= i < all.len() implies #[trigger] all[i] == self.bases@[i]
            <= next by {
            assert(self@.bases[i] == self.bases@[i]);
        }
        let mut gone: usize = 0;
        assert(all.skip(0) =~= all);
        let count: usize = self.bases.len();
        while policy.max_records != 0 && gone < count && next - self.bases[gone]
            > policy.max_records
            invariant
                *self == ready,
                all.len() == self.bases@.len() == count,
                gone <= count,
                forall|i: int| 0 <= i < all.len() ==> #[trigger] all[i] == self.bases@[i] <= next,
                pruned(all, next as int, policy) == gone + pruned(
                    all.skip(gone as int),
                    next as int,
                    policy,
                ),
            decreases count - gone,
        {
            assert(all.skip(gone as int)[0] == all[gone as int]);
            assert(all.skip(gone as int).skip(1) =~= all.skip(gone as int + 1));
            gone = gone + 1;
        }
        proof {
            if gone < all.len() {
                assert(all.skip(gone as int)[0] == all[gone as int]);
            }
        }
        assert(gone == pruned(all, next as int, policy));
        if gone == 0 {
            assert(self@.records =~= p.records.skip(0));
            assert(self@.bases =~= all.skip(0));
            return None;
        }
        let start: u64 = self.bases[gone];
        assert(all[0] < all[gone as int]);
        let cut: u64 = start - self.start_offset;
        let have: usize = self.records.len();
        assert(cut <= have);
        let kept = self.records.split_off(cut as usize);
        self.records = kept;
        let left = self.bases.split_off(gone);
        self.bases = left;
        self.start_offset = start;
        assert(self@.records =~= p.records.skip(cut as int));
        assert(self@.bases =~= all.skip(gone as int));
        Some(Offset(start))
    }

    fn fetch(&self, from: Offset, max: usize) -> (r: FetchResult)
        requires
            self.wf(),
        ensures
            r@ == self@.served(from.0, max as nat),
    {
        let begin: u64 = if from.0 >= self.start_offset {
            from.0
        } else {
            self.start_offset
        };
        let first: usize = if begin >= self.next_offset {
            self.records.len()
        } else {
            (begin - self.start_offset) as usize
        };
        let mut records: Vec<Record> = Vec::new();
        let mut i: usize = first;
        while i < self.records.len() && records.len() < max
            invariant
                first <= i <= self.records@.len(),
                records@.len() == i - first,
                records@.len() <= max,
                forall|k: int|
                    0 <= k < records@.len() ==> (#[trigger] records@[k])@ == self.records@[first
                        + k]@,
            decreases self.records.len() - i,
        {
            records.push(self.records[i].clone());
            i = i + 1;
        }
        let ghost want = self@.served(from.0, max as nat);
        assert(record::views(records@) =~= want.records);
        let next_offset = Offset(begin + records.len() as u64);
        FetchResult { records, next_offset, high_watermark: Offset(self.next_offset) }
    }
}

/// There are no more segments than records were appended.
proof fn lemma_segments_are_few(p: PartitionView)
    requires
        p.dense(),
        p.divided(),
    ensures
        p.bases.len() <= p.next(),
{
    if p.bases.len() > 1 {
        lemma_bases_grow(p, p.bases.len() - 1);
    }
}

proof fn lemma_bases_grow(p: PartitionView, i: int)
    requires
        p.divided(),
        0 <= i < p.bases.len(),
    ensures
        p.bases[i] >= p.start + i,
    decreases i,
{
    if i > 0 {
        lemma_bases_grow(p, i - 1);
        assert(p.bases[i - 1] < p.bases[i]);
    }
}

/// What a topic holds.
#[verifier::ext_equal]
pub struct TopicView {
    pub config: TopicConfig,
    pub partitions: Seq<PartitionView>,
}

impl TopicView {
    /// A topic as it is created: every partition is empty.
    pub open spec fn fresh(config: TopicConfig) -> TopicView {
        TopicView {
            config,
            partitions: Seq::new(config.partitions as nat, |i: int| PartitionView::empty()),
        }
    }

    /// Records ever appended to the topic.
    pub open spec fn produced(self) -> int {
        tally::total(self.partitions, |p: PartitionView| p.next())
    }

    /// Records that the topic retains.
    pub open spec fn retained(self) -> int {
        tally::total(self.partitions, |p: PartitionView| p.records.len() as int)
    }

    /// Segments of the topic.
    pub open spec fn segments(self) -> int {
        tally::total(self.partitions, |p: PartitionView| p.bases.len() as int)
    }
}

/// What a store holds: its topics by name, and how many records it has ever
/// taken in and handed out.
#[verifier::ext_equal]
pub struct StoreView {
    pub topics: Map<Seq<char>, TopicView>,
    pub produced_total: int,
    pub fetched_total: int,
}

/// A 64-bit running total after `n` more, which starts over once it is full.
pub open spec fn counted(total: int, n: nat) -> int {
    (total + n) % 0x1_0000_0000_0000_0000
}

/// The text that names a partition of a topic.
pub open spec fn address(topic: Seq<char>, partition: u32) -> Seq<char> {
    topic + "/"@ + text::decimal(partition as nat)
}

/// The text that names a partition of a topic.
pub(crate) fn address_text(topic: &TopicName, partition: PartitionId) -> (r: String)
    ensures
        r@ == address(topic@, partition.0),
{
    topic.to_string().concat("/").concat(partition.to_string().as_str())
}

impl StoreView {
    /// The partition at an address, or the text that names what is missing.
    pub open spec fn lookup(self, topic: Seq<char>, partition: u32) -> Result<
        PartitionView,
        Seq<char>,
    > {
        if !self.topics.contains_key(topic) {
            Err(topic)
        } else if partition >= self.topics[topic].partitions.len() {
            Err(address(topic, partition))
        } else {
            Ok(self.topics[topic].partitions[partition as int])
        }
    }

    /// The store with the partition at an address replaced.
    pub open spec fn with_partition(
        self,
        topic: Seq<char>,
        partition: u32,
        p: PartitionView,
    ) -> StoreView {
        let t = self.topics[topic];
        StoreView {
            topics: self.topics.insert(
                topic,
                TopicView { partitions: t.partitions.update(partition as int, p), ..t },
            ),
            ..self
        }
    }
}

/// Partitions of all the topics listed.
pub open spec fn partition_sum(topics: Seq<TopicView>) -> int {
    tally::total(topics, |t: TopicView| t.partitions.len() as int)
}

/// Records that the topics listed retain.
pub open spec fn retained_sum(topics: Seq<TopicView>) -> int {
    tally::total(topics, |t: TopicView| t.retained())
}

/// Segments of the topics listed.
pub open spec fn segment_sum(topics: Seq<TopicView>) -> int {
    tally::total(topics, |t: TopicView| t.segments())
}

/// Records ever appended to the topics listed.
pub open spec fn produced_sum(topics: Seq<TopicView>) -> int {
    tally::total(topics, |t: TopicView| t.produced())
}

#[derive(Debug)]
struct Topic {
    config: TopicConfig,
    partitions: Vec<Partition>,
}

impl View for Topic {
    type V = TopicView;

    closed spec fn view(&self) -> TopicView {
        TopicView {
            config: self.config,
            partitions: self.partitions@.map_values(|p: Partition| p@),
        }
    }
}

impl Topic {
    closed spec fn wf(self) -> bool {
        &&& self.partitions@.len() == self.config.partitions
        &&& forall|i: int|
            0 <= i < self.partitions@.len() ==> (#[trigger] self.partitions@[i]).wf()
                && self.partitions@[i]@.within(self.config.retention)
    }

    /// The records retained and the segments opened.
    fn counts(&self) -> (r: (u64, u64))
        requires
            self.wf(),
            self@.retained() <= u64::MAX,
            self@.segments() <= u64::MAX,
        ensures
            r.0 == self@.retained(),
            r.1 == self@.segments(),
    {
        let ghost all = self@.partitions;
        let ghost kept = |p: PartitionView| p.records.len() as int;
        let ghost segs = |p: PartitionView| p.bases.len() as int;
        let mut records: u64 = 0;
        let mut segments: u64 = 0;
        let mut i: usize = 0;
        assert(all.take(0) =~= Seq::<PartitionView>::empty());
        while i < self.partitions.len()
            invariant
                self.wf(),
                i <= self.partitions@.len(),
                all == self@.partitions,
                kept == (|p: PartitionView| p.records.len() as int),
                segs == (|p: PartitionView| p.bases.len() as int),
                records == tally::total(all.take(i as int), kept),
                segments == tally::total(all.take(i as int), segs),
                tally::total(all, kept) <= u64::MAX,
                tally::total(all, segs) <= u64::MAX,
            decreases self.partitions.len() - i,
        {
            let p = &self.partitions[i];
            proof {
                assert(p.wf());
                assert(all[i as int] == p@);
                let next = all.take(i as int + 1);
                assert(next.drop_last() =~= all.take(i as int));
                assert(next.last() == p@);
                tally::lemma_total_prefix(all, i as int + 1, kept);
                tally::lemma_total_prefix(all, i as int + 1, segs);
            }
            records = records + (p.next_offset - p.start_offset);
            segments = segments + p.bases.len() as u64;
            i = i + 1;
        }
        assert(all.take(all.len() as int) =~= all);
        (records, segments)
    }
}

/// An in-memory log store.
#[derive(Debug)]
pub struct MemoryLogStore {
    topics: NameMap<Topic>,
    partition_total: u64,
    produced_total: u64,
    fetched_total: u64,
}

impl View for MemoryLogStore {
    type V = StoreView;

    closed spec fn view(&self) -> StoreView {
        StoreView {
            topics: self.topics@.map_values(|t: Topic| t@),
            produced_total: self.produced_total as int,
            fetched_total: self.fetched_total as int,
        }
    }
}

impl MemoryLogStore {
    /// The topic names, in order.
    pub closed spec fn names(self) -> Seq<Seq<char>> {
        self.topics.names()
    }

    /// The topics, in the order of their names.
    pub closed spec fn listing(self) -> Seq<TopicView> {
        self.topics.values().map_values(|t: Topic| t@)
    }

    /// Whether the names are in order, each topic stands under its own name and
    /// has as many partitions as it was configured with, the offsets of every
    /// partition are dense, none retains more than its policy allows, and the
    /// counters agree with the partitions.
    pub closed spec fn wf(self) -> bool {
        &&& self.topics.wf()
        &&& forall|i: int|
            0 <= i < self.topics.values().len() ==> (#[trigger] self.topics.values()[i]).wf()
                && self.topics.values()[i].config.name@ == self.topics.names()[i]
        &&& produced_sum(self.listing()) == self.produced_total
        &&& partition_sum(self.listing()) == self.partition_total
    }

    /// Create an empty store.
    pub fn new() -> (r: MemoryLogStore)
        ensures
            r.wf(),
            r@ == (StoreView { topics: Map::empty(), produced_total: 0, fetched_total: 0 }),
            r.listing() == Seq::<TopicView>::empty(),
            partition_sum(r.listing()) == 0,
    {
        let r = MemoryLogStore {
            topics: NameMap::new(),
            partition_total: 0,
            produced_total: 0,
            fetched_total: 0,
        };
        assert(r.listing() =~= Seq::<TopicView>::empty());
        assert(r@.topics =~= Map::<Seq<char>, TopicView>::empty());
        r
    }

    /// How many partitions the topics have together.
    pub fn partition_total(&self) -> (r: u64)
        requires
            self.wf(),
        ensures
            r == partition_sum(self.listing()),
    {
        self.partition_total
    }

    /// Create a topic with empty partitions. Returns `false`, and changes
    /// nothing, if a topic of that name exists.
    pub fn create_topic(&mut self, config: TopicConfig) -> (r: bool)
        requires
            old(self).wf(),
            partition_sum(old(self).listing()) + config.partitions <= u64::MAX,
        ensures
            final(self).wf(),
            r == !old(self)@.topics.contains_key(config.name@),
            !r ==> final(self)@ == old(self)@ && final(self).listing() == old(self).listing(),
            r ==> final(self)@ == (StoreView {
                topics: old(self)@.topics.insert(config.name@, TopicView::fresh(config)),
                ..old(self)@
            }),
            r ==> partition_sum(final(self).listing()) == partition_sum(old(self).listing())
                + config.partitions,
    {
        if self.topics.find(config.name.as_str()).is_some() {
            return false;
        }
        let ghost was = *self;
        let ghost name = config.name@;
        let count: u32 = config.partitions;
        let key = config.name.to_string();
        let mut partitions: Vec<Partition> = Vec::new();
        let mut i: u32 = 0;
        while i < count
            invariant
                i <= count,
                partitions@.len() == i,
                forall|k: int|
                    0 <= k < i ==> (#[trigger] partitions@[k]).wf() && partitions@[k]@
                        == PartitionView::empty(),
            decreases count - i,
        {
            partitions.push(Partition::new());
            i = i + 1;
        }
        let topic = Topic { config, partitions };
        let ghost added = topic;
        assert(added@.partitions =~= TopicView::fresh(config).partitions);
        self.topics.insert(key, topic);
        self.partition_total = self.partition_total + count as u64;
        proof {
            let at = choose|at: int|
                {
                    &&& 0 <= at <= was.topics.names().len()
                    &&& #[trigger] self.topics.names().index(at) == name
                    &&& self.topics.names() == was.topics.names().insert(at, name)
                    &&& self.topics.values() == was.topics.values().insert(at, added)
                };
            assert(self.listing() =~= was.listing().insert(at, added@));
            tally::lemma_total_insert(
                was.listing(),
                at,
                added@,
                |t: TopicView| t.partitions.len() as int,
            );
            tally::lemma_total_insert(was.listing(), at, added@, |t: TopicView| t.produced());
            tally::lemma_total_zero(added@.partitions, |p: PartitionView| p.next());
            assert forall|k: int| 0 <= k < self.topics.values().len() implies (
            #[trigger] self.topics.values()[k]).wf() && self.topics.values()[k].config.name@
                == self.topics.names()[k] by {
                if k < at {
                    assert(self.topics.values()[k] == was.topics.values()[k]);
                } else if k > at {
                    assert(self.topics.values()[k] == was.topics.values()[k - 1]);
                }
            }
            assert(self@.topics =~= was@.topics.insert(name, added@));
        }
        true
    }

    /// List every topic's configuration, in the order of the names.
    pub fn topics(&self) -> (r: Vec<TopicConfig>)
        requires
            self.wf(),
        ensures
            r@ == self.listing().map_values(|t: TopicView| t.config),
    {
        let mut out: Vec<TopicConfig> = Vec::new();
        let mut i: usize = 0;
        while i < self.topics.len()
            invariant
                i <= self.topics.values().len(),
                out@.len() == i,
                forall|k: int| 0 <= k < i ==> #[trigger] out@[k] == self.topics.values()[k].config,
            decreases self.topics.values().len() - i,
        {
            out.push(self.topics.value(i).config.clone());
            i = i + 1;
        }
        assert(out@ =~= self.listing().map_values(|t: TopicView| t.config));
        out
    }

    /// The partition count for a topic, or `None` if the topic is unknown.
    pub fn partition_count(&self, topic: &TopicName) -> (r: Option<u32>)
        requires
            self.wf(),
        ensures
            r == if self@.topics.contains_key(topic@) {
                Some(self@.topics[topic@].config.partitions)
            } else {
                None
            },
    {
        match self.topics.find(topic.as_str()) {
            Some(i) => Some(self.topics.value(i).config.partitions),
            None => None,
        }
    }

    /// Append a batch of records to a partition, assigning sequential offsets
    /// and the supplied `timestamp`, then apply retention.
    pub fn append(
        &mut self,
        topic: &TopicName,
        partition: PartitionId,
        records: Vec<ProduceRecord>,
        timestamp: Timestamp,
    ) -> (r: Result<AppendOutcome, PortError>)
        requires
            old(self).wf(),
            old(self)@.produced_total + records@.len() <= u64::MAX,
        ensures
            final(self).wf(),
            partition_sum(final(self).listing()) == partition_sum(old(self).listing()),
            match old(self)@.lookup(topic@, partition.0) {
                Err(missing) => {
                    &&& final(self)@ == old(self)@
                    &&& r matches Err(PortError::NotFound(what)) && what@ == missing
                },
                Ok(p) => {
                    let after = p.appended(
                        record::produce_views(records@),
                        timestamp@,
                        old(self)@.topics[topic@].config.retention,
                    );
                    &&& r matches Ok(outcome) && outcome@ == p.outcome(
                        record::produce_views(records@),
                        timestamp@,
                        old(self)@.topics[topic@].config.retention,
                    )
                    &&& r matches Ok(outcome) && outcome@ == (AppendOutcomeView {
                        records: stored_batch(
                            record::produce_views(records@),
                            p.next(),
                            timestamp@,
                        ),
                        truncated_to: if after.start > p.start {
                            Some(Offset(after.start as u64))
                        } else {
                            None
                        },
                    })
                    &&& final(self)@ == (StoreView {
                        produced_total: old(self)@.produced_total + records@.len(),
                        ..old(self)@.with_partition(topic@, partition.0, after)
                    })
                },
            },
    {
        let found = self.topics.find(topic.as_str());
        let i: usize = match found {
            None => {
                return Err(PortError::NotFound(topic.to_string()));
            },
            Some(i) => i,
        };
        let ghost was = *self;
        let at: usize = partition.0 as usize;
        let ghost t = was.topics.values()[i as int];
        assert(was@.topics[topic@] == t@);
        assert(t.wf());
        if at >= self.topics.value(i).partitions.len() {
            return Err(PortError::NotFound(address_text(topic, partition)));
        }
        proof {
            was.lemma_bounds(i as int, at as int);
        }
        let policy = self.topics.value(i).config.retention;
        let count: u64 = records.len() as u64;
        let ghost p = t.partitions@[at as int];
        assert(p.wf());
        assert(t@.partitions[at as int] == p@);
        let entry = self.topics.value_mut(i);
        let outcome = entry.partitions[at].append(records, timestamp, policy);
        self.produced_total = self.produced_total + count;
        proof {
            let now = self.topics.values()[i as int];
            self.topics.lemma_updated(was.topics, i as int, now);
            let q = now.partitions@[at as int];
            assert(now@.partitions =~= t@.partitions.update(at as int, q@));
            assert(self.listing() =~= was.listing().update(i as int, now@));
            tally::lemma_total_update(t@.partitions, at as int, q@, |x: PartitionView| x.next());
            tally::lemma_total_update(was.listing(), i as int, now@, |x: TopicView| x.produced());
            tally::lemma_total_update(
                was.listing(),
                i as int,
                now@,
                |x: TopicView| x.partitions.len() as int,
            );
            assert(was.listing()[i as int] == t@);
            assert(self@.topics =~= was@.topics.insert(topic@, now@));
        }
        Ok(outcome)
    }

    /// What a partition has taken in is part of what the store has taken in.
    proof fn lemma_bounds(self, i: int, at: int)
        requires
            self.wf(),
            0 <= i < self.topics.values().len(),
            0 <= at < self.topics.values()[i].partitions@.len(),
        ensures
            self.topics.values()[i].partitions@[at].next_offset <= self.produced_total,
    {
        let t = self.topics.values()[i];
        assert(self.listing()[i] == t@);
        assert(t@.partitions[at] == t.partitions@[at]@);
        self.lemma_nonnegative();
        tally::lemma_total_covers(self.listing(), i, |x: TopicView| x.produced());
        assert forall|k: int| 0 <= k < t@.partitions.len() implies (#[trigger] t@.partitions[k]).next()
            >= 0 by {
            assert(t.partitions@[k].wf());
        }
        tally::lemma_total_covers(t@.partitions, at, |x: PartitionView| x.next());
    }

    /// No count of a topic is negative, and no more is retained, and no more
    /// segments were opened, than records were taken in.
    proof fn lemma_nonnegative(self)
        requires
            self.wf(),
        ensures
            forall|i: int|
                0 <= i < self.listing().len() ==> {
                    &&& 0 <= (#[trigger] self.listing()[i]).produced()
                    &&& 0 <= self.listing()[i].retained() <= self.listing()[i].produced()
                    &&& 0 <= self.listing()[i].segments() <= self.listing()[i].produced()
                },
    {
        assert forall|i: int| 0 <= i < self.listing().len() implies {
            &&& 0 <= (#[trigger] self.listing()[i]).produced()
            &&& 0 <= self.listing()[i].retained() <= self.listing()[i].produced()
            &&& 0 <= self.listing()[i].segments() <= self.listing()[i].produced()
        } by {
            let t = self.topics.values()[i];
            let parts = self.listing()[i].partitions;
            assert forall|k: int| 0 <= k < parts.len() implies {
                &&& (#[trigger] parts[k]).bases.len() <= parts[k].next()
                &&& parts[k].records.len() <= parts[k].next()
            } by {
                assert(t.partitions@[k].wf());
                lemma_segments_are_few(parts[k]);
            }
            let next = |p: PartitionView| p.next();
            let kept = |p: PartitionView| p.records.len() as int;
            let segs = |p: PartitionView| p.bases.len() as int;
            tally::lemma_total_monotone(parts, kept, next);
            tally::lemma_total_monotone(parts, segs, next);
            tally::lemma_total_prefix(parts, parts.len() as int, kept);
            tally::lemma_total_prefix(parts, parts.len() as int, segs);
        }
    }

    /// Read up to `max` records from `from` (inclusive) onward.
    pub fn fetch(
        &mut self,
        topic: &TopicName,
        partition: PartitionId,
        from: Offset,
        max: usize,
    ) -> (r: Result<FetchResult, PortError>)
        requires
            old(self).wf(),
        ensures
            final(self).wf(),
            final(self).listing() == old(self).listing(),
            match old(self)@.lookup(topic@, partition.0) {
                Err(missing) => {
                    &&& final(self)@ == old(self)@
                    &&& r matches Err(PortError::NotFound(what)) && what@ == missing
                },
                Ok(p) => {
                    let served = p.served(from.0, max as nat);
                    &&& r matches Ok(result) && result@ == served
                    &&& final(self)@ == (StoreView {
                        fetched_total: counted(old(self)@.fetched_total, served.records.len()),
                        ..old(self)@
                    })
                },
            },
    {
        let i: usize = match self.topics.find(topic.as_str()) {
            None => {
                return Err(PortError::NotFound(topic.to_string()));
            },
            Some(i) => i,
        };
        let at: usize = partition.0 as usize;
        let state = self.topics.value(i);
        assert(state.wf());
        assert(self@.topics[topic@] == state@);
        if at >= state.partitions.len() {
            return Err(PortError::NotFound(address_text(topic, partition)));
        }
        assert(state.partitions@[at as int].wf());
        assert(state@.partitions[at as int] == state.partitions@[at as int]@);
        let result = state.partitions[at].fetch(from, max);
        self.fetched_total = self.fetched_total.wrapping_add(result.records.len() as u64);
        Ok(result)
    }

    /// Aggregate statistics over all topics.
    pub fn stats(&self) -> (r: LogStats)
        requires
            self.wf(),
        ensures
            r.topics == self.names().len(),
            r.partitions == partition_sum(self.listing()),
            r.records == retained_sum(self.listing()),
            r.segments == segment_sum(self.listing()),
            r.produced_total == self@.produced_total,
            r.fetched_total == self@.fetched_total,
    {
        let ghost all = self.listing();
        let ghost kept = |t: TopicView| t.retained();
        let ghost segs = |t: TopicView| t.segments();
        let ghost made = |t: TopicView| t.produced();
        let mut records: u64 = 0;
        let mut segments: u64 = 0;
        let mut i: usize = 0;
        proof {
            self.lemma_nonnegative();
            tally::lemma_total_monotone(all, kept, made);
            tally::lemma_total_monotone(all, segs, made);
            assert(all.take(0) =~= Seq::<TopicView>::empty());
        }
        while i < self.topics.len()
            invariant
                self.wf(),
                i <= self.topics.values().len(),
                all == self.listing(),
                kept == (|t: TopicView| t.retained()),
                segs == (|t: TopicView| t.segments()),
                records == tally::total(all.take(i as int), kept),
                segments == tally::total(all.take(i as int), segs),
                tally::total(all, kept) <= self.produced_total,
                tally::total(all, segs) <= self.produced_total,
                forall|k: int|
                    0 <= k < all.len() ==> 0 <= (#[trigger] all[k]).retained() && 0
                        <= all[k].segments(),
            decreases self.topics.values().len() - i,
        {
            let t = self.topics.value(i);
            proof {
                assert(all[i as int] == t@);
                tally::lemma_total_covers(all, i as int, kept);
                tally::lemma_total_covers(all, i as int, segs);
            }
            let (r, s) = t.counts();
            proof {
                let next = all.take(i as int + 1);
                assert(next.drop_last() =~= all.take(i as int));
                assert(next.last() == t@);
                tally::lemma_total_prefix(all, i as int + 1, kept);
                tally::lemma_total_prefix(all, i as int + 1, segs);
            }
            records = records + r;
            segments = segments + s;
            i = i + 1;
        }
        assert(all.take(all.len() as int) =~= all);
        LogStats {
            topics: self.topics.len() as u64,
            partitions: self.partition_total,
            records,
            segments,
            produced_total: self.produced_total,
            fetched_total: self.fetched_total,
        }
    }
}

/// Rolling segments while records are added keeps the segments dividing them.
pub(crate) proof fn lemma_rolled(p: PartitionView, capacity: u64, n: nat)
    requires
        p.dense(),
        p.divided(),
        capacity > 0,
    ensures
        ({
            let bases = rolled(p.bases, p.next(), capacity, n);
            &&& bases.len() == 0 <==> p.bases.len() + n == 0
            &&& bases.len() > 0 ==> bases[0] == p.start
            &&& forall|i: int|
                0 <= i < bases.len() && 0 < i + n ==> #[trigger] bases[i] < p.next() + n
            &&& forall|i: int, j: int|
                0 <= i < j < bases.len() ==> #[trigger] bases[i] < #[trigger] bases[j]
        }),
    decreases n,
{
    if n > 0 {
        lemma_rolled(p, capacity, (n - 1) as nat);
    }
}

/// With an empty segment behind them where one is needed, the segments are still
/// in order, and the last one is within the bound.
pub(crate) proof fn lemma_opened(p: PartitionView, policy: RetentionPolicy, n: nat)
    requires
        p.dense(),
        p.divided(),
    ensures
        ({
            let bases = p.extended(n, policy);
            &&& bases.len() == 0 <==> p.bases.len() + n == 0
            &&& bases.len() > 0 ==> bases[0] == p.start
            &&& forall|i: int| 0 <= i < bases.len() ==> #[trigger] bases[i] <= p.next() + n
            &&& forall|i: int, j: int|
                0 <= i < j < bases.len() ==> #[trigger] bases[i] < #[trigger] bases[j]
            &&& policy.max_records != 0 && bases.len() > 0 ==> p.next() + n - bases.last()
                <= policy.max_records
        }),
{
    lemma_rolled(p, policy.capacity(), n);
}

/// What pruning leaves is within the bound, and each segment that goes had to.
pub(crate) proof fn lemma_pruned(bases: Seq<int>, next: int, policy: RetentionPolicy)
    requires
        forall|i: int, j: int|
            0 <= i < j < bases.len() ==> #[trigger] bases[i] < #[trigger] bases[j],
        policy.max_records != 0 && bases.len() > 0 ==> next - bases.last() <= policy.max_records,
    ensures
        ({
            let gone = pruned(bases, next, policy) as int;
            &&& gone == 0 || gone < bases.len()
            &&& policy.max_records == 0 ==> gone == 0
            &&& policy.max_records != 0 && bases.len() > 0 ==> next - bases[gone]
                <= policy.max_records
            &&& forall|i: int| 0 <= i < gone ==> next - #[trigger] bases[i] > policy.max_records
        }),
    decreases bases.len(),
{
    if !(policy.max_records == 0 || bases.len() == 0 || next - bases[0] <= policy.max_records) {
        let rest = bases.skip(1);
        assert(rest.last() == bases.last());
        lemma_pruned(rest, next, policy);
        let gone = pruned(bases, next, policy) as int;
        assert(rest[gone - 1] == bases[gone]);
        assert forall|i: int| 0 <= i < gone implies next - #[trigger] bases[i]
            > policy.max_records by {
            if i > 0 {
                assert(rest[i - 1] == bases[i]);
            }
        }
    }
}

/// Appending keeps the offsets of a partition dense and its segments in place,
/// and neither its end nor its head ever moves back.
pub proof fn law_offsets_stay_dense(
    p: PartitionView,
    batch: Seq<ProduceRecordView>,
    timestamp: Instant,
    policy: RetentionPolicy,
)
    requires
        p.dense(),
        p.divided(),
        p.next() + batch.len() <= u64::MAX,
    ensures
        p.appended(batch, timestamp, policy).dense(),
        p.appended(batch, timestamp, policy).divided(),
        p.appended(batch, timestamp, policy).next() == p.next() + batch.len(),
        p.appended(batch, timestamp, policy).start >= p.start,
{
    let n = batch.len();
    let next = p.next() + n;
    let written = rolled(p.bases, p.next(), policy.capacity(), n);
    let bases = p.extended(n, policy);
    lemma_rolled(p, policy.capacity(), n);
    lemma_opened(p, policy, n);
    lemma_pruned(bases, next, policy);
    let gone = pruned(bases, next, policy) as int;
    let q = p.appended(batch, timestamp, policy);
    if gone > 0 {
        assert(bases[0] < bases[gone]);
    }
    assert forall|i: int| 0 < i < q.bases.len() implies #[trigger] q.bases[i] < next by {
        assert(q.bases[i] == bases[gone + i]);
        if gone + i < written.len() {
            assert(written[gone + i] == bases[gone + i]);
        } else {
            assert(bases[written.len() - 1] == written.last());
            assert(bases[gone] <= written.last());
        }
    }
}

/// Retention prunes entire segments at the head, and only those that it has to:
/// after an append a partition holds the latest records, from the base of a
/// segment on; it holds no more than the bound; and with any pruned segment it
/// would hold more. Of a partition that was within the bound the newest record
/// always stays.
pub proof fn law_retention_prunes_whole_segments(
    p: PartitionView,
    batch: Seq<ProduceRecordView>,
    timestamp: Instant,
    policy: RetentionPolicy,
)
    requires
        p.dense(),
        p.divided(),
        p.next() + batch.len() <= u64::MAX,
    ensures
        ({
            let q = p.appended(batch, timestamp, policy);
            let all = p.records + stored_batch(batch, p.next(), timestamp);
            let bases = p.extended(batch.len(), policy);
            let gone = bases.len() - q.bases.len();
            &&& 0 <= gone
            &&& q.bases == bases.skip(gone)
            &&& q.records == all.skip(all.len() - q.records.len())
            &&& q.bases.len() > 0 ==> q.start == q.bases[0]
            &&& policy.max_records == 0 ==> q.records == all && q.bases == bases
            &&& policy.max_records != 0 ==> q.records.len() <= policy.max_records
            &&& forall|i: int|
                0 <= i < gone ==> q.next() - #[trigger] bases[i] > policy.max_records
            &&& p.records.len() <= policy.max_records && all.len() > 0 ==> q.records.len() > 0
                && q.records.last() == all.last()
        }),
{
    let all = p.records + stored_batch(batch, p.next(), timestamp);
    let bases = p.extended(batch.len(), policy);
    let next = p.next() + batch.len();
    let q = p.appended(batch, timestamp, policy);
    assert(all.skip(0) =~= all);
    assert(bases.skip(0) =~= bases);
    lemma_opened(p, policy, batch.len());
    lemma_pruned(bases, next, policy);
    law_offsets_stay_dense(p, batch, timestamp, policy);
    if policy.max_records != 0 && p.records.len() <= policy.max_records && all.len() > 0 {
        lemma_active_within_bound(p, policy, batch.len());
        lemma_rolled(p, policy.capacity(), batch.len());
        let gone = pruned(bases, next, policy) as int;
        assert(bases[gone] < next);
    }
}

/// Of a partition within the bound, the active segment stays within it while
/// records are added.
proof fn lemma_active_within_bound(p: PartitionView, policy: RetentionPolicy, n: nat)
    requires
        p.dense(),
        p.divided(),
        0 < policy.max_records,
        p.records.len() <= policy.max_records,
    ensures
        ({
            let bases = rolled(p.bases, p.next(), policy.capacity(), n);
            bases.len() > 0 ==> p.next() + n - bases.last() <= policy.max_records
        }),
    decreases n,
{
    if n > 0 {
        lemma_active_within_bound(p, policy, (n - 1) as nat);
    } else if p.bases.len() > 0 {
        lemma_bases_grow(p, p.bases.len() - 1);
    }
}

/// Whatever offset a partition retains after an append, a read of it gives back
/// the record that was written there, by this append or before it.
pub proof fn law_read_gives_back_what_was_written(
    p: PartitionView,
    batch: Seq<ProduceRecordView>,
    timestamp: Instant,
    policy: RetentionPolicy,
    offset: u64,
)
    requires
        p.dense(),
        p.divided(),
        p.next() + batch.len() <= u64::MAX,
        p.appended(batch, timestamp, policy).start <= offset < p.next() + batch.len(),
    ensures
        p.appended(batch, timestamp, policy).served(offset, 1).records == seq![
            if offset < p.next() {
                p.records[offset - p.start]
            } else {
                record::stored(batch[offset - p.next()], offset, timestamp)
            },
        ],
{
    let q = p.appended(batch, timestamp, policy);
    law_offsets_stay_dense(p, batch, timestamp, policy);
    let rest = q.records.skip(offset - q.start);
    assert(rest.len() >= 1);
    assert(q.served(offset, 1).records =~= seq![rest[0]]);
}

/// A read returns records in ascending offset order without gaps, from the
/// asked offset or the first retained one, and never past the high watermark.
pub proof fn law_reads_are_consecutive(p: PartitionView, from: u64, max: nat)
    requires
        p.dense(),
    ensures
        ({
            let read = p.served(from, max);
            &&& read.records.len() <= max
            &&& forall|i: int|
                0 <= i < read.records.len() ==> #[trigger] read.records[i].offset == p.effective(
                    from,
                ) + i
            &&& p.effective(from) < p.next() && max > 0 ==> read.records.len() > 0
            &&& read.records.len() > 0 ==> read.next_offset <= read.high_watermark
            &&& read.high_watermark == p.next()
            &&& read.next_offset == p.effective(from) + read.records.len()
        }),
{
}

/// A consumer that goes on from `next_offset` misses nothing and sees nothing
/// twice: two reads in a row give what one larger read gives.
pub proof fn law_tailing_continues(p: PartitionView, from: u64, max: nat, more: nat)
    requires
        p.dense(),
    ensures
        p.served(from, max).records + p.served(p.served(from, max).next_offset, more).records
            == p.served(from, max + more).records,
{
    let one = p.served(from, max);
    let two = p.served(one.next_offset, more);
    assert(one.records + two.records =~= p.served(from, max + more).records);
}

/// The listing shows each topic of the store once, under its own name and in
/// the order of the names, with as many partitions as it was configured with;
/// in each the offsets are dense, the segments divide the records, and there are
/// no more of those than the topic's policy allows.
pub proof fn law_listing_is_the_store(store: MemoryLogStore)
    requires
        store.wf(),
    ensures
        store.names().len() == store.listing().len(),
        store.names().no_duplicates(),
        store.names().to_set() == store@.topics.dom(),
        forall|i: int, j: int|
            #![trigger store.names()[i], store.names()[j]]
            0 <= i < j < store.names().len() ==> text::before(store.names()[i], store.names()[j]),
        forall|i: int|
            0 <= i < store.names().len() ==> {
                &&& #[trigger] store.listing()[i] == store@.topics[store.names()[i]]
                &&& store.listing()[i].config.name@ == store.names()[i]
                &&& store.listing()[i].partitions.len() == store.listing()[i].config.partitions
            },
        forall|i: int, k: int|
            0 <= i < store.listing().len() && 0 <= k < store.listing()[i].partitions.len()
                ==> (#[trigger] store.listing()[i].partitions[k]).dense()
                && store.listing()[i].partitions[k].divided()
                && store.listing()[i].partitions[k].within(store.listing()[i].config.retention),
        produced_sum(store.listing()) == store@.produced_total,
{
    crate::namemap::law_names_are_the_keys(store.topics);
    assert(store.names().to_set() =~= store@.topics.dom());
    assert forall|i: int| 0 <= i < store.names().len() implies {
        &&& #[trigger] store.listing()[i] == store@.topics[store.names()[i]]
        &&& store.listing()[i].config.name@ == store.names()[i]
        &&& store.listing()[i].partitions.len() == store.listing()[i].config.partitions
    } by {
        store.topics.lemma_position(i);
        assert(store.topics.values()[i].wf());
    }
    assert forall|i: int, k: int|
        0 <= i < store.listing().len() && 0 <= k < store.listing()[i].partitions.len() implies (
    #[trigger] store.listing()[i].partitions[k]).dense()
        && store.listing()[i].partitions[k].divided()
        && store.listing()[i].partitions[k].within(store.listing()[i].config.retention) by {
        assert(store.topics.values()[i].wf());
        assert(store.topics.values()[i].partitions@[k].wf());
    }
}

/// A read starts at the offset that was asked for, or at the first retained record
/// if that comes later, and gives the retained records from there on as they are:
/// as many as were wanted, or as there are. It says to go on behind the last of
/// them, or where it started if there was none.
pub proof fn law_reads_give_what_is_retained(p: PartitionView, from: u64, max: nat)
    requires
        p.dense(),
    ensures
        ({
            let read = p.served(from, max);
            let begin = if from >= p.start {
                from as int
            } else {
                p.start
            };
            let there = if begin < p.next() {
                p.next() - begin
            } else {
                0
            };
            &&& read.records.len() == if there <= max {
                there
            } else {
                max as int
            }
            &&& forall|i: int|
                0 <= i < read.records.len() ==> #[trigger] read.records[i] == p.records[begin
                    - p.start + i]
            &&& read.records.len() > 0 ==> read.next_offset == read.records.last().offset + 1
            &&& read.records.len() == 0 ==> read.next_offset == begin
            &&& read.high_watermark == p.start + p.records.len()
        }),
{
}

/// Segments are filled before the next one is opened. The segments there were stay
/// as they are; a record opens a new one only once the last holds all that it may,
/// so that each segment between two new ones holds exactly that; and the last one
/// never holds more.
pub proof fn law_segments_are_filled(p: PartitionView, capacity: u64, n: nat)
    requires
        p.dense(),
        p.divided(),
        capacity > 0,
    ensures
        ({
            let bases = rolled(p.bases, p.next(), capacity, n);
            let old_len = p.bases.len() as int;
            &&& bases.len() >= old_len
            &&& bases.take(old_len) == p.bases
            &&& old_len == 0 && n > 0 ==> bases.len() > 0 && bases[0] == p.next()
            &&& 0 < old_len < bases.len() ==> bases[old_len] == if p.next() - p.bases.last()
                >= capacity {
                p.next()
            } else {
                p.bases.last() + capacity
            }
            &&& forall|i: int|
                old_len < i < bases.len() ==> #[trigger] bases[i] == bases[i - 1] + capacity
            &&& n > 0 ==> 0 < p.next() + n - bases.last() <= capacity
        }),
    decreases n,
{
    if n > 0 {
        law_segments_are_filled(p, capacity, (n - 1) as nat);
        let before = rolled(p.bases, p.next(), capacity, (n - 1) as nat);
        let bases = rolled(p.bases, p.next(), capacity, n);
        lemma_rolled(p, capacity, (n - 1) as nat);
        assert(bases.take(p.bases.len() as int) =~= p.bases);
        if p.bases.len() > 0 && n == 1 {
            assert(before.last() == p.bases.last());
        }
    } else {
        assert(p.bases.take(p.bases.len() as int) =~= p.bases);
    }
}

/// A new topic has as many partitions as it was configured with, each without a
/// record and starting at the very first offset.
pub proof fn law_new_topics_are_empty(config: TopicConfig)
    ensures
        ({
            let t = TopicView::fresh(config);
            &&& t.config == config
            &&& t.partitions.len() == config.partitions
            &&& forall|i: int|
                0 <= i < t.partitions.len() ==> {
                    &&& (#[trigger] t.partitions[i]).records.len() == 0
                    &&& t.partitions[i].bases.len() == 0
                    &&& t.partitions[i].start == 0
                    &&& t.partitions[i].dense()
                    &&& t.partitions[i].divided()
                }
        }),
{
}

/// A partition is found exactly if its topic exists and has one of that number.
/// Otherwise what is missing is named: the topic, or the partition behind it.
pub proof fn law_partitions_are_found(store: StoreView, topic: Seq<char>, partition: u32)
    ensures
        store.lookup(topic, partition) is Ok <==> store.topics.contains_key(topic) && partition
            < store.topics[topic].partitions.len(),
        store.lookup(topic, partition) matches Ok(p) ==> p
            == store.topics[topic].partitions[partition as int],
        !store.topics.contains_key(topic) ==> store.lookup(topic, partition) == Err::<
            PartitionView,
            Seq<char>,
        >(topic),
        store.topics.contains_key(topic) ==> (store.lookup(topic, partition) matches Err(missing)
            ==> missing.len() > topic.len() + 1 && missing.take(topic.len() as int) == topic
            && missing[topic.len() as int] == '/' && text::digits_value(
            missing.skip(topic.len() as int + 1),
        ) == partition),
{
    reveal_strlit("/");
    let missing = address(topic, partition);
    text::law_decimal_read_back(partition as nat);
    assert(missing.take(topic.len() as int) =~= topic);
    assert(missing.skip(topic.len() as int + 1) =~= text::decimal(partition as nat));
}

/// Changing one partition changes no other: every other partition, every other
/// topic, and every configuration stays.
pub proof fn law_one_partition_is_changed(
    store: StoreView,
    topic: Seq<char>,
    partition: u32,
    p: PartitionView,
    other: Seq<char>,
    other_partition: u32,
)
    requires
        store.lookup(topic, partition) is Ok,
    ensures
        ({
            let after = store.with_partition(topic, partition, p);
            &&& after.lookup(topic, partition) == Ok::<PartitionView, Seq<char>>(p)
            &&& other != topic || other_partition != partition ==> after.lookup(
                other,
                other_partition,
            ) == store.lookup(other, other_partition)
            &&& after.topics.dom() == store.topics.dom()
            &&& store.topics.contains_key(other) ==> after.topics[other].config
                == store.topics[other].config
            &&& after.produced_total == store.produced_total
            &&& after.fetched_total == store.fetched_total
        }),
{
    let after = store.with_partition(topic, partition, p);
    assert(after.topics.dom() =~= store.topics.dom());
}

/// The counts of a topic are those of its partitions together.
pub proof fn law_topic_counts_add_up(t: TopicView, p: PartitionView)
    ensures
        ({
            let more = TopicView { partitions: t.partitions.push(p), ..t };
            &&& more.produced() == t.produced() + p.start + p.records.len()
            &&& more.retained() == t.retained() + p.records.len()
            &&& more.segments() == t.segments() + p.bases.len()
        }),
        t.partitions.len() == 0 ==> t.produced() == 0 && t.retained() == 0 && t.segments() == 0,
{
    tally::lemma_total_push(t.partitions, p, |p: PartitionView| p.next());
    tally::lemma_total_push(t.partitions, p, |p: PartitionView| p.records.len() as int);
    tally::lemma_total_push(t.partitions, p, |p: PartitionView| p.bases.len() as int);
}

/// The counts of a store are those of its topics together.
pub proof fn law_store_counts_add_up(topics: Seq<TopicView>, t: TopicView)
    ensures
        partition_sum(topics.push(t)) == partition_sum(topics) + t.partitions.len(),
        retained_sum(topics.push(t)) == retained_sum(topics) + t.retained(),
        segment_sum(topics.push(t)) == segment_sum(topics) + t.segments(),
        produced_sum(topics.push(t)) == produced_sum(topics) + t.produced(),
        topics.len() == 0 ==> partition_sum(topics) == 0 && retained_sum(topics) == 0
            && segment_sum(topics) == 0 && produced_sum(topics) == 0,
{
    tally::lemma_total_push(topics, t, |t: TopicView| t.partitions.len() as int);
    tally::lemma_total_push(topics, t, |t: TopicView| t.retained());
    tally::lemma_total_push(topics, t, |t: TopicView| t.segments());
    tally::lemma_total_push(topics, t, |t: TopicView| t.produced());
}

/// A running total grows by what is counted, as long as it has room.
pub proof fn law_totals_grow(total: int, n: nat)
    requires
        0 <= total,
        total + n <= u64::MAX,
    ensures
        counted(total, n) == total + n,
{
}

/// An append reports what it did: the batch as it was stored, record by record,
/// behind what there was; and, exactly if the head of the partition has moved, the
/// offset that it starts at now, which is that of the first retained record if
/// there is one.
pub proof fn law_outcomes_tell_what_was_done(
    p: PartitionView,
    batch: Seq<ProduceRecordView>,
    timestamp: Instant,
    policy: RetentionPolicy,
)
    requires
        p.dense(),
        p.divided(),
        p.next() + batch.len() <= u64::MAX,
    ensures
        ({
            let told = p.outcome(batch, timestamp, policy);
            let after = p.appended(batch, timestamp, policy);
            &&& told.records.len() == batch.len()
            &&& forall|i: int|
                0 <= i < batch.len() ==> {
                    &&& (#[trigger] told.records[i]).offset == p.next() + i
                    &&& told.records[i].key == batch[i].key
                    &&& told.records[i].payload == batch[i].payload
                    &&& told.records[i].timestamp == timestamp
                }
            &&& told.truncated_to is Some <==> after.start != p.start
            &&& told.truncated_to matches Some(head) ==> {
                &&& head.0 == after.start
                &&& after.records.len() > 0 ==> head.0 == after.records[0].offset
                &&& after.records.len() == 0 ==> head.0 == after.next()
            }
        }),
{
    law_offsets_stay_dense(p, batch, timestamp, policy);
}

/// A batch that is stored under an unbounded policy is read back whole, from the
/// offset on where the log ended before.
pub proof fn law_stored_batches_are_read_back(
    p: PartitionView,
    batch: Seq<ProduceRecordView>,
    timestamp: Instant,
    policy: RetentionPolicy,
)
    requires
        p.dense(),
        p.divided(),
        p.next() + batch.len() <= u64::MAX,
        policy.max_records == 0,
    ensures
        ({
            let read = p.appended(batch, timestamp, policy).served(p.next() as u64, batch.len());
            &&& read.records.len() == batch.len()
            &&& read.high_watermark == p.next() + batch.len()
            &&& forall|i: int|
                0 <= i < batch.len() ==> {
                    &&& (#[trigger] read.records[i]).offset == p.next() + i
                    &&& read.records[i].key == batch[i].key
                    &&& read.records[i].payload == batch[i].payload
                    &&& read.records[i].timestamp == timestamp
                }
        }),
{
    let after = p.appended(batch, timestamp, policy);
    law_offsets_stay_dense(p, batch, timestamp, policy);
    law_retention_prunes_whole_segments(p, batch, timestamp, policy);
    assert(after.records == p.records + stored_batch(batch, p.next(), timestamp));
    assert(after.start == p.start);
    assert(after.served(p.next() as u64, batch.len()).records =~= stored_batch(
        batch,
        p.next(),
        timestamp,
    ));
}

} // verus!
