//! The durable, segmented log store.
//!
//! Its topics and partitions are those of a directory tree. Whatever changes or
//! reads a file is a run of operations that the caller performs one at a time;
//! the store says which, and takes note of what came of them.

use crate::error::PortError;
use crate::filepart;
use crate::filepart::{
    AppendRun, AppendRunView, AppendStep, FetchAction, FetchActionView, FetchRun, FetchRunView, FileAction,
    FileActionView, FilePartitionView, PartitionState,
};
use crate::layout;
use crate::memstore;
use crate::namemap::NameMap;
use crate::record;
use crate::record::{ProduceRecord, ProduceRecordView};
use crate::stats::LogStats;
use crate::tally;
use crate::text;
use crate::timestamp::{Instant, Timestamp};
use crate::topic::{RetentionPolicy, TopicConfig};
use crate::units::{Offset, PartitionId, TopicName};
use vstd::prelude::*;
use vstd::string::*;

verus! {

/// What is known of a topic.
#[verifier::ext_equal]
pub struct FileTopicView {
    pub config: TopicConfig,
    pub partitions: Seq<FilePartitionView>,
}

impl FileTopicView {
    /// A topic as it is created: no partition has a segment.
    pub open spec fn fresh(config: TopicConfig) -> FileTopicView {
        FileTopicView {
            config,
            partitions: Seq::new(config.partitions as nat, |i: int| FilePartitionView::empty()),
        }
    }

    /// Records that the topic retains.
    pub open spec fn retained(self) -> int {
        tally::total(self.partitions, |p: FilePartitionView| p.total())
    }

    /// Segments of the topic.
    pub open spec fn segments(self) -> int {
        tally::total(self.partitions, |p: FilePartitionView| p.segments.len() as int)
    }
}

impl FileTopicView {
    /// No count of a topic is negative.
    pub(crate) proof fn lemma_counts(self)
        ensures
            self.retained() >= 0,
            self.segments() >= 0,
    {
        tally::lemma_total_prefix(
            self.partitions,
            self.partitions.len() as int,
            |p: FilePartitionView| p.total(),
        );
        tally::lemma_total_prefix(
            self.partitions,
            self.partitions.len() as int,
            |p: FilePartitionView| p.segments.len() as int,
        );
    }
}

/// What a store knows: its topics by name, and how many records it has taken in
/// and handed out since it was opened.
#[verifier::ext_equal]
pub struct FileStoreView {
    pub topics: Map<Seq<char>, FileTopicView>,
    pub produced_total: int,
    pub fetched_total: int,
}

impl FileStoreView {
    /// The partition at an address, or the text that names what is missing.
    pub open spec fn lookup(self, topic: Seq<char>, partition: u32) -> Result<
        FilePartitionView,
        Seq<char>,
    > {
        if !self.topics.contains_key(topic) {
            Err(topic)
        } else if partition >= self.topics[topic].partitions.len() {
            Err(memstore::address(topic, partition))
        } else {
            Ok(self.topics[topic].partitions[partition as int])
        }
    }

    /// The store with the partition at an address replaced.
    pub open spec fn with_partition(
        self,
        topic: Seq<char>,
        partition: u32,
        p: FilePartitionView,
    ) -> FileStoreView {
        let t = self.topics[topic];
        FileStoreView {
            topics: self.topics.insert(
                topic,
                FileTopicView { partitions: t.partitions.update(partition as int, p), ..t },
            ),
            ..self
        }
    }

    /// How an append to a partition begins, under the policy of its topic.
    pub open spec fn first_step(
        self,
        topic: Seq<char>,
        partition: u32,
        batch: Seq<ProduceRecordView>,
        timestamp: Instant,
    ) -> AppendStep {
        let p = self.topics[topic].partitions[partition as int];
        filepart::go_on(
            p,
            AppendRunView::fresh(
                batch,
                p.next,
                timestamp,
                self.topics[topic].config.retention,
            ),
        )
    }

    /// The store after an append action: a finished append is counted.
    pub open spec fn after_append(self, action: FileActionView) -> FileStoreView {
        match action {
            FileActionView::Done(Ok(outcome)) => FileStoreView {
                produced_total: self.produced_total + outcome.records.len(),
                ..self
            },
            _ => self,
        }
    }

    /// The store after a fetch action: a finished fetch is counted.
    pub open spec fn after_fetch(self, action: FetchActionView) -> FileStoreView {
        match action {
            FetchActionView::Done(Ok(result)) => FileStoreView {
                fetched_total: memstore::counted(self.fetched_total, result.records.len()),
                ..self
            },
            _ => self,
        }
    }

    /// Whether the 64-bit offsets and totals leave room for `n` more records at
    /// an address.
    pub open spec fn has_room(self, topic: Seq<char>, partition: u32, n: nat) -> bool {
        self.lookup(topic, partition) matches Ok(p) ==> p.next + n <= u64::MAX
            && self.produced_total + n <= u64::MAX
    }
}

/// Partitions of all the topics listed.
pub open spec fn partition_sum(topics: Seq<FileTopicView>) -> int {
    tally::total(topics, |t: FileTopicView| t.partitions.len() as int)
}

/// Records that the topics listed retain.
pub open spec fn retained_sum(topics: Seq<FileTopicView>) -> int {
    tally::total(topics, |t: FileTopicView| t.retained())
}

/// Segments of the topics listed.
pub open spec fn segment_sum(topics: Seq<FileTopicView>) -> int {
    tally::total(topics, |t: FileTopicView| t.segments())
}

#[derive(Debug)]
struct TopicState {
    config: TopicConfig,
    partitions: Vec<PartitionState>,
}

impl View for TopicState {
    type V = FileTopicView;

    closed spec fn view(&self) -> FileTopicView {
        FileTopicView {
            config: self.config,
            partitions: self.partitions@.map_values(|p: PartitionState| p@),
        }
    }
}

impl TopicState {
    /// The records retained and the segments, unless a count does not fit in 64
    /// bits.
    fn counts(&self) -> (r: Option<(u64, u64)>)
        ensures
            r is Some <==> self@.retained() <= u64::MAX && self@.segments() <= u64::MAX,
            r matches Some((records, segments)) ==> records == self@.retained() && segments
                == self@.segments(),
    {
        let ghost all = self@.partitions;
        let ghost kept = |p: FilePartitionView| p.total();
        let ghost segs = |p: FilePartitionView| p.segments.len() as int;
        let mut records: u64 = 0;
        let mut segments: u64 = 0;
        let mut i: usize = 0;
        assert(all.take(0) =~= Seq::<FilePartitionView>::empty());
        while i < self.partitions.len()
            invariant
                i <= self.partitions@.len(),
                all == self@.partitions,
                kept == (|p: FilePartitionView| p.total()),
                segs == (|p: FilePartitionView| p.segments.len() as int),
                records == tally::total(all.take(i as int), kept),
                segments == tally::total(all.take(i as int), segs),
            decreases self.partitions.len() - i,
        {
            let p = &self.partitions[i];
            proof {
                assert(all[i as int] == p@);
                let next = all.take(i as int + 1);
                assert(next.drop_last() =~= all.take(i as int));
                assert(next.last() == p@);
                tally::lemma_total_prefix(all, i as int + 1, kept);
                tally::lemma_total_prefix(all, i as int + 1, segs);
            }
            match (
                records.checked_add(p.total_records()),
                segments.checked_add(p.segment_count() as u64),
            ) {
                (Some(r), Some(s)) => {
                    records = r;
                    segments = s;
                },
                _ => {
                    return None;
                },
            }
            i = i + 1;
        }
        assert(all.take(all.len() as int) =~= all);
        Some((records, segments))
    }
}

/// An append to a partition of the store.
#[derive(Debug)]
pub struct FileAppend {
    topic: TopicName,
    partition: PartitionId,
    run: AppendRun,
}

impl FileAppend {
    /// The topic appended to.
    pub closed spec fn topic(self) -> Seq<char> {
        self.topic@
    }

    /// The partition appended to.
    pub closed spec fn partition(self) -> u32 {
        self.partition.0
    }

    /// How far the append has come.
    pub closed spec fn run(self) -> AppendRunView {
        self.run@
    }
}

/// A fetch from a partition of the store.
#[derive(Debug)]
pub struct FileFetch {
    topic: TopicName,
    partition: PartitionId,
    run: FetchRun,
}

impl FileFetch {
    /// The topic read.
    pub closed spec fn topic(self) -> Seq<char> {
        self.topic@
    }

    /// The partition read.
    pub closed spec fn partition(self) -> u32 {
        self.partition.0
    }

    /// How far the read has come.
    pub closed spec fn run(self) -> FetchRunView {
        self.run@
    }
}

/// A durable, segmented file-backed log store.
#[derive(Debug)]
pub struct FileLogStore {
    topics: NameMap<TopicState>,
    produced_total: u64,
    fetched_total: u64,
}

impl View for FileLogStore {
    type V = FileStoreView;

    closed spec fn view(&self) -> FileStoreView {
        FileStoreView {
            topics: self.topics@.map_values(|t: TopicState| t@),
            produced_total: self.produced_total as int,
            fetched_total: self.fetched_total as int,
        }
    }
}

impl FileLogStore {
    /// The topic names, in order.
    pub closed spec fn names(self) -> Seq<Seq<char>> {
        self.topics.names()
    }

    /// The topics, in the order of their names.
    pub closed spec fn listing(self) -> Seq<FileTopicView> {
        self.topics.values().map_values(|t: TopicState| t@)
    }

    /// Whether the names are in order, and each topic stands under its own name
    /// and has as many partitions as it was configured with.
    pub closed spec fn wf(self) -> bool {
        &&& self.topics.wf()
        &&& forall|i: int|
            0 <= i < self.topics.values().len() ==> {
                &&& (#[trigger] self.topics.values()[i]).config.name@ == self.topics.names()[i]
                &&& self.topics.values()[i].partitions@.len()
                    == self.topics.values()[i].config.partitions
            }
    }

    /// A store that knows of no topic yet: those found on disk are put in with
    /// [`FileLogStore::recover`].
    pub fn open() -> (r: FileLogStore)
        ensures
            r.wf(),
            r@ == (FileStoreView { topics: Map::empty(), produced_total: 0, fetched_total: 0 }),
            r.listing() == Seq::<FileTopicView>::empty(),
    {
        let r = FileLogStore { topics: NameMap::new(), produced_total: 0, fetched_total: 0 };
        assert(r@.topics =~= Map::<Seq<char>, FileTopicView>::empty());
        assert(r.listing() =~= Seq::<FileTopicView>::empty());
        r
    }

    /// Put in a topic that was found on disk, with its partitions.
    pub fn recover(&mut self, config: TopicConfig, partitions: Vec<PartitionState>)
        requires
            old(self).wf(),
            partitions@.len() == config.partitions,
        ensures
            final(self).wf(),
            final(self)@ == (FileStoreView {
                topics: old(self)@.topics.insert(
                    config.name@,
                    FileTopicView {
                        config,
                        partitions: partitions@.map_values(|p: PartitionState| p@),
                    },
                ),
                ..old(self)@
            }),
    {
        let ghost was = *self;
        let ghost name = config.name@;
        let key = config.name.to_string();
        let topic = TopicState { config, partitions };
        let ghost added = topic;
        self.topics.insert(key, topic);
        proof {
            assert(self@.topics =~= was@.topics.insert(name, added@));
            if was.topics.has(name) {
                let at = was.topics.names().index_of(name);
                assert(was.topics.names()[at] == name);
                assert forall|k: int| 0 <= k < self.topics.values().len() implies {
                    &&& (#[trigger] self.topics.values()[k]).config.name@
                        == self.topics.names()[k]
                    &&& self.topics.values()[k].partitions@.len()
                        == self.topics.values()[k].config.partitions
                } by {
                    if k != at {
                        assert(self.topics.values()[k] == was.topics.values()[k]);
                    }
                }
            } else {
                let at = choose|at: int|
                    {
                        &&& 0 <= at <= was.topics.names().len()
                        &&& #[trigger] self.topics.names().index(at) == name
                        &&& self.topics.names() == was.topics.names().insert(at, name)
                        &&& self.topics.values() == was.topics.values().insert(at, added)
                    };
                assert forall|k: int| 0 <= k < self.topics.values().len() implies {
                    &&& (#[trigger] self.topics.values()[k]).config.name@
                        == self.topics.names()[k]
                    &&& self.topics.values()[k].partitions@.len()
                        == self.topics.values()[k].config.partitions
                } by {
                    if k < at {
                        assert(self.topics.values()[k] == was.topics.values()[k]);
                    } else if k > at {
                        assert(self.topics.values()[k] == was.topics.values()[k - 1]);
                    }
                }
            }
        }
    }

    /// The directories to make for a new topic's partitions, inside the topic's
    /// directory; none if the topic exists.
    pub fn plan_topic(&self, config: &TopicConfig) -> (r: Option<Vec<String>>)
        requires
            self.wf(),
        ensures
            r is None <==> self@.topics.contains_key(config.name@),
            r matches Some(dirs) ==> layout::texts(dirs@) == Seq::new(
                config.partitions as nat,
                |p: int| text::decimal(p as nat),
            ),
    {
        if self.topics.find(config.name.as_str()).is_some() {
            return None;
        }
        Some(layout::partition_dirs(config.partitions))
    }

    /// Create a topic whose directories have been made. Returns `false`, and
    /// changes nothing, if a topic of that name exists.
    pub fn create_topic(&mut self, config: TopicConfig) -> (r: bool)
        requires
            old(self).wf(),
        ensures
            final(self).wf(),
            r == !old(self)@.topics.contains_key(config.name@),
            !r ==> final(self)@ == old(self)@,
            r ==> final(self)@ == (FileStoreView {
                topics: old(self)@.topics.insert(config.name@, FileTopicView::fresh(config)),
                ..old(self)@
            }),
    {
        if self.topics.find(config.name.as_str()).is_some() {
            return false;
        }
        let count: u32 = config.partitions;
        let mut partitions: Vec<PartitionState> = Vec::new();
        let mut i: u32 = 0;
        while i < count
            invariant
                i <= count,
                partitions@.len() == i,
                forall|k: int|
                    0 <= k < i ==> (#[trigger] partitions@[k])@ == FilePartitionView::empty(),
            decreases count - i,
        {
            partitions.push(PartitionState::new());
            i = i + 1;
        }
        assert(partitions@.map_values(|p: PartitionState| p@) =~= FileTopicView::fresh(
            config,
        ).partitions);
        self.recover(config, partitions);
        true
    }

    /// List every topic's configuration, in the order of the names.
    pub fn topics(&self) -> (r: Vec<TopicConfig>)
        requires
            self.wf(),
        ensures
            r@ == self.listing().map_values(|t: FileTopicView| t.config),
    {
        let mut out: Vec<TopicConfig> = Vec::new();
        let mut i: usize = 0;
        while i < self.topics.len()
            invariant
                i <= self.topics.values().len(),
                out@.len() == i,
                forall|k: int| 0 <= k < i ==> #[trigger] out@[k] == self.topics.values()[k].config,
            decreases self.topics.values().len() - i,
        {
            out.push(self.topics.value(i).config.clone());
            i = i + 1;
        }
        assert(out@ =~= self.listing().map_values(|t: FileTopicView| t.config));
        out
    }

    /// The partition count for a topic, or `None` if the topic is unknown.
    pub fn partition_count(&self, topic: &TopicName) -> (r: Option<u32>)
        requires
            self.wf(),
        ensures
            r == if self@.topics.contains_key(topic@) {
                Some(self@.topics[topic@].config.partitions)
            } else {
                None
            },
    {
        match self.topics.find(topic.as_str()) {
            Some(i) => Some(self.topics.value(i).config.partitions),
            None => None,
        }
    }

    /// Where a partition stands, or the error that names what is missing.
    fn find(&self, topic: &TopicName, partition: PartitionId) -> (r: Result<
        (usize, usize),
        PortError,
    >)
        requires
            self.wf(),
        ensures
            match (r, self@.lookup(topic@, partition.0)) {
                (Ok((i, at)), Ok(p)) => {
                    &&& i < self.topics.values().len()
                    &&& self.topics.names()[i as int] == topic@
                    &&& self@.topics[topic@] == self.topics.values()[i as int]@
                    &&& at == partition.0
                    &&& at < self.topics.values()[i as int].partitions@.len()
                    &&& self.topics.values()[i as int].partitions@[at as int]@ == p
                },
                (Err(PortError::NotFound(what)), Err(missing)) => what@ == missing,
                _ => false,
            },
    {
        match self.topics.find(topic.as_str()) {
            None => Err(PortError::NotFound(topic.to_string())),
            Some(i) => {
                let at: usize = partition.0 as usize;
                let state = self.topics.value(i);
                assert(self@.topics[topic@] == state@);
                if at >= state.partitions.len() {
                    Err(PortError::NotFound(memstore::address_text(topic, partition)))
                } else {
                    assert(state@.partitions[at as int] == state.partitions@[at as int]@);
                    Ok((i, at))
                }
            },
        }
    }

    /// Replacing one partition changes the store there alone.
    proof fn lemma_partition_changed(self, was: FileLogStore, i: int, at: int)
        requires
            was.wf(),
            0 <= i < was.topics.values().len(),
            0 <= at < was.topics.values()[i].partitions@.len(),
            self.topics.names() == was.topics.names(),
            self.topics.values().len() == was.topics.values().len(),
            self.topics.values() == was.topics.values().update(i, self.topics.values()[i]),
            self.topics.values()[i].config == was.topics.values()[i].config,
            self.topics.values()[i].partitions@ == was.topics.values()[i].partitions@.update(
                at,
                self.topics.values()[i].partitions@[at],
            ),
        ensures
            self.wf(),
            self@.topics == was@.topics.insert(
                was.topics.names()[i],
                FileTopicView {
                    partitions: was.topics.values()[i]@.partitions.update(
                        at,
                        self.topics.values()[i].partitions@[at]@,
                    ),
                    ..was.topics.values()[i]@
                },
            ),
    {
        let now = self.topics.values()[i];
        self.topics.lemma_updated(was.topics, i, now);
        assert(now@.partitions =~= was.topics.values()[i]@.partitions.update(
            at,
            now.partitions@[at]@,
        ));
        assert(self@.topics =~= was@.topics.insert(was.topics.names()[i], now@));
    }

    /// Whether the 64-bit offsets and totals leave room for `count` more records
    /// in a partition.
    pub fn has_room(&self, topic: &TopicName, partition: PartitionId, count: usize) -> (r: bool)
        requires
            self.wf(),
        ensures
            r == self@.has_room(topic@, partition.0, count as nat),
    {
        match self.find(topic, partition) {
            Err(_) => true,
            Ok((i, at)) => {
                let next: u64 = self.topics.value(i).partitions[at].next_offset();
                next <= u64::MAX - count as u64 && self.produced_total <= u64::MAX - count as u64
            },
        }
    }

    /// Start to append a batch of records to a partition, assigning sequential
    /// offsets and the supplied `timestamp`. Returns the append and the first
    /// thing to do.
    pub fn append(
        &mut self,
        topic: &TopicName,
        partition: PartitionId,
        records: Vec<ProduceRecord>,
        timestamp: Timestamp,
    ) -> (r: (FileAppend, FileAction))
        requires
            old(self).wf(),
            old(self)@.has_room(topic@, partition.0, records@.len()),
        ensures
            final(self).wf(),
            r.0.topic() == topic@,
            r.0.partition() == partition.0,
            match old(self)@.lookup(topic@, partition.0) {
                Err(missing) => {
                    &&& final(self)@ == old(self)@
                    &&& r.1 matches FileAction::Done(Err(PortError::NotFound(what))) && what@
                        == missing
                },
                Ok(p) => {
                    let step = filepart::go_on(
                        p,
                        AppendRunView::fresh(
                            record::produce_views(records@),
                            p.next,
                            timestamp@,
                            old(self)@.topics[topic@].config.retention,
                        ),
                    );
                    &&& step == old(self)@.first_step(
                        topic@,
                        partition.0,
                        record::produce_views(records@),
                        timestamp@,
                    )
                    &&& r.0.run() == step.run
                    &&& r.1@ == step.action
                    &&& final(self)@ == old(self)@.with_partition(
                        topic@,
                        partition.0,
                        step.part,
                    ).after_append(step.action)
                    &&& step.action is Done || final(self).awaits(r.0)
                },
            },
    {
        let ghost was = *self;
        let found = self.find(topic, partition);
        let (i, at) = match found {
            Err(e) => {
                let run = AppendRun::finished(
                    RetentionPolicy { segment_max_records: 1, max_records: 0 },
                );
                return (
                    FileAppend { topic: topic.clone(), partition, run },
                    FileAction::Done(Err(e)),
                );
            },
            Ok(place) => place,
        };
        let policy = self.topics.value(i).config.retention;
        let entry = self.topics.value_mut(i);
        let (run, action) = entry.partitions[at].append(records, timestamp, policy);
        proof {
            self.lemma_partition_changed(was, i as int, at as int);
        }
        self.count_append(&action);
        (FileAppend { topic: topic.clone(), partition, run }, action)
    }

    /// Whether an append of the store's can go on once its pending operation is
    /// over.
    pub open spec fn awaits(self, append: FileAppend) -> bool {
        &&& self@.lookup(append.topic(), append.partition()) matches Ok(p)
            && append.run().waits_on(p)
        &&& self@.produced_total + append.run().records.len() <= u64::MAX
    }

    /// Whether the file to write to can take the pending frame of an append.
    pub open spec fn can_write(self, append: FileAppend) -> bool {
        self@.lookup(append.topic(), append.partition()) matches Ok(p) ==> append.run().fits(p)
    }

    fn count_append(&mut self, action: &FileAction)
        requires
            action@ matches FileActionView::Done(Ok(outcome)) ==> old(self)@.produced_total
                + outcome.records.len() <= u64::MAX,
        ensures
            final(self)@ == old(self)@.after_append(action@),
            final(self).topics == old(self).topics,
    {
        match action {
            FileAction::Done(Ok(outcome)) => {
                self.produced_total = self.produced_total + outcome.records.len() as u64;
            },
            _ => {},
        }
    }

    /// Whether the file to write to can take the pending frame of an append: it
    /// can unless its length would no longer fit in 64 bits.
    pub fn fits(&self, append: &FileAppend) -> (r: bool)
        requires
            self.wf(),
        ensures
            r == self.can_write(*append),
    {
        match self.find(&append.topic, append.partition) {
            Err(_) => true,
            Ok((i, at)) => self.topics.value(i).partitions[at].fits(&append.run),
        }
    }

    /// Go on with an append after the pending operation has succeeded or
    /// failed. Returns the next thing to do.
    pub fn append_next(&mut self, append: &mut FileAppend, outcome: Result<(), PortError>) -> (r:
        FileAction)
        requires
            old(self).wf(),
            old(self).awaits(*old(append)),
            old(self).can_write(*old(append)),
        ensures
            final(self).wf(),
            final(append).topic() == old(append).topic(),
            final(append).partition() == old(append).partition(),
            ({
                let topic = old(append).topic();
                let partition = old(append).partition();
                let p = old(self)@.lookup(topic, partition)->Ok_0;
                let step = match outcome {
                    Ok(_) => filepart::after_success(p, old(append).run()),
                    Err(e) => filepart::after_failure(p, old(append).run(), e),
                };
                &&& final(append).run() == step.run
                &&& r@ == step.action
                &&& final(self)@ == old(self)@.with_partition(
                    topic,
                    partition,
                    step.part,
                ).after_append(step.action)
            }),
            r@ is Done || final(self).awaits(*final(append)),
    {
        let ghost was = *self;
        let found = self.find(&append.topic, append.partition);
        let (i, at) = match found {
            Err(e) => {
                return FileAction::Done(Err(e));
            },
            Ok(place) => place,
        };
        let entry = self.topics.value_mut(i);
        let action = entry.partitions[at].append_next(&mut append.run, outcome);
        proof {
            self.lemma_partition_changed(was, i as int, at as int);
        }
        self.count_append(&action);
        action
    }

    fn count_fetch(&mut self, action: &FetchAction)
        ensures
            final(self)@ == old(self)@.after_fetch(action@),
            final(self).topics == old(self).topics,
    {
        match action {
            FetchAction::Done(Ok(result)) => {
                self.fetched_total = self.fetched_total.wrapping_add(result.records.len() as u64);
            },
            _ => {},
        }
    }

    /// Whether a fetch of the store's can go on once its file has been read.
    pub open spec fn reads(self, fetch: FileFetch) -> bool {
        self@.lookup(fetch.topic(), fetch.partition()) matches Ok(p) && 0 <= fetch.run().at
            < p.segments.len()
    }

    /// Start to read up to `max` records from `from` (inclusive) onward.
    /// Returns the fetch and the first thing to do.
    pub fn fetch(
        &mut self,
        topic: &TopicName,
        partition: PartitionId,
        from: Offset,
        max: usize,
    ) -> (r: (FileFetch, FetchAction))
        requires
            old(self).wf(),
        ensures
            final(self).wf(),
            r.0.topic() == topic@,
            r.0.partition() == partition.0,
            match old(self)@.lookup(topic@, partition.0) {
                Err(missing) => {
                    &&& final(self)@ == old(self)@
                    &&& r.0.run() == FetchRunView::finished()
                    &&& r.1 matches FetchAction::Done(Err(PortError::NotFound(what))) && what@
                        == missing
                },
                Ok(p) => {
                    let step = filepart::seek(p, FetchRunView::fresh(p, from.0, max as nat));
                    &&& r.0.run() == step.0
                    &&& r.1@ == step.1
                    &&& final(self)@ == old(self)@.after_fetch(step.1)
                    &&& step.1 is Done || final(self).reads(r.0)
                },
            },
    {
        let found = self.find(topic, partition);
        let (i, at) = match found {
            Err(e) => {
                return (
                    FileFetch { topic: topic.clone(), partition, run: FetchRun::finished() },
                    FetchAction::Done(Err(e)),
                );
            },
            Ok(place) => place,
        };
        let part = &self.topics.value(i).partitions[at];
        let (run, action) = part.fetch(from, max);
        proof {
            filepart::lemma_next_read_range(
                part@.segments,
                0,
                part@.effective(from.0),
                max as nat,
            );
        }
        self.count_fetch(&action);
        (FileFetch { topic: topic.clone(), partition, run }, action)
    }

    /// Go on with a fetch after a file has been read, or could not be. Returns
    /// the next thing to do.
    pub fn fetch_next(&mut self, fetch: &mut FileFetch, outcome: Result<Vec<u8>, PortError>) -> (r:
        FetchAction)
        requires
            old(self).wf(),
            old(self).reads(*old(fetch)),
        ensures
            final(self).wf(),
            final(fetch).topic() == old(fetch).topic(),
            final(fetch).partition() == old(fetch).partition(),
            ({
                let p = old(self)@.lookup(old(fetch).topic(), old(fetch).partition())->Ok_0;
                match outcome {
                    Ok(data) => {
                        let step = filepart::seek(p, old(fetch).run().taken(data@));
                        &&& final(fetch).run() == step.0
                        &&& r@ == step.1
                    },
                    Err(e) => final(fetch).run() == old(fetch).run() && r@
                        == FetchActionView::Done(Err(e)),
                }
            }),
            final(self)@ == old(self)@.after_fetch(r@),
            r@ is Done || final(self).reads(*final(fetch)),
    {
        let found = self.find(&fetch.topic, fetch.partition);
        let (i, at) = match found {
            Err(e) => {
                return FetchAction::Done(Err(e));
            },
            Ok(place) => place,
        };
        let part = &self.topics.value(i).partitions[at];
        let ghost before = fetch.run@;
        let ghost reply = outcome;
        let action = part.fetch_next(&mut fetch.run, outcome);
        proof {
            if let Ok(data) = reply {
                let run = before.taken(data@);
                filepart::lemma_next_read_range(part@.segments, run.at, run.from, run.remaining);
            }
        }
        self.count_fetch(&action);
        action
    }

    /// Aggregate statistics over all topics; none if a total does not fit in 64
    /// bits.
    pub fn stats(&self) -> (r: Option<LogStats>)
        requires
            self.wf(),
        ensures
            r is Some <==> {
                &&& partition_sum(self.listing()) <= u64::MAX
                &&& retained_sum(self.listing()) <= u64::MAX
                &&& segment_sum(self.listing()) <= u64::MAX
            },
            r matches Some(stats) ==> {
                &&& stats.topics == self.names().len()
                &&& stats.partitions == partition_sum(self.listing())
                &&& stats.records == retained_sum(self.listing())
                &&& stats.segments == segment_sum(self.listing())
                &&& stats.produced_total == self@.produced_total
                &&& stats.fetched_total == self@.fetched_total
            },
    {
        let ghost all = self.listing();
        let ghost parts = |t: FileTopicView| t.partitions.len() as int;
        let ghost kept = |t: FileTopicView| t.retained();
        let ghost segs = |t: FileTopicView| t.segments();
        let mut partitions: u64 = 0;
        let mut records: u64 = 0;
        let mut segments: u64 = 0;
        let mut i: usize = 0;
        proof {
            assert(all.take(0) =~= Seq::<FileTopicView>::empty());
            assert forall|k: int| 0 <= k < all.len() implies (#[trigger] all[k]).retained() >= 0
                && all[k].segments() >= 0 by {
                all[k].lemma_counts();
            }
        }
        while i < self.topics.len()
            invariant
                self.wf(),
                i <= self.topics.values().len(),
                all == self.listing(),
                parts == (|t: FileTopicView| t.partitions.len() as int),
                kept == (|t: FileTopicView| t.retained()),
                segs == (|t: FileTopicView| t.segments()),
                partitions == tally::total(all.take(i as int), parts),
                records == tally::total(all.take(i as int), kept),
                segments == tally::total(all.take(i as int), segs),
                forall|k: int|
                    0 <= k < all.len() ==> (#[trigger] all[k]).retained() >= 0
                        && all[k].segments() >= 0,
            decreases self.topics.values().len() - i,
        {
            let t = self.topics.value(i);
            proof {
                assert(all[i as int] == t@);
                let next = all.take(i as int + 1);
                assert(next.drop_last() =~= all.take(i as int));
                assert(next.last() == t@);
                tally::lemma_total_prefix(all, i as int + 1, parts);
                tally::lemma_total_prefix(all, i as int + 1, kept);
                tally::lemma_total_prefix(all, i as int + 1, segs);
                tally::lemma_total_covers(all, i as int, kept);
                tally::lemma_total_covers(all, i as int, segs);
            }
            let (r, s) = match t.counts() {
                None => {
                    return None;
                },
                Some(counts) => counts,
            };
            match (
                partitions.checked_add(t.partitions.len() as u64),
                records.checked_add(r),
                segments.checked_add(s),
            ) {
                (Some(p), Some(r), Some(s)) => {
                    partitions = p;
                    records = r;
                    segments = s;
                },
                _ => {
                    return None;
                },
            }
            i = i + 1;
        }
        assert(all.take(all.len() as int) =~= all);
        Some(
            LogStats {
                topics: self.topics.len() as u64,
                partitions,
                records,
                segments,
                produced_total: self.produced_total,
                fetched_total: self.fetched_total,
            },
        )
    }
}

/// The listing shows each topic of the store once, under its own name and in
/// the order of the names, with as many partitions as it was configured with.
pub proof fn law_listing_is_the_store(store: FileLogStore)
    requires
        store.wf(),
    ensures
        store.names().len() == store.listing().len(),
        store.names().no_duplicates(),
        store.names().to_set() == store@.topics.dom(),
        forall|i: int, j: int|
            #![trigger store.names()[i], store.names()[j]]
            0 <= i < j < store.names().len() ==> text::before(store.names()[i], store.names()[j]),
        forall|i: int|
            0 <= i < store.names().len() ==> {
                &&& #[trigger] store.listing()[i] == store@.topics[store.names()[i]]
                &&& store.listing()[i].config.name@ == store.names()[i]
                &&& store.listing()[i].partitions.len() == store.listing()[i].config.partitions
            },
{
    crate::namemap::law_names_are_the_keys(store.topics);
    assert(store.names().to_set() =~= store@.topics.dom());
    assert forall|i: int| 0 <= i < store.names().len() implies {
        &&& #[trigger] store.listing()[i] == store@.topics[store.names()[i]]
        &&& store.listing()[i].config.name@ == store.names()[i]
        &&& store.listing()[i].partitions.len() == store.listing()[i].config.partitions
    } by {
        store.topics.lemma_position(i);
    }
}

/// A new topic has as many partitions as it was configured with, each without a
/// segment and starting at the very first offset.
pub proof fn law_new_topics_are_empty(config: TopicConfig)
    ensures
        ({
            let t = FileTopicView::fresh(config);
            &&& t.config == config
            &&& t.partitions.len() == config.partitions
            &&& forall|i: int|
                0 <= i < t.partitions.len() ==> {
                    &&& (#[trigger] t.partitions[i]).segments.len() == 0
                    &&& t.partitions[i].start == 0
                    &&& t.partitions[i].next == 0
                }
        }),
{
}

/// A partition is found exactly if its topic exists and has one of that number.
/// Otherwise what is missing is named: the topic, or the partition behind it.
pub proof fn law_partitions_are_found(store: FileStoreView, topic: Seq<char>, partition: u32)
    ensures
        store.lookup(topic, partition) is Ok <==> store.topics.contains_key(topic) && partition
            < store.topics[topic].partitions.len(),
        store.lookup(topic, partition) matches Ok(p) ==> p
            == store.topics[topic].partitions[partition as int],
        !store.topics.contains_key(topic) ==> store.lookup(topic, partition) == Err::<
            FilePartitionView,
            Seq<char>,
        >(topic),
        store.topics.contains_key(topic) ==> (store.lookup(topic, partition) matches Err(missing)
            ==> missing.len() > topic.len() + 1 && missing.take(topic.len() as int) == topic
            && missing[topic.len() as int] == '/' && text::digits_value(
            missing.skip(topic.len() as int + 1),
        ) == partition),
{
    reveal_strlit("/");
    let missing = memstore::address(topic, partition);
    text::law_decimal_read_back(partition as nat);
    assert(missing.take(topic.len() as int) =~= topic);
    assert(missing.skip(topic.len() as int + 1) =~= text::decimal(partition as nat));
}

/// Changing one partition changes no other: every other partition, every other
/// topic, and every configuration stays.
pub proof fn law_one_partition_is_changed(
    store: FileStoreView,
    topic: Seq<char>,
    partition: u32,
    p: FilePartitionView,
    other: Seq<char>,
    other_partition: u32,
)
    requires
        store.lookup(topic, partition) is Ok,
    ensures
        ({
            let after = store.with_partition(topic, partition, p);
            &&& after.lookup(topic, partition) == Ok::<FilePartitionView, Seq<char>>(p)
            &&& other != topic || other_partition != partition ==> after.lookup(
                other,
                other_partition,
            ) == store.lookup(other, other_partition)
            &&& after.topics.dom() == store.topics.dom()
            &&& store.topics.contains_key(other) ==> after.topics[other].config
                == store.topics[other].config
            &&& after.produced_total == store.produced_total
            &&& after.fetched_total == store.fetched_total
        }),
{
    let after = store.with_partition(topic, partition, p);
    assert(after.topics.dom() =~= store.topics.dom());
}

/// A store counts what it has taken in and handed out: an append once it is done,
/// and a fetch once it is done, each by its records; an operation that is still
/// under way, or that failed, is not counted. Counting changes no topic.
pub proof fn law_finished_operations_are_counted(
    store: FileStoreView,
    append: FileActionView,
    fetch: FetchActionView,
)
    requires
        0 <= store.fetched_total,
    ensures
        store.after_append(append).topics == store.topics,
        store.after_append(append).fetched_total == store.fetched_total,
        store.after_append(append).produced_total == store.produced_total + match append {
            FileActionView::Done(Ok(outcome)) => outcome.records.len() as int,
            _ => 0,
        },
        store.after_fetch(fetch).topics == store.topics,
        store.after_fetch(fetch).produced_total == store.produced_total,
        fetch matches FetchActionView::Done(Ok(result)) ==> (store.fetched_total
            + result.records.len() <= u64::MAX ==> store.after_fetch(fetch).fetched_total
            == store.fetched_total + result.records.len()),
        !(fetch matches FetchActionView::Done(Ok(_))) ==> store.after_fetch(fetch).fetched_total
            == store.fetched_total,
{
}

/// The counts of a topic are those of its partitions together.
pub proof fn law_topic_counts_add_up(t: FileTopicView, p: FilePartitionView)
    requires
        p.start <= p.next,
    ensures
        ({
            let more = FileTopicView { partitions: t.partitions.push(p), ..t };
            &&& more.retained() == t.retained() + p.next - p.start
            &&& more.segments() == t.segments() + p.segments.len()
        }),
        t.partitions.len() == 0 ==> t.retained() == 0 && t.segments() == 0,
{
    tally::lemma_total_push(t.partitions, p, |p: FilePartitionView| p.total());
    tally::lemma_total_push(t.partitions, p, |p: FilePartitionView| p.segments.len() as int);
}

/// The counts of a store are those of its topics together.
pub proof fn law_store_counts_add_up(topics: Seq<FileTopicView>, t: FileTopicView)
    ensures
        partition_sum(topics.push(t)) == partition_sum(topics) + t.partitions.len(),
        retained_sum(topics.push(t)) == retained_sum(topics) + t.retained(),
        segment_sum(topics.push(t)) == segment_sum(topics) + t.segments(),
        topics.len() == 0 ==> partition_sum(topics) == 0 && retained_sum(topics) == 0
            && segment_sum(topics) == 0,
{
    tally::lemma_total_push(topics, t, |t: FileTopicView| t.partitions.len() as int);
    tally::lemma_total_push(topics, t, |t: FileTopicView| t.retained());
    tally::lemma_total_push(topics, t, |t: FileTopicView| t.segments());
}

} // verus!
