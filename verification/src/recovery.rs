//! Why a durable store comes back as it was.
//!
//! Everything here is proof. The files of a store are modelled as the directories
//! under its root, each with a topic's configuration and the files of each
//! partition; any sequence of operations keeps the store in agreement with them,
//! and opening them anew gives back the store.

use crate::disk;
use crate::filepart;
use crate::filepart::{
    AppendRunView, AppendStep, FetchActionView, FileActionView, FilePartitionView,
};
use crate::filestore::{FileStoreView, FileTopicView};
use crate::layout;
use crate::memstore;
use crate::record::{ProduceRecordView, RecordView};
use crate::segment;
use crate::timestamp::Instant;
use crate::topic::{RetentionPolicy, TopicConfig};
use vstd::prelude::*;
use vstd::seq_lib::*;

verus! {

/// Whether the names of a directory list a partition's files: each file once,
/// and besides them only names that tell no base offset.
pub open spec fn lists(names: Seq<Seq<char>>, files: Map<u64, Seq<u8>>) -> bool {
    &&& names.no_duplicates()
    &&& forall|b: u64| #[trigger]
        files.contains_key(b) ==> names.contains(layout::segment_name(b))
    &&& forall|i: int|
        0 <= i < names.len() ==> (layout::base_of(#[trigger] names[i]) matches Some(b)
            ==> names[i] == layout::segment_name(b) && files.contains_key(b))
}

/// The base offsets that names tell, with where they stand.
proof fn lemma_bases_of(names: Seq<Seq<char>>)
    ensures
        forall|b: u64| #[trigger]
            layout::bases_of(names).contains(b) <==> exists|i: int|
                0 <= i < names.len() && layout::base_of(#[trigger] names[i]) == Some(b),
    decreases names.len(),
{
    if names.len() > 0 {
        let earlier = names.drop_last();
        lemma_bases_of(earlier);
        let told = layout::bases_of(earlier);
        let all = layout::bases_of(names);
        assert forall|b: u64| #[trigger] all.contains(b) <==> exists|i: int|
            0 <= i < names.len() && layout::base_of(#[trigger] names[i]) == Some(b) by {
            if all.contains(b) {
                let k = all.index_of(b);
                if k < told.len() {
                    assert(told[k] == b);
                    assert(told.contains(b));
                    let i = choose|i: int|
                        0 <= i < earlier.len() && layout::base_of(#[trigger] earlier[i]) == Some(b);
                    assert(names[i] == earlier[i]);
                } else {
                    assert(layout::base_of(names[names.len() - 1]) == Some(b));
                }
            }
            if exists|i: int|
                0 <= i < names.len() && layout::base_of(#[trigger] names[i]) == Some(b) {
                let i = choose|i: int|
                    0 <= i < names.len() && layout::base_of(#[trigger] names[i]) == Some(b);
                if i < earlier.len() {
                    assert(earlier[i] == names[i]);
                    assert(told.contains(b));
                    let k = told.index_of(b);
                    assert(all[k] == b);
                } else {
                    assert(all[all.len() - 1] == b);
                }
            }
        }
    } else {
        assert forall|b: u64| !(#[trigger] layout::bases_of(names).contains(b)) by {}
    }
}

/// A listing tells each base offset once.
proof fn lemma_bases_are_told_once(names: Seq<Seq<char>>)
    requires
        names.no_duplicates(),
        forall|i: int|
            0 <= i < names.len() ==> (layout::base_of(#[trigger] names[i]) matches Some(b)
                ==> names[i] == layout::segment_name(b)),
    ensures
        layout::bases_of(names).no_duplicates(),
    decreases names.len(),
{
    if names.len() > 0 {
        let earlier = names.drop_last();
        assert forall|i: int| 0 <= i < earlier.len() implies (layout::base_of(
            #[trigger] earlier[i],
        ) matches Some(b) ==> earlier[i] == layout::segment_name(b)) by {
            assert(earlier[i] == names[i]);
        }
        assert(earlier.no_duplicates()) by {
            assert forall|i: int, j: int|
                0 <= i < earlier.len() && 0 <= j < earlier.len() && i != j implies earlier[i]
                != earlier[j] by {
                assert(names[i] != names[j]);
            }
        }
        lemma_bases_are_told_once(earlier);
        lemma_bases_of(earlier);
        if let Some(b) = layout::base_of(names.last()) {
            if layout::bases_of(earlier).contains(b) {
                let i = choose|i: int|
                    0 <= i < earlier.len() && layout::base_of(#[trigger] earlier[i]) == Some(b);
                assert(names[i] == earlier[i]);
                assert(names[i] == names[names.len() - 1]);
            }
        }
    }
}

/// The names in a partition's directory, in whatever order they are listed, tell
/// the bases of its segments: sorting what they tell gives the segments in
/// order.
pub proof fn law_listing_tells_the_bases(
    p: FilePartitionView,
    split: Seq<Seq<RecordView>>,
    files: Map<u64, Seq<u8>>,
    names: Seq<Seq<char>>,
    sorted: Seq<u64>,
)
    requires
        disk::on_disk(p, split, files),
        lists(names, files),
        layout::ascending(sorted),
        sorted.to_multiset() == layout::bases_of(names).to_multiset(),
    ensures
        sorted == disk::bases(p),
{
    broadcast use group_to_multiset_ensures;
    broadcast use vstd::multiset::group_multiset_axioms;

    let told = layout::bases_of(names);
    let bases = disk::bases(p);
    disk::law_bases_ascend(p, split, files);
    lemma_bases_of(names);
    lemma_bases_are_told_once(names);
    told.lemma_multiset_has_no_duplicates();
    bases.lemma_multiset_has_no_duplicates();
    assert forall|b: u64| #[trigger] told.to_multiset().count(b) == bases.to_multiset().count(
        b,
    ) by {
        assert(bases.to_set().contains(b) == bases.contains(b));
        assert(files.dom().contains(b) == files.contains_key(b));
        if files.contains_key(b) {
            let i = names.index_of(layout::segment_name(b));
            assert(names[i] == layout::segment_name(b));
            layout::law_segment_name_tells_its_base(b);
            assert(told.contains(b));
            assert(told.to_multiset().contains(b));
            assert(bases.to_multiset().contains(b));
        } else {
            assert(!told.contains(b));
        }
    }
    assert(told.to_multiset() =~= bases.to_multiset());
    let leq = |a: u64, b: u64| a <= b;
    assert(vstd::relations::total_ordering(leq));
    assert(vstd::relations::sorted_by(sorted, leq));
    assert(vstd::relations::sorted_by(bases, leq));
    lemma_sorted_unique(sorted, bases, leq);
}

/// An append after up to `n` of its operations have been performed with success,
/// with the partition's files.
pub open spec fn carried(step: AppendStep, files: Map<u64, Seq<u8>>, n: nat) -> (
    AppendStep,
    Map<u64, Seq<u8>>,
)
    decreases n,
{
    if n == 0 || step.action is Done {
        (step, files)
    } else {
        carried(
            filepart::after_success(step.part, step.run),
            disk::performed(files, step.action),
            (n - 1) as nat,
        )
    }
}

/// Whether the files can take what an append writes in its next `n` operations.
pub open spec fn fits(step: AppendStep, n: nat) -> bool
    decreases n,
{
    if n == 0 || step.action is Done {
        true
    } else {
        &&& step.run.fits(step.part)
        &&& fits(filepart::after_success(step.part, step.run), (n - 1) as nat)
    }
}

proof fn lemma_carried(
    step: AppendStep,
    batch: Seq<RecordView>,
    before: Seq<RecordView>,
    start: int,
    files: Map<u64, Seq<u8>>,
    n: nat,
)
    requires
        disk::under_way(step, batch, before, start, files),
        0 <= start,
        segment::all_storable(batch),
        disk::dense(batch, start + before.len()),
        start + before.len() + batch.len() <= u64::MAX,
        fits(step, n),
    ensures
        disk::under_way(
            carried(step, files, n).0,
            batch,
            before,
            start,
            carried(step, files, n).1,
        ),
        carried(step, files, n).0.run.policy == step.run.policy,
    decreases n,
{
    if !(n == 0 || step.action is Done) {
        disk::law_append_goes_on(step, batch, before, start, files);
        lemma_carried(
            filepart::after_success(step.part, step.run),
            batch,
            before,
            start,
            disk::performed(files, step.action),
            (n - 1) as nat,
        );
    }
}

/// More operations than an append can still ask for.
pub open spec fn ahead(step: AppendStep) -> nat {
    let left = step.run.records.len() - step.run.done;
    let segments = step.part.segments.len();
    match step.action {
        FileActionView::Create(_) => (4 * left + segments + 3) as nat,
        FileActionView::Write(_, _) => (4 * left + segments + 1) as nat,
        FileActionView::Remove(_) => (segments + 1) as nat,
        FileActionView::Done(_) => 0,
    }
}

/// An append comes to an end: with every operation performed, it is over after
/// finitely many, and it succeeded. The files then hold the old records and the
/// batch, less whole segments at the head, and no more than the policy allows.
pub proof fn law_append_ends(
    step: AppendStep,
    batch: Seq<RecordView>,
    before: Seq<RecordView>,
    start: int,
    files: Map<u64, Seq<u8>>,
)
    requires
        disk::under_way(step, batch, before, start, files),
        0 <= start,
        segment::all_storable(batch),
        disk::dense(batch, start + before.len()),
        start + before.len() + batch.len() <= u64::MAX,
        fits(step, ahead(step)),
    ensures
        ({
            let (end, after) = carried(step, files, ahead(step));
            let policy = step.run.policy;
            &&& end.action matches FileActionView::Done(Ok(outcome)) && {
                &&& outcome.records == batch
                &&& outcome.truncated_to is Some <==> end.part.start > start
                &&& outcome.truncated_to matches Some(head) ==> head.0 == end.part.start
            }
            &&& start <= end.part.start
            &&& end.part.next == start + before.len() + batch.len()
            &&& disk::holds(end.part, (before + batch).skip(end.part.start - start), after)
            &&& policy.max_records == 0 ==> end.part.start == start
            &&& policy.max_records != 0 ==> end.part.total() <= policy.max_records
        }),
    decreases ahead(step),
{
    lemma_carried(step, batch, before, start, files, ahead(step));
    if !(step.action is Done) {
        let next = filepart::after_success(step.part, step.run);
        let after = disk::performed(files, step.action);
        disk::law_append_goes_on(step, batch, before, start, files);
        assert(ahead(next) < ahead(step));
        lemma_fits_shorter(next, ahead(next), (ahead(step) - 1) as nat);
        law_append_ends(next, batch, before, start, after);
        lemma_carried_further(next, after, ahead(next), (ahead(step) - 1) as nat);
    }
}

proof fn lemma_fits_shorter(step: AppendStep, n: nat, more: nat)
    requires
        n <= more,
        fits(step, more),
    ensures
        fits(step, n),
    decreases n,
{
    if !(n == 0 || step.action is Done) {
        lemma_fits_shorter(
            filepart::after_success(step.part, step.run),
            (n - 1) as nat,
            (more - 1) as nat,
        );
    }
}

proof fn lemma_carried_further(step: AppendStep, files: Map<u64, Seq<u8>>, n: nat, more: nat)
    requires
        n <= more,
        carried(step, files, n).0.action is Done,
    ensures
        carried(step, files, more) == carried(step, files, n),
    decreases n,
{
    if !(n == 0 || step.action is Done) {
        lemma_carried_further(
            filepart::after_success(step.part, step.run),
            disk::performed(files, step.action),
            (n - 1) as nat,
            (more - 1) as nat,
        );
    }
}

/// What a topic has on disk: its configuration, and the files of each partition.
#[verifier::ext_equal]
pub struct TopicFiles {
    pub config: TopicConfig,
    pub partitions: Seq<Map<u64, Seq<u8>>>,
}

/// Whether a partition and its files agree.
pub open spec fn agrees(p: FilePartitionView, files: Map<u64, Seq<u8>>) -> bool {
    exists|kept: Seq<RecordView>| #[trigger] disk::holds(p, kept, files)
}

/// Whether a partition holds no more records than a policy allows.
pub open spec fn within(p: FilePartitionView, policy: RetentionPolicy) -> bool {
    policy.max_records != 0 ==> p.total() <= policy.max_records
}

/// Whether a topic and its files agree, and no partition holds more than the
/// topic's policy allows.
pub open spec fn topic_agrees(name: Seq<char>, t: FileTopicView, files: TopicFiles) -> bool {
    &&& files.config == t.config
    &&& t.config.name@ == name
    &&& files.partitions.len() == t.partitions.len()
    &&& forall|i: int|
        0 <= i < t.partitions.len() ==> agrees(#[trigger] t.partitions[i], files.partitions[i])
            && within(t.partitions[i], t.config.retention)
}

/// Whether a store and its files agree: each topic that it knows has a directory
/// of its own and agrees with what that holds, and no other topic has one.
pub open spec fn store_agrees(store: FileStoreView, files: Map<Seq<char>, TopicFiles>) -> bool {
    &&& forall|name: Seq<char>| #[trigger]
        store.topics.contains_key(name) ==> {
            &&& layout::topic_name(name)
            &&& files.contains_key(layout::topic_dir_name(name))
            &&& topic_agrees(name, store.topics[name], files[layout::topic_dir_name(name)])
        }
    &&& forall|dir: Seq<char>| #[trigger]
        files.contains_key(dir) ==> {
            &&& store.topics.contains_key(files[dir].config.name@)
            &&& dir == layout::topic_dir_name(files[dir].config.name@)
        }
}

/// An operation on a store.
pub enum StoreOperation {
    /// A topic is created.
    Create(TopicConfig),
    /// A batch is appended, in so many file operations at most.
    Append {
        topic: Seq<char>,
        partition: u32,
        batch: Seq<ProduceRecordView>,
        timestamp: Instant,
        operations: nat,
    },
    /// A fetch is carried out, and ends so.
    Fetch(FetchActionView),
}

/// How an append to a partition of a store begins.
pub open spec fn first_step(
    store: FileStoreView,
    topic: Seq<char>,
    partition: u32,
    batch: Seq<ProduceRecordView>,
    timestamp: Instant,
) -> AppendStep {
    store.first_step(topic, partition, batch, timestamp)
}

/// Whether an operation succeeds.
pub open spec fn succeeds(
    store: FileStoreView,
    files: Map<Seq<char>, TopicFiles>,
    operation: StoreOperation,
) -> bool {
    match operation {
        StoreOperation::Create(config) => {
            &&& !store.topics.contains_key(config.name@)
            &&& layout::topic_name(config.name@)
        },
        StoreOperation::Append { topic, partition, batch, timestamp, operations } => {
            let step = first_step(store, topic, partition, batch, timestamp);
            let at = files[layout::topic_dir_name(topic)].partitions[partition as int];
            &&& store.lookup(topic, partition) is Ok
            &&& store.has_room(topic, partition, batch.len())
            &&& segment::all_storable(
                memstore::stored_batch(
                    batch,
                    store.topics[topic].partitions[partition as int].next as int,
                    timestamp,
                ),
            )
            &&& fits(step, operations)
            &&& carried(step, at, operations).0.action is Done
        },
        StoreOperation::Fetch(_) => true,
    }
}

/// The store and its files after an operation that succeeds.
pub open spec fn applied(
    store: FileStoreView,
    files: Map<Seq<char>, TopicFiles>,
    operation: StoreOperation,
) -> (FileStoreView, Map<Seq<char>, TopicFiles>) {
    match operation {
        StoreOperation::Create(config) => (
            FileStoreView {
                topics: store.topics.insert(config.name@, FileTopicView::fresh(config)),
                ..store
            },
            files.insert(
                layout::topic_dir_name(config.name@),
                TopicFiles {
                    config,
                    partitions: Seq::new(config.partitions as nat, |i: int| Map::empty()),
                },
            ),
        ),
        StoreOperation::Append { topic, partition, batch, timestamp, operations } => {
            let step = first_step(store, topic, partition, batch, timestamp);
            let dir = layout::topic_dir_name(topic);
            let t = files[dir];
            let (end, after) = carried(step, t.partitions[partition as int], operations);
            (
                store.with_partition(topic, partition, end.part).after_append(end.action),
                files.insert(
                    dir,
                    TopicFiles { partitions: t.partitions.update(partition as int, after), ..t },
                ),
            )
        },
        StoreOperation::Fetch(action) => (store.after_fetch(action), files),
    }
}

/// The steps of an append change one partition of the store, each in place of
/// the one before.
pub proof fn law_append_steps_replace_each_other(
    store: FileStoreView,
    topic: Seq<char>,
    partition: u32,
    one: FilePartitionView,
    two: FilePartitionView,
)
    requires
        store.lookup(topic, partition) is Ok,
    ensures
        store.with_partition(topic, partition, one).with_partition(topic, partition, two)
            == store.with_partition(topic, partition, two),
        store.with_partition(topic, partition, one).lookup(topic, partition) == Ok::<
            FilePartitionView,
            Seq<char>,
        >(one),
{
    let t = store.topics[topic];
    assert(t.partitions.update(partition as int, one).update(partition as int, two)
        =~= t.partitions.update(partition as int, two));
    assert(store.with_partition(topic, partition, one).with_partition(topic, partition, two).topics
        =~= store.with_partition(topic, partition, two).topics);
}

/// An operation that succeeds keeps a store in agreement with its files.
pub proof fn law_operations_keep_agreement(
    store: FileStoreView,
    files: Map<Seq<char>, TopicFiles>,
    operation: StoreOperation,
)
    requires
        store_agrees(store, files),
        succeeds(store, files, operation),
    ensures
        store_agrees(
            applied(store, files, operation).0,
            applied(store, files, operation).1,
        ),
{
    let (next, after) = applied(store, files, operation);
    match operation {
        StoreOperation::Create(config) => {
            let name = config.name@;
            disk::law_new_partition_is_empty();
            assert(agrees(FilePartitionView::empty(), Map::empty()));
            assert forall|n: Seq<char>| #[trigger] next.topics.contains_key(n) implies {
                &&& layout::topic_name(n)
                &&& after.contains_key(layout::topic_dir_name(n))
                &&& topic_agrees(n, next.topics[n], after[layout::topic_dir_name(n)])
            } by {
                if n != name {
                    assert(store.topics.contains_key(n));
                    layout::law_topic_dirs_are_kept_apart(n, name);
                }
            }
            assert forall|d: Seq<char>| #[trigger] after.contains_key(d) implies {
                &&& next.topics.contains_key(after[d].config.name@)
                &&& d == layout::topic_dir_name(after[d].config.name@)
            } by {
                if d != layout::topic_dir_name(name) {
                    assert(files.contains_key(d));
                }
            }
        },
        StoreOperation::Append { topic, partition, batch, timestamp, operations } => {
            lemma_append_keeps_agreement(
                store,
                files,
                topic,
                partition,
                batch,
                timestamp,
                operations,
            );
            let dir = layout::topic_dir_name(topic);
            assert(store.topics.contains_key(topic));
            assert forall|n: Seq<char>| #[trigger] next.topics.contains_key(n) implies {
                &&& layout::topic_name(n)
                &&& after.contains_key(layout::topic_dir_name(n))
                &&& topic_agrees(n, next.topics[n], after[layout::topic_dir_name(n)])
            } by {
                assert(store.topics.contains_key(n));
                layout::law_topic_dirs_are_kept_apart(n, topic);
                if n == topic {
                    let t = store.topics[topic];
                    assert forall|i: int| 0 <= i < next.topics[n].partitions.len() implies agrees(
                        #[trigger] next.topics[n].partitions[i],
                        after[dir].partitions[i],
                    ) && within(next.topics[n].partitions[i], t.config.retention) by {
                        if i != partition {
                            assert(agrees(t.partitions[i], files[dir].partitions[i]));
                        }
                    }
                }
            }
            assert forall|d: Seq<char>| #[trigger] after.contains_key(d) implies {
                &&& next.topics.contains_key(after[d].config.name@)
                &&& d == layout::topic_dir_name(after[d].config.name@)
            } by {
                assert(files.contains_key(d));
            }
        },
        StoreOperation::Fetch(_) => {
            assert(next.topics == store.topics);
        },
    }
}

proof fn lemma_append_keeps_agreement(
    store: FileStoreView,
    files: Map<Seq<char>, TopicFiles>,
    topic: Seq<char>,
    partition: u32,
    batch: Seq<ProduceRecordView>,
    timestamp: Instant,
    operations: nat,
)
    requires
        store_agrees(store, files),
        succeeds(
            store,
            files,
            StoreOperation::Append { topic, partition, batch, timestamp, operations },
        ),
    ensures
        ({
            let step = first_step(store, topic, partition, batch, timestamp);
            let at = files[layout::topic_dir_name(topic)].partitions[partition as int];
            let (end, after) = carried(step, at, operations);
            agrees(end.part, after) && within(end.part, store.topics[topic].config.retention)
        }),
{
    let p = store.topics[topic].partitions[partition as int];
    let at = files[layout::topic_dir_name(topic)].partitions[partition as int];
    let policy = store.topics[topic].config.retention;
    let run = AppendRunView::fresh(batch, p.next, timestamp, policy);
    let step = first_step(store, topic, partition, batch, timestamp);
    assert(store.topics.contains_key(topic));
    assert(agrees(p, at));
    let before = choose|kept: Seq<RecordView>| #[trigger] disk::holds(p, kept, at);
    disk::law_append_begins(p, run, before, at);
    disk::lemma_holds_counts(p, before, at);
    assert forall|i: int| 0 <= i < run.records.len() implies #[trigger] run.records[i].offset
        == p.start + before.len() + i by {
        assert(run.records[i].offset == p.next + i);
    }
    lemma_carried(step, run.records, before, p.start as int, at, operations);
    let (end, after) = carried(step, at, operations);
    assert(disk::holds(end.part, (before + run.records).skip(end.part.start - p.start), after));
}

/// A store after a sequence of operations, with its files; both start out empty.
pub open spec fn all_applied(operations: Seq<StoreOperation>) -> (
    FileStoreView,
    Map<Seq<char>, TopicFiles>,
)
    decreases operations.len(),
{
    if operations.len() == 0 {
        (
            FileStoreView { topics: Map::empty(), produced_total: 0, fetched_total: 0 },
            Map::empty(),
        )
    } else {
        let (store, files) = all_applied(operations.drop_last());
        applied(store, files, operations.last())
    }
}

/// Whether each of a sequence of operations succeeds.
pub open spec fn all_succeed(operations: Seq<StoreOperation>) -> bool
    decreases operations.len(),
{
    operations.len() > 0 ==> {
        let (store, files) = all_applied(operations.drop_last());
        all_succeed(operations.drop_last()) && succeeds(store, files, operations.last())
    }
}

proof fn lemma_all_agree(operations: Seq<StoreOperation>)
    requires
        all_succeed(operations),
    ensures
        store_agrees(all_applied(operations).0, all_applied(operations).1),
    decreases operations.len(),
{
    if operations.len() > 0 {
        lemma_all_agree(operations.drop_last());
        let (store, files) = all_applied(operations.drop_last());
        law_operations_keep_agreement(store, files, operations.last());
    }
}

/// What is found in a topic's directory: for each partition, the bases that its
/// file names tell, sorted.
pub open spec fn found(files: TopicFiles, bases: Seq<Seq<u64>>) -> bool {
    &&& bases.len() == files.partitions.len()
    &&& forall|i: int|
        0 <= i < bases.len() ==> {
            &&& layout::ascending(#[trigger] bases[i])
            &&& exists|names: Seq<Seq<char>>|
                {
                    &&& #[trigger] lists(names, files.partitions[i])
                    &&& bases[i].to_multiset() == layout::bases_of(names).to_multiset()
                }
        }
}

/// A topic as it is recovered from its files.
pub open spec fn recovered(files: TopicFiles, bases: Seq<Seq<u64>>) -> FileTopicView {
    FileTopicView {
        config: files.config,
        partitions: Seq::new(
            files.partitions.len(),
            |i: int| disk::reopened(bases[i], files.partitions[i]),
        ),
    }
}

/// A store that is opened on its files: the topics are recovered one after the
/// other, in the order in which their directories are listed.
pub open spec fn opened(
    order: Seq<Seq<char>>,
    files: Map<Seq<char>, TopicFiles>,
    bases: Map<Seq<char>, Seq<Seq<u64>>>,
) -> FileStoreView
    decreases order.len(),
{
    if order.len() == 0 {
        FileStoreView { topics: Map::empty(), produced_total: 0, fetched_total: 0 }
    } else {
        let store = opened(order.drop_last(), files, bases);
        let topic = recovered(files[order.last()], bases[order.last()]);
        FileStoreView { topics: store.topics.insert(topic.config.name@, topic), ..store }
    }
}

/// A topic that agrees with its files is recovered from them as it was.
proof fn lemma_topic_recovers(
    name: Seq<char>,
    t: FileTopicView,
    files: TopicFiles,
    bases: Seq<Seq<u64>>,
)
    requires
        topic_agrees(name, t, files),
        found(files, bases),
    ensures
        recovered(files, bases) == t,
{
    assert forall|i: int| 0 <= i < t.partitions.len() implies #[trigger] recovered(
        files,
        bases,
    ).partitions[i] == t.partitions[i] by {
        let p = t.partitions[i];
        let at = files.partitions[i];
        assert(agrees(p, at));
        let kept = choose|kept: Seq<RecordView>| #[trigger] disk::holds(p, kept, at);
        let split = choose|split: Seq<Seq<RecordView>>| #[trigger]
            disk::on_disk(p, split, at) && disk::flat(split) == kept;
        assert(layout::ascending(bases[i]));
        let names = choose|names: Seq<Seq<char>>|
            {
                &&& #[trigger] lists(names, at)
                &&& bases[i].to_multiset() == layout::bases_of(names).to_multiset()
            };
        law_listing_tells_the_bases(p, split, at, names, bases[i]);
        disk::lemma_reopens(p, split, at);
    }
    assert(recovered(files, bases).partitions =~= t.partitions);
}

proof fn lemma_opened(
    store: FileStoreView,
    order: Seq<Seq<char>>,
    files: Map<Seq<char>, TopicFiles>,
    bases: Map<Seq<char>, Seq<Seq<u64>>>,
)
    requires
        store_agrees(store, files),
        forall|i: int| 0 <= i < order.len() ==> files.contains_key(#[trigger] order[i]),
        forall|dir: Seq<char>| #[trigger]
            files.contains_key(dir) ==> found(files[dir], bases[dir]),
    ensures
        forall|name: Seq<char>| #[trigger]
            opened(order, files, bases).topics.contains_key(name) <==> {
                &&& store.topics.contains_key(name)
                &&& order.contains(layout::topic_dir_name(name))
            },
        forall|name: Seq<char>|
            store.topics.contains_key(name) && order.contains(layout::topic_dir_name(name))
                ==> #[trigger] opened(order, files, bases).topics[name] == store.topics[name],
    decreases order.len(),
{
    if order.len() > 0 {
        let earlier = order.drop_last();
        let last = order.last();
        assert forall|i: int| 0 <= i < earlier.len() implies files.contains_key(
            #[trigger] earlier[i],
        ) by {
            assert(earlier[i] == order[i]);
        }
        lemma_opened(store, earlier, files, bases);
        assert(order[order.len() - 1] == last);
        let topic = files[last].config.name@;
        assert(store.topics.contains_key(topic));
        lemma_topic_recovers(topic, store.topics[topic], files[last], bases[last]);
        let before = opened(earlier, files, bases).topics;
        let now = opened(order, files, bases).topics;
        assert(now == before.insert(topic, store.topics[topic]));
        assert forall|name: Seq<char>| #[trigger] now.contains_key(name) <==> {
            &&& store.topics.contains_key(name)
            &&& order.contains(layout::topic_dir_name(name))
        } by {
            let dir = layout::topic_dir_name(name);
            assert(before.contains_key(name) <==> store.topics.contains_key(name)
                && earlier.contains(dir));
            if earlier.contains(dir) {
                let i = earlier.index_of(dir);
                assert(order[i] == dir);
            }
            if order.contains(dir) && store.topics.contains_key(name) {
                let i = order.index_of(dir);
                if i < earlier.len() {
                    assert(earlier[i] == dir);
                } else {
                    layout::law_topic_dirs_are_kept_apart(name, topic);
                }
            }
        }
        assert forall|name: Seq<char>|
            store.topics.contains_key(name) && order.contains(
                layout::topic_dir_name(name),
            ) implies #[trigger] now[name] == store.topics[name] by {
            if name != topic {
                assert(now.contains_key(name));
                assert(before.contains_key(name));
                assert(before[name] == store.topics[name]);
            }
        }
    }
}

/// A store survives a restart. After any operations that succeeded, each topic
/// stands in a directory of its own right under the root; and opening those
/// directories anew gives the same topics with the same partitions, whatever
/// order they and their entries are listed in: every read gives what it gave
/// before, the next append goes on where the last one ended, and no partition
/// holds more records than its topic retains.
pub proof fn law_reopening_restores_the_store(
    operations: Seq<StoreOperation>,
    order: Seq<Seq<char>>,
    bases: Map<Seq<char>, Seq<Seq<u64>>>,
)
    requires
        all_succeed(operations),
        order.to_set() == all_applied(operations).1.dom(),
        forall|dir: Seq<char>| #[trigger]
            all_applied(operations).1.contains_key(dir) ==> found(
                all_applied(operations).1[dir],
                bases[dir],
            ),
    ensures
        ({
            let (store, files) = all_applied(operations);
            let again = opened(order, files, bases);
            &&& forall|dir: Seq<char>| #[trigger]
                files.contains_key(dir) ==> {
                    &&& layout::entry_name(dir)
                    &&& dir == layout::topic_dir_name(files[dir].config.name@)
                }
            &&& again.topics == store.topics
            &&& forall|topic: Seq<char>, i: int|
                again.topics.contains_key(topic) && 0 <= i < again.topics[topic].partitions.len()
                    ==> within(
                    #[trigger] again.topics[topic].partitions[i],
                    again.topics[topic].config.retention,
                )
            &&& forall|topic: Seq<char>, partition: u32| #[trigger]
                again.lookup(topic, partition) == store.lookup(topic, partition)
            &&& again.produced_total == 0
            &&& again.fetched_total == 0
        }),
{
    let (store, files) = all_applied(operations);
    let again = opened(order, files, bases);
    lemma_all_agree(operations);
    assert forall|i: int| 0 <= i < order.len() implies files.contains_key(#[trigger] order[i]) by {
        assert(order.contains(order[i]));
        assert(order.to_set().contains(order[i]));
    }
    lemma_opened(store, order, files, bases);
    assert forall|name: Seq<char>| #[trigger]
        store.topics.contains_key(name) implies again.topics.contains_key(name) by {
        let dir = layout::topic_dir_name(name);
        assert(files.dom().contains(dir));
        assert(order.to_set().contains(dir) == order.contains(dir));
    }
    assert(again.topics =~= store.topics);
    assert forall|dir: Seq<char>| #[trigger] files.contains_key(dir) implies layout::entry_name(
        dir,
    ) by {
        let name = files[dir].config.name@;
        assert(store.topics.contains_key(name));
        layout::law_topic_dirs_are_kept_apart(name, name);
    }
    lemma_opened_counts(order, files, bases);
}

proof fn lemma_opened_counts(
    order: Seq<Seq<char>>,
    files: Map<Seq<char>, TopicFiles>,
    bases: Map<Seq<char>, Seq<Seq<u64>>>,
)
    ensures
        opened(order, files, bases).produced_total == 0,
        opened(order, files, bases).fetched_total == 0,
    decreases order.len(),
{
    if order.len() > 0 {
        lemma_opened_counts(order.drop_last(), files, bases);
    }
}

} // verus!
