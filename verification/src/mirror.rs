//! Why the in-memory store mirrors the durable one.
//!
//! Everything here is proof: a partition in memory and a partition in files that
//! took in the same batches have the same segments and offsets, report the same
//! outcomes, and give the same answers to reads.

use crate::disk;
use crate::filepart;
use crate::filepart::{AppendPhase, AppendRunView, AppendStep, FileActionView, FilePartitionView};
use crate::memstore;
use crate::memstore::PartitionView;
use crate::ports::AppendOutcomeView;
use crate::record::{ProduceRecordView, RecordView};
use crate::recovery;
use crate::segment;
use crate::timestamp::Instant;
use crate::topic::RetentionPolicy;
use vstd::prelude::*;

verus! {

/// Whether a partition's segments have the given bases, and the last one holds
/// what was appended since.
pub open spec fn tracks(p: FilePartitionView, bases: Seq<int>) -> bool {
    &&& p.segments.len() == bases.len()
    &&& forall|k: int| 0 <= k < bases.len() ==> (#[trigger] p.segments[k]).base == bases[k]
    &&& bases.len() > 0 ==> p.segments.last().index.len() == p.next - bases.last()
}

/// Whether a partition in files has the offsets and segments of one in memory.
pub open spec fn mirrors(m: PartitionView, p: FilePartitionView) -> bool {
    &&& p.start == m.start
    &&& p.next == m.next()
    &&& tracks(p, m.bases)
}

/// A segment opened behind the others has its base behind theirs.
proof fn lemma_rolled_tracks(p: FilePartitionView, bases: Seq<int>)
    requires
        tracks(p, bases),
    ensures
        tracks(p.rolled(), bases.push(p.next as int)),
{
    let q = p.rolled();
    let more = bases.push(p.next as int);
    assert forall|k: int| 0 <= k < more.len() implies (#[trigger] q.segments[k]).base
        == more[k] by {
        if k < bases.len() {
            assert(q.segments[k] == p.segments[k]);
        }
    }
}

/// What is common to all steps of an append to both partitions.
pub struct Mirrored {
    pub memory: PartitionView,
    pub batch: Seq<ProduceRecordView>,
    pub timestamp: Instant,
    pub policy: RetentionPolicy,
}

impl Mirrored {
    /// The records of the batch once they are stored.
    pub open spec fn records(self) -> Seq<RecordView> {
        memstore::stored_batch(self.batch, self.memory.next(), self.timestamp)
    }

    /// The bases after the first `n` records.
    pub open spec fn bases(self, n: int) -> Seq<int> {
        memstore::rolled(
            self.memory.bases,
            self.memory.next(),
            self.policy.capacity(),
            n as nat,
        )
    }

    /// The bases after the whole batch, before anything is pruned.
    pub open spec fn all(self) -> Seq<int> {
        self.memory.extended(self.batch.len(), self.policy)
    }

    /// How many segments are pruned in the end.
    pub open spec fn gone(self) -> int {
        memstore::pruned(
            self.all(),
            self.memory.next() + self.batch.len(),
            self.policy,
        ) as int
    }

    /// The partition in memory after the append.
    pub open spec fn after(self) -> PartitionView {
        self.memory.appended(self.batch, self.timestamp, self.policy)
    }

    /// What the append to memory reports.
    pub open spec fn outcome(self) -> AppendOutcomeView {
        self.memory.outcome(self.batch, self.timestamp, self.policy)
    }

    /// Whether the two partitions can be compared at all.
    pub open spec fn wf(self) -> bool {
        &&& self.memory.dense()
        &&& self.memory.divided()
        &&& self.memory.next() + self.batch.len() <= u64::MAX
    }

    /// Where the head of the partition in files stands once `gone` segments are
    /// pruned.
    pub open spec fn head(self, gone: int) -> int {
        if gone > 0 {
            self.all()[gone]
        } else {
            self.memory.start
        }
    }

    /// Whether nothing is pending in files, and nothing pruned yet.
    pub open spec fn settled(self, part: FilePartitionView, run: AppendRunView) -> bool {
        &&& run.policy == self.policy
        &&& run.records == self.records()
        &&& 0 <= run.done <= self.batch.len()
        &&& part.next == self.memory.next() + run.done
        &&& part.start == self.memory.start
        &&& !run.pruned
        &&& tracks(part, self.bases(run.done))
    }

    /// Whether the whole batch is in files, and `gone` segments are pruned.
    pub open spec fn pruning(self, part: FilePartitionView, run: AppendRunView, gone: int) -> bool {
        &&& run.policy == self.policy
        &&& run.records == self.records()
        &&& run.done == self.batch.len()
        &&& part.next == self.memory.next() + run.done
        &&& 0 <= gone <= self.gone()
        &&& gone > 0 ==> gone < self.all().len()
        &&& part.start == self.head(gone)
        &&& run.pruned == (gone > 0)
        &&& tracks(part, self.all().skip(gone))
    }

    /// Whether a step of the append to files keeps up with the append to memory.
    pub open spec fn keeps_up(self, step: AppendStep) -> bool {
        let part = step.part;
        let run = step.run;
        match step.action {
            FileActionView::Create(_) => {
                &&& self.settled(part, run)
                &&& match run.phase {
                    AppendPhase::Creating => run.done < self.batch.len() && part.needs_roll(
                        self.policy.capacity(),
                    ),
                    AppendPhase::Opening => run.done == self.batch.len() && part.crowded(
                        self.policy.max_records,
                    ),
                    _ => false,
                }
            },
            FileActionView::Write(_, _) => {
                &&& run.policy == self.policy
                &&& run.records == self.records()
                &&& 0 <= run.done < self.batch.len()
                &&& part.next == self.memory.next() + run.done
                &&& part.start == self.memory.start
                &&& !run.pruned
                &&& run.phase is Writing
                &&& tracks(part, self.bases(run.done + 1))
            },
            FileActionView::Remove(_) => {
                let gone = self.all().len() - part.segments.len();
                &&& run.policy == self.policy
                &&& run.records == self.records()
                &&& run.done == self.batch.len()
                &&& part.next == self.memory.next() + run.done
                &&& 1 <= gone <= self.gone()
                &&& gone < self.all().len()
                &&& part.start == self.head(gone - 1)
                &&& run.pruned == (gone > 1)
                &&& run.phase is Removing
                &&& tracks(part, self.all().skip(gone))
            },
            FileActionView::Done(Ok(outcome)) => {
                &&& mirrors(self.after(), part)
                &&& outcome == self.outcome()
            },
            FileActionView::Done(Err(_)) => false,
        }
    }

    /// What is left to prune once some segments are.
    proof fn lemma_pruned_from(self, gone: int)
        requires
            0 <= gone <= self.gone(),
            self.wf(),
        ensures
            self.gone() == gone + memstore::pruned(
                self.all().skip(gone),
                self.memory.next() + self.batch.len(),
                self.policy,
            ),
        decreases gone,
    {
        let next = self.memory.next() + self.batch.len();
        if gone == 0 {
            assert(self.all().skip(0) =~= self.all());
        } else {
            self.lemma_pruned_from(gone - 1);
            memstore::lemma_opened(self.memory, self.policy, self.batch.len());
            memstore::lemma_pruned(self.all(), next, self.policy);
            let rest = self.all().skip(gone - 1);
            assert(rest.skip(1) =~= self.all().skip(gone));
            assert(memstore::pruned(rest, next, self.policy) > 0);
        }
    }

    proof fn lemma_pruning(self, part: FilePartitionView, run: AppendRunView, gone: int)
        requires
            self.wf(),
            self.pruning(part, run, gone),
        ensures
            self.keeps_up(filepart::go_on(part, run)),
    {
        let now = self.all();
        let next = self.memory.next() + self.batch.len();
        let rest = now.skip(gone);
        assert(run.records.len() == self.batch.len());
        self.lemma_pruned_from(gone);
        memstore::lemma_opened(self.memory, self.policy, self.batch.len());
        memstore::lemma_pruned(now, next, self.policy);
        if rest.len() > 0 {
            assert(rest.last() == now.last());
            assert(rest[0] == now[gone]);
            assert(part.segments[0].base == rest[0]);
            assert(gone == 0 ==> now[0] == self.memory.start);
            assert(part.start == rest[0]);
        }
        assert(!part.crowded(self.policy.max_records));
        assert(part.total() == part.next - part.start);
        assert(part.over(self.policy.max_records) <==> memstore::pruned(rest, next, self.policy)
            > 0);
        if part.over(self.policy.max_records) {
            let q = part.headless();
            let left = now.skip(gone + 1);
            assert(gone + 1 < now.len());
            assert(left =~= rest.skip(1));
            assert forall|k: int| 0 <= k < left.len() implies (#[trigger] q.segments[k]).base
                == left[k] by {
                assert(q.segments[k] == part.segments[k + 1]);
                assert(left[k] == rest[k + 1]);
            }
            assert(left.last() == rest.last());
            assert(q.segments.last() == part.segments.last());
        } else {
            assert(gone == self.gone());
            memstore::law_offsets_stay_dense(
                self.memory,
                self.batch,
                self.timestamp,
                self.policy,
            );
            if gone > 0 {
                assert(now[0] < now[gone]);
            }
        }
    }

    proof fn lemma_settled(self, part: FilePartitionView, run: AppendRunView)
        requires
            self.wf(),
            self.settled(part, run),
        ensures
            self.keeps_up(filepart::go_on(part, run)),
    {
        let done = run.done;
        let now = self.bases(done);
        assert(run.records.len() == self.batch.len());
        memstore::lemma_rolled(self.memory, self.policy.capacity(), done as nat);
        if done < self.batch.len() {
            let more = self.bases(done + 1);
            assert(part.needs_roll(self.policy.capacity()) <==> now.len() == 0 || part.next
                - now.last() >= self.policy.capacity());
            if !part.needs_roll(self.policy.capacity()) {
                assert(more == now);
            }
        } else if !part.crowded(self.policy.max_records) {
            assert(self.all() == now);
            assert(now.skip(0) =~= now);
            self.lemma_pruning(part, run, 0);
        }
    }

    /// A step of an append to files that keeps up with memory goes on so.
    proof fn lemma_goes_on(self, step: AppendStep)
        requires
            self.wf(),
            self.keeps_up(step),
            !(step.action is Done),
        ensures
            self.keeps_up(filepart::after_success(step.part, step.run)),
    {
        let part = step.part;
        let run = step.run;
        match step.run.phase {
            AppendPhase::Creating => {
                let more = self.bases(run.done + 1);
                assert(more == self.bases(run.done).push(part.next as int));
                lemma_rolled_tracks(part, self.bases(run.done));
            },
            AppendPhase::Writing(len) => {
                let more = self.bases(run.done + 1);
                let q = part.written(len as int);
                let next = AppendRunView { done: run.done + 1, ..run };
                memstore::lemma_rolled(
                    self.memory,
                    self.policy.capacity(),
                    (run.done + 1) as nat,
                );
                assert forall|k: int| 0 <= k < more.len() implies (#[trigger] q.segments[k]).base
                    == more[k] by {
                    assert(part.segments[k].base == more[k]);
                }
                self.lemma_settled(q, next);
            },
            AppendPhase::Opening => {
                let now = self.bases(run.done);
                assert(self.all() == now.push(part.next as int));
                assert(self.all().skip(0) =~= self.all());
                lemma_rolled_tracks(part, now);
                self.lemma_pruning(part.rolled(), run, 0);
            },
            AppendPhase::Removing => {
                let gone = self.all().len() - part.segments.len();
                let q = part.headed();
                let next = AppendRunView { pruned: true, ..run };
                assert(self.all().skip(gone)[0] == self.all()[gone]);
                assert(part.segments[0].base == self.all()[gone]);
                assert(q.segments == part.segments);
                self.lemma_pruning(q, next, gone);
            },
            AppendPhase::Finished => {},
        }
    }

    proof fn lemma_carried(self, step: AppendStep, files: Map<u64, Seq<u8>>, n: nat)
        requires
            self.wf(),
            self.keeps_up(step),
        ensures
            self.keeps_up(recovery::carried(step, files, n).0),
        decreases n,
    {
        if !(n == 0 || step.action is Done) {
            self.lemma_goes_on(step);
            self.lemma_carried(
                filepart::after_success(step.part, step.run),
                disk::performed(files, step.action),
                (n - 1) as nat,
            );
        }
    }
}

/// The same batch, appended to a partition in memory and to one in files that
/// mirrors it, is reported the same way and leaves one mirroring the other:
/// offsets, segments, and what retention prunes.
pub proof fn law_memory_mirrors_files(
    both: Mirrored,
    p: FilePartitionView,
    files: Map<u64, Seq<u8>>,
    n: nat,
)
    requires
        both.wf(),
        mirrors(both.memory, p),
        ({
            let run = AppendRunView::fresh(both.batch, p.next, both.timestamp, both.policy);
            recovery::carried(filepart::go_on(p, run), files, n).0.action is Done
        }),
    ensures
        ({
            let run = AppendRunView::fresh(both.batch, p.next, both.timestamp, both.policy);
            let end = recovery::carried(filepart::go_on(p, run), files, n).0;
            &&& mirrors(both.after(), end.part)
            &&& end.action == FileActionView::Done(Ok(both.outcome()))
        }),
{
    let run = AppendRunView::fresh(both.batch, p.next, both.timestamp, both.policy);
    both.lemma_settled(p, run);
    both.lemma_carried(filepart::go_on(p, run), files, n);
}

/// A read from memory and one from files that hold the same records give the
/// same answer; in files the timestamps are those of the millisecond.
pub proof fn law_reads_mirror(
    m: PartitionView,
    p: FilePartitionView,
    split: Seq<Seq<RecordView>>,
    files: Map<u64, Seq<u8>>,
    run: filepart::FetchRunView,
    from: u64,
    max: nat,
)
    requires
        m.dense(),
        mirrors(m, p),
        disk::on_disk(p, split, files),
        disk::flat(split) == m.records,
        disk::reading(p, split, run, max),
        run.from == p.effective(from),
        filepart::seek(p, run).1 is Done,
    ensures
        filepart::seek(p, run).1 matches filepart::FetchActionView::Done(Ok(fetched)) && {
            &&& fetched.records == segment::restored_all(m.served(from, max).records)
            &&& fetched.next_offset == m.served(from, max).next_offset
            &&& fetched.high_watermark == m.served(from, max).high_watermark
        },
{
    disk::law_fetch_ends(p, split, files, run, max);
    let kept = disk::up_to(
        disk::from_offset(m.records, p.start as int, run.from as int),
        max,
    );
    assert(kept =~= m.served(from, max).records);
}

} // verus!
