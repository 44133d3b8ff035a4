//! A partition of the durable log: an ordered list of segments.
//!
//! Appends land on the active (last) segment, which is rolled once it reaches
//! the configured record count; retention prunes whole segments from the head
//! until its bound is satisfied. A segment that alone exceeds the bound is pruned
//! too, once an empty one behind it keeps the place of the next record.
//! An append or a fetch is a run of file operations, each asked for one at a
//! time: the caller performs it and reports how it went.

use crate::error::PortError;
use crate::frame;
use crate::memstore;
use crate::ports::{AppendOutcome, AppendOutcomeView};
use crate::record;
use crate::record::{ProduceRecord, ProduceRecordView, Record, RecordView};
use crate::segment;
use crate::segment::{read_records, Segment, SegmentView};
use crate::stats::{FetchResult, FetchResultView};
use crate::timestamp::{Instant, Timestamp};
use crate::topic::RetentionPolicy;
use crate::units::Offset;
use std::sync::Arc;
use vstd::prelude::*;

verus! {

/// What is known of a partition: its segments in order, the earliest retained
/// offset, and one past the last offset.
#[verifier::ext_equal]
pub struct FilePartitionView {
    pub segments: Seq<SegmentView>,
    pub start: u64,
    pub next: u64,
}

impl FilePartitionView {
    /// A partition without segments.
    pub open spec fn empty() -> FilePartitionView {
        FilePartitionView { segments: Seq::empty(), start: 0, next: 0 }
    }

    /// The partition that a list of segments makes.
    pub open spec fn of_segments(segments: Seq<SegmentView>) -> FilePartitionView {
        if segments.len() == 0 {
            FilePartitionView::empty()
        } else {
            FilePartitionView {
                segments,
                start: segments[0].base,
                next: segments.last().next() as u64,
            }
        }
    }

    /// How many records are retained.
    pub open spec fn total(self) -> int {
        if self.next >= self.start {
            self.next - self.start
        } else {
            0
        }
    }

    /// Whether the next record is to open a new segment.
    pub open spec fn needs_roll(self, capacity: u64) -> bool {
        self.segments.len() == 0 || self.segments.last().index.len() >= capacity
    }

    /// The partition after a segment has been opened for the next record.
    pub open spec fn rolled(self) -> FilePartitionView {
        FilePartitionView {
            segments: self.segments.push(SegmentView::empty(self.next)),
            ..self
        }
    }

    /// The partition after a frame of `len` bytes has been written to the active
    /// segment.
    pub open spec fn written(self, len: int) -> FilePartitionView {
        FilePartitionView {
            segments: self.segments.drop_last().push(self.segments.last().appended(len)),
            next: (self.next + 1) as u64,
            ..self
        }
    }

    /// Whether the active segment alone holds more than the bound, so that it is
    /// to be pruned as well.
    pub open spec fn crowded(self, max_records: u64) -> bool {
        max_records != 0 && self.segments.len() > 0 && self.segments.last().index.len()
            > max_records
    }

    /// Whether retention is to remove the head segment: there is more than the
    /// bound, and a segment behind it that keeps the place of the next record.
    pub open spec fn over(self, max_records: u64) -> bool {
        max_records != 0 && self.total() > max_records && self.segments.len() > 1
    }

    /// The partition without its head segment, while its file is still being
    /// removed.
    pub open spec fn headless(self) -> FilePartitionView {
        FilePartitionView { segments: self.segments.skip(1), ..self }
    }

    /// The partition after the file of a removed head segment is gone.
    pub open spec fn headed(self) -> FilePartitionView {
        FilePartitionView {
            start: if self.segments.len() > 0 {
                self.segments[0].base
            } else {
                self.next
            },
            ..self
        }
    }

    /// Where a read from `from` starts: never before the first retained record.
    pub open spec fn effective(self, from: u64) -> u64 {
        if from >= self.start {
            from
        } else {
            self.start
        }
    }
}

/// What an append run waits for.
#[derive(Debug, Clone, Copy, PartialEq, Eq, Structural)]
pub enum AppendPhase {
    /// A new segment's file to be created.
    Creating,
    /// A frame of so many bytes to be written.
    Writing(u64),
    /// The file of an empty segment to be created, behind one that is to be
    /// pruned.
    Opening,
    /// A pruned segment's file to be removed.
    Removing,
    /// Nothing more.
    Finished,
}

/// A batch on its way to storage.
#[derive(Debug)]
pub struct AppendRun {
    records: Vec<Record>,
    done: usize,
    policy: RetentionPolicy,
    phase: AppendPhase,
    pruned: bool,
}

/// What is known of an append run: the batch, how much of it is stored, the
/// policy, what the run waits for, and whether anything was pruned.
#[verifier::ext_equal]
pub struct AppendRunView {
    pub records: Seq<RecordView>,
    pub done: int,
    pub policy: RetentionPolicy,
    pub phase: AppendPhase,
    pub pruned: bool,
}

impl View for AppendRun {
    type V = AppendRunView;

    closed spec fn view(&self) -> AppendRunView {
        AppendRunView {
            records: record::views(self.records@),
            done: self.done as int,
            policy: self.policy,
            phase: self.phase,
            pruned: self.pruned,
        }
    }
}

impl AppendRun {
    /// A run with nothing left to do.
    pub(crate) fn finished(policy: RetentionPolicy) -> (r: AppendRun)
        ensures
            r@.phase is Finished,
    {
        AppendRun {
            records: Vec::new(),
            done: 0,
            policy,
            phase: AppendPhase::Finished,
            pruned: false,
        }
    }
}

/// A file operation to perform, or the end of an append.
#[derive(Debug)]
pub enum FileAction {
    /// Create the file of the segment with this base.
    Create(u64),
    /// Write the bytes to the end of the file of the segment with this base.
    Write(u64, Vec<u8>),
    /// Remove the file of the segment with this base.
    Remove(u64),
    /// The append is over.
    Done(Result<AppendOutcome, PortError>),
}

/// What a file action holds.
#[verifier::ext_equal]
pub enum FileActionView {
    Create(u64),
    Write(u64, Seq<u8>),
    Remove(u64),
    Done(Result<AppendOutcomeView, PortError>),
}

impl View for FileAction {
    type V = FileActionView;

    open spec fn view(&self) -> FileActionView {
        match *self {
            FileAction::Create(base) => FileActionView::Create(base),
            FileAction::Write(base, bytes) => FileActionView::Write(base, bytes@),
            FileAction::Remove(base) => FileActionView::Remove(base),
            FileAction::Done(Ok(outcome)) => FileActionView::Done(Ok(outcome@)),
            FileAction::Done(Err(e)) => FileActionView::Done(Err(e)),
        }
    }
}

/// A partition, a run on it, and what is to be done next.
pub struct AppendStep {
    pub part: FilePartitionView,
    pub run: AppendRunView,
    pub action: FileActionView,
}

/// The next record goes to the active segment.
pub open spec fn write_next(part: FilePartitionView, run: AppendRunView) -> AppendStep {
    let bytes = frame::frame(run.records[run.done]);
    AppendStep {
        part,
        run: AppendRunView { phase: AppendPhase::Writing(bytes.len() as u64), ..run },
        action: FileActionView::Write(part.segments.last().base, bytes),
    }
}

/// What comes next once nothing is pending: the next record, in a new segment
/// where one is needed; with all of them stored, an empty segment behind one that
/// alone is too much, and the pruning of the head while there is too much; and
/// then the end.
pub open spec fn go_on(part: FilePartitionView, run: AppendRunView) -> AppendStep {
    if run.done < run.records.len() {
        if part.needs_roll(run.policy.capacity()) {
            AppendStep {
                part,
                run: AppendRunView { phase: AppendPhase::Creating, ..run },
                action: FileActionView::Create(part.next),
            }
        } else {
            write_next(part, run)
        }
    } else if part.crowded(run.policy.max_records) {
        AppendStep {
            part,
            run: AppendRunView { phase: AppendPhase::Opening, ..run },
            action: FileActionView::Create(part.next),
        }
    } else if part.over(run.policy.max_records) {
        AppendStep {
            part: part.headless(),
            run: AppendRunView { phase: AppendPhase::Removing, ..run },
            action: FileActionView::Remove(part.segments[0].base),
        }
    } else {
        AppendStep {
            part,
            run: AppendRunView { phase: AppendPhase::Finished, records: Seq::empty(), ..run },
            action: FileActionView::Done(
                Ok(
                    AppendOutcomeView {
                        records: run.records,
                        truncated_to: if run.pruned {
                            Some(Offset(part.start))
                        } else {
                            None
                        },
                    },
                ),
            ),
        }
    }
}

/// What comes next after the pending operation succeeded.
pub open spec fn after_success(part: FilePartitionView, run: AppendRunView) -> AppendStep {
    match run.phase {
        AppendPhase::Creating => write_next(part.rolled(), run),
        AppendPhase::Writing(len) => go_on(
            part.written(len as int),
            AppendRunView { done: run.done + 1, ..run },
        ),
        AppendPhase::Opening => go_on(part.rolled(), run),
        AppendPhase::Removing => go_on(part.headed(), AppendRunView { pruned: true, ..run }),
        AppendPhase::Finished => go_on(part, run),
    }
}

/// What comes next after the pending operation failed: the append is over, and
/// what had been done stays done.
pub open spec fn after_failure(
    part: FilePartitionView,
    run: AppendRunView,
    e: PortError,
) -> AppendStep {
    AppendStep {
        part,
        run: AppendRunView { phase: AppendPhase::Finished, records: Seq::empty(), ..run },
        action: FileActionView::Done(Err(e)),
    }
}

impl AppendRunView {
    /// The run of a fresh batch, with offsets from `next` on.
    pub open spec fn fresh(
        batch: Seq<ProduceRecordView>,
        next: u64,
        timestamp: Instant,
        policy: RetentionPolicy,
    ) -> AppendRunView {
        AppendRunView {
            records: memstore::stored_batch(batch, next as int, timestamp),
            done: 0,
            policy,
            phase: AppendPhase::Finished,
            pruned: false,
        }
    }

    /// Whether the run can be waiting on the partition: a record is left to
    /// create a segment or write for, there is a segment to write to, and the
    /// offsets do not run out.
    pub open spec fn waits_on(self, part: FilePartitionView) -> bool {
        &&& self.phase !is Finished
        &&& 0 <= self.done <= self.records.len()
        &&& part.next + (self.records.len() - self.done) <= u64::MAX
        &&& self.phase is Creating ==> self.done < self.records.len()
        &&& self.phase is Writing ==> self.done < self.records.len() && part.segments.len() > 0
    }

    /// Whether the file to write to can take the pending frame.
    pub open spec fn fits(self, part: FilePartitionView) -> bool {
        self.phase matches AppendPhase::Writing(len) ==> part.segments.len() > 0
            && part.segments.last().end + len <= u64::MAX
    }
}

/// Mutable state for a single partition.
#[derive(Debug)]
pub struct PartitionState {
    segments: Vec<Segment>,
    start_offset: u64,
    next_offset: u64,
}

impl View for PartitionState {
    type V = FilePartitionView;

    closed spec fn view(&self) -> FilePartitionView {
        FilePartitionView {
            segments: self.segments@.map_values(|s: Segment| s@),
            start: self.start_offset,
            next: self.next_offset,
        }
    }
}

impl PartitionState {
    /// A partition without segments.
    pub fn new() -> (r: PartitionState)
        ensures
            r@ == FilePartitionView::empty(),
    {
        let r = PartitionState { segments: Vec::new(), start_offset: 0, next_offset: 0 };
        assert(r@.segments =~= Seq::<SegmentView>::empty());
        r
    }

    /// Rebuild a partition from its segments, in the order of their bases.
    pub fn recover(segments: Vec<Segment>) -> (r: PartitionState)
        requires
            segments@.len() > 0 ==> segments@.last()@.next() <= u64::MAX,
        ensures
            r@ == FilePartitionView::of_segments(segments@.map_values(|s: Segment| s@)),
    {
        let ghost views = segments@.map_values(|s: Segment| s@);
        let n: usize = segments.len();
        if n == 0 {
            assert(views =~= Seq::<SegmentView>::empty());
            return PartitionState::new();
        }
        let start_offset: u64 = segments[0].base();
        assert(views.last() == segments@.last()@);
        let next_offset: u64 = segments[n - 1].base() + segments[n - 1].len() as u64;
        PartitionState { segments, start_offset, next_offset }
    }

    /// How many records are retained.
    pub fn total_records(&self) -> (r: u64)
        ensures
            r == self@.total(),
    {
        self.next_offset.saturating_sub(self.start_offset)
    }

    /// How many segments there are.
    pub fn segment_count(&self) -> (r: usize)
        ensures
            r == self@.segments.len(),
    {
        self.segments.len()
    }

    /// One past the last offset.
    pub fn next_offset(&self) -> (r: u64)
        ensures
            r == self@.next,
    {
        self.next_offset
    }

    fn write_next(&self, run: &mut AppendRun) -> (r: FileAction)
        requires
            self@.segments.len() > 0,
            0 <= old(run)@.done < old(run)@.records.len(),
        ensures
            ({
                let step = write_next(self@, old(run)@);
                &&& step.part == self@
                &&& step.run == final(run)@
                &&& step.action == r@
            }),
    {
        let active = &self.segments[self.segments.len() - 1];
        assert(active@ == self@.segments.last());
        let bytes = active.append(&run.records[run.done]);
        run.phase = AppendPhase::Writing(bytes.len() as u64);
        FileAction::Write(active.base(), bytes)
    }

    fn go_on(&mut self, run: &mut AppendRun) -> (r: FileAction)
        requires
            0 <= old(run)@.done <= old(run)@.records.len(),
        ensures
            ({
                let step = go_on(old(self)@, old(run)@);
                &&& step.part == final(self)@
                &&& step.run == final(run)@
                &&& step.action == r@
            }),
    {
        let ghost was = *self;
        if run.done < run.records.len() {
            let n: usize = self.segments.len();
            let roll = if n == 0 {
                true
            } else {
                assert(self@.segments.last() == self.segments@[n - 1]@);
                self.segments[n - 1].len() as u64 >= run.policy.segment_capacity()
            };
            if roll {
                run.phase = AppendPhase::Creating;
                return FileAction::Create(self.next_offset);
            }
            return self.write_next(run);
        }
        let count: usize = self.segments.len();
        if run.policy.max_records != 0 && count > 0 {
            assert(self@.segments.last() == self.segments@[count - 1]@);
            if self.segments[count - 1].len() as u64 > run.policy.max_records {
                run.phase = AppendPhase::Opening;
                return FileAction::Create(self.next_offset);
            }
        }
        if run.policy.max_records != 0 && self.total_records() > run.policy.max_records
            && self.segments.len() > 1 {
            let head = self.segments.remove(0);
            assert(was@.segments[0] == head@);
            assert(self@.segments =~= was@.segments.skip(1));
            run.phase = AppendPhase::Removing;
            return FileAction::Remove(head.base());
        }
        let truncated_to = if run.pruned {
            Some(Offset(self.start_offset))
        } else {
            None
        };
        let mut records: Vec<Record> = Vec::new();
        assert(record::views(records@) =~= Seq::<RecordView>::empty());
        std::mem::swap(&mut records, &mut run.records);
        run.phase = AppendPhase::Finished;
        FileAction::Done(Ok(AppendOutcome { records: Arc::new(records), truncated_to }))
    }

    /// Start to append a batch, assigning sequential offsets and the supplied
    /// `timestamp`. Returns the run and the first thing to do.
    pub fn append(
        &mut self,
        records: Vec<ProduceRecord>,
        timestamp: Timestamp,
        policy: RetentionPolicy,
    ) -> (r: (AppendRun, FileAction))
        requires
            old(self)@.next + records@.len() <= u64::MAX,
        ensures
            ({
                let step = go_on(
                    old(self)@,
                    AppendRunView::fresh(
                        record::produce_views(records@),
                        old(self)@.next,
                        timestamp@,
                        policy,
                    ),
                );
                &&& step.part == final(self)@
                &&& step.run == r.0@
                &&& step.action == r.1@
            }),
            r.1@ is Done || r.0@.waits_on(final(self)@),
    {
        let ghost batch = record::produce_views(records@);
        let ghost sent = records@;
        let first: u64 = self.next_offset;
        let mut next: u64 = first;
        let mut materialized: Vec<Record> = Vec::new();
        for r in it: records
            invariant
                it.seq() == sent,
                batch == record::produce_views(sent),
                first + sent.len() <= u64::MAX,
                next == first + it.index(),
                materialized@.len() == it.index(),
                forall|k: int|
                    0 <= k < it.index() ==> (#[trigger] materialized@[k])@ == record::stored(
                        batch[k],
                        (first + k) as u64,
                        timestamp@,
                    ),
        {
            materialized.push(Record::from_produce(r, Offset(next), timestamp));
            next = next + 1;
        }
        let mut run = AppendRun {
            records: materialized,
            done: 0,
            policy,
            phase: AppendPhase::Finished,
            pruned: false,
        };
        assert(run@.records =~= memstore::stored_batch(batch, first as int, timestamp@));
        let action = self.go_on(&mut run);
        (run, action)
    }

    /// Whether the active segment's file can take the pending frame.
    pub fn fits(&self, run: &AppendRun) -> (r: bool)
        ensures
            r == run@.fits(self@),
    {
        match run.phase {
            AppendPhase::Writing(len) => {
                let n: usize = self.segments.len();
                if n == 0 {
                    return false;
                }
                assert(self@.segments.last() == self.segments@[n - 1]@);
                self.segments[n - 1].write_pos() <= u64::MAX - len
            },
            _ => true,
        }
    }

    /// Go on with an append after the pending operation has succeeded or
    /// failed. Returns the next thing to do.
    pub fn append_next(&mut self, run: &mut AppendRun, outcome: Result<(), PortError>) -> (r:
        FileAction)
        requires
            old(run)@.waits_on(old(self)@),
            old(run)@.fits(old(self)@),
        ensures
            ({
                let step = match outcome {
                    Ok(_) => after_success(old(self)@, old(run)@),
                    Err(e) => after_failure(old(self)@, old(run)@, e),
                };
                &&& step.part == final(self)@
                &&& step.run == final(run)@
                &&& step.action == r@
            }),
            r@ is Done || final(run)@.waits_on(final(self)@),
    {
        let ghost was = *self;
        match outcome {
            Err(e) => {
                run.records = Vec::new();
                assert(record::views(run.records@) =~= Seq::<RecordView>::empty());
                run.phase = AppendPhase::Finished;
                FileAction::Done(Err(e))
            },
            Ok(()) => match run.phase {
                AppendPhase::Creating => {
                    self.segments.push(Segment::create(self.next_offset));
                    assert(self@.segments =~= was@.rolled().segments);
                    self.write_next(run)
                },
                AppendPhase::Writing(len) => {
                    let n: usize = self.segments.len();
                    let ghost last = self.segments@[n - 1];
                    assert(self@.segments.last() == last@);
                    self.segments[n - 1].appended(len);
                    self.next_offset = self.next_offset + 1;
                    assert(self@.segments =~= was@.written(len as int).segments);
                    let total: usize = run.records.len();
                    assert(run.done < total);
                    run.done = run.done + 1;
                    self.go_on(run)
                },
                AppendPhase::Opening => {
                    self.segments.push(Segment::create(self.next_offset));
                    assert(self@.segments =~= was@.rolled().segments);
                    self.go_on(run)
                },
                AppendPhase::Removing => {
                    self.start_offset = if self.segments.len() == 0 {
                        self.next_offset
                    } else {
                        self.segments[0].base()
                    };
                    run.pruned = true;
                    self.go_on(run)
                },
                AppendPhase::Finished => self.go_on(run),
            },
        }
    }
}

/// A read on its way through the segments.
#[derive(Debug)]
pub struct FetchRun {
    from: u64,
    remaining: usize,
    at: usize,
    out: Vec<Record>,
}

/// What is known of a read: the offset to read from, how many more records are
/// wanted, the segment it has come to, and what was read so far.
#[verifier::ext_equal]
pub struct FetchRunView {
    pub from: u64,
    pub remaining: nat,
    pub at: int,
    pub out: Seq<RecordView>,
}

impl View for FetchRun {
    type V = FetchRunView;

    closed spec fn view(&self) -> FetchRunView {
        FetchRunView {
            from: self.from,
            remaining: self.remaining as nat,
            at: self.at as int,
            out: record::views(self.out@),
        }
    }
}

/// A file to read, or the end of a fetch.
#[derive(Debug)]
pub enum FetchAction {
    /// Read the file of the segment with this base, from this position to its
    /// end.
    Read(u64, u64),
    /// The fetch is over.
    Done(Result<FetchResult, PortError>),
}

/// What a fetch action holds.
#[verifier::ext_equal]
pub enum FetchActionView {
    Read(u64, u64),
    Done(Result<FetchResultView, PortError>),
}

impl View for FetchAction {
    type V = FetchActionView;

    open spec fn view(&self) -> FetchActionView {
        match *self {
            FetchAction::Read(base, p) => FetchActionView::Read(base, p),
            FetchAction::Done(Ok(result)) => FetchActionView::Done(Ok(result@)),
            FetchAction::Done(Err(e)) => FetchActionView::Done(Err(e)),
        }
    }
}

/// The first segment, from the `k`-th on, with something to read, and where in
/// its file that starts.
pub open spec fn next_read(segments: Seq<SegmentView>, k: int, from: u64, wanted: nat) -> Option<
    (int, u64),
>
    decreases segments.len() - k,
{
    if k >= segments.len() {
        None
    } else {
        match segments[k].read_start(from, wanted) {
            Some(p) => Some((k, p)),
            None => next_read(segments, k + 1, from, wanted),
        }
    }
}

/// What is to be read next lies in one of the segments not yet passed.
pub(crate) proof fn lemma_next_read_range(
    segments: Seq<SegmentView>,
    k: int,
    from: u64,
    wanted: nat,
)
    requires
        0 <= k,
    ensures
        next_read(segments, k, from, wanted) matches Some((j, p)) ==> k <= j < segments.len()
            && segments[j].read_start(from, wanted) == Some(p),
    decreases segments.len() - k,
{
    if k < segments.len() {
        lemma_next_read_range(segments, k + 1, from, wanted);
    }
}

/// What a read that is over returns. It continues behind the last record read,
/// or where it started if there was none.
pub open spec fn fetched(part: FilePartitionView, run: FetchRunView) -> FetchResultView {
    FetchResultView {
        records: run.out,
        next_offset: if run.out.len() == 0 {
            run.from
        } else {
            ((run.out.last().offset + 1) % 0x1_0000_0000_0000_0000) as u64
        },
        high_watermark: part.next,
    }
}

/// What comes next in a read: the next file with something to read, or the end.
pub open spec fn seek(part: FilePartitionView, run: FetchRunView) -> (
    FetchRunView,
    FetchActionView,
) {
    match next_read(part.segments, run.at, run.from, run.remaining) {
        Some((k, p)) => (
            FetchRunView { at: k, ..run },
            FetchActionView::Read(part.segments[k].base, p),
        ),
        None => (
            FetchRunView { at: part.segments.len() as int, out: Seq::empty(), ..run },
            FetchActionView::Done(Ok(fetched(part, run))),
        ),
    }
}

impl FetchRunView {
    /// A read of up to `max` records from `from` on.
    pub open spec fn fresh(part: FilePartitionView, from: u64, max: nat) -> FetchRunView {
        FetchRunView { from: part.effective(from), remaining: max, at: 0, out: Seq::empty() }
    }

    /// A read that wants no records and has read none.
    pub open spec fn finished() -> FetchRunView {
        FetchRunView { from: 0, remaining: 0, at: 0, out: Seq::empty() }
    }

    /// The read after the contents of a file have been taken in.
    pub open spec fn taken(self, data: Seq<u8>) -> FetchRunView {
        let got = segment::run_at(data, 0, self.remaining);
        FetchRunView {
            remaining: (self.remaining - got.len()) as nat,
            at: self.at + 1,
            out: self.out + got,
            ..self
        }
    }
}

impl FetchRun {
    /// A read with nothing left to do.
    pub(crate) fn finished() -> (r: FetchRun)
        ensures
            r@ == FetchRunView::finished(),
    {
        let r = FetchRun { from: 0, remaining: 0, at: 0, out: Vec::new() };
        assert(r@.out =~= Seq::<RecordView>::empty());
        r
    }
}

impl PartitionState {
    fn seek(&self, run: &mut FetchRun) -> (r: FetchAction)
        ensures
            (final(run)@, r@) == seek(self@, old(run)@),
    {
        let ghost start = run@;
        let ghost all = self@.segments;
        let mut k: usize = run.at;
        while k < self.segments.len()
            invariant
                *run == *old(run),
                all == self@.segments,
                next_read(all, k as int, run.from, run.remaining as nat) == next_read(
                    all,
                    run.at as int,
                    run.from,
                    run.remaining as nat,
                ),
            decreases self.segments.len() - k,
        {
            let segment = &self.segments[k];
            assert(all[k as int] == segment@);
            match segment.read_from(run.from, run.remaining) {
                Some(p) => {
                    run.at = k;
                    return FetchAction::Read(segment.base(), p);
                },
                None => {},
            }
            k = k + 1;
        }
        let n: usize = run.out.len();
        let next_offset = if n == 0 {
            Offset(run.from)
        } else {
            assert(start.out.last() == run.out@[n - 1]@);
            Offset(run.out[n - 1].offset.0.wrapping_add(1))
        };
        let mut records: Vec<Record> = Vec::new();
        assert(record::views(records@) =~= Seq::<RecordView>::empty());
        std::mem::swap(&mut records, &mut run.out);
        run.at = self.segments.len();
        FetchAction::Done(
            Ok(FetchResult { records, next_offset, high_watermark: Offset(self.next_offset) }),
        )
    }

    /// Start to read up to `max` records from `from` (inclusive) onward.
    /// Returns the run and the first thing to do.
    pub fn fetch(&self, from: Offset, max: usize) -> (r: (FetchRun, FetchAction))
        ensures
            (r.0@, r.1@) == seek(self@, FetchRunView::fresh(self@, from.0, max as nat)),
    {
        let start: u64 = if from.0 >= self.start_offset {
            from.0
        } else {
            self.start_offset
        };
        let mut run = FetchRun { from: start, remaining: max, at: 0, out: Vec::new() };
        assert(run@.out =~= Seq::<RecordView>::empty());
        let action = self.seek(&mut run);
        (run, action)
    }

    /// Go on with a read after a file has been read, or could not be. Returns
    /// the next thing to do.
    pub fn fetch_next(&self, run: &mut FetchRun, outcome: Result<Vec<u8>, PortError>) -> (r:
        FetchAction)
        requires
            old(run)@.at < self@.segments.len(),
        ensures
            match outcome {
                Ok(data) => (final(run)@, r@) == seek(self@, old(run)@.taken(data@)),
                Err(e) => final(run)@ == old(run)@ && r@ == FetchActionView::Done(Err(e)),
            },
    {
        match outcome {
            Err(e) => FetchAction::Done(Err(e)),
            Ok(data) => {
                let n: usize = self.segments.len();
                assert(run.at < n);
                let got = read_records(data.as_slice(), run.remaining, &mut run.out);
                run.remaining = run.remaining - got;
                run.at = run.at + 1;
                self.seek(run)
            },
        }
    }
}

/// Whether no segment of a partition holds more records than `most`.
pub open spec fn bounded(part: FilePartitionView, most: u64) -> bool {
    forall|k: int|
        0 <= k < part.segments.len() ==> (#[trigger] part.segments[k]).index.len() <= most
}

/// Whether an append rolls segments in time: no segment holds more than `most`
/// records, and a record is written only to a segment that can take it.
pub open spec fn rolls(step: AppendStep, most: u64) -> bool {
    &&& bounded(step.part, most)
    &&& step.run.phase is Writing ==> {
        &&& step.part.segments.len() > 0
        &&& step.part.segments.last().index.len() < step.run.policy.capacity()
    }
}

/// Segments are rolled in time: an append to a partition whose segments hold at
/// most as many records as its policy lets a segment take, or any larger number,
/// starts so, and goes on so with each operation that succeeds. Where that number
/// is the bound of the policy, the active segment never has to be pruned.
pub proof fn law_segments_are_rolled(
    part: FilePartitionView,
    run: AppendRunView,
    step: AppendStep,
    most: u64,
)
    requires
        run.policy.capacity() <= most,
        bounded(part, most),
        step.run.policy.capacity() <= most,
        rolls(step, most),
    ensures
        rolls(go_on(part, run), most),
        rolls(after_success(step.part, step.run), most),
        most == run.policy.max_records ==> !(go_on(part, run).run.phase is Opening),
        most == step.run.policy.max_records ==> !(after_success(
            step.part,
            step.run,
        ).run.phase is Opening),
{
    lemma_go_on_rolls(part, run, most);
    let p = step.part;
    match step.run.phase {
        AppendPhase::Creating => {
            lemma_rolled_is_bounded(p, most);
        },
        AppendPhase::Writing(len) => {
            let q = p.written(len as int);
            assert forall|k: int| 0 <= k < q.segments.len() implies (
            #[trigger] q.segments[k]).index.len() <= most by {
                if k < p.segments.len() - 1 {
                    assert(q.segments[k] == p.segments[k]);
                }
            }
            lemma_go_on_rolls(q, AppendRunView { done: step.run.done + 1, ..step.run }, most);
        },
        AppendPhase::Opening => {
            lemma_rolled_is_bounded(p, most);
            lemma_go_on_rolls(p.rolled(), step.run, most);
        },
        AppendPhase::Removing => {
            let q = p.headed();
            assert(q.segments == p.segments);
            lemma_go_on_rolls(q, AppendRunView { pruned: true, ..step.run }, most);
        },
        AppendPhase::Finished => {
            lemma_go_on_rolls(p, step.run, most);
        },
    }
}

proof fn lemma_rolled_is_bounded(part: FilePartitionView, most: u64)
    requires
        bounded(part, most),
    ensures
        bounded(part.rolled(), most),
{
    let q = part.rolled();
    assert forall|k: int| 0 <= k < q.segments.len() implies (
    #[trigger] q.segments[k]).index.len() <= most by {
        if k < part.segments.len() {
            assert(q.segments[k] == part.segments[k]);
        }
    }
}

proof fn lemma_go_on_rolls(part: FilePartitionView, run: AppendRunView, most: u64)
    requires
        run.policy.capacity() <= most,
        bounded(part, most),
    ensures
        rolls(go_on(part, run), most),
        most == run.policy.max_records ==> !(go_on(part, run).run.phase is Opening),
{
    if part.segments.len() > 0 {
        assert(part.segments.last() == part.segments[part.segments.len() - 1]);
    }
    if run.done >= run.records.len() && part.over(run.policy.max_records) {
        let q = part.headless();
        assert forall|k: int| 0 <= k < q.segments.len() implies (
        #[trigger] q.segments[k]).index.len() <= most by {
            assert(q.segments[k] == part.segments[k + 1]);
        }
    }
}

/// What is said of an action is said of all that it holds.
pub proof fn law_views_show_the_action(append: FileAction, fetch: FetchAction)
    ensures
        match append {
            FileAction::Create(base) => append@ == FileActionView::Create(base),
            FileAction::Write(base, bytes) => append@ == FileActionView::Write(base, bytes@),
            FileAction::Remove(base) => append@ == FileActionView::Remove(base),
            FileAction::Done(Ok(outcome)) => append@ == FileActionView::Done(Ok(outcome@)),
            FileAction::Done(Err(e)) => append@ == FileActionView::Done(Err(e)),
        },
        match fetch {
            FetchAction::Read(base, position) => fetch@ == FetchActionView::Read(base, position),
            FetchAction::Done(Ok(result)) => fetch@ == FetchActionView::Done(Ok(result@)),
            FetchAction::Done(Err(e)) => fetch@ == FetchActionView::Done(Err(e)),
        },
{
}

/// A file operation that fails, whichever it is, ends the append with that very
/// failure: nothing more is asked for, and what the partition knows stays as it
/// was.
pub proof fn law_failures_end_the_append(part: FilePartitionView, run: AppendRunView, e: PortError)
    ensures
        after_failure(part, run, e).action == FileActionView::Done(Err(e)),
        after_failure(part, run, e).part == part,
        after_failure(part, run, e).run.phase is Finished,
{
}

} // verus!
