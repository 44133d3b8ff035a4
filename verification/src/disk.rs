//! What the files of a partition hold, and why an append, a fetch and a
//! recovery agree with them.
//!
//! Everything here is proof: a partition's files are modelled as a map from
//! segment bases to contents, and the runs of `filepart` are held against it.

use crate::error::PortError;
use crate::filepart;
use crate::filepart::{
    AppendPhase, AppendRunView, AppendStep, FetchActionView, FetchRunView, FileActionView,
    FilePartitionView,
};
use crate::frame;
use crate::record::RecordView;
use crate::segment;
use crate::segment::SegmentView;
use crate::timestamp::Instant;
use vstd::prelude::*;

verus! {

/// The records of all segments, one after the other.
pub open spec fn flat(split: Seq<Seq<RecordView>>) -> Seq<RecordView>
    decreases split.len(),
{
    if split.len() == 0 {
        Seq::empty()
    } else {
        flat(split.drop_last()) + split.last()
    }
}

/// Whether records carry consecutive offsets from `start` on.
pub open spec fn dense(records: Seq<RecordView>, start: int) -> bool {
    forall|i: int| 0 <= i < records.len() ==> #[trigger] records[i].offset == start + i
}

/// Whether a partition's files hold exactly the records of `split`, segment by
/// segment: each segment indexes its file, every file belongs to a segment, the
/// bases and offsets are dense, and no segment but the last is empty.
#[verifier::opaque]
pub open spec fn on_disk(
    p: FilePartitionView,
    split: Seq<Seq<RecordView>>,
    files: Map<u64, Seq<u8>>,
) -> bool {
    &&& p.segments.len() == split.len()
    &&& forall|k: int|
        0 <= k < split.len() ==> {
            &&& (#[trigger] p.segments[k]).indexes(split[k])
            &&& p.segments[k].base == p.start + flat(split.take(k)).len()
            &&& files.contains_key(p.segments[k].base)
            &&& files[p.segments[k].base] == segment::frames(split[k])
        }
    &&& forall|b: u64|
        #[trigger] files.contains_key(b) ==> exists|k: int|
            0 <= k < split.len() && (#[trigger] p.segments[k]).base == b
    &&& forall|k: int| 0 <= k < split.len() - 1 ==> (#[trigger] split[k]).len() > 0
    &&& segment::all_storable(flat(split))
    &&& dense(flat(split), p.start as int)
    &&& p.next == p.start + flat(split).len()
    &&& split.len() == 0 ==> p.start == 0
}

/// The files after an operation has been performed.
pub open spec fn performed(files: Map<u64, Seq<u8>>, action: FileActionView) -> Map<u64, Seq<u8>> {
    match action {
        FileActionView::Create(base) => if files.contains_key(base) {
            files
        } else {
            files.insert(base, Seq::empty())
        },
        FileActionView::Write(base, bytes) => files.insert(base, files[base] + bytes),
        FileActionView::Remove(base) => files.remove(base),
        FileActionView::Done(_) => files,
    }
}

proof fn lemma_flat_push(split: Seq<Seq<RecordView>>, s: Seq<RecordView>)
    ensures
        flat(split.push(s)) == flat(split) + s,
{
    assert(split.push(s).drop_last() =~= split);
}

proof fn lemma_flat_concat(a: Seq<Seq<RecordView>>, b: Seq<Seq<RecordView>>)
    ensures
        flat(a + b) == flat(a) + flat(b),
    decreases b.len(),
{
    if b.len() == 0 {
        assert(a + b =~= a);
        assert(flat(a) + flat(b) =~= flat(a));
    } else {
        assert((a + b).drop_last() =~= a + b.drop_last());
        lemma_flat_concat(a, b.drop_last());
        assert(flat(a) + (flat(b.drop_last()) + b.last()) =~= flat(a) + flat(b.drop_last())
            + b.last());
    }
}

/// How the records of one segment lie among all the records.
proof fn lemma_flat_part(split: Seq<Seq<RecordView>>, k: int)
    requires
        0 <= k < split.len(),
    ensures
        flat(split.take(k + 1)) == flat(split.take(k)) + split[k],
        flat(split) == flat(split.take(k)) + split[k] + flat(split.skip(k + 1)),
{
    assert(split.take(k + 1) =~= split.take(k).push(split[k]));
    lemma_flat_push(split.take(k), split[k]);
    assert(split =~= split.take(k + 1) + split.skip(k + 1));
    lemma_flat_concat(split.take(k + 1), split.skip(k + 1));
}

/// Earlier segments end before later ones begin.
proof fn lemma_flat_grows(split: Seq<Seq<RecordView>>, j: int, k: int)
    requires
        0 <= j < k <= split.len(),
    ensures
        flat(split.take(j)).len() + split[j].len() <= flat(split.take(k)).len(),
    decreases k - j,
{
    lemma_flat_part(split, j);
    if j + 1 < k {
        lemma_flat_grows(split, j, k - 1);
        lemma_flat_part(split, k - 1);
    }
}

/// No two segments share a base.
proof fn lemma_bases_differ(
    p: FilePartitionView,
    split: Seq<Seq<RecordView>>,
    files: Map<u64, Seq<u8>>,
    j: int,
    k: int,
)
    requires
        on_disk(p, split, files),
        0 <= j < k < split.len(),
    ensures
        p.segments[j].base < p.segments[k].base,
{
    reveal(on_disk);
    lemma_flat_grows(split, j, k);
    assert(split[j].len() > 0);
    assert(p.segments[j].indexes(split[j]));
    assert(p.segments[k].indexes(split[k]));
}

/// What agreement of files and partition says in short.
proof fn lemma_on_disk(
    p: FilePartitionView,
    split: Seq<Seq<RecordView>>,
    files: Map<u64, Seq<u8>>,
)
    requires
        on_disk(p, split, files),
    ensures
        p.segments.len() == split.len(),
        p.next == p.start + flat(split).len(),
        split.len() > 0 ==> p.segments.last().index.len() == split.last().len(),
        split.len() > 1 ==> split[0].len() > 0,
        split.len() == 1 ==> flat(split).len() == split[0].len(),
        split.len() == 0 ==> flat(split).len() == 0,
{
    reveal(on_disk);
    if split.len() == 1 {
        assert(split.drop_last() =~= Seq::<Seq<RecordView>>::empty());
    }
    if split.len() > 0 {
        assert(p.segments[split.len() - 1].indexes(split[split.len() - 1]));
    }
}

/// Creating the next segment's file keeps files and partition in agreement.
proof fn lemma_create(
    p: FilePartitionView,
    split: Seq<Seq<RecordView>>,
    files: Map<u64, Seq<u8>>,
)
    requires
        on_disk(p, split, files),
        split.len() > 0 ==> split.last().len() > 0,
    ensures
        on_disk(
            p.rolled(),
            split.push(Seq::empty()),
            performed(files, FileActionView::Create(p.next)),
        ),
        flat(split.push(Seq::empty())) == flat(split),
{
    reveal(on_disk);
    let more = split.push(Seq::empty());
    let q = p.rolled();
    let after = performed(files, FileActionView::Create(p.next));
    lemma_flat_push(split, Seq::empty());
    assert(flat(more) =~= flat(split));
    assert(split.take(split.len() as int) =~= split);
    if files.contains_key(p.next) {
        let k = choose|k: int| 0 <= k < split.len() && (#[trigger] p.segments[k]).base == p.next;
        lemma_flat_grows(split, k, split.len() as int);
        assert(split[k].len() > 0);
    }
    assert forall|k: int| 0 <= k < more.len() implies {
        &&& (#[trigger] q.segments[k]).indexes(more[k])
        &&& q.segments[k].base == q.start + flat(more.take(k)).len()
        &&& after.contains_key(q.segments[k].base)
        &&& after[q.segments[k].base] == segment::frames(more[k])
    } by {
        if k < split.len() {
            assert(q.segments[k] == p.segments[k]);
            assert(more.take(k) =~= split.take(k));
        } else {
            assert(more.take(k) =~= split);
        }
    }
    assert forall|b: u64| #[trigger] after.contains_key(b) implies exists|k: int|
        0 <= k < more.len() && (#[trigger] q.segments[k]).base == b by {
        if b == p.next {
            assert(q.segments[split.len() as int].base == b);
        } else {
            let k = choose|k: int| 0 <= k < split.len() && (#[trigger] p.segments[k]).base == b;
            assert(q.segments[k].base == b);
        }
    }
}

/// Writing the next record's frame keeps files and partition in agreement.
proof fn lemma_write(
    p: FilePartitionView,
    split: Seq<Seq<RecordView>>,
    files: Map<u64, Seq<u8>>,
    r: RecordView,
)
    requires
        on_disk(p, split, files),
        split.len() > 0,
        frame::storable(r),
        r.offset == p.next,
        p.next < u64::MAX,
        p.segments.last().end + frame::frame(r).len() <= u64::MAX,
    ensures
        on_disk(
            p.written(frame::frame(r).len() as int),
            split.drop_last().push(split.last().push(r)),
            performed(files, FileActionView::Write(p.segments.last().base, frame::frame(r))),
        ),
        flat(split.drop_last().push(split.last().push(r))) == flat(split).push(r),
{
    reveal(on_disk);
    let last = split.len() - 1;
    let q = p.written(frame::frame(r).len() as int);
    let more = split.drop_last().push(split.last().push(r));
    let base = p.segments.last().base;
    let after = performed(files, FileActionView::Write(base, frame::frame(r)));
    lemma_flat_push(split.drop_last(), split.last().push(r));
    assert(flat(more) =~= flat(split).push(r));
    assert(p.segments[last].indexes(split[last]));
    segment::law_append_extends_the_index(p.segments[last], split[last], r);
    assert forall|k: int| 0 <= k < more.len() implies {
        &&& (#[trigger] q.segments[k]).indexes(more[k])
        &&& q.segments[k].base == q.start + flat(more.take(k)).len()
        &&& after.contains_key(q.segments[k].base)
        &&& after[q.segments[k].base] == segment::frames(more[k])
    } by {
        assert(more.take(k) =~= split.take(k));
        if k < last {
            assert(q.segments[k] == p.segments[k]);
            lemma_bases_differ(p, split, files, k, last);
        } else {
            assert(q.segments[k] == p.segments[last].appended(frame::frame(r).len() as int));
        }
    }
    assert forall|b: u64| #[trigger] after.contains_key(b) implies exists|k: int|
        0 <= k < more.len() && (#[trigger] q.segments[k]).base == b by {
        if b == base {
            assert(q.segments[last].base == b);
        } else {
            let k = choose|k: int| 0 <= k < split.len() && (#[trigger] p.segments[k]).base == b;
            assert(q.segments[k].base == b);
        }
    }
    assert forall|k: int| 0 <= k < more.len() - 1 implies (#[trigger] more[k]).len() > 0 by {
        assert(more[k] == split[k]);
    }
    assert forall|i: int| 0 <= i < flat(more).len() implies frame::storable(
        #[trigger] flat(more)[i],
    ) by {
        if i < flat(split).len() {
            assert(flat(more)[i] == flat(split)[i]);
        }
    }
    assert forall|i: int| 0 <= i < flat(more).len() implies #[trigger] flat(more)[i].offset
        == q.start + i by {
        if i < flat(split).len() {
            assert(flat(more)[i] == flat(split)[i]);
        }
    }
}

/// Removing the head segment's file keeps files and partition in agreement.
proof fn lemma_remove(
    p: FilePartitionView,
    split: Seq<Seq<RecordView>>,
    files: Map<u64, Seq<u8>>,
)
    requires
        on_disk(p, split, files),
        split.len() > 1,
    ensures
        on_disk(
            p.headless().headed(),
            split.skip(1),
            performed(files, FileActionView::Remove(p.segments[0].base)),
        ),
        files.contains_key(p.segments[0].base),
        p.headless().headed().start == p.start + split[0].len(),
        flat(split) == split[0] + flat(split.skip(1)),
{
    reveal(on_disk);
    let q = p.headless().headed();
    let less = split.skip(1);
    let base = p.segments[0].base;
    let after = performed(files, FileActionView::Remove(base));
    lemma_flat_part(split, 0);
    assert(split.take(0) =~= Seq::<Seq<RecordView>>::empty());
    assert(flat(split.take(0)) + split[0] + flat(less) =~= split[0] + flat(less));
    assert(p.segments[0].indexes(split[0]));
    lemma_flat_part(split, 0);
    assert(p.segments[1].indexes(split[1]));
    assert(q.segments[0] == p.segments[1]);
    assert(flat(split.take(1)) =~= split[0]);
    assert forall|k: int| 0 <= k < less.len() implies {
        &&& (#[trigger] q.segments[k]).indexes(less[k])
        &&& q.segments[k].base == q.start + flat(less.take(k)).len()
        &&& after.contains_key(q.segments[k].base)
        &&& after[q.segments[k].base] == segment::frames(less[k])
    } by {
        assert(q.segments[k] == p.segments[k + 1]);
        assert(split.take(k + 1) =~= split.take(1) + less.take(k));
        lemma_flat_concat(split.take(1), less.take(k));
        lemma_bases_differ(p, split, files, 0, k + 1);
    }
    assert forall|b: u64| #[trigger] after.contains_key(b) implies exists|k: int|
        0 <= k < less.len() && (#[trigger] q.segments[k]).base == b by {
        let k = choose|k: int| 0 <= k < split.len() && (#[trigger] p.segments[k]).base == b;
        assert(q.segments[k - 1].base == b);
    }
    assert forall|k: int| 0 <= k < less.len() - 1 implies (#[trigger] less[k]).len() > 0 by {
        assert(less[k] == split[k + 1]);
    }
    assert forall|i: int| 0 <= i < flat(less).len() implies frame::storable(
        #[trigger] flat(less)[i],
    ) && flat(less)[i].offset == q.start + i by {
        assert(flat(less)[i] == flat(split)[split[0].len() + i]);
    }
}

/// Whether a partition's files hold exactly the records `kept`.
pub open spec fn holds(
    p: FilePartitionView,
    kept: Seq<RecordView>,
    files: Map<u64, Seq<u8>>,
) -> bool {
    exists|split: Seq<Seq<RecordView>>| #[trigger] on_disk(p, split, files) && flat(split) == kept
}

/// The records that a partition's files hold are those between its head and its
/// end.
pub(crate) proof fn lemma_holds_counts(
    p: FilePartitionView,
    kept: Seq<RecordView>,
    files: Map<u64, Seq<u8>>,
)
    requires
        holds(p, kept, files),
    ensures
        p.next == p.start + kept.len(),
{
    let split = choose|split: Seq<Seq<RecordView>>| #[trigger]
        on_disk(p, split, files) && flat(split) == kept;
    lemma_on_disk(p, split, files);
}

/// Whether an append of `batch` behind the records `before` is on its way: what
/// has been done so far is on disk, and the pending action is the next step.
/// Once it is over, the files hold the old records and the batch, less whole
/// segments at the head: those go until the bound of the policy is satisfied, and
/// only as long as it is not.
pub open spec fn under_way(
    step: AppendStep,
    batch: Seq<RecordView>,
    before: Seq<RecordView>,
    start: int,
    files: Map<u64, Seq<u8>>,
) -> bool {
    let part = step.part;
    let run = step.run;
    &&& start <= part.start
    &&& run.pruned == (part.start > start)
    &&& part.next == start + before.len() + run.done
    &&& match step.action {
        FileActionView::Create(base) => {
            &&& run.records == batch
            &&& 0 <= run.done <= batch.len()
            &&& match run.phase {
                AppendPhase::Creating => run.done < batch.len() && part.needs_roll(
                    run.policy.capacity(),
                ),
                AppendPhase::Opening => run.done == batch.len() && part.crowded(
                    run.policy.max_records,
                ),
                _ => false,
            }
            &&& base == part.next
            &&& part.start == start
            &&& holds(part, before + batch.take(run.done), files)
        },
        FileActionView::Write(base, bytes) => {
            &&& run.records == batch
            &&& 0 <= run.done < batch.len()
            &&& run.phase == AppendPhase::Writing(bytes.len() as u64)
            &&& bytes == frame::frame(batch[run.done])
            &&& part.segments.len() > 0
            &&& base == part.segments.last().base
            &&& part.start == start
            &&& holds(part, before + batch.take(run.done), files)
        },
        FileActionView::Remove(base) => {
            &&& run.records == batch
            &&& run.done == batch.len()
            &&& run.phase == AppendPhase::Removing
            &&& 0 < run.policy.max_records < part.total()
            &&& !part.crowded(run.policy.max_records)
            &&& files.contains_key(base)
            &&& part.headed().start > part.start
            &&& holds(
                part.headed(),
                (before + batch).skip(part.headed().start - start),
                performed(files, step.action),
            )
        },
        FileActionView::Done(Ok(outcome)) => {
            &&& run.done == batch.len()
            &&& outcome.records == batch
            &&& outcome.truncated_to == if part.start > start {
                Some(crate::units::Offset(part.start))
            } else {
                None
            }
            &&& holds(part, (before + batch).skip(part.start - start), files)
            &&& run.policy.max_records == 0 ==> part.start == start
            &&& run.policy.max_records != 0 ==> part.total() <= run.policy.max_records
        },
        FileActionView::Done(Err(_)) => false,
    }
}

proof fn lemma_go_on(
    part: FilePartitionView,
    run: AppendRunView,
    batch: Seq<RecordView>,
    before: Seq<RecordView>,
    start: int,
    files: Map<u64, Seq<u8>>,
)
    requires
        run.records == batch,
        0 <= run.done <= batch.len(),
        0 <= start <= part.start,
        run.done < batch.len() ==> part.start == start,
        run.pruned == (part.start > start),
        run.policy.max_records == 0 ==> part.start == start,
        part.start > start ==> !part.crowded(run.policy.max_records),
        part.next == start + before.len() + run.done,
        holds(part, (before + batch.take(run.done)).skip(part.start - start), files),
    ensures
        under_way(filepart::go_on(part, run), batch, before, start, files),
{
    let kept = (before + batch.take(run.done)).skip(part.start - start);
    let split = choose|split: Seq<Seq<RecordView>>| #[trigger]
        on_disk(part, split, files) && flat(split) == kept;
    lemma_on_disk(part, split, files);
    if run.done < batch.len() {
        assert(kept =~= before + batch.take(run.done));
    } else {
        assert(batch.take(run.done) =~= batch);
        if part.crowded(run.policy.max_records) {
            assert(kept =~= before + batch.take(run.done));
        } else if part.over(run.policy.max_records) {
            lemma_remove(part, split, files);
            let q = part.headless();
            let cut = part.start - start;
            let head = split[0].len() as int;
            assert(cut + kept.len() == (before + batch).len());
            assert(flat(split.skip(1)) =~= kept.skip(head));
            assert(kept.skip(head) =~= (before + batch).skip(cut + head));
            assert(on_disk(
                q.headed(),
                split.skip(1),
                performed(files, FileActionView::Remove(part.segments[0].base)),
            ));
        }
    }
}

/// A partition that was never written to has no files and holds no records.
pub proof fn law_new_partition_is_empty()
    ensures
        holds(FilePartitionView::empty(), Seq::empty(), Map::empty()),
{
    let split = Seq::<Seq<RecordView>>::empty();
    reveal(on_disk);
    assert(flat(split) =~= Seq::<RecordView>::empty());
    assert(on_disk(FilePartitionView::empty(), split, Map::empty()));
}

/// An append that fails to create or write a file is over with that failure. If
/// the failed operation left the files as they were, they hold the old records
/// and the part of the batch that had been stored, and an append can start
/// anew.
pub proof fn law_failed_append_keeps_the_log(
    step: AppendStep,
    batch: Seq<RecordView>,
    before: Seq<RecordView>,
    start: int,
    files: Map<u64, Seq<u8>>,
    e: PortError,
)
    requires
        under_way(step, batch, before, start, files),
        step.action is Create || step.action is Write,
    ensures
        ({
            let end = filepart::after_failure(step.part, step.run, e);
            &&& end.action == FileActionView::Done(Err(e))
            &&& end.part == step.part
            &&& holds(end.part, before + batch.take(step.run.done), files)
        }),
{
}

/// An append starts with the files as they are.
pub proof fn law_append_begins(
    part: FilePartitionView,
    run: AppendRunView,
    before: Seq<RecordView>,
    files: Map<u64, Seq<u8>>,
)
    requires
        holds(part, before, files),
        run.done == 0,
        !run.pruned,
    ensures
        under_way(filepart::go_on(part, run), run.records, before, part.start as int, files),
{
    let split = choose|split: Seq<Seq<RecordView>>| #[trigger]
        on_disk(part, split, files) && flat(split) == before;
    lemma_on_disk(part, split, files);
    assert(run.records.take(0) =~= Seq::<RecordView>::empty());
    assert((before + run.records.take(0)).skip(0) =~= before);
    lemma_go_on(part, run, run.records, before, part.start as int, files);
}

proof fn lemma_after_create(
    step: AppendStep,
    batch: Seq<RecordView>,
    before: Seq<RecordView>,
    start: int,
    files: Map<u64, Seq<u8>>,
)
    requires
        under_way(step, batch, before, start, files),
        step.action is Create,
    ensures
        under_way(
            filepart::after_success(step.part, step.run),
            batch,
            before,
            start,
            performed(files, step.action),
        ),
{
    let part = step.part;
    let kept = before + batch.take(step.run.done);
    let split = choose|split: Seq<Seq<RecordView>>| #[trigger]
        on_disk(part, split, files) && flat(split) == kept;
    lemma_on_disk(part, split, files);
    lemma_create(part, split, files);
    assert(on_disk(part.rolled(), split.push(Seq::empty()), performed(files, step.action)));
    let after = performed(files, step.action);
    assert(holds(part.rolled(), kept, after));
    if step.run.phase is Opening {
        assert(kept.skip(0) =~= kept);
        lemma_go_on(part.rolled(), step.run, batch, before, start, after);
    }
}

proof fn lemma_after_write(
    step: AppendStep,
    batch: Seq<RecordView>,
    before: Seq<RecordView>,
    start: int,
    files: Map<u64, Seq<u8>>,
)
    requires
        under_way(step, batch, before, start, files),
        step.action is Write,
        0 <= start,
        segment::all_storable(batch),
        dense(batch, start + before.len()),
        start + before.len() + batch.len() <= u64::MAX,
        step.run.fits(step.part),
    ensures
        under_way(
            filepart::after_success(step.part, step.run),
            batch,
            before,
            start,
            performed(files, step.action),
        ),
{
    let part = step.part;
    let run = step.run;
    let after = performed(files, step.action);
    let kept = before + batch.take(run.done);
    let split = choose|split: Seq<Seq<RecordView>>| #[trigger]
        on_disk(part, split, files) && flat(split) == kept;
    let r = batch[run.done];
    let len = frame::frame(r).len() as int;
    lemma_on_disk(part, split, files);
    assert(frame::storable(r));
    assert(r.offset == part.next);
    frame::lemma_frame_is_bounded(r);
    lemma_write(part, split, files, r);
    let more = split.drop_last().push(split.last().push(r));
    let q = part.written(len);
    let next = AppendRunView { done: run.done + 1, ..run };
    assert(batch.take(run.done + 1) =~= batch.take(run.done).push(r));
    assert((before + batch.take(run.done + 1)).skip(0) =~= kept.push(r));
    assert(on_disk(q, more, after));
    assert(holds(q, kept.push(r), after));
    lemma_go_on(q, next, batch, before, start, after);
}

/// Performing the pending operation of an append, and going on, leaves the
/// append on its way: no record is lost, doubled or put out of order, and none
/// is pruned before the whole batch is stored.
pub proof fn law_append_goes_on(
    step: AppendStep,
    batch: Seq<RecordView>,
    before: Seq<RecordView>,
    start: int,
    files: Map<u64, Seq<u8>>,
)
    requires
        under_way(step, batch, before, start, files),
        step.action !is Done,
        0 <= start,
        segment::all_storable(batch),
        dense(batch, start + before.len()),
        start + before.len() + batch.len() <= u64::MAX,
        step.run.fits(step.part),
    ensures
        under_way(
            filepart::after_success(step.part, step.run),
            batch,
            before,
            start,
            performed(files, step.action),
        ),
{
    match step.action {
        FileActionView::Create(_) => {
            lemma_after_create(step, batch, before, start, files);
        },
        FileActionView::Write(_, _) => {
            lemma_after_write(step, batch, before, start, files);
        },
        FileActionView::Remove(_) => {
            let next = AppendRunView { pruned: true, ..step.run };
            assert(batch.take(step.run.done) =~= batch);
            lemma_go_on(
                step.part.headed(),
                next,
                batch,
                before,
                start,
                performed(files, step.action),
            );
        },
        FileActionView::Done(_) => {},
    }
}

/// The first `n` records, or all if there are fewer.
pub open spec fn up_to(records: Seq<RecordView>, n: nat) -> Seq<RecordView> {
    if records.len() > n {
        records.take(n as int)
    } else {
        records
    }
}

/// Of records with consecutive offsets from `start` on, those from offset
/// `from` on.
pub open spec fn from_offset(records: Seq<RecordView>, start: int, from: int) -> Seq<RecordView> {
    if from <= start {
        records
    } else if from - start >= records.len() {
        Seq::empty()
    } else {
        records.skip(from - start)
    }
}

/// Whether a read of up to `max` records has taken in what the segments passed
/// so far hold from its offset on.
pub open spec fn reading(
    p: FilePartitionView,
    split: Seq<Seq<RecordView>>,
    run: FetchRunView,
    max: nat,
) -> bool {
    let got = up_to(from_offset(flat(split.take(run.at)), p.start as int, run.from as int), max);
    &&& 0 <= run.at <= split.len()
    &&& p.start <= run.from
    &&& run.out == segment::restored_all(got)
    &&& run.remaining == max - got.len()
}

proof fn lemma_up_to_concat(a: Seq<RecordView>, b: Seq<RecordView>, n: nat)
    ensures
        up_to(a + b, n) == up_to(a, n) + up_to(b, (n - up_to(a, n).len()) as nat),
{
    assert(up_to(a + b, n) =~= up_to(a, n) + up_to(b, (n - up_to(a, n).len()) as nat));
}

proof fn lemma_from_offset_concat(
    a: Seq<RecordView>,
    b: Seq<RecordView>,
    start: int,
    from: int,
)
    ensures
        from_offset(a + b, start, from) == from_offset(a, start, from) + from_offset(
            b,
            start + a.len(),
            from,
        ),
{
    assert(from_offset(a + b, start, from) =~= from_offset(a, start, from) + from_offset(
        b,
        start + a.len(),
        from,
    ));
}

/// A read that has passed one more segment, and taken in what it was to, has
/// read one segment further.
proof fn lemma_reading_advances(
    p: FilePartitionView,
    split: Seq<Seq<RecordView>>,
    files: Map<u64, Seq<u8>>,
    run: FetchRunView,
    max: nat,
    more: Seq<RecordView>,
)
    requires
        on_disk(p, split, files),
        reading(p, split, run, max),
        run.at < split.len(),
        more == segment::restored_all(
            up_to(
                from_offset(
                    split[run.at],
                    p.segments[run.at].base as int,
                    run.from as int,
                ),
                run.remaining,
            ),
        ),
    ensures
        reading(
            p,
            split,
            FetchRunView {
                at: run.at + 1,
                out: run.out + more,
                remaining: (run.remaining - more.len()) as nat,
                ..run
            },
            max,
        ),
{
    reveal(on_disk);
    let k = run.at;
    let a = flat(split.take(k));
    let b = split[k];
    lemma_flat_part(split, k);
    assert(p.segments[k].indexes(split[k]));
    assert(p.segments[k].base == p.start + a.len());
    lemma_from_offset_concat(a, b, p.start as int, run.from as int);
    let old_part = from_offset(a, p.start as int, run.from as int);
    let new_part = from_offset(b, p.start + a.len(), run.from as int);
    lemma_up_to_concat(old_part, new_part, max);
    assert(run.out + more =~= segment::restored_all(up_to(old_part + new_part, max)));
}

/// A segment with nothing to read for a read adds nothing to it.
proof fn lemma_nothing_to_read(
    p: FilePartitionView,
    split: Seq<Seq<RecordView>>,
    files: Map<u64, Seq<u8>>,
    k: int,
    from: u64,
    wanted: nat,
)
    requires
        on_disk(p, split, files),
        0 <= k < split.len(),
        p.segments[k].read_start(from, wanted) is None,
    ensures
        segment::restored_all(
            up_to(
                from_offset(split[k], p.segments[k].base as int, from as int),
                wanted,
            ),
        ) == Seq::<RecordView>::empty(),
{
    reveal(on_disk);
    assert(p.segments[k].indexes(split[k]));
    assert(segment::restored_all(
        up_to(from_offset(split[k], p.segments[k].base as int, from as int), wanted),
    ) =~= Seq::<RecordView>::empty());
}

/// Passing over segments with nothing to read keeps a read true.
proof fn lemma_seek_keeps(
    p: FilePartitionView,
    split: Seq<Seq<RecordView>>,
    files: Map<u64, Seq<u8>>,
    run: FetchRunView,
    max: nat,
)
    requires
        on_disk(p, split, files),
        reading(p, split, run, max),
    ensures
        match filepart::next_read(p.segments, run.at, run.from, run.remaining) {
            Some((k, _)) => reading(p, split, FetchRunView { at: k, ..run }, max) && k
                < split.len(),
            None => reading(p, split, FetchRunView { at: split.len() as int, ..run }, max),
        },
    decreases split.len() - run.at,
{
    lemma_on_disk(p, split, files);
    if run.at < split.len() {
        if p.segments[run.at].read_start(run.from, run.remaining) is None {
            lemma_nothing_to_read(p, split, files, run.at, run.from, run.remaining);
            lemma_reading_advances(p, split, files, run, max, Seq::empty());
            let next = FetchRunView { at: run.at + 1, ..run };
            assert(run.out + Seq::<RecordView>::empty() =~= run.out);
            lemma_seek_keeps(p, split, files, next, max);
        }
    }
}

/// A fetch starts having read nothing.
pub proof fn law_fetch_begins(
    p: FilePartitionView,
    split: Seq<Seq<RecordView>>,
    files: Map<u64, Seq<u8>>,
    from: u64,
    max: nat,
)
    requires
        on_disk(p, split, files),
    ensures
        reading(p, split, FetchRunView::fresh(p, from, max), max),
{
    let run = FetchRunView::fresh(p, from, max);
    assert(split.take(0) =~= Seq::<Seq<RecordView>>::empty());
    let got = up_to(from_offset(flat(split.take(0)), p.start as int, run.from as int), max);
    assert(got =~= Seq::<RecordView>::empty());
    assert(segment::restored_all(got) =~= Seq::<RecordView>::empty());
}

/// A fetch that asks for a file, and is given the contents of that file from
/// the position it asked for, goes on true to the files.
pub proof fn law_fetch_goes_on(
    p: FilePartitionView,
    split: Seq<Seq<RecordView>>,
    files: Map<u64, Seq<u8>>,
    run: FetchRunView,
    max: nat,
)
    requires
        on_disk(p, split, files),
        reading(p, split, run, max),
    ensures
        filepart::seek(p, run).1 matches FetchActionView::Read(base, position) ==> {
            &&& files.contains_key(base)
            &&& position <= files[base].len()
            &&& reading(
                p,
                split,
                filepart::seek(p, run).0.taken(files[base].skip(position as int)),
                max,
            )
        },
{
    lemma_seek_keeps(p, split, files, run, max);
    if let FetchActionView::Read(base, position) = filepart::seek(p, run).1 {
        let next = filepart::seek(p, run).0;
        let k = next.at;
        filepart::lemma_next_read_range(p.segments, run.at, run.from, run.remaining);
        reveal(on_disk);
        assert(p.segments[k].indexes(split[k]));
        lemma_flat_part(split, k);
        assert forall|i: int| 0 <= i < split[k].len() implies frame::storable(
            #[trigger] split[k][i],
        ) by {
            assert(split[k][i] == flat(split)[flat(split.take(k)).len() + i]);
        }
        segment::law_read_gives_back_the_records(
            p.segments[k],
            split[k],
            run.from,
            run.remaining,
        );
        let more = segment::run_at(files[base].skip(position as int), 0, next.remaining);
        let rest = from_offset(split[k], p.segments[k].base as int, run.from as int);
        assert(split[k].skip(0) =~= split[k]);
        assert(more =~= segment::restored_all(up_to(rest, next.remaining)));
        lemma_reading_advances(p, split, files, next, max, more);
    }
}

/// A fetch that is over gives back the records on disk from its offset on, up
/// to the number wanted, as they were written; it continues behind the last of
/// them and tells where the log ends.
pub proof fn law_fetch_ends(
    p: FilePartitionView,
    split: Seq<Seq<RecordView>>,
    files: Map<u64, Seq<u8>>,
    run: FetchRunView,
    max: nat,
)
    requires
        on_disk(p, split, files),
        reading(p, split, run, max),
    ensures
        filepart::seek(p, run).1 matches FetchActionView::Done(result) ==> {
            let kept = up_to(
                from_offset(flat(split), p.start as int, run.from as int),
                max,
            );
            &&& result matches Ok(fetched) && fetched.records == segment::restored_all(kept)
                && fetched.high_watermark == p.next && fetched.next_offset == run.from
                + kept.len()
        },
{
    lemma_seek_keeps(p, split, files, run, max);
    if filepart::seek(p, run).1 is Done {
        assert(split.take(split.len() as int) =~= split);
        let kept = up_to(from_offset(flat(split), p.start as int, run.from as int), max);
        reveal(on_disk);
        if kept.len() > 0 {
            let last = kept.len() - 1;
            let at = run.from - p.start + last;
            assert(kept[last] == flat(split)[at]);
            assert(flat(split)[at].offset == p.start + at);
            assert(segment::restored_all(kept).last() == frame::restored(kept[last]));
        }
    }
}

/// What a partition's directory is opened to: each file becomes a segment, in
/// the order of the bases.
pub open spec fn reopened(bases: Seq<u64>, files: Map<u64, Seq<u8>>) -> FilePartitionView {
    FilePartitionView::of_segments(
        Seq::new(bases.len(), |k: int| SegmentView::of_file(bases[k], files[bases[k]])),
    )
}

/// The bases of a partition's segments.
pub open spec fn bases(p: FilePartitionView) -> Seq<u64> {
    Seq::new(p.segments.len(), |k: int| p.segments[k].base)
}

/// The segments of a partition come in the order of their bases, and there is
/// one for each file: sorting the bases that the file names tell lists them.
pub proof fn law_bases_ascend(
    p: FilePartitionView,
    split: Seq<Seq<RecordView>>,
    files: Map<u64, Seq<u8>>,
)
    requires
        on_disk(p, split, files),
    ensures
        crate::layout::ascending(bases(p)),
        bases(p).no_duplicates(),
        bases(p).to_set() == files.dom(),
{
    lemma_on_disk(p, split, files);
    assert forall|j: int, k: int| 0 <= j < k < split.len() implies p.segments[j].base
        < p.segments[k].base by {
        lemma_bases_differ(p, split, files, j, k);
    }
    assert forall|b: u64| bases(p).to_set().contains(b) == files.dom().contains(b) by {
        reveal(on_disk);
        if files.contains_key(b) {
            let k = choose|k: int| 0 <= k < split.len() && (#[trigger] p.segments[k]).base == b;
            assert(bases(p)[k] == b);
        }
        if bases(p).contains(b) {
            let k = choose|k: int| 0 <= k < bases(p).len() && bases(p)[k] == b;
            assert(p.segments[k].indexes(split[k]));
        }
    }
    assert(bases(p).to_set() =~= files.dom());
}

/// Reopening a partition's files gives back the partition: records and offsets
/// survive a restart, and so does the place where the next record goes. A frame
/// that a crash cut short at the end of the last file makes no difference.
pub proof fn law_reopening_restores_the_partition(
    p: FilePartitionView,
    split: Seq<Seq<RecordView>>,
    files: Map<u64, Seq<u8>>,
    next: RecordView,
    cut: int,
)
    requires
        on_disk(p, split, files),
        frame::storable(next),
        0 <= cut < frame::frame(next).len(),
    ensures
        reopened(bases(p), files) == p,
        p.segments.len() > 0 ==> {
            let last = p.segments.last().base;
            let torn = files.insert(last, files[last] + frame::frame(next).take(cut));
            reopened(bases(p), torn) == p
        },
{
    lemma_on_disk(p, split, files);
    let all = Seq::new(
        p.segments.len(),
        |k: int| SegmentView::of_file(bases(p)[k], files[bases(p)[k]]),
    );
    assert forall|k: int| 0 <= k < split.len() implies #[trigger] all[k] == p.segments[k] by {
        lemma_segment_reopens(p, split, files, k, next, cut);
    }
    assert(all =~= p.segments);
    reveal(on_disk);
    if split.len() > 0 {
        let n = split.len() - 1;
        assert(split.take(0) =~= Seq::<Seq<RecordView>>::empty());
        assert(p.segments[0].indexes(split[0]));
        assert(p.segments[n].indexes(split[n]));
        lemma_flat_part(split, n);
        assert(split.take(n + 1) =~= split);
        let last = p.segments.last().base;
        let torn = files.insert(last, files[last] + frame::frame(next).take(cut));
        let again = Seq::new(
            p.segments.len(),
            |k: int| SegmentView::of_file(bases(p)[k], torn[bases(p)[k]]),
        );
        assert forall|k: int| 0 <= k < split.len() implies #[trigger] again[k] == p.segments[k] by {
            lemma_segment_reopens(p, split, files, k, next, cut);
            if k < n {
                lemma_bases_differ(p, split, files, k, n);
            }
        }
        assert(again =~= p.segments);
    }
    assert(reopened(bases(p), files) == p);
}

proof fn lemma_segment_reopens(
    p: FilePartitionView,
    split: Seq<Seq<RecordView>>,
    files: Map<u64, Seq<u8>>,
    k: int,
    next: RecordView,
    cut: int,
)
    requires
        on_disk(p, split, files),
        0 <= k < split.len(),
        frame::storable(next),
        0 <= cut < frame::frame(next).len(),
    ensures
        SegmentView::of_file(p.segments[k].base, files[p.segments[k].base]) == p.segments[k],
        SegmentView::of_file(
            p.segments[k].base,
            files[p.segments[k].base] + frame::frame(next).take(cut),
        ) == p.segments[k],
{
    reveal(on_disk);
    assert(p.segments[k].indexes(split[k]));
    lemma_flat_part(split, k);
    assert forall|i: int| 0 <= i < split[k].len() implies frame::storable(
        #[trigger] split[k][i],
    ) by {
        assert(split[k][i] == flat(split)[flat(split.take(k)).len() + i]);
    }
    segment::law_reopen_rebuilds_the_index(p.segments[k], split[k], next, cut);
}

/// Reopening a partition's files as they are gives back the partition.
pub(crate) proof fn lemma_reopens(
    p: FilePartitionView,
    split: Seq<Seq<RecordView>>,
    files: Map<u64, Seq<u8>>,
)
    requires
        on_disk(p, split, files),
    ensures
        reopened(bases(p), files) == p,
{
    let any = RecordView {
        offset: 0,
        timestamp: Instant { seconds: 0, nanos: 0 },
        key: None,
        payload: Seq::empty(),
    };
    frame::lemma_frame_is_bounded(any);
    law_reopening_restores_the_partition(p, split, files, any, 0);
}

/// A partition retains as many records as its files hold, and a read of it starts
/// at the offset that was asked for, or at the first retained record if that comes
/// later, having read nothing yet.
pub proof fn law_reads_start_where_they_are_asked_to(
    p: FilePartitionView,
    kept: Seq<RecordView>,
    files: Map<u64, Seq<u8>>,
    from: u64,
    max: nat,
)
    requires
        holds(p, kept, files),
    ensures
        p.total() == kept.len(),
        ({
            let run = FetchRunView::fresh(p, from, max);
            &&& from >= p.start ==> run.from == from
            &&& from < p.start ==> run.from == p.start
            &&& run.out.len() == 0
            &&& run.remaining == max
            &&& run.at == 0
        }),
{
    lemma_holds_counts(p, kept, files);
}

} // verus!
