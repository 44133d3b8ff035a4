//! Log segments: the durable unit of the storage engine.
//!
//! A partition's log is a sequence of [`Segment`]s, each a file of record
//! frames with a dense in-memory index of where each record starts, rebuilt by
//! scanning the file on open. Segments are rolled once they reach the
//! configured record count and pruned wholesale by retention. What is here
//! decides what to write, where to read and what was read; the files
//! themselves are somebody else's.

use crate::frame;
use crate::record;
use crate::record::{Record, RecordView};
use vstd::prelude::*;
use vstd::slice::*;

verus! {

/// The frames of some records, one after the other.
pub open spec fn frames(records: Seq<RecordView>) -> Seq<u8>
    decreases records.len(),
{
    if records.len() == 0 {
        Seq::empty()
    } else {
        frames(records.drop_last()) + frame::frame(records.last())
    }
}

/// A frame takes up room.
pub proof fn lemma_record_at_advances(data: Seq<u8>, p: int)
    ensures
        frame::record_at(data, p) matches Some((_, end)) ==> p < end <= data.len(),
{
    reveal(frame::record_at);
    if frame::record_at(data, p) is Some {
        let (_, q) = frame::key_at(data, p + 16)->0;
        frame::lemma_prefixed_end_advances(data, p + 17);
        frame::lemma_prefixed_end_advances(data, q);
    }
}

/// Where the records that can be read one after the other from `p` on start.
pub open spec fn scan(data: Seq<u8>, p: int) -> Seq<int>
    decreases data.len() - p,
{
    match frame::record_at(data, p) {
        Some((_, end)) => {
            proof {
                lemma_record_at_advances(data, p);
            }
            seq![p] + scan(data, end)
        },
        None => Seq::empty(),
    }
}

/// Where the last of the records that can be read from `p` on ends.
pub open spec fn scan_end(data: Seq<u8>, p: int) -> int
    decreases data.len() - p,
{
    match frame::record_at(data, p) {
        Some((_, end)) => {
            proof {
                lemma_record_at_advances(data, p);
            }
            scan_end(data, end)
        },
        None => p,
    }
}

/// Up to `n` records read one after the other from `p` on.
pub open spec fn run_at(data: Seq<u8>, p: int, n: nat) -> Seq<RecordView>
    decreases n,
{
    if n == 0 {
        Seq::empty()
    } else {
        match frame::record_at(data, p) {
            Some((r, end)) => seq![r] + run_at(data, end, (n - 1) as nat),
            None => Seq::empty(),
        }
    }
}

/// What is known of a segment: its base offset, where each of its records
/// starts, and where the last one ends.
#[verifier::ext_equal]
pub struct SegmentView {
    pub base: u64,
    pub index: Seq<u64>,
    pub end: u64,
}

impl SegmentView {
    /// A segment without records.
    pub open spec fn empty(base: u64) -> SegmentView {
        SegmentView { base, index: Seq::empty(), end: 0 }
    }

    /// The segment of a file with the given contents.
    pub open spec fn of_file(base: u64, data: Seq<u8>) -> SegmentView {
        SegmentView {
            base,
            index: scan(data, 0).map_values(|p: int| p as u64),
            end: scan_end(data, 0) as u64,
        }
    }

    /// The segment after a frame of `len` bytes has been written to its end.
    pub open spec fn appended(self, len: int) -> SegmentView {
        SegmentView { index: self.index.push(self.end), end: (self.end + len) as u64, ..self }
    }

    /// One past the offset of the last record.
    pub open spec fn next(self) -> int {
        self.base + self.index.len()
    }

    /// Where in the file the records from offset `from` on start; none if the
    /// segment holds no such record or none is wanted.
    pub open spec fn read_start(self, from: u64, wanted: nat) -> Option<u64> {
        if wanted == 0 || self.index.len() == 0 || from >= self.next() {
            None
        } else if from <= self.base {
            Some(self.index[0])
        } else {
            Some(self.index[from - self.base])
        }
    }

    /// Whether the segment's file holds the frames of `records` and nothing
    /// else.
    pub open spec fn indexes(self, records: Seq<RecordView>) -> bool {
        &&& self.index.len() == records.len()
        &&& self.end == frames(records).len()
        &&& forall|i: int|
            0 <= i < records.len() ==> #[trigger] self.index[i] == frames(records.take(i)).len()
    }
}

/// One append-only log segment.
#[derive(Debug)]
pub struct Segment {
    base: u64,
    /// Dense in-memory index: byte position of each record, indexed by
    /// `offset - base`.
    index: Vec<u64>,
    write_pos: u64,
}

impl View for Segment {
    type V = SegmentView;

    closed spec fn view(&self) -> SegmentView {
        SegmentView { base: self.base, index: self.index@, end: self.write_pos }
    }
}

impl Segment {
    /// A fresh, empty segment with the given base offset.
    pub fn create(base: u64) -> (r: Segment)
        ensures
            r@ == SegmentView::empty(base),
    {
        Segment { base, index: Vec::new(), write_pos: 0 }
    }

    /// The segment of an existing file, its index rebuilt by scanning the
    /// file's contents.
    ///
    /// A partial trailing record (from a crash mid-append) is ignored, making
    /// recovery crash-tolerant. Where there is one, the length that the file is
    /// to be cut back to comes with the segment, so that later appends stay
    /// contiguous.
    pub fn open(base: u64, data: &[u8]) -> (r: (Segment, Option<u64>))
        ensures
            r.0@ == SegmentView::of_file(base, data@),
            r.1 == if scan_end(data@, 0) < data@.len() {
                Some(scan_end(data@, 0) as u64)
            } else {
                None
            },
    {
        let mut index: Vec<u64> = Vec::new();
        let mut pos: usize = 0;
        let ghost done: Seq<int> = Seq::empty();
        let total: usize = data.len();
        loop
            invariant
                pos <= data@.len(),
                total == data@.len(),
                done + scan(data@, pos as int) == scan(data@, 0),
                scan_end(data@, pos as int) == scan_end(data@, 0),
                index@ == done.map_values(|p: int| p as u64),
            ensures
                scan(data@, 0) == done,
                scan_end(data@, 0) == pos,
                pos <= data@.len(),
                index@ == done.map_values(|p: int| p as u64),
            decreases data@.len() - pos,
        {
            proof {
                lemma_record_at_advances(data@, pos as int);
            }
            match frame::decode(data, pos) {
                Some((_, next)) => {
                    index.push(pos as u64);
                    proof {
                        let rest = scan(data@, next as int);
                        assert(done.push(pos as int) + rest =~= done + (seq![pos as int] + rest));
                        assert(done.push(pos as int).map_values(|p: int| p as u64)
                            =~= done.map_values(|p: int| p as u64).push(pos as u64));
                        done = done.push(pos as int);
                    }
                    pos = next;
                },
                None => {
                    assert(done + scan(data@, pos as int) =~= done);
                    break;
                },
            }
        }
        let torn: Option<u64> = if pos < total {
            Some(pos as u64)
        } else {
            None
        };
        (Segment { base, index, write_pos: pos as u64 }, torn)
    }

    /// The segment's base offset.
    pub fn base(&self) -> (r: u64)
        ensures
            r == self@.base,
    {
        self.base
    }

    /// Number of records stored in this segment.
    pub fn len(&self) -> (r: usize)
        ensures
            r == self@.index.len(),
    {
        self.index.len()
    }

    /// Whether the segment holds no records.
    pub fn is_empty(&self) -> (r: bool)
        ensures
            r == (self@.index.len() == 0),
    {
        self.index.len() == 0
    }

    /// How many bytes of records the segment's file holds.
    pub fn write_pos(&self) -> (r: u64)
        ensures
            r == self@.end,
    {
        self.write_pos
    }

    /// The bytes to write to the end of the file to append a record.
    pub fn append(&self, record: &Record) -> (r: Vec<u8>)
        ensures
            r@ == frame::frame(record@),
    {
        let mut buf: Vec<u8> = Vec::new();
        frame::encode(record, &mut buf);
        assert(buf@ =~= frame::frame(record@));
        buf
    }

    /// Take note that a frame of `len` bytes has been written to the end of the
    /// file.
    pub fn appended(&mut self, len: u64)
        requires
            old(self)@.end + len <= u64::MAX,
        ensures
            final(self)@ == old(self)@.appended(len as int),
    {
        self.index.push(self.write_pos);
        self.write_pos = self.write_pos + len;
    }

    /// Where in the file the records with offset `>= from` start, if the
    /// segment holds any and `remaining` is not zero.
    pub fn read_from(&self, from: u64, remaining: usize) -> (r: Option<u64>)
        ensures
            r == self@.read_start(from, remaining as nat),
    {
        if remaining == 0 || self.index.len() == 0 {
            return None;
        }
        if from <= self.base {
            return Some(self.index[0]);
        }
        let skipped: u64 = from - self.base;
        if skipped >= self.index.len() as u64 {
            return None;
        }
        Some(self.index[skipped as usize])
    }
}

/// Decode up to `remaining` records from the start of `data`, appending them
/// to `out`. Returns the number of records appended.
pub fn read_records(data: &[u8], remaining: usize, out: &mut Vec<Record>) -> (r: usize)
    ensures
        record::views(final(out)@) == record::views(old(out)@) + run_at(
            data@,
            0,
            remaining as nat,
        ),
        r == run_at(data@, 0, remaining as nat).len(),
        r <= remaining,
{
    let mut pos: usize = 0;
    let mut added: usize = 0;
    let ghost start = record::views(out@);
    let ghost whole = run_at(data@, 0, remaining as nat);
    let ghost done: Seq<RecordView> = Seq::empty();
    while added < remaining
        invariant
            added <= remaining,
            done.len() == added,
            whole == done + run_at(data@, pos as int, (remaining - added) as nat),
            record::views(out@) == start + done,
        ensures
            done.len() == added,
            added <= remaining,
            whole == done,
            record::views(out@) == start + done,
        decreases remaining - added,
    {
        match frame::decode(data, pos) {
            Some((rec, next)) => {
                let ghost was = out@;
                let ghost view = rec@;
                out.push(rec);
                proof {
                    let rest = run_at(data@, next as int, (remaining - added - 1) as nat);
                    assert(done + (seq![view] + rest) =~= done.push(view) + rest);
                    assert(record::views(out@) =~= record::views(was).push(view));
                    assert(start + done.push(view) =~= (start + done).push(view));
                    done = done.push(view);
                }
                pos = next;
                added = added + 1;
            },
            None => {
                assert(done + Seq::<RecordView>::empty() =~= done);
                break;
            },
        }
    }
    added
}

/// Records as they come back from storage.
pub open spec fn restored_all(records: Seq<RecordView>) -> Seq<RecordView> {
    records.map_values(|r: RecordView| frame::restored(r))
}

/// Whether frames can hold all the records.
pub open spec fn all_storable(records: Seq<RecordView>) -> bool {
    forall|i: int| 0 <= i < records.len() ==> frame::storable(#[trigger] records[i])
}

pub(crate) proof fn lemma_frames_concat(a: Seq<RecordView>, b: Seq<RecordView>)
    ensures
        frames(a + b) == frames(a) + frames(b),
    decreases b.len(),
{
    if b.len() == 0 {
        assert(a + b =~= a);
        assert(frames(a) + frames(b) =~= frames(a));
    } else {
        assert((a + b).drop_last() =~= a + b.drop_last());
        lemma_frames_concat(a, b.drop_last());
        assert(frames(a) + (frames(b.drop_last()) + frame::frame(b.last())) =~= frames(a) + frames(
            b.drop_last(),
        ) + frame::frame(b.last()));
    }
}

proof fn lemma_frames_first(records: Seq<RecordView>)
    requires
        records.len() > 0,
    ensures
        frames(records) == frame::frame(records[0]) + frames(records.skip(1)),
{
    let one = seq![records[0]];
    assert(records =~= one + records.skip(1));
    lemma_frames_concat(one, records.skip(1));
    assert(one.drop_last() =~= Seq::<RecordView>::empty());
    let none = frames(Seq::<RecordView>::empty());
    assert(none + frame::frame(records[0]) =~= frame::frame(records[0]));
    assert(frames(one) == frames(one.drop_last()) + frame::frame(one.last()));
}

/// Scanning finds each frame where it was written, and stops where no further
/// record can be read.
proof fn lemma_scan_finds(head: Seq<u8>, records: Seq<RecordView>, tail: Seq<u8>)
    requires
        all_storable(records),
        frame::record_at(
            head + frames(records) + tail,
            (head.len() + frames(records).len()) as int,
        ) is None,
    ensures
        scan(head + frames(records) + tail, head.len() as int) == Seq::new(
            records.len(),
            |i: int| (head.len() + frames(records.take(i)).len()) as int,
        ),
        scan_end(head + frames(records) + tail, head.len() as int) == head.len() + frames(
            records,
        ).len(),
    decreases records.len(),
{
    let data = head + frames(records) + tail;
    let p = head.len() as int;
    if records.len() == 0 {
        assert(scan(data, p) =~= Seq::new(
            records.len(),
            |i: int| (head.len() + frames(records.take(i)).len()) as int,
        ));
    } else {
        let first = frame::frame(records[0]);
        let rest = records.skip(1);
        lemma_frames_first(records);
        assert(data =~= head + first + (frames(rest) + tail));
        assert(frame::storable(records[0]));
        frame::law_frame_reads_back(head, records[0], frames(rest) + tail);
        assert(data =~= (head + first) + frames(rest) + tail);
        assert forall|i: int| 0 <= i < rest.len() implies frame::storable(#[trigger] rest[i]) by {
            assert(rest[i] == records[i + 1]);
        }
        lemma_scan_finds(head + first, rest, tail);
        let found = scan(data, p);
        assert(found =~= seq![p] + scan(data, (head + first).len() as int));
        let want = Seq::new(
            records.len(),
            |i: int| (head.len() + frames(records.take(i)).len()) as int,
        );
        assert forall|i: int| 0 <= i < records.len() implies #[trigger] found[i] == want[i] by {
            if i == 0 {
                assert(records.take(0) =~= Seq::<RecordView>::empty());
            } else {
                lemma_frames_first(records.take(i));
                assert(records.take(i).skip(1) =~= rest.take(i - 1));
                assert(records.take(i)[0] == records[0]);
            }
        }
        assert(found =~= want);
    }
}

/// Reading from a frame on gives back the records from there on.
proof fn lemma_run_reads_back(head: Seq<u8>, records: Seq<RecordView>, n: nat)
    requires
        all_storable(records),
    ensures
        run_at(head + frames(records), head.len() as int, n) == restored_all(
            if records.len() > n {
                records.take(n as int)
            } else {
                records
            },
        ),
    decreases n,
{
    let data = head + frames(records);
    let p = head.len() as int;
    let want = if records.len() > n {
        records.take(n as int)
    } else {
        records
    };
    if n == 0 {
        assert(run_at(data, p, n) =~= restored_all(want));
    } else if records.len() == 0 {
        reveal(frame::record_at);
        assert(data =~= head);
        assert(run_at(data, p, n) =~= restored_all(want));
    } else {
        let first = frame::frame(records[0]);
        let rest = records.skip(1);
        lemma_frames_first(records);
        assert(data =~= head + first + frames(rest));
        assert(frame::storable(records[0]));
        frame::law_frame_reads_back(head, records[0], frames(rest));
        assert(data =~= (head + first) + frames(rest));
        assert forall|i: int| 0 <= i < rest.len() implies frame::storable(#[trigger] rest[i]) by {
            assert(rest[i] == records[i + 1]);
        }
        lemma_run_reads_back(head + first, rest, (n - 1) as nat);
        assert(run_at(data, p, n) =~= restored_all(want));
    }
}

/// Writing a record's frame to the end of a segment's file and taking note of
/// it leaves the segment indexing the old records and the new one.
pub proof fn law_append_extends_the_index(
    segment: SegmentView,
    records: Seq<RecordView>,
    r: RecordView,
)
    requires
        segment.indexes(records),
        segment.end + frame::frame(r).len() <= u64::MAX,
    ensures
        segment.appended(frame::frame(r).len() as int).indexes(records.push(r)),
        frames(records.push(r)) == frames(records) + frame::frame(r),
{
    let after = records.push(r);
    assert(after.drop_last() =~= records);
    let grown = segment.appended(frame::frame(r).len() as int);
    assert forall|i: int| 0 <= i < after.len() implies #[trigger] grown.index[i] == frames(
        after.take(i),
    ).len() by {
        if i < records.len() {
            assert(after.take(i) =~= records.take(i));
        } else {
            assert(after.take(i) =~= records);
        }
    }
}

/// Opening the file of a segment rebuilds the segment, whether the file ends
/// with its last frame or with a torn one behind it; a torn frame, and only
/// that, is to be cut off.
pub proof fn law_reopen_rebuilds_the_index(
    segment: SegmentView,
    records: Seq<RecordView>,
    next: RecordView,
    cut: int,
)
    requires
        segment.indexes(records),
        all_storable(records),
        frame::storable(next),
        0 <= cut < frame::frame(next).len(),
    ensures
        SegmentView::of_file(segment.base, frames(records) + frame::frame(next).take(cut))
            == segment,
        scan_end(frames(records) + frame::frame(next).take(cut), 0) == frames(records).len(),
        SegmentView::of_file(segment.base, frames(records)) == segment,
        scan_end(frames(records), 0) == frames(records).len(),
{
    let none = Seq::<u8>::empty();
    let torn = frame::frame(next).take(cut);
    frame::law_torn_frame_is_ignored(frames(records), next, cut);
    assert(none + frames(records) + torn =~= frames(records) + torn);
    lemma_scan_finds(none, records, torn);
    assert(SegmentView::of_file(segment.base, frames(records) + torn).index =~= segment.index);
    assert(frame::frame(next).take(0) =~= none);
    frame::lemma_frame_is_not_empty(next);
    frame::law_torn_frame_is_ignored(frames(records), next, 0);
    assert(none + frames(records) + none =~= frames(records));
    assert(frames(records) + none =~= frames(records));
    lemma_scan_finds(none, records, none);
    assert(SegmentView::of_file(segment.base, frames(records)).index =~= segment.index);
}

/// Reading a segment's file from where the segment says, gives back the records
/// that were written from that offset on, up to the number wanted.
pub proof fn law_read_gives_back_the_records(
    segment: SegmentView,
    records: Seq<RecordView>,
    from: u64,
    wanted: nat,
)
    requires
        segment.indexes(records),
        all_storable(records),
    ensures
        match segment.read_start(from, wanted) {
            Some(p) => {
                let skipped = if from <= segment.base {
                    0
                } else {
                    from - segment.base
                };
                let rest = records.skip(skipped);
                &&& 0 <= p <= frames(records).len()
                &&& run_at(frames(records).skip(p as int), 0, wanted) == restored_all(
                    if rest.len() > wanted {
                        rest.take(wanted as int)
                    } else {
                        rest
                    },
                )
            },
            None => wanted == 0 || records.len() == 0 || from >= segment.base + records.len(),
        },
{
    if let Some(p) = segment.read_start(from, wanted) {
        let skipped = if from <= segment.base {
            0
        } else {
            from - segment.base
        };
        let rest = records.skip(skipped);
        assert(segment.index[skipped] == frames(records.take(skipped)).len());
        assert(records =~= records.take(skipped) + rest);
        lemma_frames_concat(records.take(skipped), rest);
        assert(frames(records).skip(p as int) =~= frames(rest));
        assert forall|i: int| 0 <= i < rest.len() implies frame::storable(#[trigger] rest[i]) by {
            assert(rest[i] == records[i + skipped]);
        }
        let none = Seq::<u8>::empty();
        assert(none + frames(rest) =~= frames(rest));
        lemma_run_reads_back(none, rest, wanted);
    }
}

/// The segment that indexes the frames of `records`.
proof fn lemma_indexed(base: u64, records: Seq<RecordView>) -> (segment: SegmentView)
    requires
        frames(records).len() <= u64::MAX,
    ensures
        segment.base == base,
        segment.indexes(records),
{
    let segment = SegmentView {
        base,
        index: Seq::new(records.len(), |i: int| frames(records.take(i)).len() as u64),
        end: frames(records).len() as u64,
    };
    assert forall|i: int| 0 <= i < records.len() implies #[trigger] segment.index[i] == frames(
        records.take(i),
    ).len() by {
        assert(records =~= records.take(i) + records.skip(i));
        lemma_frames_concat(records.take(i), records.skip(i));
    }
    segment
}

/// A segment survives a crash. Opening a file that holds the frames of some
/// records, with or without a torn frame behind them, gives a segment of just
/// those records, and cutting the file where the segment ends leaves just their
/// frames; reading from the base on gives the records back; and a record that is
/// appended next is read back behind them.
pub proof fn law_reopened_segment_reads_back(
    base: u64,
    records: Seq<RecordView>,
    torn: RecordView,
    cut: int,
    next: RecordView,
    wanted: nat,
)
    requires
        all_storable(records),
        frame::storable(torn),
        0 <= cut < frame::frame(torn).len(),
        frame::storable(next),
        frames(records).len() + frame::frame(next).len() <= u64::MAX,
        base + records.len() <= u64::MAX,
        wanted > 0,
    ensures
        ({
            let data = frames(records) + frame::frame(torn).take(cut);
            let segment = SegmentView::of_file(base, data);
            let kept = data.take(segment.end as int);
            &&& segment.base == base
            &&& segment.index.len() == records.len()
            &&& segment.end == scan_end(data, 0)
            &&& kept == frames(records)
            &&& match segment.read_start(base, records.len()) {
                Some(p) => run_at(kept.skip(p as int), 0, records.len()) == restored_all(records),
                None => records.len() == 0,
            }
            &&& {
                let grown = segment.appended(frame::frame(next).len() as int);
                let file = kept + frame::frame(next);
                &&& grown.index.len() == records.len() + 1
                &&& grown.read_start((base + records.len()) as u64, wanted) matches Some(p)
                    && run_at(file.skip(p as int), 0, wanted) == seq![frame::restored(next)]
            }
        }),
{
    let data = frames(records) + frame::frame(torn).take(cut);
    let segment = lemma_indexed(base, records);
    law_reopen_rebuilds_the_index(segment, records, torn, cut);
    assert(data.take(segment.end as int) =~= frames(records));
    law_read_gives_back_the_records(segment, records, base, records.len());
    assert(records.skip(0) =~= records);
    let more = records.push(next);
    let at = (base + records.len()) as u64;
    law_append_extends_the_index(segment, records, next);
    assert forall|i: int| 0 <= i < more.len() implies frame::storable(#[trigger] more[i]) by {
        if i < records.len() {
            assert(more[i] == records[i]);
        }
    }
    let grown = segment.appended(frame::frame(next).len() as int);
    law_read_gives_back_the_records(grown, more, at, wanted);
    assert(more.skip(records.len() as int) =~= seq![next]);
    assert(seq![next].take(1) =~= seq![next]);
    assert(restored_all(seq![next]) =~= seq![frame::restored(next)]);
}

} // verus!
