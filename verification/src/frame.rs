//! The byte layout of stored records.
//!
//! A frame is little-endian and length-prefixed: the offset, the timestamp in
//! milliseconds, a key flag with the key behind it where there is one, and the
//! payload.

use crate::record;
use crate::record::{Record, RecordView};
use crate::text;
use crate::timestamp;
use crate::timestamp::Timestamp;
use crate::units::Offset;
use vstd::prelude::*;
use vstd::slice::*;
use vstd::string::*;
use vstd::utf8::*;

verus! {

/// The low `width` bytes of `x`, least significant first.
pub open spec fn le_bytes(x: int, width: nat) -> Seq<u8>
    decreases width,
{
    if width == 0 {
        Seq::empty()
    } else {
        seq![(x % 256) as u8] + le_bytes(x / 256, (width - 1) as nat)
    }
}

/// The number that bytes denote, least significant first.
pub open spec fn le_value(s: Seq<u8>) -> int
    decreases s.len(),
{
    if s.len() == 0 {
        0
    } else {
        s[0] as int + 256 * le_value(s.skip(1))
    }
}

/// How many numbers `width` bytes can tell apart.
pub open spec fn byte_range(width: nat) -> int
    decreases width,
{
    if width == 0 {
        1
    } else {
        256 * byte_range((width - 1) as nat)
    }
}

/// Two's complement in 64 bits.
pub open spec fn signed(v: int) -> int {
    if v < 0x8000_0000_0000_0000 {
        v
    } else {
        v - 0x1_0000_0000_0000_0000
    }
}

/// Bytes behind their length.
pub open spec fn prefixed(bytes: Seq<u8>) -> Seq<u8> {
    le_bytes(bytes.len() as int, 4) + bytes
}

/// A key flag, with the key behind it where there is one.
pub open spec fn key_frame(key: Option<Seq<char>>) -> Seq<u8> {
    match key {
        Some(k) => seq![1u8] + prefixed(encode_utf8(k)),
        None => seq![0u8],
    }
}

/// The bytes that store a record.
#[verifier::opaque]
pub open spec fn frame(r: RecordView) -> Seq<u8> {
    le_bytes(r.offset as int, 8) + le_bytes(r.timestamp.millis(), 8) + key_frame(r.key) + prefixed(
        r.payload,
    )
}

/// Where the length-prefixed bytes at `p` end, if they are all there.
pub open spec fn prefixed_end(data: Seq<u8>, p: int) -> Option<int> {
    if p + 4 > data.len() {
        None
    } else {
        let end = p + 4 + le_value(data.subrange(p, p + 4));
        if end > data.len() {
            None
        } else {
            Some(end)
        }
    }
}

/// The optional key at `p` and where it ends, if it is all there. Any flag but
/// one means that there is no key.
pub open spec fn key_at(data: Seq<u8>, p: int) -> Option<(Option<Seq<char>>, int)> {
    if p >= data.len() {
        None
    } else if data[p] != 1 {
        Some((None, p + 1))
    } else {
        match prefixed_end(data, p + 1) {
            Some(end) => Some((Some(text::text_of(data.subrange(p + 5, end))), end)),
            None => None,
        }
    }
}

/// The record at `p` and where its frame ends, if all of it is there and its
/// timestamp exists.
#[verifier::opaque]
pub open spec fn record_at(data: Seq<u8>, p: int) -> Option<(RecordView, int)> {
    if p < 0 || p + 16 > data.len() {
        None
    } else {
        match key_at(data, p + 16) {
            Some((key, q)) => match prefixed_end(data, q) {
                Some(end) => {
                    let at = timestamp::instant_at(signed(le_value(data.subrange(p + 8, p + 16))));
                    if at.valid() {
                        Some(
                            (
                                RecordView {
                                    offset: le_value(data.subrange(p, p + 8)) as u64,
                                    timestamp: at,
                                    key,
                                    payload: data.subrange(q + 4, end),
                                },
                                end,
                            ),
                        )
                    } else {
                        None
                    }
                },
                None => None,
            },
            None => None,
        }
    }
}

proof fn lemma_le_range(s: Seq<u8>)
    ensures
        0 <= le_value(s) < byte_range(s.len()),
    decreases s.len(),
{
    if s.len() > 0 {
        lemma_le_range(s.skip(1));
    }
}

proof fn lemma_le_read_back(x: int, width: nat)
    ensures
        le_bytes(x, width).len() == width,
        0 <= x < byte_range(width) ==> le_value(le_bytes(x, width)) == x,
    decreases width,
{
    if width > 0 {
        lemma_le_read_back(x / 256, (width - 1) as nat);
        let s = le_bytes(x, width);
        assert(s.skip(1) =~= le_bytes(x / 256, (width - 1) as nat));
        assert(s[0] as int == x % 256);
    }
}

proof fn lemma_ranges()
    ensures
        byte_range(4) == 0x1_0000_0000,
        byte_range(8) == 0x1_0000_0000_0000_0000,
{
    reveal_with_fuel(byte_range, 9);
}

/// Only the number's residue matters to its low bytes.
proof fn lemma_le_residue(x: int, y: int, width: nat)
    requires
        (x - y) % byte_range(width) == 0,
    ensures
        le_bytes(x, width) == le_bytes(y, width),
    decreases width,
{
    if width > 0 {
        let m = byte_range((width - 1) as nat);
        let d = x - y;
        let k = d / (256 * m);
        lemma_byte_range_positive((width - 1) as nat);
        assert(d == 256 * (k * m)) by (nonlinear_arith)
            requires
                d % (256 * m) == 0,
                k == d / (256 * m),
                m > 0,
        ;
        assert(x % 256 == y % 256);
        assert(x / 256 - y / 256 == k * m);
        assert((k * m) % m == 0) by (nonlinear_arith)
            requires
                m > 0,
        ;
        lemma_le_residue(x / 256, y / 256, (width - 1) as nat);
    }
}

proof fn lemma_byte_range_positive(width: nat)
    ensures
        byte_range(width) > 0,
    decreases width,
{
    if width > 0 {
        lemma_byte_range_positive((width - 1) as nat);
    }
}

/// Length-prefixed bytes take up at least the room of their length.
pub proof fn lemma_prefixed_end_advances(data: Seq<u8>, p: int)
    ensures
        prefixed_end(data, p) matches Some(end) ==> p + 4 <= end <= data.len(),
{
    if p + 4 <= data.len() {
        lemma_le_range(data.subrange(p, p + 4));
    }
}

fn push_le(buf: &mut Vec<u8>, x: u64, width: usize)
    ensures
        final(buf)@ == old(buf)@ + le_bytes(x as int, width as nat),
{
    let mut rest: u64 = x;
    let mut i: usize = 0;
    let ghost start = buf@;
    while i < width
        invariant
            i <= width,
            buf@ + le_bytes(rest as int, (width - i) as nat) == start + le_bytes(
                x as int,
                width as nat,
            ),
        decreases width - i,
    {
        let ghost was = buf@;
        buf.push((rest % 256) as u8);
        proof {
            let tail = le_bytes((rest / 256) as int, (width - i - 1) as nat);
            assert(le_bytes(rest as int, (width - i) as nat) == seq![(rest % 256) as u8] + tail);
            assert(was.push((rest % 256) as u8) + tail =~= was + (seq![(rest % 256) as u8] + tail));
        }
        rest = rest / 256;
        i = i + 1;
    }
    assert(buf@ + le_bytes(rest as int, 0) =~= buf@);
}

fn read_le(data: &[u8], p: usize, width: usize) -> (r: u64)
    requires
        width <= 8,
        p + width <= data@.len(),
    ensures
        r == le_value(data@.subrange(p as int, p + width)),
        r < byte_range(width as nat),
{
    let n: usize = data.len();
    let mut value: u64 = 0;
    let mut i: usize = width;
    assert(data@.subrange(p + width, p + width) =~= Seq::<u8>::empty());
    while i > 0
        invariant
            i <= width <= 8,
            p + width <= data@.len(),
            n == data@.len(),
            value == le_value(data@.subrange(p + i, p + width)),
            value < byte_range((width - i) as nat),
        decreases i,
    {
        i = i - 1;
        let ghost s = data@.subrange(p + i, p + width);
        proof {
            assert(s.skip(1) =~= data@.subrange(p + i + 1, p + width));
            lemma_le_range(s);
            lemma_range_bound((width - i) as nat);
        }
        let b: u8 = data[p + i];
        value = value * 256 + b as u64;
    }
    value
}

proof fn lemma_range_bound(width: nat)
    requires
        width <= 8,
    ensures
        byte_range(width) <= 0x1_0000_0000_0000_0000,
    decreases 8 - width,
{
    lemma_ranges();
    if width < 8 {
        lemma_range_bound(width + 1);
        lemma_byte_range_positive(width);
    }
}

fn to_twos_complement(x: i64) -> (r: u64)
    ensures
        (x - r) % 0x1_0000_0000_0000_0000 == 0,
        signed(r as int) == x,
{
    if x >= 0 {
        x as u64
    } else {
        u64::MAX - (-(x + 1)) as u64
    }
}

fn from_twos_complement(v: u64) -> (r: i64)
    ensures
        r == signed(v as int),
{
    if v < 0x8000_0000_0000_0000 {
        v as i64
    } else {
        -((u64::MAX - v) as i64) - 1
    }
}

/// Encode a single record, putting its frame behind what is in `buf`.
pub fn encode(record: &Record, buf: &mut Vec<u8>)
    ensures
        final(buf)@ == old(buf)@ + frame(record@),
{
    let ghost start = buf@;
    let ghost view = record@;
    proof {
        reveal(frame);
    }
    push_le(buf, record.offset.0, 8);
    let millis = record.timestamp.millis();
    let raw = to_twos_complement(millis);
    push_le(buf, raw, 8);
    proof {
        lemma_ranges();
        lemma_le_residue(millis as int, raw as int, 8);
    }
    match &record.key {
        Some(k) => {
            buf.push(1);
            let bytes = k.as_str().as_bytes();
            push_le(buf, bytes.len() as u64, 4);
            buf.extend_from_slice(bytes);
        },
        None => {
            buf.push(0);
        },
    }
    let ghost keyed = buf@;
    assert(keyed =~= start + (le_bytes(view.offset as int, 8) + le_bytes(
        view.timestamp.millis(),
        8,
    ) + key_frame(view.key)));
    push_le(buf, record.payload.len() as u64, 4);
    buf.extend_from_slice(record.payload.as_slice());
    assert(buf@ =~= keyed + prefixed(view.payload));
    assert(buf@ =~= start + frame(view));
}

fn find_prefixed_end(data: &[u8], p: usize) -> (r: Option<usize>)
    requires
        p <= data@.len(),
    ensures
        match (r, prefixed_end(data@, p as int)) {
            (Some(end), Some(e)) => end == e && p + 4 <= end,
            (None, None) => true,
            _ => false,
        },
{
    if data.len() - p < 4 {
        return None;
    }
    let n: u64 = read_le(data, p, 4);
    let room: usize = data.len() - p - 4;
    if n > room as u64 {
        return None;
    }
    Some(p + 4 + n as usize)
}

/// Decode one record from `data` starting at `pos`, returning the record and
/// the position immediately after it. Returns `None` on a clean end (a
/// truncated tail is treated as the end for crash tolerance).
pub fn decode(data: &[u8], pos: usize) -> (r: Option<(Record, usize)>)
    ensures
        match (r, record_at(data@, pos as int)) {
            (Some((record, end)), Some((view, e))) => record@ == view && end == e,
            (None, None) => true,
            _ => false,
        },
{
    proof {
        reveal(record_at);
    }
    if pos > data.len() || data.len() - pos < 16 {
        return None;
    }
    proof {
        lemma_ranges();
    }
    let offset: u64 = read_le(data, pos, 8);
    let millis: i64 = from_twos_complement(read_le(data, pos + 8, 8));
    let at: usize = pos + 16;
    if at == data.len() {
        return None;
    }
    let mut key: Option<String> = None;
    let mut q: usize = at + 1;
    if data[at] == 1 {
        match find_prefixed_end(data, at + 1) {
            None => {
                return None;
            },
            Some(end) => {
                key = Some(text::utf8_lossy(slice_subrange(data, at + 5, end)));
                q = end;
            },
        }
    }
    assert(key_at(data@, at as int) == Some((record::optional_text(key), q as int)));
    let end: usize = match find_prefixed_end(data, q) {
        None => {
            return None;
        },
        Some(end) => end,
    };
    let payload = slice_to_vec(slice_subrange(data, q + 4, end));
    match Timestamp::from_millis(millis) {
        None => None,
        Some(timestamp) => Some((Record { offset: Offset(offset), timestamp, key, payload }, end)),
    }
}

/// A record as it comes back from storage: the timestamp keeps its milliseconds.
pub open spec fn restored(r: RecordView) -> RecordView {
    RecordView { timestamp: timestamp::instant_at(r.timestamp.millis()), ..r }
}

/// Whether a frame can hold the record: key and payload are shorter than four
/// gibibytes each, and the timestamp, rounded to milliseconds, exists.
pub open spec fn storable(r: RecordView) -> bool {
    &&& r.key matches Some(k) ==> encode_utf8(k).len() < 0x1_0000_0000
    &&& r.payload.len() < 0x1_0000_0000
    &&& timestamp::instant_at(r.timestamp.millis()).valid()
}

proof fn lemma_signed_bytes(x: int)
    requires
        -0x8000_0000_0000_0000 <= x < 0x8000_0000_0000_0000,
    ensures
        le_bytes(x, 8).len() == 8,
        signed(le_value(le_bytes(x, 8))) == x,
{
    lemma_ranges();
    lemma_le_read_back(x, 8);
    if x < 0 {
        let y = x + 0x1_0000_0000_0000_0000;
        assert((x - y) % 0x1_0000_0000_0000_0000 == 0);
        lemma_le_residue(x, y, 8);
        lemma_le_read_back(y, 8);
    }
}

/// What a slice of a concatenation is.
proof fn lemma_slice_in(head: Seq<u8>, mid: Seq<u8>, tail: Seq<u8>)
    ensures
        (head + mid + tail).subrange(head.len() as int, (head.len() + mid.len()) as int) == mid,
{
    assert((head + mid + tail).subrange(head.len() as int, (head.len() + mid.len()) as int) =~= mid);
}

proof fn lemma_prefixed_reads_back(head: Seq<u8>, bytes: Seq<u8>, tail: Seq<u8>)
    requires
        bytes.len() < 0x1_0000_0000,
    ensures
        ({
            let data = head + prefixed(bytes) + tail;
            let p = head.len() as int;
            &&& prefixed_end(data, p) == Some(p + 4 + bytes.len())
            &&& data.subrange(p + 4, p + 4 + bytes.len()) == bytes
        }),
{
    let data = head + prefixed(bytes) + tail;
    let p = head.len() as int;
    let size = le_bytes(bytes.len() as int, 4);
    lemma_ranges();
    lemma_le_read_back(bytes.len() as int, 4);
    assert(data =~= head + size + (bytes + tail));
    lemma_slice_in(head, size, bytes + tail);
    assert(data =~= (head + size) + bytes + tail);
    lemma_slice_in(head + size, bytes, tail);
}

/// A frame is read back as the record it was written from, wherever in the data
/// it stands: offset, key and payload unchanged, the timestamp to the
/// millisecond. The frame ends where the next one begins.
pub proof fn law_frame_reads_back(head: Seq<u8>, r: RecordView, tail: Seq<u8>)
    requires
        storable(r),
    ensures
        record_at(head + frame(r) + tail, head.len() as int) == Some(
            (restored(r), (head.len() + frame(r).len()) as int),
        ),
{
    reveal(frame);
    reveal(record_at);
    let data = head + frame(r) + tail;
    let p = head.len() as int;
    let offset = le_bytes(r.offset as int, 8);
    let millis = le_bytes(r.timestamp.millis(), 8);
    let key = key_frame(r.key);
    let payload = prefixed(r.payload);
    lemma_ranges();
    lemma_le_read_back(r.offset as int, 8);
    lemma_signed_bytes(r.timestamp.millis());
    assert(data =~= head + offset + (millis + key + payload + tail));
    lemma_slice_in(head, offset, millis + key + payload + tail);
    assert(data =~= (head + offset) + millis + (key + payload + tail));
    lemma_slice_in(head + offset, millis, key + payload + tail);
    let before_key = head + offset + millis;
    match r.key {
        Some(k) => {
            let bytes = encode_utf8(k);
            assert(data =~= (before_key + seq![1u8]) + prefixed(bytes) + (payload + tail));
            lemma_prefixed_reads_back(before_key + seq![1u8], bytes, payload + tail);
            encode_utf8_valid_utf8(k);
            encode_utf8_decode_utf8(k);
            assert(data[p + 16] == 1u8);
        },
        None => {
            assert(data[p + 16] == 0u8);
        },
    }
    lemma_le_read_back(r.payload.len() as int, 4);
    match r.key {
        Some(k) => {
            lemma_le_read_back(encode_utf8(k).len() as int, 4);
        },
        None => {},
    }
    let before_payload = before_key + key;
    assert(data =~= before_payload + payload + tail);
    lemma_prefixed_reads_back(before_payload, r.payload, tail);
}

/// Cutting length-prefixed bytes short leaves nothing to read.
proof fn lemma_prefixed_cut(head: Seq<u8>, bytes: Seq<u8>, cut: int)
    requires
        bytes.len() < 0x1_0000_0000,
        0 <= cut < prefixed(bytes).len(),
    ensures
        prefixed_end(head + prefixed(bytes).take(cut), head.len() as int) is None,
{
    let data = head + prefixed(bytes).take(cut);
    let p = head.len() as int;
    let size = le_bytes(bytes.len() as int, 4);
    lemma_ranges();
    lemma_le_read_back(bytes.len() as int, 4);
    if cut >= 4 {
        assert(data.subrange(p, p + 4) =~= size);
    }
}

/// A frame that was cut short, as by a crash in the middle of a write, is not
/// taken for a record.
pub proof fn law_torn_frame_is_ignored(head: Seq<u8>, r: RecordView, cut: int)
    requires
        storable(r),
        0 <= cut < frame(r).len(),
    ensures
        record_at(head + frame(r).take(cut), head.len() as int) is None,
{
    reveal(frame);
    reveal(record_at);
    let torn = frame(r).take(cut);
    let data = head + torn;
    let p = head.len() as int;
    let offset = le_bytes(r.offset as int, 8);
    let millis = le_bytes(r.timestamp.millis(), 8);
    let key = key_frame(r.key);
    let payload = prefixed(r.payload);
    lemma_le_read_back(r.offset as int, 8);
    lemma_le_read_back(r.timestamp.millis(), 8);
    lemma_ranges();
    if cut > 16 {
        let before_key = head + offset + millis;
        let seen = cut - 16;
        assert(frame(r) =~= offset + millis + (key + payload));
        assert(data =~= before_key + (key + payload).take(seen));
        match r.key {
            Some(k) => {
                let bytes = encode_utf8(k);
                lemma_le_read_back(bytes.len() as int, 4);
                assert(key + payload =~= seq![1u8] + (prefixed(bytes) + payload));
                assert(data[p + 16] == (key + payload)[0]);
                if seen - 1 < prefixed(bytes).len() {
                    assert(data =~= (before_key + seq![1u8]) + prefixed(bytes).take(seen - 1));
                    lemma_prefixed_cut(before_key + seq![1u8], bytes, seen - 1);
                } else {
                    let left = seen - 1 - prefixed(bytes).len();
                    assert(data =~= (before_key + seq![1u8]) + prefixed(bytes) + payload.take(left));
                    lemma_prefixed_reads_back(before_key + seq![1u8], bytes, payload.take(left));
                    assert(data =~= (before_key + key) + payload.take(left));
                    lemma_prefixed_cut(before_key + key, r.payload, left);
                }
            },
            None => {
                assert(data[p + 16] == (key + payload)[0]);
                let left = seen - 1;
                assert(data =~= (before_key + key) + payload.take(left));
                lemma_prefixed_cut(before_key + key, r.payload, left);
            },
        }
    }
}

/// A frame holds at least the offset and the timestamp.
pub(crate) proof fn lemma_frame_is_not_empty(r: RecordView)
    ensures
        frame(r).len() > 0,
{
    reveal(frame);
    lemma_le_read_back(r.offset as int, 8);
}

/// How long the frame of a storable record can be.
pub(crate) proof fn lemma_frame_is_bounded(r: RecordView)
    requires
        storable(r),
    ensures
        0 < frame(r).len() <= 0x4_0000_0000,
{
    reveal(frame);
    lemma_le_read_back(r.offset as int, 8);
    lemma_le_read_back(r.timestamp.millis(), 8);
    lemma_le_read_back(r.payload.len() as int, 4);
    if let Some(k) = r.key {
        lemma_le_read_back(encode_utf8(k).len() as int, 4);
    }
}

/// What comes back from storage is the record that was stored: its offset, its
/// key and its payload unchanged, and its timestamp cut to the millisecond. A
/// timestamp of whole milliseconds comes back as it was.
pub proof fn law_restoring_keeps_the_record(r: RecordView)
    requires
        r.timestamp.valid(),
    ensures
        restored(r).offset == r.offset,
        restored(r).key == r.key,
        restored(r).payload == r.payload,
        ({
            let was = r.timestamp.seconds * 1_000_000_000 + r.timestamp.nanos;
            let now = restored(r).timestamp.seconds * 1_000_000_000 + restored(r).timestamp.nanos;
            &&& now <= was < now + 1_000_000
            &&& now % 1_000_000 == 0
        }),
        r.timestamp.nanos < 1_000_000_000 && r.timestamp.nanos % 1_000_000 == 0 ==> restored(r)
            == r,
{
}

/// Whatever a producer may submit can be stored: a record with a valid payload, a
/// key shorter than four gibibytes, and a timestamp that is not within a leap
/// second.
pub proof fn law_valid_records_can_be_stored(r: RecordView)
    requires
        0 < r.payload.len() <= 1_048_576,
        r.key matches Some(k) ==> encode_utf8(k).len() < 0x1_0000_0000,
        r.timestamp.valid(),
        r.timestamp.nanos < 1_000_000_000,
    ensures
        storable(r),
{
}

} // verus!
