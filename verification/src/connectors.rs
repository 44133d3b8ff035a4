//! Reference connectors used by demos, tests, and as templates for real
//! source/sink implementations.

use crate::error::PortError;
use crate::generator;
use crate::generator::{GeneratorView, RecordGenerator};
use crate::record;
use crate::record::{copy_records, ProduceRecord, Record, RecordView};
use crate::text;
use vstd::prelude::*;
use vstd::string::*;

verus! {

fn collect(delivered: &mut Vec<Record>, records: &[Record])
    ensures
        record::views(final(delivered)@) == record::views(old(delivered)@) + record::views(
            records@,
        ),
{
    let ghost before = record::views(delivered@);
    let ghost incoming = record::views(records@);
    let mut i: usize = 0;
    assert(before + incoming.take(0) =~= before);
    while i < records.len()
        invariant
            i <= records@.len(),
            incoming == record::views(records@),
            record::views(delivered@) == before + incoming.take(i as int),
        decreases records.len() - i,
    {
        let ghost was = delivered@;
        let copy = records[i].clone();
        let ghost view = copy@;
        delivered.push(copy);
        proof {
            assert(view == incoming[i as int]);
            assert(record::views(delivered@) =~= record::views(was).push(view));
            assert(before + incoming.take(i as int + 1) =~= (before + incoming.take(
                i as int,
            )).push(view));
        }
        i = i + 1;
    }
    assert(incoming.take(incoming.len() as int) =~= incoming);
}

/// A sink that records every delivered record in memory (for tests/inspection).
#[derive(Debug)]
pub struct CollectingSink {
    delivered: Vec<Record>,
}

impl View for CollectingSink {
    type V = Seq<RecordView>;

    closed spec fn view(&self) -> Seq<RecordView> {
        record::views(self.delivered@)
    }
}

impl CollectingSink {
    /// Create an empty collecting sink.
    pub fn new() -> (r: CollectingSink)
        ensures
            r@ == Seq::<RecordView>::empty(),
    {
        let r = CollectingSink { delivered: Vec::new() };
        assert(r@ =~= Seq::<RecordView>::empty());
        r
    }

    /// A snapshot of all delivered records.
    pub fn delivered(&self) -> (r: Vec<Record>)
        ensures
            record::views(r@) == self@,
    {
        copy_records(&self.delivered)
    }

    /// Number of records delivered.
    pub fn len(&self) -> (r: usize)
        ensures
            r == self@.len(),
    {
        self.delivered.len()
    }

    /// Whether nothing has been delivered.
    pub fn is_empty(&self) -> (r: bool)
        ensures
            r == (self@.len() == 0),
    {
        self.delivered.len() == 0
    }

    /// Deliver a batch of records.
    pub fn deliver(&mut self, records: &[Record]) -> (r: Result<(), PortError>)
        ensures
            r is Ok,
            final(self)@ == old(self)@ + record::views(records@),
    {
        collect(&mut self.delivered, records);
        Ok(())
    }
}

/// The offset of the first record that a sink failing every `fail_every`-th
/// offset refuses; zero refuses none.
pub open spec fn first_poison(records: Seq<RecordView>, fail_every: u64) -> Option<u64>
    decreases records.len(),
{
    if records.len() == 0 {
        None
    } else if fail_every != 0 && records[0].offset % fail_every == 0 {
        Some(records[0].offset)
    } else {
        first_poison(records.skip(1), fail_every)
    }
}

/// A sink that deterministically fails records whose offset is a multiple of
/// `fail_every`, to exercise retry and dead-lettering. `fail_every == 0`
/// disables failures.
#[derive(Debug)]
pub struct FailingSink {
    fail_every: u64,
    delivered: Vec<Record>,
}

impl View for FailingSink {
    type V = Seq<RecordView>;

    closed spec fn view(&self) -> Seq<RecordView> {
        record::views(self.delivered@)
    }
}

impl FailingSink {
    /// Which offsets the sink fails.
    pub closed spec fn fail_every(self) -> u64 {
        self.fail_every
    }

    /// Create a sink that fails every `fail_every`-th offset.
    pub fn new(fail_every: u64) -> (r: FailingSink)
        ensures
            r@ == Seq::<RecordView>::empty(),
            r.fail_every() == fail_every,
    {
        let r = FailingSink { fail_every, delivered: Vec::new() };
        assert(r@ =~= Seq::<RecordView>::empty());
        r
    }

    /// Number of records successfully delivered.
    pub fn delivered_count(&self) -> (r: usize)
        ensures
            r == self@.len(),
    {
        self.delivered.len()
    }

    /// Deliver a batch of records, or none of it if it holds a poisoned one.
    pub fn deliver(&mut self, records: &[Record]) -> (r: Result<(), PortError>)
        ensures
            final(self).fail_every() == old(self).fail_every(),
            match first_poison(record::views(records@), old(self).fail_every()) {
                Some(offset) => {
                    &&& final(self)@ == old(self)@
                    &&& r matches Err(PortError::Permanent(why)) && why@
                        == "poison record at offset "@ + text::decimal(offset as nat)
                },
                None => {
                    &&& r is Ok
                    &&& final(self)@ == old(self)@ + record::views(records@)
                },
            },
    {
        let ghost all = record::views(records@);
        let mut i: usize = 0;
        assert(all.skip(0) =~= all);
        while i < records.len()
            invariant
                i <= records@.len(),
                *self == *old(self),
                all == record::views(records@),
                first_poison(all, self.fail_every) == first_poison(
                    all.skip(i as int),
                    self.fail_every,
                ),
            decreases records.len() - i,
        {
            proof {
                let rest = all.skip(i as int);
                assert(rest[0] == records@[i as int]@);
                assert(rest.skip(1) =~= all.skip(i as int + 1));
            }
            let offset = records[i].offset;
            if self.fail_every != 0 && offset.0 % self.fail_every == 0 {
                return Err(
                    PortError::Permanent(
                        "poison record at offset ".to_owned().concat(offset.to_string().as_str()),
                    ),
                );
            }
            i = i + 1;
        }
        collect(&mut self.delivered, records);
        Ok(())
    }
}

/// How many bytes a generated payload has at least.
const SOURCE_PAYLOAD_BYTES: usize = 32;

/// A source that generates a bounded number of synthetic records in batches,
/// then reports "no data" (empty polls) — useful for demos and load tests.
#[derive(Debug)]
pub struct GeneratorSource {
    generator: RecordGenerator,
    remaining: u64,
    batch_size: usize,
}

/// What is known of a generating source.
#[verifier::ext_equal]
pub struct GeneratorSourceView {
    pub generator: GeneratorView,
    pub remaining: u64,
    pub batch_size: usize,
}

impl View for GeneratorSource {
    type V = GeneratorSourceView;

    closed spec fn view(&self) -> GeneratorSourceView {
        GeneratorSourceView {
            generator: self.generator@,
            remaining: self.remaining,
            batch_size: self.batch_size,
        }
    }
}

impl GeneratorSourceView {
    /// How many records the next poll returns.
    pub open spec fn take(self) -> nat {
        if self.remaining <= self.batch_size {
            self.remaining as nat
        } else {
            self.batch_size as nat
        }
    }

    /// Whether the generator's count cannot run out before the source does.
    pub open spec fn wf(self) -> bool {
        &&& self.generator.key_space > 0
        &&& self.generator.payload_bytes <= crate::units::MAX_PAYLOAD_BYTES
        &&& self.generator.counter + self.remaining <= u64::MAX
        &&& self.batch_size > 0
    }
}

impl GeneratorSource {
    /// Create a source that will emit `total` records in `batch_size` chunks.
    pub fn new(total: u64, batch_size: usize, key_space: u64, seed: u64) -> (r: GeneratorSource)
        ensures
            r@.wf(),
            r@ == (GeneratorSourceView {
                generator: GeneratorView {
                    key_space: if key_space == 0 {
                        1
                    } else {
                        key_space
                    },
                    payload_bytes: 32,
                    state: seed | 1,
                    counter: 0,
                },
                remaining: total,
                batch_size: if batch_size == 0 {
                    1
                } else {
                    batch_size
                },
            }),
    {
        GeneratorSource {
            generator: RecordGenerator::new(key_space, SOURCE_PAYLOAD_BYTES, seed),
            remaining: total,
            batch_size: if batch_size == 0 {
                1
            } else {
                batch_size
            },
        }
    }

    /// Records still to be emitted.
    pub fn remaining(&self) -> (r: u64)
        ensures
            r == self@.remaining,
    {
        self.remaining
    }

    /// Poll for the next batch of records (an empty one means that there is no
    /// more data).
    pub fn poll(&mut self) -> (r: Vec<ProduceRecord>)
        requires
            old(self)@.wf(),
        ensures
            final(self)@.wf(),
            record::produce_views(r@) == generator::stream(
                old(self)@.generator,
                old(self)@.take(),
            ),
            final(self)@ == (GeneratorSourceView {
                generator: generator::after(old(self)@.generator, old(self)@.take()),
                remaining: (old(self)@.remaining - old(self)@.take()) as u64,
                ..old(self)@
            }),
    {
        let take: u64 = if self.remaining <= self.batch_size as u64 {
            self.remaining
        } else {
            self.batch_size as u64
        };
        let ghost was = self@;
        let mut out: Vec<ProduceRecord> = Vec::new();
        let mut i: u64 = 0;
        assert(record::produce_views(out@) =~= generator::stream(was.generator, 0));
        while i < take
            invariant
                i <= take,
                take == was.take(),
                was.wf(),
                self@ == (GeneratorSourceView {
                    generator: generator::after(was.generator, i as nat),
                    ..was
                }),
                self@.generator.key_space == was.generator.key_space,
                self@.generator.payload_bytes == was.generator.payload_bytes,
                self@.generator.counter == was.generator.counter + i,
                record::produce_views(out@) == generator::stream(was.generator, i as nat),
            decreases take - i,
        {
            let ghost so_far = out@;
            let next = self.generator.next_record();
            let ghost view = next@;
            out.push(next);
            assert(record::produce_views(out@) =~= record::produce_views(so_far).push(view));
            i = i + 1;
        }
        self.remaining = self.remaining - take;
        out
    }
}

/// A generating source emits exactly as many records as it was made for, in
/// batches of its size, and then nothing: each poll brings it nearer to its end
/// by as many records as it returned.
pub proof fn law_source_drains(s: GeneratorSourceView)
    requires
        s.wf(),
    ensures
        s.take() <= s.batch_size,
        s.take() == 0 <==> s.remaining == 0,
        s.take() <= s.remaining,
        generator::stream(s.generator, s.take()).len() == s.take(),
{
    generator::law_generation_is_reproducible(s.generator, s.take());
}

/// A failing sink refuses a batch exactly if one of its records has an offset that
/// is a multiple of the sink's number, and names the first such record; a sink of
/// number zero refuses none.
pub proof fn law_poison_is_every_multiple(records: Seq<RecordView>, fail_every: u64)
    ensures
        fail_every == 0 ==> first_poison(records, fail_every) is None,
        fail_every != 0 ==> match first_poison(records, fail_every) {
            None => forall|i: int|
                0 <= i < records.len() ==> (#[trigger] records[i]).offset % fail_every != 0,
            Some(offset) => offset % fail_every == 0 && exists|i: int|
                0 <= i < records.len() && (#[trigger] records[i]).offset == offset && forall|j: int|
                    0 <= j < i ==> (#[trigger] records[j]).offset % fail_every != 0,
        },
    decreases records.len(),
{
    if records.len() > 0 {
        let rest = records.skip(1);
        law_poison_is_every_multiple(rest, fail_every);
        if fail_every != 0 && records[0].offset % fail_every != 0 {
            match first_poison(rest, fail_every) {
                None => {
                    assert forall|i: int| 0 <= i < records.len() implies (
                    #[trigger] records[i]).offset % fail_every != 0 by {
                        if i > 0 {
                            assert(rest[i - 1] == records[i]);
                        }
                    }
                },
                Some(offset) => {
                    let k = choose|k: int|
                        0 <= k < rest.len() && (#[trigger] rest[k]).offset == offset
                            && forall|j: int|
                            0 <= j < k ==> (#[trigger] rest[j]).offset % fail_every != 0;
                    assert(records[k + 1].offset == offset);
                    assert forall|j: int| 0 <= j < k + 1 implies (
                    #[trigger] records[j]).offset % fail_every != 0 by {
                        if j > 0 {
                            assert(rest[j - 1] == records[j]);
                        }
                    }
                },
            }
        } else if fail_every != 0 {
            assert(records[0].offset % fail_every == 0);
        }
    }
}

/// A generating source gives full batches until fewer records are left, and then
/// those.
pub proof fn law_source_gives_full_batches(s: GeneratorSourceView)
    ensures
        s.remaining >= s.batch_size ==> s.take() == s.batch_size,
        s.remaining < s.batch_size ==> s.take() == s.remaining,
{
}

} // verus!
