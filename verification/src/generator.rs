//! A deterministic workload generator for demos, load tests, and benchmarks.
//!
//! Given a fixed seed it produces a reproducible stream of [`ProduceRecord`]s
//! with a bounded key space, so runs are comparable across machines.

use crate::record;
use crate::record::{ProduceRecord, ProduceRecordView};
use crate::text;
use crate::units::MAX_PAYLOAD_BYTES;
use vstd::prelude::*;
use vstd::string::*;
use vstd::utf8::*;

verus! {

/// One step of the xorshift generator.
pub open spec fn xorshift(x: u64) -> u64 {
    let a = x ^ (x << 13u64);
    let b = a ^ (a >> 7u64);
    b ^ (b << 17u64)
}

/// Bytes filled up with `.` to a length.
pub open spec fn filled(bytes: Seq<u8>, len: nat) -> Seq<u8> {
    if bytes.len() >= len {
        bytes
    } else {
        bytes + Seq::new((len - bytes.len()) as nat, |i: int| 46u8)
    }
}

/// What is known of a generator.
#[verifier::ext_equal]
pub struct GeneratorView {
    pub key_space: u64,
    pub payload_bytes: usize,
    pub state: u64,
    pub counter: u64,
}

impl GeneratorView {
    /// The generator after one more record.
    pub open spec fn stepped(self) -> GeneratorView {
        GeneratorView {
            state: xorshift(self.state),
            counter: (self.counter + 1) as u64,
            ..self
        }
    }

    /// The number of the key of the next record.
    pub open spec fn next_key(self) -> u64 {
        xorshift(self.state) % self.key_space
    }

    /// The next record: its key within the key space, and a payload that tells
    /// the key and how many records there have been.
    pub open spec fn next_record(self) -> ProduceRecordView {
        let key = text::decimal(self.next_key() as nat);
        let count = text::decimal((self.counter + 1) as nat);
        ProduceRecordView {
            key: Some("key-"@ + key),
            payload: filled(
                encode_utf8("record-"@ + key + "-"@ + count),
                self.payload_bytes as nat,
            ),
        }
    }

    /// Whether the generator can go on: its keys are bounded, its payloads are
    /// not too large, and its count does not run out.
    pub open spec fn ready(self) -> bool {
        &&& self.key_space > 0
        &&& self.payload_bytes <= MAX_PAYLOAD_BYTES
        &&& self.counter < u64::MAX
    }
}

/// A reproducible producer-record generator backed by a small xorshift PRNG.
#[derive(Debug)]
pub struct RecordGenerator {
    key_space: u64,
    payload_bytes: usize,
    state: u64,
    counter: u64,
}

impl View for RecordGenerator {
    type V = GeneratorView;

    closed spec fn view(&self) -> GeneratorView {
        GeneratorView {
            key_space: self.key_space,
            payload_bytes: self.payload_bytes,
            state: self.state,
            counter: self.counter,
        }
    }
}

impl RecordGenerator {
    /// Create a generator over `key_space` distinct keys with `payload_bytes`
    /// payloads, seeded by `seed`.
    pub fn new(key_space: u64, payload_bytes: usize, seed: u64) -> (r: RecordGenerator)
        ensures
            r@ == (GeneratorView {
                key_space: if key_space == 0 {
                    1
                } else {
                    key_space
                },
                payload_bytes: if payload_bytes == 0 {
                    1
                } else {
                    payload_bytes
                },
                state: seed | 1,
                counter: 0,
            }),
    {
        RecordGenerator {
            key_space: if key_space == 0 {
                1
            } else {
                key_space
            },
            payload_bytes: if payload_bytes == 0 {
                1
            } else {
                payload_bytes
            },
            state: seed | 1,
            counter: 0,
        }
    }

    fn next_u64(&mut self) -> (r: u64)
        ensures
            r == xorshift(old(self)@.state),
            final(self)@ == (GeneratorView { state: r, ..old(self)@ }),
    {
        let x: u64 = self.state;
        let a: u64 = x ^ (x << 13u64);
        let b: u64 = a ^ (a >> 7u64);
        let c: u64 = b ^ (b << 17u64);
        self.state = c;
        c
    }

    /// Produce the next record in the sequence.
    pub fn next_record(&mut self) -> (r: ProduceRecord)
        requires
            old(self)@.ready(),
        ensures
            r@ == old(self)@.next_record(),
            record::payload_problem(r@.payload) is None,
            final(self)@ == old(self)@.stepped(),
    {
        let ghost was = self@;
        let key: u64 = self.next_u64() % self.key_space;
        self.counter = self.counter + 1;
        let key_text = text::to_decimal(key);
        let payload = "record-".to_owned().concat(key_text.as_str()).concat("-").concat(
            text::to_decimal(self.counter).as_str(),
        );
        let mut bytes = payload.as_str().as_bytes_vec();
        let ghost unfilled = bytes@;
        if bytes.len() < self.payload_bytes {
            bytes.resize(self.payload_bytes, 46u8);
        }
        assert(bytes@ =~= filled(unfilled, self.payload_bytes as nat));
        proof {
            law_generated_records_are_valid(was);
        }
        let label = "key-".to_owned().concat(key_text.as_str());
        ProduceRecord { key: Some(label), payload: bytes }
    }
}

/// Generated records are always valid, and their keys stay within the key
/// space.
pub proof fn law_generated_records_are_valid(g: GeneratorView)
    requires
        g.ready(),
    ensures
        record::payload_problem(g.next_record().payload) is None,
        g.next_key() < g.key_space,
{
    let key = text::decimal(g.next_key() as nat);
    let count = text::decimal((g.counter + 1) as nat);
    reveal_with_fuel(text::pow10, 21);
    text::lemma_decimal_is_short(g.next_key() as nat, 20);
    text::lemma_decimal_is_short((g.counter + 1) as nat, 20);
    reveal_strlit("record-");
    reveal_strlit("-");
    let line = "record-"@ + key + "-"@ + count;
    assert forall|i: int| 0 <= i < line.len() implies '\0' <= #[trigger] line[i] <= '\u{7f}' by {
        let a = 7 + key.len();
        if 7 <= i < a {
            assert(line[i] == key[i - 7]);
        } else if i > a {
            assert(line[i] == count[i - a - 1]);
        }
    }
    text::lemma_ascii_bytes(line);
}

/// The stream of records is a function of where the generator started: its
/// `i`-th record is that of the generator after `i` steps. So generators made
/// with the same settings and seed give the same records.
pub proof fn law_generation_is_reproducible(g: GeneratorView, n: nat)
    ensures
        stream(g, n).len() == n,
        forall|i: int|
            0 <= i < n ==> #[trigger] stream(g, n)[i] == after(g, i as nat).next_record(),
    decreases n,
{
    if n > 0 {
        law_generation_is_reproducible(g, (n - 1) as nat);
    }
}

/// A generator after `n` records.
pub open spec fn after(g: GeneratorView, n: nat) -> GeneratorView
    decreases n,
{
    if n == 0 {
        g
    } else {
        after(g, (n - 1) as nat).stepped()
    }
}

/// The next `n` records of a generator.
pub open spec fn stream(g: GeneratorView, n: nat) -> Seq<ProduceRecordView>
    decreases n,
{
    if n == 0 {
        Seq::empty()
    } else {
        stream(g, (n - 1) as nat).push(after(g, (n - 1) as nat).next_record())
    }
}

/// A step of the generator loses nothing: the state before it can be worked out
/// from the state after it, by undoing the shifts one by one. So it never falls
/// into the state of zero, which it could not leave, and no two states lead to the
/// same one.
pub proof fn law_xorshift_can_be_undone(x: u64)
    ensures
        ({
            let c = xorshift(x);
            let b = c ^ (c << 17u64) ^ (c << 34u64) ^ (c << 51u64);
            let a = b ^ (b >> 7u64) ^ (b >> 14u64) ^ (b >> 21u64) ^ (b >> 28u64) ^ (b >> 35u64) ^ (b
                >> 42u64) ^ (b >> 49u64) ^ (b >> 56u64) ^ (b >> 63u64);
            x == a ^ (a << 13u64) ^ (a << 26u64) ^ (a << 39u64) ^ (a << 52u64)
        }),
        x != 0 ==> xorshift(x) != 0,
{
    let a = x ^ (x << 13u64);
    let b = a ^ (a >> 7u64);
    let c = b ^ (b << 17u64);
    assert(b == c ^ (c << 17u64) ^ (c << 34u64) ^ (c << 51u64)) by (bit_vector)
        requires
            c == b ^ (b << 17u64),
    ;
    assert(a == b ^ (b >> 7u64) ^ (b >> 14u64) ^ (b >> 21u64) ^ (b >> 28u64) ^ (b >> 35u64) ^ (b
        >> 42u64) ^ (b >> 49u64) ^ (b >> 56u64) ^ (b >> 63u64)) by (bit_vector)
        requires
            b == a ^ (a >> 7u64),
    ;
    assert(x == a ^ (a << 13u64) ^ (a << 26u64) ^ (a << 39u64) ^ (a << 52u64)) by (bit_vector)
        requires
            a == x ^ (x << 13u64),
    ;
    assert(x != 0 ==> c != 0) by (bit_vector)
        requires
            a == x ^ (x << 13u64),
            b == a ^ (a >> 7u64),
            c == b ^ (b << 17u64),
    ;
}

/// A generated record tells its key, and its number in the stream: its key is one
/// of those of the key space, chosen by the state that the generator steps to; its
/// payload is at least as long as it should be, starts with the numbers of the key
/// and of the record, and is filled up with dots. Each record counts one further.
pub proof fn law_generated_records_tell_key_and_number(g: GeneratorView)
    requires
        g.ready(),
    ensures
        ({
            let r = g.next_record();
            let k = xorshift(g.state) as int % g.key_space as int;
            let text = encode_utf8(
                "record-"@ + text::decimal(k as nat) + "-"@ + text::decimal(
                    (g.counter + 1) as nat,
                ),
            );
            &&& 0 <= k < g.key_space
            &&& r.key matches Some(key) && key.len() > 4 && key.take(4) == "key-"@
                && text::digits_value(key.skip(4)) == k
            &&& r.payload.len() >= g.payload_bytes
            &&& text.len() >= g.payload_bytes ==> r.payload == text
            &&& r.payload.len() >= text.len() && r.payload.take(text.len() as int) == text
            &&& forall|i: int|
                text.len() <= i < r.payload.len() ==> #[trigger] r.payload[i] as int == '.' as int
            &&& text.len() < g.payload_bytes ==> r.payload.len() == g.payload_bytes
            &&& g.stepped().state == xorshift(g.state)
            &&& g.stepped().counter == g.counter + 1
            &&& g.stepped().key_space == g.key_space
            &&& g.stepped().payload_bytes == g.payload_bytes
        }),
{
    let r = g.next_record();
    let k = g.next_key();
    let text = encode_utf8(
        "record-"@ + text::decimal(k as nat) + "-"@ + text::decimal((g.counter + 1) as nat),
    );
    reveal_strlit("key-");
    text::law_decimal_read_back(k as nat);
    let key = r.key->Some_0;
    assert(key.take(4) =~= "key-"@);
    assert(key.skip(4) =~= text::decimal(k as nat));
    assert(r.payload.take(text.len() as int) =~= text);
}

} // verus!
