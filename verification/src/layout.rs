//! Names of files and directories in the durable log.
//!
//! ```text
//! <root>/<topic>/topic.json
//! <root>/<topic>/<partition>/<base>.log
//! ```
//!
//! A topic's directory bears its name, but for the two names that mean another
//! directory in every path.

use crate::text;
use crate::units;
use crate::units::{SegmentId, TopicName, MAX_TOPIC_NAME_LEN};
use vstd::prelude::*;
use vstd::seq_lib::*;
use vstd::string::*;
use vstd::utf8::*;

verus! {

/// The name of a segment's file: the base offset, zero-padded, with the suffix
/// of a record log.
pub open spec fn segment_name(base: u64) -> Seq<char> {
    text::fixed_digits(base as nat, units::SEGMENT_ID_DIGITS as nat) + ".log"@
}

/// The base offset that a file name tells: the number in front of the suffix of
/// a record log. Other names tell none.
pub open spec fn base_of(name: Seq<char>) -> Option<u64> {
    if name.len() >= 4 && name.skip(name.len() - 4) == ".log"@ {
        text::numeral_value(name.take(name.len() - 4))
    } else {
        None
    }
}

/// The base offsets that the names of a list tell, in the order of the list.
pub open spec fn bases_of(names: Seq<Seq<char>>) -> Seq<u64>
    decreases names.len(),
{
    if names.len() == 0 {
        Seq::empty()
    } else {
        match base_of(names.last()) {
            Some(base) => bases_of(names.drop_last()).push(base),
            None => bases_of(names.drop_last()),
        }
    }
}

/// The texts of a list of strings.
pub open spec fn texts(names: Seq<String>) -> Seq<Seq<char>> {
    names.map_values(|n: String| n@)
}

/// Whether a text is a valid name of a topic.
pub open spec fn topic_name(name: Seq<char>) -> bool {
    units::name_problem(name, MAX_TOPIC_NAME_LEN as nat) is None
}

/// The name of a topic's directory under the root: the name of the topic, with a
/// sign that no name holds in front of `.` and `..`.
pub open spec fn topic_dir_name(topic: Seq<char>) -> Seq<char> {
    if topic == "."@ || topic == ".."@ {
        "@"@ + topic
    } else {
        topic
    }
}

/// Whether a text names an entry of the directory that it is joined to: it is one
/// component of a path, and neither `.` nor `..`.
pub open spec fn entry_name(s: Seq<char>) -> bool {
    &&& s.len() > 0
    &&& s != "."@
    &&& s != ".."@
    &&& forall|i: int|
        0 <= i < s.len() ==> #[trigger] s[i] != '/' && s[i] != '\\' && s[i] != '\0'
}

/// Whether numbers ascend.
pub open spec fn ascending(s: Seq<u64>) -> bool {
    forall|i: int, j: int| 0 <= i <= j < s.len() ==> s[i] <= s[j]
}

/// The name of a segment's file.
pub fn segment_file_name(base: u64) -> (r: String)
    ensures
        r@ == segment_name(base),
{
    SegmentId(base).to_string().concat(".log")
}

/// The name of a topic's directory under the root: see [`topic_dir_name`].
pub fn topic_dir(name: &TopicName) -> (r: String)
    ensures
        r@ == topic_dir_name(name@),
        topic_name(name@),
        entry_name(r@),
{
    let text = name.as_str();
    let bytes = text.as_bytes();
    proof {
        reveal_strlit(".");
        reveal_strlit("..");
        assert forall|i: int| 0 <= i < name@.len() implies '\0' <= #[trigger] name@[i] <= '\u{7f}' by {
            assert(units::name_char(name@[i]));
        }
        text::lemma_ascii_bytes(name@);
        law_topic_dirs_are_kept_apart(name@, name@);
    }
    let one = bytes.len() == 1 && bytes[0] == 46;
    let two = bytes.len() == 2 && bytes[0] == 46 && bytes[1] == 46;
    assert(one == (name@ =~= "."@));
    assert(two == (name@ =~= ".."@));
    if one || two {
        "@".to_owned().concat(text)
    } else {
        name.to_string()
    }
}

/// Each topic has a directory of its own, right under the root.
pub proof fn law_topic_dirs_are_kept_apart(topic: Seq<char>, other: Seq<char>)
    requires
        topic_name(topic),
        topic_name(other),
    ensures
        topic_dir_name(topic) == topic_dir_name(other) <==> topic == other,
        entry_name(topic_dir_name(topic)),
{
    reveal_strlit("@");
    reveal_strlit(".");
    reveal_strlit("..");
    let dir = topic_dir_name(topic);
    assert(units::name_char(topic[0]));
    assert(units::name_char(other[0]));
    assert forall|i: int| 0 <= i < dir.len() implies #[trigger] dir[i] != '/' && dir[i] != '\\'
        && dir[i] != '\0' by {
        if dir == topic {
            assert(units::name_char(topic[i]));
        } else if i > 0 {
            assert(units::name_char(topic[i - 1]));
        }
    }
    if dir != topic {
        assert(dir[0] != "."@[0]);
        assert(dir[0] != ".."@[0]);
    }
    if dir == topic_dir_name(other) {
        if dir == topic {
            assert(dir[0] != '@');
        } else {
            assert(dir[0] == '@');
            assert(dir.skip(1) =~= topic);
            assert(topic_dir_name(other).skip(1) =~= other);
        }
    }
}

/// A number is written in ASCII.
proof fn lemma_numeral_is_ascii(s: Seq<char>)
    ensures
        text::numeral_value(s) is Some ==> is_ascii_chars(s),
{
    if text::numeral_value(s) is Some {
        let body = text::without_plus(s);
        assert forall|i: int| 0 <= i < s.len() implies '\0' <= #[trigger] s[i] <= '\u{7f}' by {
            if s[0] == '+' {
                if i > 0 {
                    assert(body[i - 1] == s[i]);
                }
            } else {
                assert(body[i] == s[i]);
            }
        }
    }
}

/// The base offset that a file name tells: see [`base_of`].
pub fn segment_base(name: &str) -> (r: Option<u64>)
    ensures
        r == base_of(name@),
{
    let ghost n = name@.len();
    proof {
        reveal_strlit(".log");
    }
    if !name.is_ascii() {
        proof {
            if base_of(name@) is Some {
                let stem = name@.take(n - 4);
                lemma_numeral_is_ascii(stem);
                assert(is_ascii_chars(".log"@));
                assert(name@ =~= stem + ".log"@);
                assert forall|i: int| 0 <= i < n implies '\0' <= #[trigger] name@[i] <= '\u{7f}' by {
                    if i < n - 4 {
                        assert(stem[i] == name@[i]);
                    } else {
                        assert(".log"@[i - (n - 4)] == name@[i]);
                    }
                }
            }
        }
        return None;
    }
    let bytes = name.as_bytes();
    proof {
        text::lemma_ascii_bytes(name@);
    }
    let len: usize = bytes.len();
    if len < 4 {
        return None;
    }
    let cut: usize = len - 4;
    if !(bytes[cut] == 46 && bytes[cut + 1] == 108 && bytes[cut + 2] == 111 && bytes[cut + 3]
        == 103) {
        proof {
            if name@.skip(n - 4) == ".log"@ {
                assert(name@.skip(n - 4)[0] == '.');
                assert(name@.skip(n - 4)[1] == 'l');
                assert(name@.skip(n - 4)[2] == 'o');
                assert(name@.skip(n - 4)[3] == 'g');
            }
        }
        return None;
    }
    assert(name@.skip(n - 4) =~= ".log"@);
    let stem = name.substring_ascii(0, cut);
    assert(stem@ =~= name@.take(n - 4));
    text::parse_u64(stem)
}

/// The base offsets that file names tell, in ascending order.
pub fn segment_bases(names: &Vec<String>) -> (r: Vec<u64>)
    ensures
        ascending(r@),
        r@.to_multiset() == bases_of(texts(names@)).to_multiset(),
{
    broadcast use group_to_multiset_ensures;

    let mut bases: Vec<u64> = Vec::new();
    let mut i: usize = 0;
    let ghost all = texts(names@);
    assert(all.take(0) =~= Seq::<Seq<char>>::empty());
    assert(bases@ =~= bases_of(all.take(0)));
    while i < names.len()
        invariant
            i <= names@.len(),
            all == texts(names@),
            ascending(bases@),
            bases@.to_multiset() == bases_of(all.take(i as int)).to_multiset(),
        decreases names.len() - i,
    {
        proof {
            let next = all.take(i as int + 1);
            assert(next.drop_last() =~= all.take(i as int));
            assert(next.last() == names@[i as int]@);
        }
        match segment_base(names[i].as_str()) {
            Some(base) => {
                let mut at: usize = 0;
                while at < bases.len() && bases[at] <= base
                    invariant
                        at <= bases@.len(),
                        forall|k: int| 0 <= k < at ==> bases@[k] <= base,
                    decreases bases.len() - at,
                {
                    at = at + 1;
                }
                let ghost was = bases@;
                bases.insert(at, base);
                proof {
                    to_multiset_insert(was, at as int, base);
                    to_multiset_build(bases_of(all.take(i as int)), base);
                    assert forall|a: int, b: int| 0 <= a <= b < bases@.len() implies bases@[a]
                        <= bases@[b] by {
                        if a < at && b > at {
                            assert(was[a] <= was[b - 1]);
                        } else if a == at && b > at {
                            assert(was[at as int] <= was[b - 1]);
                        } else if a > at {
                            assert(was[a - 1] <= was[b - 1]);
                        }
                    }
                }
            },
            None => {},
        }
        i = i + 1;
    }
    assert(all.take(all.len() as int) =~= all);
    bases
}

/// The directory names of a topic's partitions.
pub fn partition_dirs(count: u32) -> (r: Vec<String>)
    ensures
        texts(r@) == Seq::new(count as nat, |p: int| text::decimal(p as nat)),
{
    let mut dirs: Vec<String> = Vec::new();
    let mut p: u32 = 0;
    while p < count
        invariant
            p <= count,
            dirs@.len() == p,
            forall|k: int| 0 <= k < p ==> (#[trigger] dirs@[k])@ == text::decimal(k as nat),
        decreases count - p,
    {
        dirs.push(text::to_decimal(p as u64));
        p = p + 1;
    }
    assert(texts(dirs@) =~= Seq::new(count as nat, |p: int| text::decimal(p as nat)));
    dirs
}

/// A segment's file name tells the base offset that it was made from.
pub proof fn law_segment_name_tells_its_base(base: u64)
    ensures
        base_of(segment_name(base)) == Some(base),
{
    reveal_with_fuel(text::pow10, 21);
    let digits = text::fixed_digits(base as nat, units::SEGMENT_ID_DIGITS as nat);
    text::law_fixed_digits_read_back(base as nat, units::SEGMENT_ID_DIGITS as nat);
    let name = segment_name(base);
    reveal_strlit(".log");
    assert(name.skip(name.len() - 4) =~= ".log"@);
    assert(name.take(name.len() - 4) =~= digits);
    assert('0' <= digits[0] <= '9');
}

/// The names of segment files sort by their base offsets.
pub proof fn law_segment_names_sort_by_offset(a: u64, b: u64)
    requires
        a < b,
    ensures
        text::before(segment_name(a), segment_name(b)),
{
    let width = units::SEGMENT_ID_DIGITS as nat;
    reveal_with_fuel(text::pow10, 21);
    lemma_segment_name_bytes(a);
    lemma_segment_name_bytes(b);
    let i = text::lemma_first_digit_decides(a as nat, b as nat, width);
    let x = encode_utf8(segment_name(a));
    let y = encode_utf8(segment_name(b));
    let da = text::fixed_digits(a as nat, width);
    let db = text::fixed_digits(b as nat, width);
    assert forall|k: int| 0 <= k < i implies x[k] == y[k] by {
        assert(da[k] == db[k]);
    }
    text::lemma_first_byte_decides(x, y, i);
}

/// A segment's file name starts with the digits of its base, one byte each.
proof fn lemma_segment_name_bytes(base: u64)
    ensures
        ({
            let digits = text::fixed_digits(base as nat, units::SEGMENT_ID_DIGITS as nat);
            let bytes = encode_utf8(segment_name(base));
            &&& digits.len() == units::SEGMENT_ID_DIGITS
            &&& bytes.len() == digits.len() + 4
            &&& forall|k: int|
                0 <= k < digits.len() ==> #[trigger] bytes[k] as int == digits[k] as int
        }),
{
    reveal_with_fuel(text::pow10, 21);
    reveal_strlit(".log");
    let digits = text::fixed_digits(base as nat, units::SEGMENT_ID_DIGITS as nat);
    text::law_fixed_digits_read_back(base as nat, units::SEGMENT_ID_DIGITS as nat);
    let name = segment_name(base);
    assert forall|i: int| 0 <= i < name.len() implies '\0' <= #[trigger] name[i] <= '\u{7f}' by {
        if i < digits.len() {
            assert(name[i] == digits[i]);
        } else {
            assert(name[i] == ".log"@[i - digits.len()]);
        }
    }
    text::lemma_ascii_bytes(name);
    assert forall|k: int| 0 <= k < digits.len() implies #[trigger] encode_utf8(name)[k] as int
        == digits[k] as int by {
        assert(name[k] == digits[k]);
    }
}

} // verus!
