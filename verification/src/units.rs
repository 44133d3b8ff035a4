//! Strongly-typed newtypes for the commit-log domain.
//!
//! Every identifier and quantity is wrapped in a newtype, so that an
//! [`Offset`] can never be passed where a [`PartitionId`] is expected.

use crate::invalid::InvalidRecord;
use crate::text;
use vstd::prelude::*;
use vstd::string::*;
use vstd::utf8::*;

verus! {

/// Maximum length, in bytes, of a topic name.
pub const MAX_TOPIC_NAME_LEN: usize = 255;

/// Maximum size, in bytes, of a single record payload (1 MiB).
pub const MAX_PAYLOAD_BYTES: usize = 1024 * 1024;

/// A monotonically increasing position within a single partition's log.
///
/// Offsets start at zero and are dense: every appended record consumes exactly
/// one offset.
#[derive(Debug, Clone, Copy, PartialEq, Eq, PartialOrd, Ord, Hash, Structural)]
pub struct Offset(pub u64);

impl Offset {
    /// The very first offset in any partition.
    pub fn zero() -> (r: Offset)
        ensures
            r.0 == 0,
    {
        Offset(0)
    }

    /// The raw offset value.
    pub fn value(self) -> (r: u64)
        ensures
            r == self.0,
    {
        self.0
    }

    /// The next sequential offset.
    pub fn next(self) -> (r: Offset)
        requires
            self.0 < u64::MAX,
        ensures
            r.0 == self.0 + 1,
    {
        Offset(self.0 + 1)
    }

    /// Saturating distance from an earlier offset to this one.
    pub fn saturating_sub(self, other: Offset) -> (r: u64)
        ensures
            r == if self.0 >= other.0 {
                self.0 - other.0
            } else {
                0
            },
    {
        self.0.saturating_sub(other.0)
    }

    /// The offset in decimal.
    pub fn to_string(&self) -> (r: String)
        ensures
            r@ == text::decimal(self.0 as nat),
    {
        text::to_decimal(self.0)
    }
}

impl Default for Offset {
    fn default() -> (r: Offset)
        ensures
            r.0 == 0,
    {
        Offset(0)
    }
}

/// A zero-based partition index within a topic.
#[derive(Debug, Clone, Copy, PartialEq, Eq, PartialOrd, Ord, Hash, Structural)]
pub struct PartitionId(pub u32);

impl PartitionId {
    /// The raw partition index.
    pub fn value(self) -> (r: u32)
        ensures
            r == self.0,
    {
        self.0
    }

    /// The index in decimal.
    pub fn to_string(&self) -> (r: String)
        ensures
            r@ == text::decimal(self.0 as nat),
    {
        text::to_decimal(self.0 as u64)
    }
}

impl Default for PartitionId {
    fn default() -> (r: PartitionId)
        ensures
            r.0 == 0,
    {
        PartitionId(0)
    }
}

/// The base offset that identifies a log segment.
#[derive(Debug, Clone, Copy, PartialEq, Eq, PartialOrd, Ord, Hash, Structural)]
pub struct SegmentId(pub u64);

/// How many digits the text of a segment id has.
pub const SEGMENT_ID_DIGITS: usize = 20;

impl SegmentId {
    /// The raw base offset of the segment.
    pub fn value(self) -> (r: u64)
        ensures
            r == self.0,
    {
        self.0
    }

    /// The base offset in decimal, zero-padded so that text order is offset
    /// order.
    pub fn to_string(&self) -> (r: String)
        ensures
            r@ == text::fixed_digits(self.0 as nat, SEGMENT_ID_DIGITS as nat),
    {
        text::to_fixed_digits(self.0, SEGMENT_ID_DIGITS)
    }
}

impl Default for SegmentId {
    fn default() -> (r: SegmentId)
        ensures
            r.0 == 0,
    {
        SegmentId(0)
    }
}

/// The characters that a name may hold: ASCII letters and digits, and `-`,
/// `_` and `.`.
pub open spec fn name_char(c: char) -> bool {
    ||| 'a' <= c <= 'z'
    ||| 'A' <= c <= 'Z'
    ||| '0' <= c <= '9'
    ||| c == '-'
    ||| c == '_'
    ||| c == '.'
}

/// What is wrong with a name that may take up to `max_bytes` bytes.
pub open spec fn name_problem(name: Seq<char>, max_bytes: nat) -> Option<InvalidRecord> {
    if name.len() == 0 {
        Some(InvalidRecord::EmptyTopicName)
    } else if encode_utf8(name).len() > max_bytes {
        Some(InvalidRecord::TopicNameTooLong(encode_utf8(name).len() as usize))
    } else if exists|i: int| 0 <= i < name.len() && !#[trigger] name_char(name[i]) {
        Some(InvalidRecord::InvalidTopicChar)
    } else {
        None
    }
}

/// Finds what is wrong with a name that may take up to `max_bytes` bytes.
pub(crate) fn check_name(name: &str, max_bytes: usize) -> (r: Option<InvalidRecord>)
    ensures
        r == name_problem(name@, max_bytes as nat),
{
    if name.is_empty() {
        return Some(InvalidRecord::EmptyTopicName);
    }
    let bytes = name.as_bytes();
    if bytes.len() > max_bytes {
        return Some(InvalidRecord::TopicNameTooLong(bytes.len()));
    }
    if !name.is_ascii() {
        proof {
            let i = choose|i: int|
                0 <= i < name@.len() && !('\0' <= #[trigger] name@[i] <= '\u{7f}');
            assert(!name_char(name@[i]));
        }
        return Some(InvalidRecord::InvalidTopicChar);
    }
    proof {
        text::lemma_ascii_bytes(name@);
    }
    let mut i: usize = 0;
    while i < bytes.len()
        invariant
            i <= bytes@.len(),
            bytes@.len() == name@.len(),
            bytes@.len() <= max_bytes,
            name@.len() > 0,
            bytes@ == encode_utf8(name@),
            forall|k: int| 0 <= k < name@.len() ==> #[trigger] bytes@[k] as int == name@[k] as int,
            forall|k: int| 0 <= k < i ==> #[trigger] name_char(name@[k]),
        decreases bytes.len() - i,
    {
        let b: u8 = bytes[i];
        assert(b as int == name@[i as int] as int);
        let letter = (97 <= b && b <= 122) || (65 <= b && b <= 90);
        let numeric = 48 <= b && b <= 57;
        if !(letter || numeric || b == 45 || b == 95 || b == 46) {
            assert(!name_char(name@[i as int]));
            return Some(InvalidRecord::InvalidTopicChar);
        }
        i = i + 1;
    }
    None
}

/// A validated topic name.
///
/// Names must be non-empty, at most [`MAX_TOPIC_NAME_LEN`] bytes, and contain
/// only ASCII alphanumerics plus `-`, `_`, and `.` so they can safely be used
/// as on-disk directory names.
#[derive(Debug, PartialEq, Eq, PartialOrd, Ord, Hash)]
pub struct TopicName(String);

impl View for TopicName {
    type V = Seq<char>;

    closed spec fn view(&self) -> Seq<char> {
        self.0@
    }
}

impl Clone for TopicName {
    fn clone(&self) -> (r: TopicName)
        ensures
            r == *self,
    {
        proof {
            use_type_invariant(self);
        }
        TopicName(self.0.clone())
    }
}

impl TopicName {
    #[verifier::type_invariant]
    spec fn well_formed(self) -> bool {
        name_problem(self@, MAX_TOPIC_NAME_LEN as nat) is None
    }

    /// Validate and construct a topic name.
    pub fn new(name: String) -> (r: Result<TopicName, InvalidRecord>)
        ensures
            match (r, name_problem(name@, MAX_TOPIC_NAME_LEN as nat)) {
                (Ok(t), None) => t@ == name@,
                (Err(e), Some(problem)) => e == problem,
                _ => false,
            },
    {
        match check_name(name.as_str(), MAX_TOPIC_NAME_LEN) {
            Some(problem) => Err(problem),
            None => Ok(TopicName(name)),
        }
    }

    /// The topic name as a string slice.
    pub fn as_str(&self) -> (r: &str)
        ensures
            r@ == self@,
            name_problem(self@, MAX_TOPIC_NAME_LEN as nat) is None,
    {
        proof {
            use_type_invariant(self);
        }
        self.0.as_str()
    }

    /// The topic name as text.
    pub fn to_string(&self) -> (r: String)
        ensures
            r@ == self@,
    {
        self.0.clone()
    }
}

impl TryFrom<String> for TopicName {
    type Error = InvalidRecord;

    fn try_from(value: String) -> (r: Result<TopicName, InvalidRecord>)
        ensures
            match (r, name_problem(value@, MAX_TOPIC_NAME_LEN as nat)) {
                (Ok(t), None) => t@ == value@,
                (Err(e), Some(problem)) => e == problem,
                _ => false,
            },
    {
        TopicName::new(value)
    }
}

impl vstd::std_specs::convert::TryFromSpecImpl<String> for TopicName {
    open spec fn obeys_try_from_spec() -> bool {
        false
    }

    open spec fn try_from_spec(v: String) -> Result<TopicName, InvalidRecord> {
        Err(InvalidRecord::EmptyTopicName)
    }
}

impl From<TopicName> for String {
    fn from(value: TopicName) -> (r: String)
        ensures
            r@ == value@,
    {
        value.0
    }
}

impl vstd::std_specs::convert::FromSpecImpl<TopicName> for String {
    open spec fn obeys_from_spec() -> bool {
        true
    }

    closed spec fn from_spec(v: TopicName) -> String {
        v.0
    }
}

/// A name is valid exactly if it is not empty, not longer than it may be, and made
/// of ASCII letters and digits, `-`, `_` and `.` alone. The first of these that
/// fails is what is wrong with it.
pub proof fn law_names_are_checked(name: Seq<char>, max_bytes: nat)
    ensures
        ({
            let allowed = forall|i: int|
                0 <= i < name.len() ==> 'a' <= #[trigger] name[i] <= 'z' || 'A' <= name[i] <= 'Z'
                    || '0' <= name[i] <= '9' || name[i] == '-' || name[i] == '_' || name[i] == '.';
            let problem = name_problem(name, max_bytes);
            let size = encode_utf8(name).len();
            &&& problem is None <==> name.len() > 0 && size <= max_bytes && allowed
            &&& name.len() == 0 ==> problem == Some(InvalidRecord::EmptyTopicName)
            &&& name.len() > 0 && max_bytes < size <= usize::MAX ==> (
            problem matches Some(InvalidRecord::TopicNameTooLong(n)) && n == size)
            &&& name.len() > 0 && size <= max_bytes && !allowed ==> problem == Some(
                InvalidRecord::InvalidTopicChar,
            )
        }),
{
    if exists|i: int| 0 <= i < name.len() && !#[trigger] name_char(name[i]) {
        let i = choose|i: int| 0 <= i < name.len() && !#[trigger] name_char(name[i]);
        assert(!('a' <= name[i] <= 'z' || 'A' <= name[i] <= 'Z' || '0' <= name[i] <= '9'
            || name[i] == '-' || name[i] == '_' || name[i] == '.'));
    } else {
        assert forall|i: int| 0 <= i < name.len() implies 'a' <= #[trigger] name[i] <= 'z' || 'A'
            <= name[i] <= 'Z' || '0' <= name[i] <= '9' || name[i] == '-' || name[i] == '_'
            || name[i] == '.' by {
            assert(name_char(name[i]));
        }
    }
}

} // verus!
