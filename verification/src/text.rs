//! Text building blocks: decimal numerals and the byte order of names.

use vstd::prelude::*;
use vstd::string::*;
use vstd::utf8::*;

verus! {

/// The character of a decimal digit.
pub open spec fn digit(d: int) -> char {
    (48 + d) as char
}

/// The decimal numeral of `n`, without leading zeros.
pub open spec fn decimal(n: nat) -> Seq<char>
    decreases n,
{
    if n < 10 {
        seq![digit(n as int)]
    } else {
        decimal(n / 10).push(digit((n % 10) as int))
    }
}

/// The last `width` decimal digits of `n`, leading zeros included.
pub open spec fn fixed_digits(n: nat, width: nat) -> Seq<char>
    decreases width,
{
    if width == 0 {
        Seq::empty()
    } else {
        fixed_digits(n / 10, (width - 1) as nat).push(digit((n % 10) as int))
    }
}

/// Whether every character is a decimal digit.
pub open spec fn all_digits(s: Seq<char>) -> bool {
    forall|i: int| 0 <= i < s.len() ==> '0' <= #[trigger] s[i] <= '9'
}

/// The number that a string of decimal digits denotes.
pub open spec fn digits_value(s: Seq<char>) -> int
    decreases s.len(),
{
    if s.len() == 0 {
        0
    } else {
        digits_value(s.drop_last()) * 10 + (s.last() as int - 48)
    }
}

/// A numeral with its optional leading plus sign taken off.
pub open spec fn without_plus(s: Seq<char>) -> Seq<char> {
    if s.len() > 0 && s[0] == '+' {
        s.skip(1)
    } else {
        s
    }
}

/// The number written in `s`: an optional plus sign and one or more decimal
/// digits whose value fits in 64 bits. Anything else denotes no number.
pub open spec fn numeral_value(s: Seq<char>) -> Option<u64> {
    let body = without_plus(s);
    if body.len() > 0 && all_digits(body) && digits_value(body) <= u64::MAX {
        Some(digits_value(body) as u64)
    } else {
        None
    }
}

/// Byte-wise lexicographic order.
pub open spec fn bytes_before(a: Seq<u8>, b: Seq<u8>) -> bool
    decreases a.len(),
{
    if b.len() == 0 {
        false
    } else if a.len() == 0 {
        true
    } else if a[0] != b[0] {
        a[0] < b[0]
    } else {
        bytes_before(a.skip(1), b.skip(1))
    }
}

/// The order of strings: that of their UTF-8 bytes.
pub open spec fn before(a: Seq<char>, b: Seq<char>) -> bool {
    bytes_before(encode_utf8(a), encode_utf8(b))
}

/// A name for the text that `String::from_utf8_lossy` makes of `bytes`.
pub uninterp spec fn lossy_text(bytes: Seq<u8>) -> Seq<char>;

/// The text of bytes that are meant to be UTF-8.
pub open spec fn text_of(bytes: Seq<u8>) -> Seq<char> {
    if valid_utf8(bytes) {
        decode_utf8(bytes)
    } else {
        lossy_text(bytes)
    }
}

/// Calls `String::from_utf8_lossy`. Claimed: valid UTF-8 is decoded as it is,
/// and of other bytes the result depends on the bytes alone. How it replaces
/// what is not valid is left unsaid.
#[verifier::external_body]
pub(crate) fn utf8_lossy(bytes: &[u8]) -> (r: String)
    ensures
        r@ == if valid_utf8(bytes@) {
            decode_utf8(bytes@)
        } else {
            lossy_text(bytes@)
        },
{
    String::from_utf8_lossy(bytes).into_owned()
}

fn digit_text(d: u64) -> (r: &'static str)
    requires
        d < 10,
    ensures
        r@ == seq![digit(d as int)],
{
    proof {
        reveal_strlit("0");
        reveal_strlit("1");
        reveal_strlit("2");
        reveal_strlit("3");
        reveal_strlit("4");
        reveal_strlit("5");
        reveal_strlit("6");
        reveal_strlit("7");
        reveal_strlit("8");
        reveal_strlit("9");
    }
    match d {
        0 => "0",
        1 => "1",
        2 => "2",
        3 => "3",
        4 => "4",
        5 => "5",
        6 => "6",
        7 => "7",
        8 => "8",
        _ => "9",
    }
}

/// The decimal numeral of `n`.
pub fn to_decimal(n: u64) -> (r: String)
    ensures
        r@ == decimal(n as nat),
    decreases n,
{
    if n < 10 {
        digit_text(n).to_owned()
    } else {
        let mut s = to_decimal(n / 10);
        s.append(digit_text(n % 10));
        s
    }
}

/// The last `width` decimal digits of `n`, leading zeros included.
pub fn to_fixed_digits(n: u64, width: usize) -> (r: String)
    ensures
        r@ == fixed_digits(n as nat, width as nat),
    decreases width,
{
    if width == 0 {
        String::new()
    } else {
        let mut s = to_fixed_digits(n / 10, width - 1);
        s.append(digit_text(n % 10));
        s
    }
}

/// Reads an unsigned decimal number: see [`numeral_value`].
pub fn parse_u64(s: &str) -> (r: Option<u64>)
    ensures
        r == numeral_value(s@),
{
    let ghost body = without_plus(s@);
    if !s.is_ascii() {
        proof {
            if all_digits(body) {
                assert forall|i: int| 0 <= i < s@.len() implies '\0' <= #[trigger] s@[i]
                    <= '\u{7f}' by {
                    if s@[0] == '+' {
                        if i > 0 {
                            assert(body[i - 1] == s@[i]);
                        }
                    } else {
                        assert(body[i] == s@[i]);
                    }
                }
                assert(is_ascii_chars(s@));
            }
        }
        return None;
    }
    let bytes = s.as_bytes();
    let n: usize = bytes.len();
    proof {
        lemma_ascii_bytes(s@);
    }
    let start: usize = if n > 0 && bytes[0] == 43 {
        1
    } else {
        0
    };
    assert(body == s@.skip(start as int));
    if start == n {
        return None;
    }
    let mut value: u64 = 0;
    let mut i: usize = start;
    while i < n
        invariant
            start <= i <= n,
            n == bytes@.len() == s@.len(),
            start <= 1,
            start < n,
            body == s@.skip(start as int),
            body == without_plus(s@),
            forall|k: int| 0 <= k < n ==> #[trigger] bytes@[k] as int == s@[k] as int,
            all_digits(body.take(i - start)),
            value == digits_value(body.take(i - start)),
        decreases n - i,
    {
        let b: u8 = bytes[i];
        assert(body[i - start] == s@[i as int]);
        proof {
            let next = body.take(i - start + 1);
            assert(next.drop_last() =~= body.take(i - start));
            assert(next.last() == s@[i as int]);
        }
        if b < 48 || b > 57 {
            return None;
        }
        let d: u64 = (b - 48) as u64;
        match value.checked_mul(10) {
            None => {
                proof {
                    lemma_digits_value_grows(body, i - start + 1);
                }
                return None;
            },
            Some(tens) => {
                match tens.checked_add(d) {
                    None => {
                        proof {
                            lemma_digits_value_grows(body, i - start + 1);
                        }
                        return None;
                    },
                    Some(v) => {
                        value = v;
                    },
                }
            },
        }
        i = i + 1;
    }
    assert(body.take(n - start) =~= body);
    Some(value)
}

/// An ASCII string has one byte per character, of the same value.
pub(crate) proof fn lemma_ascii_bytes(s: Seq<char>)
    requires
        is_ascii_chars(s),
    ensures
        encode_utf8(s).len() == s.len(),
        forall|k: int| 0 <= k < s.len() ==> #[trigger] encode_utf8(s)[k] as int == s[k] as int,
{
    is_ascii_chars_encode_utf8(s);
    assert forall|k: int| 0 <= k < s.len() implies #[trigger] encode_utf8(s)[k] as int
        == s[k] as int by {
        assert(s[k] as u8 == encode_utf8(s)[k]);
    }
}

/// A longer numeral does not denote a smaller number.
proof fn lemma_digits_value_grows(s: Seq<char>, k: int)
    requires
        0 <= k <= s.len(),
    ensures
        all_digits(s) ==> 0 <= digits_value(s.take(k)) <= digits_value(s),
    decreases s.len(),
{
    if all_digits(s) {
        if k == s.len() {
            assert(s.take(k) =~= s);
            if s.len() > 0 {
                assert(all_digits(s.drop_last()));
                lemma_digits_value_grows(s.drop_last(), s.len() - 1);
                assert(s.drop_last().take(s.len() - 1) =~= s.drop_last());
                assert('0' <= s[s.len() - 1]);
            }
        } else {
            assert(all_digits(s.drop_last()));
            lemma_digits_value_grows(s.drop_last(), k);
            assert(s.drop_last().take(k) =~= s.take(k));
            assert('0' <= s[s.len() - 1]);
        }
    }
}

/// Decimal digits alone are read back as the number they were written from.
pub proof fn law_fixed_digits_read_back(n: nat, width: nat)
    requires
        n < pow10(width),
    ensures
        all_digits(fixed_digits(n, width)),
        fixed_digits(n, width).len() == width,
        digits_value(fixed_digits(n, width)) == n,
    decreases width,
{
    if width > 0 {
        let s = fixed_digits(n, width);
        law_fixed_digits_read_back(n / 10, (width - 1) as nat);
        assert(s.drop_last() =~= fixed_digits(n / 10, (width - 1) as nat));
    }
}

/// The first digit in which the numerals of two numbers differ tells which of
/// the numbers is smaller.
pub(crate) proof fn lemma_first_digit_decides(a: nat, b: nat, width: nat) -> (i: int)
    requires
        a < b < pow10(width),
    ensures
        0 <= i < width,
        fixed_digits(a, width).len() == width,
        fixed_digits(b, width).len() == width,
        forall|k: int| 0 <= k < i ==> fixed_digits(a, width)[k] == fixed_digits(b, width)[k],
        fixed_digits(a, width)[i] < fixed_digits(b, width)[i],
    decreases width,
{
    law_fixed_digits_read_back(a, width);
    law_fixed_digits_read_back(b, width);
    if a / 10 < b / 10 {
        law_fixed_digits_read_back(a / 10, (width - 1) as nat);
        law_fixed_digits_read_back(b / 10, (width - 1) as nat);
        lemma_first_digit_decides(a / 10, b / 10, (width - 1) as nat)
    } else {
        assert(a / 10 == b / 10);
        width - 1
    }
}

/// Bytes come before others if the first byte in which they differ is smaller.
pub(crate) proof fn lemma_first_byte_decides(a: Seq<u8>, b: Seq<u8>, i: int)
    requires
        0 <= i < a.len(),
        i < b.len(),
        forall|k: int| 0 <= k < i ==> a[k] == b[k],
        a[i] < b[i],
    ensures
        bytes_before(a, b),
    decreases i,
{
    if i > 0 {
        assert(a[0] == b[0]);
        lemma_first_byte_decides(a.skip(1), b.skip(1), i - 1);
    }
}

/// Ten to the power of `width`.
pub open spec fn pow10(width: nat) -> nat
    decreases width,
{
    if width == 0 {
        1
    } else {
        10 * pow10((width - 1) as nat)
    }
}

/// A decimal numeral is read back as the number it was written from.
pub proof fn law_decimal_read_back(n: nat)
    ensures
        all_digits(decimal(n)),
        decimal(n).len() > 0,
        digits_value(decimal(n)) == n,
        n <= u64::MAX ==> numeral_value(decimal(n)) == Some(n as u64),
    decreases n,
{
    let s = decimal(n);
    if n >= 10 {
        law_decimal_read_back(n / 10);
        assert(s.drop_last() =~= decimal(n / 10));
    } else {
        assert(s.drop_last() =~= Seq::<char>::empty());
        assert(s.last() == digit(n as int));
        assert(digits_value(s) == digits_value(s.drop_last()) * 10 + (s.last() as int - 48));
    }
    assert(s[0] != '+');
}

proof fn lemma_bytes_order(a: Seq<u8>, b: Seq<u8>)
    ensures
        !(bytes_before(a, b) && bytes_before(b, a)),
        a == b || bytes_before(a, b) || bytes_before(b, a),
        !bytes_before(a, a),
    decreases a.len(),
{
    if a.len() > 0 && b.len() > 0 {
        lemma_bytes_order(a.skip(1), b.skip(1));
        if a[0] == b[0] && a.skip(1) == b.skip(1) {
            assert(a =~= seq![a[0]] + a.skip(1));
            assert(b =~= seq![b[0]] + b.skip(1));
        }
    } else if a.len() == 0 && b.len() == 0 {
        assert(a =~= b);
    }
    if a.len() > 0 {
        lemma_bytes_order(a.skip(1), a.skip(1));
    }
}

proof fn lemma_bytes_transitive(a: Seq<u8>, b: Seq<u8>, c: Seq<u8>)
    requires
        bytes_before(a, b),
        bytes_before(b, c),
    ensures
        bytes_before(a, c),
    decreases a.len(),
{
    if a.len() > 0 && b.len() > 0 && c.len() > 0 && a[0] == b[0] && b[0] == c[0] {
        lemma_bytes_transitive(a.skip(1), b.skip(1), c.skip(1));
    }
}

/// The order of strings is a strict total order.
pub proof fn law_before_is_total(a: Seq<char>, b: Seq<char>)
    ensures
        !before(a, a),
        !(before(a, b) && before(b, a)),
        a == b || before(a, b) || before(b, a),
{
    lemma_bytes_order(encode_utf8(a), encode_utf8(b));
    lemma_bytes_order(encode_utf8(a), encode_utf8(a));
    encode_utf8_decode_utf8(a);
    encode_utf8_decode_utf8(b);
}

/// The order of strings is transitive.
pub proof fn law_before_is_transitive(a: Seq<char>, b: Seq<char>, c: Seq<char>)
    requires
        before(a, b),
        before(b, c),
    ensures
        before(a, c),
{
    lemma_bytes_transitive(encode_utf8(a), encode_utf8(b), encode_utf8(c));
}

/// Whether `a` comes before `b` in the order of strings.
pub fn comes_before(a: &str, b: &str) -> (r: bool)
    ensures
        r == before(a@, b@),
{
    let x = a.as_bytes();
    let y = b.as_bytes();
    let mut i: usize = 0;
    assert(x@.skip(0) =~= x@);
    assert(y@.skip(0) =~= y@);
    while i < x.len() && i < y.len() && x[i] == y[i]
        invariant
            i <= x@.len(),
            i <= y@.len(),
            bytes_before(x@, y@) == bytes_before(x@.skip(i as int), y@.skip(i as int)),
        decreases x.len() - i,
    {
        assert(x@.skip(i as int).skip(1) =~= x@.skip(i as int + 1));
        assert(y@.skip(i as int).skip(1) =~= y@.skip(i as int + 1));
        i = i + 1;
    }
    i < y.len() && (i == x.len() || x[i] < y[i])
}

/// Whether two strings are the same text.
pub fn same(a: &str, b: &str) -> (r: bool)
    ensures
        r == (a@ == b@),
{
    let x = a.as_bytes();
    let y = b.as_bytes();
    proof {
        encode_utf8_decode_utf8(a@);
        encode_utf8_decode_utf8(b@);
    }
    if x.len() != y.len() {
        return false;
    }
    let mut i: usize = 0;
    while i < x.len()
        invariant
            i <= x@.len(),
            x@.len() == y@.len(),
            x@ == encode_utf8(a@),
            y@ == encode_utf8(b@),
            forall|k: int| 0 <= k < i ==> x@[k] == y@[k],
        decreases x.len() - i,
    {
        if x[i] != y[i] {
            return false;
        }
        i = i + 1;
    }
    assert(x@ =~= y@);
    true
}

/// The decimal numeral of a number below ten to the power of `width` is ASCII
/// and has at most `width` digits.
pub(crate) proof fn lemma_decimal_is_short(n: nat, width: nat)
    requires
        n < pow10(width),
        width > 0,
    ensures
        0 < decimal(n).len() <= width,
        is_ascii_chars(decimal(n)),
    decreases width,
{
    if n >= 10 {
        lemma_decimal_is_short(n / 10, (width - 1) as nat);
    }
}

} // verus!
