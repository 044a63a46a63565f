//! Timestamps as they are written on the wire.

use crate::money::numeral::{
    all_digits, digit_run, digits_value, is_digit, lemma_digit_run_is,
};
use vstd::prelude::*;
use vstd::utf8::encode_utf8;

verus! {

/// The number spelled by the bytes from `from` up to `to`, `None` when they are
/// not there or not all digits.
pub open spec fn field(b: Seq<u8>, from: int, to: int) -> Option<nat> {
    if 0 <= from < to <= b.len() && all_digits(b.subrange(from, to)) {
        Some(digits_value(b.subrange(from, to)))
    } else {
        None
    }
}

/// Where the clock ends: after the seconds, and after the fraction if there is one.
pub open spec fn clock_end(b: Seq<u8>) -> int {
    if b.len() > 19 && b[19] == 46 {
        20int + digit_run(b, 20)
    } else {
        19
    }
}

/// The digits of the fraction of a second.
pub open spec fn fraction(b: Seq<u8>) -> Seq<u8> {
    if clock_end(b) > 20 {
        b.subrange(20, clock_end(b))
    } else {
        Seq::empty()
    }
}

/// Whether a field is there and lies in a range.
pub open spec fn field_within(b: Seq<u8>, from: int, to: int, low: nat, high: nat) -> bool {
    field(b, from, to) matches Some(n) && low <= n <= high
}

/// Whether the bytes from `at` to the end are a zone: `Z`, or a sign and an offset.
pub open spec fn is_zone(b: Seq<u8>, at: int) -> bool {
    ||| b.len() == at + 1 && (b[at] == 90 || b[at] == 122)
    ||| b.len() == at + 6 && (b[at] == 43 || b[at] == 45) && b[at + 3] == 58 && field_within(
        b,
        at + 1,
        at + 3,
        0,
        23,
    ) && field_within(b, at + 4, at + 6, 0, 59)
}

/// The timestamps that the wire admits: `YYYY-MM-DDThh:mm:ss`, an optional
/// fraction of any length, and a zone. The day is not held against its month,
/// and a leap second is let through.
pub open spec fn is_timestamp(b: Seq<u8>) -> bool {
    &&& b.len() >= 20
    &&& field(b, 0, 4) is Some
    &&& b[4] == 45
    &&& field_within(b, 5, 7, 1, 12)
    &&& b[7] == 45
    &&& field_within(b, 8, 10, 1, 31)
    &&& b[10] == 84 || b[10] == 116
    &&& field_within(b, 11, 13, 0, 23)
    &&& b[13] == 58
    &&& field_within(b, 14, 16, 0, 59)
    &&& b[16] == 58
    &&& field_within(b, 17, 19, 0, 60)
    &&& b[19] == 46 ==> clock_end(b) > 20
    &&& is_zone(b, clock_end(b))
}

/// The number that ASCII digits spell, `None` if there are none or if not all
/// bytes are digits.
pub fn number(bytes: &[u8]) -> (r: Option<i64>)
    requires
        bytes.len() <= 18,
    ensures
        match r {
            Some(n) => bytes.len() > 0 && all_digits(bytes@) && n == digits_value(bytes@),
            None => bytes.len() == 0 || !all_digits(bytes@),
        },
{
    if bytes.len() == 0 {
        return None;
    }
    let mut n: i64 = 0;
    let mut i: usize = 0;
    let ghost mut bound: int = 1;
    proof {
        crate::money::numeral::lemma_pow10_zero();
    }
    while i < bytes.len()
        invariant
            i <= bytes.len() <= 18,
            all_digits(bytes@.subrange(0, i as int)),
            n == digits_value(bytes@.subrange(0, i as int)),
            0 <= n < bound,
            bound == crate::money::numeral::pow10(i as nat),
        decreases bytes.len() - i,
    {
        let byte = bytes[i];
        if byte < 48 || byte > 57 {
            proof {
                assert(!is_digit(bytes@[i as int]));
            }
            return None;
        }
        proof {
            let next = bytes@.subrange(0, i + 1);
            assert(next.drop_last() =~= bytes@.subrange(0, i as int));
            assert(next.last() == byte);
            assert forall|k: int| 0 <= k < next.len() implies is_digit(#[trigger] next[k]) by {
                if k < i {
                    assert(next[k] == bytes@.subrange(0, i as int)[k]);
                }
            }
            crate::money::numeral::lemma_pow10_step(i as nat);
            crate::money::numeral::lemma_pow10_monotone(i as nat, 17);
            lemma_pow10_17();
            bound = 10 * bound;
        }
        n = n * 10 + (byte - 48) as i64;
        i = i + 1;
    }
    proof {
        assert(bytes@.subrange(0, bytes.len() as int) =~= bytes@);
    }
    Some(n)
}

/// The field from `from` up to `to`, at most four digits wide.
pub fn read_field(bytes: &[u8], from: usize, to: usize) -> (r: Option<i64>)
    requires
        from < to,
        to - from <= 4,
    ensures
        match (r, field(bytes@, from as int, to as int)) {
            (Some(n), Some(m)) => n == m && 0 <= n <= 9999,
            (None, None) => true,
            _ => false,
        },
{
    if to > bytes.len() {
        return None;
    }
    proof {
        assert(bytes@.subrange(from as int, to as int).len() == to - from);
        if all_digits(bytes@.subrange(from as int, to as int)) {
            lemma_field_bound(bytes@.subrange(from as int, to as int));
        }
    }
    number(&bytes[from..to])
}

proof fn lemma_field_bound(s: Seq<u8>)
    requires
        all_digits(s),
        s.len() <= 4,
    ensures
        digits_value(s) <= 9999,
        s.len() <= 2 ==> digits_value(s) <= 99,
{
    reveal_with_fuel(digits_value, 5);
    if s.len() >= 1 {
        assert(is_digit(s[s.len() - 1]));
    }
    if s.len() >= 2 {
        assert(s.drop_last()[s.len() - 2] == s[s.len() - 2]);
        assert(is_digit(s[s.len() - 2]));
    }
    if s.len() >= 3 {
        assert(is_digit(s[s.len() - 3]));
    }
    if s.len() >= 4 {
        assert(is_digit(s[s.len() - 4]));
    }
}

/// Finds where the clock ends.
pub fn find_clock_end(bytes: &[u8]) -> (r: usize)
    requires
        bytes.len() >= 19,
    ensures
        r == clock_end(bytes@),
        19 <= r <= bytes.len(),
{
    if bytes.len() > 19 && bytes[19] == 46 {
        let mut end: usize = 20;
        while end < bytes.len() && 48 <= bytes[end] && bytes[end] <= 57
            invariant
                20 <= end <= bytes.len(),
                forall|i: int| 20 <= i < end ==> is_digit(#[trigger] bytes@[i]),
            decreases bytes.len() - end,
        {
            end = end + 1;
        }
        proof {
            lemma_digit_run_is(bytes@, 20, end as int);
        }
        end
    } else {
        19
    }
}

/// Whether a field is there and lies in a range.
fn check_field(bytes: &[u8], from: usize, to: usize, low: i64, high: i64) -> (r: bool)
    requires
        from < to,
        to - from <= 4,
        0 <= low <= high,
    ensures
        r == field_within(bytes@, from as int, to as int, low as nat, high as nat),
{
    match read_field(bytes, from, to) {
        Some(n) => low <= n && n <= high,
        None => false,
    }
}

/// Whether the bytes from `at` to the end are a zone.
fn check_zone(bytes: &[u8], at: usize) -> (r: bool)
    requires
        at <= bytes.len(),
    ensures
        r == is_zone(bytes@, at as int),
{
    let left = bytes.len() - at;
    if left == 1 {
        bytes[at] == 90 || bytes[at] == 122
    } else if left == 6 {
        (bytes[at] == 43 || bytes[at] == 45) && bytes[at + 3] == 58 && check_field(
            bytes,
            at + 1,
            at + 3,
            0,
            23,
        ) && check_field(bytes, at + 4, at + 6, 0, 59)
    } else {
        false
    }
}

/// Whether the bytes are a timestamp that the wire admits.
fn check_timestamp(bytes: &[u8]) -> (r: bool)
    ensures
        r == is_timestamp(bytes@),
{
    if bytes.len() < 20 || read_field(bytes, 0, 4).is_none() {
        return false;
    }
    if !(bytes[4] == 45 && bytes[7] == 45 && (bytes[10] == 84 || bytes[10] == 116) && bytes[13]
        == 58 && bytes[16] == 58) {
        return false;
    }
    if !(check_field(bytes, 5, 7, 1, 12) && check_field(bytes, 8, 10, 1, 31) && check_field(
        bytes,
        11,
        13,
        0,
        23,
    ) && check_field(bytes, 14, 16, 0, 59) && check_field(bytes, 17, 19, 0, 60)) {
        return false;
    }
    let end = find_clock_end(bytes);
    if bytes[19] == 46 && end == 20 {
        return false;
    }
    check_zone(bytes, end)
}

/// Says that a text is not a timestamp that the wire admits.
#[derive(Debug, Clone, Copy, PartialEq, Eq, Structural)]
pub struct MalformedTimestamp;

/// A timestamp, kept byte for byte as it was written.
#[derive(Debug, Eq, Hash)]
pub struct Rfc3339 {
    text: String,
}

impl View for Rfc3339 {
    type V = Seq<char>;

    closed spec fn view(&self) -> Seq<char> {
        self.text@
    }
}

impl Rfc3339 {
    #[verifier::type_invariant]
    spec fn admitted(self) -> bool {
        is_timestamp(encode_utf8(self.text@))
    }

    /// Takes `text` as a timestamp.
    pub fn new(text: &str) -> (r: Result<Rfc3339, MalformedTimestamp>)
        ensures
            match r {
                Ok(ts) => ts@ == text@ && is_timestamp(encode_utf8(text@)),
                Err(_) => !is_timestamp(encode_utf8(text@)),
            },
    {
        if check_timestamp(text.as_bytes()) {
            Ok(Rfc3339 { text: text.to_owned() })
        } else {
            Err(MalformedTimestamp)
        }
    }

    /// The text.
    pub fn as_str(&self) -> (r: &str)
        ensures
            r@ == self@,
            is_timestamp(encode_utf8(r@)),
    {
        proof {
            use_type_invariant(self);
        }
        self.text.as_str()
    }
}

impl Clone for Rfc3339 {
    fn clone(&self) -> (r: Self)
        ensures
            r@ == self@,
            r == self,
    {
        proof {
            use_type_invariant(self);
        }
        Rfc3339 { text: self.text.clone() }
    }
}

impl PartialEq for Rfc3339 {
    /// Equality of the texts.
    fn eq(&self, other: &Self) -> (r: bool) {
        self.text == other.text
    }
}

impl vstd::std_specs::cmp::PartialEqSpecImpl for Rfc3339 {
    open spec fn obeys_eq_spec() -> bool {
        true
    }

    open spec fn eq_spec(&self, other: &Self) -> bool {
        self@ == other@
    }
}

proof fn lemma_pow10_17()
    ensures
        crate::money::numeral::pow10(17) == 100_000_000_000_000_000,
{
    reveal_with_fuel(vstd::arithmetic::power::pow, 19);
}

} // verus!
