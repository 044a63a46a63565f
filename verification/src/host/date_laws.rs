//! The calendar that timestamps are read by.

use crate::host::calendar::{
    days_before_month, days_before_year, epoch_days, is_date, is_leap, month_length,
};
use crate::host::time::{fraction_nanos, instant_of, stamp_text};
use crate::money::numeral::{digits_value, lemma_padded};
use crate::text::padded;
use crate::wire::timestamp::{clock_end, field, fraction, is_timestamp};
use vstd::prelude::*;

verus! {

/// Every fourth year is a leap year, but of the hundreds only every fourth.
pub proof fn law_leap_years(year: int)
    ensures
        year % 400 == 0 ==> is_leap(year),
        year % 100 == 0 && year % 400 != 0 ==> !is_leap(year),
        year % 4 == 0 && year % 100 != 0 ==> is_leap(year),
        year % 4 != 0 ==> !is_leap(year),
{
}

/// How many days a month has.
pub proof fn law_lengths_of_months(year: int, month: int)
    requires
        1 <= month <= 12,
    ensures
        month == 2 ==> month_length(year, month) == (if is_leap(year) {
            29int
        } else {
            28
        }),
        month != 2 ==> month_length(year, month) == seq![
            31int,
            0,
            31,
            30,
            31,
            30,
            31,
            31,
            30,
            31,
            30,
            31,
        ][month - 1],
{
}

/// Days are counted from the first of January 1970, and each day is one more than the day
/// before it: in a month, from month to month, and from year to year.
pub proof fn law_every_day_counts_one(year: int, month: int, day: int)
    requires
        is_date(year, month, day),
    ensures
        epoch_days(1970, 1, 1) == 0,
        day < month_length(year, month) ==> epoch_days(year, month, day + 1) == epoch_days(
            year,
            month,
            day,
        ) + 1,
        day == month_length(year, month) && month < 12 ==> epoch_days(year, month + 1, 1)
            == epoch_days(year, month, day) + 1,
        day == month_length(year, month) && month == 12 ==> epoch_days(year + 1, 1, 1)
            == epoch_days(year, month, day) + 1,
{
    reveal_with_fuel(days_before_month, 14);
    reveal_with_fuel(days_before_year, 2);
}

/// The instant of a timestamp in Coordinated Universal Time: the days since 1970, and the
/// hours, minutes and seconds of its clock; a zone that is ahead is taken off, and one that
/// is behind is put on.
pub proof fn law_what_instant_a_timestamp_names(b: Seq<u8>)
    requires
        is_timestamp(b),
        instant_of(b) is Some,
    ensures
        ({
            let days = epoch_days(
                field(b, 0, 4)->0 as int,
                field(b, 5, 7)->0 as int,
                field(b, 8, 10)->0 as int,
            );
            let clock = field(b, 11, 13)->0 * 3600 + field(b, 14, 16)->0 * 60 + field(b, 17, 19)->0;
            let (secs, nanos) = instant_of(b)->0;
            let z = clock_end(b);
            let ahead = field(b, z + 1, z + 3)->0 * 3600 + field(b, z + 4, z + 6)->0 * 60;
            &&& is_date(
                field(b, 0, 4)->0 as int,
                field(b, 5, 7)->0 as int,
                field(b, 8, 10)->0 as int,
            )
            &&& field(b, 17, 19)->0 < 60
            &&& b[z] == 90 || b[z] == 122 ==> secs == days * 86_400 + clock
            &&& b[z] == 43 ==> secs == days * 86_400 + clock - ahead
            &&& b[z] == 45 ==> secs == days * 86_400 + clock + ahead
            &&& b[z] == 90 || b[z] == 122 || b[z] == 43 || b[z] == 45
            &&& Some(nanos) == fraction_nanos(fraction(b))
        }),
{
}

/// A stamp is written as a date, a time of day, and a `Z`, each field with all its digits.
pub proof fn law_how_a_stamp_is_written(year: nat, month: nat, day: nat, second_of_day: nat)
    requires
        second_of_day < 86_400,
    ensures
        ({
            let text = stamp_text(year, month, day, second_of_day);
            let (hour, minute, second) = (
                second_of_day / 3600,
                second_of_day % 3600 / 60,
                second_of_day % 60,
            );
            &&& text.len() == 20
            &&& text.subrange(0, 4) == padded(year, 4)
            &&& text[4] == '-'
            &&& text.subrange(5, 7) == padded(month, 2)
            &&& text[7] == '-'
            &&& text.subrange(8, 10) == padded(day, 2)
            &&& text[10] == 'T'
            &&& text.subrange(11, 13) == padded(hour, 2)
            &&& text[13] == ':'
            &&& text.subrange(14, 16) == padded(minute, 2)
            &&& text[16] == ':'
            &&& text.subrange(17, 19) == padded(second, 2)
            &&& text[19] == 'Z'
        }),
{
    let text = stamp_text(year, month, day, second_of_day);
    lemma_padded(year, 4);
    lemma_padded(month, 2);
    lemma_padded(day, 2);
    lemma_padded(second_of_day / 3600, 2);
    lemma_padded(second_of_day % 3600 / 60, 2);
    lemma_padded(second_of_day % 60, 2);
    assert(text.subrange(0, 4) =~= padded(year, 4));
    assert(text.subrange(5, 7) =~= padded(month, 2));
    assert(text.subrange(8, 10) =~= padded(day, 2));
    assert(text.subrange(11, 13) =~= padded(second_of_day / 3600, 2));
    assert(text.subrange(14, 16) =~= padded(second_of_day % 3600 / 60, 2));
    assert(text.subrange(17, 19) =~= padded(second_of_day % 60, 2));
}

/// Where a timestamp's fields are, and in which bounds.
pub proof fn law_what_a_timestamp_is(b: Seq<u8>)
    ensures
        is_timestamp(b) <==> {
            &&& b.len() >= 20
            &&& field(b, 0, 4) is Some
            &&& b[4] == 45
            &&& field(b, 5, 7) is Some && 1 <= field(b, 5, 7)->0 <= 12
            &&& b[7] == 45
            &&& field(b, 8, 10) is Some && 1 <= field(b, 8, 10)->0 <= 31
            &&& b[10] == 84 || b[10] == 116
            &&& field(b, 11, 13) is Some && field(b, 11, 13)->0 <= 23
            &&& b[13] == 58
            &&& field(b, 14, 16) is Some && field(b, 14, 16)->0 <= 59
            &&& b[16] == 58
            &&& field(b, 17, 19) is Some && field(b, 17, 19)->0 <= 60
            &&& b[19] == 46 ==> clock_end(b) > 20
            &&& {
                let z = clock_end(b);
                ||| b.len() == z + 1 && (b[z] == 90 || b[z] == 122)
                ||| {
                    &&& b.len() == z + 6
                    &&& b[z] == 43 || b[z] == 45
                    &&& b[z + 3] == 58
                    &&& field(b, z + 1, z + 3) is Some && field(b, z + 1, z + 3)->0 <= 23
                    &&& field(b, z + 4, z + 6) is Some && field(b, z + 4, z + 6)->0 <= 59
                }
            }
        },
{
}

/// A field is made of digits and has their value.
pub proof fn law_what_a_field_is(b: Seq<u8>, from: int, to: int)
    requires
        0 <= from < to <= b.len(),
    ensures
        field(b, from, to) is Some <==> forall|i: int| from <= i < to ==> 48 <= #[trigger] b[i] <= 57,
        field(b, from, to) is Some ==> field(b, from, to)->0 == digits_value(b.subrange(from, to)),
{
    let part = b.subrange(from, to);
    if field(b, from, to) is Some {
        assert forall|i: int| from <= i < to implies 48 <= #[trigger] b[i] <= 57 by {
            assert(b[i] == part[i - from]);
        }
    }
    if forall|i: int| from <= i < to ==> 48 <= #[trigger] b[i] <= 57 {
        assert forall|k: int| 0 <= k < part.len() implies 48 <= #[trigger] part[k] <= 57 by {
            assert(part[k] == b[k + from]);
        }
    }
}

/// The value of digits, from the front: each digit behind is ten times less.
pub proof fn law_the_value_of_digits(s: Seq<u8>, d: u8)
    requires
        48 <= d <= 57,
    ensures
        digits_value(Seq::empty()) == 0,
        digits_value(s.push(d)) == digits_value(s) * 10 + (d - 48),
{
    assert(s.push(d).drop_last() =~= s);
}

} // verus!
