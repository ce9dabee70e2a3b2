//! Days, counted: the proleptic Gregorian calendar and the clock.
//!
//! What is counted is what the engine stores. A date is days from 1970-01-01 and
//! a time is nanoseconds from midnight, and this is the arithmetic between those
//! counts and the fields a person reads.

use vstd::prelude::*;

use crate::text::{counted, digits, law_a_number_is_its_digits, lemma_digits_differ, lemma_digits_some};

verus! {

/// The nanoseconds in a second.
pub const SECOND: i64 = 1_000_000_000;

/// The nanoseconds in a day.
pub const DAY: i64 = 86_400_000_000_000;

/// Whether a year of the Gregorian calendar holds a 29 February.
pub open spec fn leap(year: int) -> bool {
    year % 4 == 0 && (year % 100 != 0 || year % 400 == 0)
}

/// How many days a month of a year holds.
pub open spec fn month_days(year: int, month: int) -> int {
    if month == 2 {
        if leap(year) { 29 } else { 28 }
    } else if month == 4 || month == 6 || month == 9 || month == 11 {
        30
    } else {
        31
    }
}

/// Whether these three are a day of the calendar.
pub open spec fn dated(year: int, month: int, day: int) -> bool {
    1 <= month <= 12 && 1 <= day <= month_days(year, month)
}

/// How many days the year holds before the first of a month.
pub open spec fn days_before_month(year: int, month: int) -> int
    decreases month,
{
    if month <= 1 { 0 } else { days_before_month(year, month - 1) + month_days(year, month - 1) }
}

/// How many days lie between 0001-01-01 and the first of a year, which is 365 a
/// year and one more for every leap year among them.
pub open spec fn days_before_year(year: int) -> int {
    365 * (year - 1) + (year - 1) / 4 - (year - 1) / 100 + (year - 1) / 400
}

/// The days from 1970-01-01 to a day of the calendar.
pub open spec fn day_number(year: int, month: int, day: int) -> int {
    days_before_year(year) + days_before_month(year, month) + (day - 1) - 719_162
}

/// Whether a count of days from 1970-01-01 is this day of the calendar.
pub open spec fn falls_on(days: int, year: int, month: int, day: int) -> bool {
    dated(year, month, day) && day_number(year, month, day) == days
}

/// A quotient cut off towards zero.
pub open spec fn quotient(n: int, d: int) -> int {
    if n >= 0 { n / d } else { -((-n) / d) }
}

/// What is left over by [`quotient`], with the sign of what was divided.
pub open spec fn remainder(n: int, d: int) -> int {
    n - quotient(n, d) * d
}

/// How many days of a year that starts in March lie before a month of it.
pub open spec fn march_days(month: int) -> int {
    quotient(153 * (if month > 2 { month - 3 } else { month + 9 }) + 2, 5)
}

/// The days from 0000-03-01 to the first of a March.
pub open spec fn marches(year: int) -> int {
    365 * year + year / 4 - year / 100 + year / 400
}

/// The year that starts in March a month belongs to.
pub open spec fn march_year(year: int, month: int) -> int {
    if month <= 2 { year - 1 } else { year }
}

/// The days from 1970-01-01 to a year, a month and a day, whatever the three
/// are. It is [`day_number`] for the twelve months there are.
pub open spec fn days_from(year: int, month: int, day: int) -> int {
    marches(march_year(year, month)) + march_days(month) + day - 1 - 719_468
}

/// Whether every step of counting the days fits the word it is counted in.
pub open spec fn days_fit(year: int, month: int, day: int) -> bool {
    let y = march_year(year, month);
    let era = y / 400;
    let shifted = if month > 2 { month - 3 } else { month + 9 };
    let of_year = march_days(month) + day;
    let of_era = marches(y) - 146_097 * era + of_year - 1;
    &&& i64::MIN + 399 <= y
    &&& i64::MIN <= 153 * shifted && 153 * shifted + 2 <= i64::MAX
    &&& i64::MIN + 1 <= of_year <= i64::MAX
    &&& of_era <= i64::MAX
    &&& i64::MIN <= 146_097 * era <= i64::MAX
    &&& i64::MIN + 719_468 <= 146_097 * era + of_era <= i64::MAX
}

/// The calendar's own year starts where the March that is in it says it does.
proof fn lemma_march(year: int)
    ensures
        days_before_year(year) + days_before_month(year, 3) == marches(year) - 306,
{
    reveal_with_fuel(days_before_month, 4);
    assert(days_before_month(year, 3) == 59 + if leap(year) { 1int } else { 0int });
    assert((year - 1) / 4 + (if year % 4 == 0 { 1int } else { 0int }) == year / 4);
    assert((year - 1) / 100 + (if year % 100 == 0 { 1int } else { 0int }) == year / 100);
    assert((year - 1) / 400 + (if year % 400 == 0 { 1int } else { 0int }) == year / 400);
    assert(year % 400 == 0 ==> year % 100 == 0);
    assert(year % 100 == 0 ==> year % 4 == 0);
}

/// A year is 365 days and a leap year is one more, so the count of days before a
/// year is the count of every day of every year there has been.
pub proof fn law_year_length(year: int)
    ensures
        days_before_year(1) == 0,
        days_before_year(year + 1) - days_before_year(year) == if leap(year) { 366int } else { 365int },
        days_before_month(year, 13) == if leap(year) { 366int } else { 365int },
{
    reveal_with_fuel(days_before_month, 14);
    assert((year - 1) / 4 + (if year % 4 == 0 { 1int } else { 0int }) == year / 4);
    assert((year - 1) / 100 + (if year % 100 == 0 { 1int } else { 0int }) == year / 100);
    assert((year - 1) / 400 + (if year % 400 == 0 { 1int } else { 0int }) == year / 400);
    assert(year % 400 == 0 ==> year % 100 == 0);
    assert(year % 100 == 0 ==> year % 4 == 0);
}

/// The twelve months, counted from March.
proof fn lemma_months(year: int, month: int)
    requires
        1 <= month <= 12,
    ensures
        days_before_year(year) + days_before_month(year, month)
            == marches(march_year(year, month)) + march_days(month) - 306,
        month >= 3 ==> days_before_month(year, month) == days_before_month(year, 3) + march_days(month),
{
    reveal_with_fuel(days_before_month, 13);
    lemma_march(year);
    lemma_march(year - 1);
    law_year_length(year - 1);
    assert(march_days(3) == 0 && march_days(4) == 31 && march_days(5) == 61 && march_days(6) == 92);
    assert(march_days(7) == 122 && march_days(8) == 153 && march_days(9) == 184 && march_days(10) == 214);
    assert(march_days(11) == 245 && march_days(12) == 275 && march_days(1) == 306 && march_days(2) == 337);
}

/// Counting days from the fields of a date is counting the days of the calendar.
pub proof fn law_days_are_counted(year: int, month: int, day: int)
    requires
        1 <= month <= 12,
    ensures
        days_from(year, month, day) == day_number(year, month, day),
{
    lemma_months(year, month);
}

/// The days from 1970-01-01 to a year, month and day.
///
/// The years are counted from March rather than from January, so the leap day is
/// the last day of the year and every month from there has a length that fits one
/// linear formula. Proleptic Gregorian in both directions, which is what the ISO
/// calendar is.
pub fn civil_days(year: i64, month: i64, day: i64) -> (r: i64)
    requires
        days_fit(year as int, month as int, day as int),
    ensures
        r == days_from(year as int, month as int, day as int),
        1 <= month <= 12 ==> r == day_number(year as int, month as int, day as int),
{
    let y: i64 = if month <= 2 { year - 1 } else { year };
    let era: i64 = (if y >= 0 { y } else { y - 399 }) / 400;
    let year_of_era: i64 = y - era * 400;
    let shifted_month: i64 = if month > 2 { month - 3 } else { month + 9 };
    proof {
        assert(era == y as int / 400);
        assert(0 <= year_of_era < 400);
        assert(y as int / 4 == 100 * era + year_of_era as int / 4);
        assert(y as int / 100 == 4 * era + year_of_era as int / 100);
        if 1 <= month <= 12 {
            law_days_are_counted(year as int, month as int, day as int);
        }
    }
    let day_of_year: i64 = (153 * shifted_month + 2) / 5 + day - 1;
    let day_of_era: i64 = year_of_era * 365 + year_of_era / 4 - year_of_era / 100 + day_of_year;
    era * 146_097 + day_of_era - 719_468
}

proof fn lemma_months_grow(year: int, a: int, b: int)
    requires
        1 <= a < b,
    ensures
        days_before_month(year, a) + month_days(year, a) <= days_before_month(year, b),
    decreases b,
{
    if b > a + 1 {
        lemma_months_grow(year, a, b - 1);
    }
}

/// A day of a year lies between the first day of it and the first of the next.
proof fn lemma_within_year(year: int, month: int, day: int)
    requires
        dated(year, month, day),
    ensures
        0 <= days_before_month(year, month),
        days_before_year(year) <= day_number(year, month, day) + 719_162 < days_before_year(year + 1),
{
    law_year_length(year);
    lemma_months_grow(year, month, 13);
    if month > 1 {
        lemma_months_grow(year, 1, month);
    }
}

/// Two days of the calendar are the same count of days only when they are the
/// same day.
pub proof fn law_one_day_each(days: int, y1: int, m1: int, d1: int, y2: int, m2: int, d2: int)
    requires
        falls_on(days, y1, m1, d1),
        falls_on(days, y2, m2, d2),
    ensures
        y1 == y2,
        m1 == m2,
        d1 == d2,
{
    lemma_within_year(y1, m1, d1);
    lemma_within_year(y2, m2, d2);
    assert(y1 + 1 <= y2 ==> days_before_year(y1 + 1) <= days_before_year(y2));
    assert(y2 + 1 <= y1 ==> days_before_year(y2 + 1) <= days_before_year(y1));
    if m1 < m2 {
        lemma_months_grow(y1, m1, m2);
    }
    if m2 < m1 {
        lemma_months_grow(y1, m2, m1);
    }
}

/// The day after a day of the calendar is one more day from the epoch.
pub proof fn law_the_day_after(year: int, month: int, day: int)
    requires
        dated(year, month, day),
    ensures
        day < month_days(year, month) ==> day_number(year, month, day + 1) == day_number(year, month, day) + 1,
        day == month_days(year, month) && month < 12 ==> day_number(year, month + 1, 1) == day_number(
            year,
            month,
            day,
        ) + 1,
        day == month_days(year, month) && month == 12 ==> day_number(year + 1, 1, 1) == day_number(year, month, day)
            + 1,
{
    law_year_length(year);
    if month == 12 {
        assert(days_before_month(year, 13) == days_before_month(year, 12) + 31);
    }
}

/// The year of the era a day of the era is in, and the days before that year.
proof fn lemma_year_of_era(doe: int)
    requires
        0 <= doe < 146_097,
    ensures
        ({
            let y = (doe - doe / 1_460 + doe / 36_524 - doe / 146_096) / 365;
            let doy = doe - (365 * y + y / 4 - y / 100);
            &&& 0 <= y < 400
            &&& 0 <= doy <= 365
            &&& doy == 365 ==> leap(y + 1)
        }),
{
    let b = doe / 36_524;
    let c = doe / 146_096;
    let y = (doe - doe / 1_460 + b - c) / 365;
    let r = doe - 36_524 * b;
    assert(0 <= b <= 4);
    assert(b == 4 <==> c == 1);
    if b == 4 {
        assert(doe == 146_096);
    } else {
        // Within a century the leap years are every fourth one.
        let w = y - 100 * b;
        assert(doe - doe / 1_460 + b - c == 36_500 * b + (r + 25 * b - (r + 36_524 * b) / 1_460));
        assert((r + 36_524 * b) / 1_460 == 25 * b + (r + 24 * b) / 1_460);
        assert(w == (r - (r + 24 * b) / 1_460) / 365);
        assert(0 <= w < 100);
        assert(y / 4 == 25 * b + w / 4);
        assert(y / 100 == b);
        let doy = r - 365 * w - w / 4;
        assert(0 <= doy <= 365);
        assert(doy == 365 ==> w % 4 == 3 && w != 99 || w == 99);
    }
}

/// The month of a year that starts in March, and the day of that month.
proof fn lemma_month_of_year(doy: int)
    requires
        0 <= doy <= 365,
    ensures
        ({
            let s = (5 * doy + 2) / 153;
            let d = doy - (153 * s + 2) / 5 + 1;
            let m = if s < 10 { s + 3 } else { s - 9 };
            &&& 0 <= s <= 11
            &&& 1 <= m <= 12
            &&& march_days(m) == (153 * s + 2) / 5
            &&& 1 <= d
            &&& m == 2 ==> d <= 29 && (d == 29 ==> doy == 365)
            &&& m != 2 ==> d <= month_days(1, m)
        }),
{
    let s = (5 * doy + 2) / 153;
    assert(0 <= s <= 11);
    if s == 0 {} else if s == 1 {} else if s == 2 {} else if s == 3 {} else if s == 4 {} else if s == 5 {
    } else if s == 6 {} else if s == 7 {} else if s == 8 {} else if s == 9 {} else if s == 10 {} else {}
}

/// A year that starts in March, written as an era and a year of it.
proof fn lemma_era(era: int, y: int)
    requires
        0 <= y < 400,
    ensures
        marches(400 * era + y) == 146_097 * era + 365 * y + y / 4 - y / 100,
        leap(400 * era + y + 1) == leap(y + 1),
{
    let year = 400 * era + y;
    assert(year / 4 == 100 * era + y / 4);
    assert(year / 100 == 4 * era + y / 100);
    assert(year / 400 == era);
    assert((year + 1) % 4 == (y + 1) % 4);
    assert((year + 1) % 100 == (y + 1) % 100);
    assert((year + 1) % 400 == (y + 1) % 400);
}

/// The day an era, a year of it and a day of that year are.
proof fn lemma_civil(era: int, y: int, doy: int)
    requires
        0 <= y < 400,
        0 <= doy <= 365,
        doy == 365 ==> leap(y + 1),
    ensures
        ({
            let s = (5 * doy + 2) / 153;
            let d = doy - (153 * s + 2) / 5 + 1;
            let m = if s < 10 { s + 3 } else { s - 9 };
            let year = 400 * era + y + if m <= 2 { 1int } else { 0int };
            &&& 0 <= s <= 11
            &&& dated(year, m, d)
            &&& day_number(year, m, d) == 146_097 * era + 365 * y + y / 4 - y / 100 + doy - 719_468
        }),
{
    let s = (5 * doy + 2) / 153;
    let m = if s < 10 { s + 3 } else { s - 9 };
    let year = 400 * era + y + if m <= 2 { 1int } else { 0int };
    lemma_month_of_year(doy);
    lemma_era(era, y);
    lemma_months(year, m);
    assert(m != 2 ==> month_days(year, m) == month_days(1, m));
}

/// The year, month and day at `days` from 1970-01-01, in words wide enough for
/// every year there is.
fn date_at(days: i64) -> (r: (i64, i64, i64))
    requires
        days <= i64::MAX - 719_468,
    ensures
        falls_on(days as int, r.0 as int, r.1 as int, r.2 as int),
{
    let shifted: i64 = days + 719_468;
    let era: i64 = (if shifted >= 0 { shifted } else { shifted - 146_096 }) / 146_097;
    let day_of_era: i64 = shifted - era * 146_097;
    proof {
        assert(era == shifted as int / 146_097);
        assert(0 <= day_of_era < 146_097);
        lemma_year_of_era(day_of_era as int);
    }
    let year_of_era: i64 =
        (day_of_era - day_of_era / 1_460 + day_of_era / 36_524 - day_of_era / 146_096) / 365;
    let year: i64 = year_of_era + era * 400;
    let day_of_year: i64 = day_of_era - (365 * year_of_era + year_of_era / 4 - year_of_era / 100);
    proof {
        lemma_civil(era as int, year_of_era as int, day_of_year as int);
    }
    let shifted_month: i64 = (5 * day_of_year + 2) / 153;
    let day: i64 = day_of_year - (153 * shifted_month + 2) / 5 + 1;
    let month: i64 = if shifted_month < 10 { shifted_month + 3 } else { shifted_month - 9 };
    (if month <= 2 { year + 1 } else { year }, month, day)
}

/// The year, month and day at `days` from 1970-01-01, which is [`civil_days`] run
/// backwards.
pub fn civil(days: i64) -> (r: (i32, i64, i64))
    requires
        days <= i64::MAX - 719_468,
    ensures
        exists|year: int|
            #[trigger] falls_on(days as int, year, r.1 as int, r.2 as int) && r.0 == year as i32,
        i32::MIN <= days <= i32::MAX ==> falls_on(days as int, r.0 as int, r.1 as int, r.2 as int),
{
    let (year, month, day): (i64, i64, i64) = date_at(days);
    let made: (i32, i64, i64) = (year as i32, month, day);
    proof {
        lemma_within_year(year as int, month as int, day as int);
        assert(falls_on(days as int, year as int, made.1 as int, made.2 as int) && made.0 == year as i32);
    }
    made
}

/// The two directions agree: counting the days to the day a count of days falls
/// on gives the count back.
pub proof fn law_round_trip(days: int, year: int, month: int, day: int)
    requires
        falls_on(days, year, month, day),
    ensures
        days_from(year, month, day) == days,
{
    law_days_are_counted(year, month, day);
}

/// The fields of a time of day: the hour, the minute, the second, and the three
/// thousandths under it.
pub open spec fn clock_of(nanos: int) -> (int, int, int, int, int, int) {
    (
        quotient(nanos, 3600 * SECOND),
        remainder(quotient(nanos, 60 * SECOND), 60),
        remainder(quotient(nanos, SECOND as int), 60),
        remainder(quotient(nanos, 1_000_000), 1_000),
        remainder(quotient(nanos, 1_000), 1_000),
        remainder(nanos, 1_000),
    )
}

/// A time of day split into the fields a `Temporal.PlainTime` is built from.
pub fn clock(nanos: i64) -> (r: (i64, i64, i64, i64, i64, i64))
    ensures
        (r.0 as int, r.1 as int, r.2 as int, r.3 as int, r.4 as int, r.5 as int) == clock_of(nanos as int),
{
    (
        nanos / (3600 * SECOND),
        nanos / (60 * SECOND) % 60,
        nanos / SECOND % 60,
        nanos / 1_000_000 % 1_000,
        nanos / 1_000 % 1_000,
        nanos % 1_000,
    )
}

/// The nanoseconds from midnight the fields of a time stand for.
pub open spec fn nanos_from(hour: int, minute: int, second: int, milli: int, micro: int, nano: int) -> int {
    ((hour * 60 + minute) * 60 + second) * SECOND + milli * 1_000_000 + micro * 1_000 + nano
}

/// The fields a time is split into stand for the time that was split.
pub proof fn law_clock_recombines(nanos: int)
    ensures
        ({
            let c = clock_of(nanos);
            nanos_from(c.0, c.1, c.2, c.3, c.4, c.5) == nanos
        }),
{
    let n = if nanos >= 0 { nanos } else { -nanos };
    let c = clock_of(nanos);
    assert(n / 1_000_000 == (n / 1_000) / 1_000);
    assert(n / 1_000_000_000 == (n / 1_000_000) / 1_000);
    assert(n / 60_000_000_000 == (n / 1_000_000_000) / 60);
    assert(n / 3_600_000_000_000 == (n / 60_000_000_000) / 60);
}

/// Every field of a time within one day is within the range a clock shows.
pub proof fn law_clock_ranges(nanos: int)
    requires
        0 <= nanos < DAY,
    ensures
        ({
            let c = clock_of(nanos);
            &&& 0 <= c.0 < 24
            &&& 0 <= c.1 < 60
            &&& 0 <= c.2 < 60
            &&& 0 <= c.3 < 1_000
            &&& 0 <= c.4 < 1_000
            &&& 0 <= c.5 < 1_000
        }),
{
}

/// A number written with two digits at the least.
pub open spec fn padded(n: nat) -> Seq<char> {
    if n < 10 { "0"@ + digits(n) } else { digits(n) }
}

/// An offset from UTC in minutes, written the way a `Temporal` time zone is named.
pub open spec fn zone_of(minutes: int) -> Seq<char> {
    let n = (if minutes < 0 { -minutes } else { minutes }) as nat;
    (if minutes < 0 { "-"@ } else { "+"@ }) + padded(n / 60) + ":"@ + padded(n % 60)
}

proof fn lemma_padded(a: nat, b: nat)
    requires
        padded(a) == padded(b),
    ensures
        a == b,
{
    reveal_strlit("0");
    lemma_digits_some(a);
    lemma_digits_some(b);
    if a < 10 && b < 10 {
        assert(digits(a) =~= padded(a).skip(1));
        assert(digits(b) =~= padded(b).skip(1));
        lemma_digits_differ(a, b);
    } else if a < 10 {
        assert(padded(a)[0] == '0');
    } else if b < 10 {
        assert(padded(b)[0] == '0');
    } else {
        lemma_digits_differ(a, b);
    }
}

/// No two offsets are written alike, so the name of a zone says which offset it is.
pub proof fn law_zones_differ(a: int, b: int)
    requires
        zone_of(a) == zone_of(b),
    ensures
        a == b,
{
    reveal_strlit("-");
    reveal_strlit("+");
    reveal_strlit(":");
    reveal_strlit("0");
    let n = (if a < 0 { -a } else { a }) as nat;
    let m = (if b < 0 { -b } else { b }) as nat;
    let x = zone_of(a);
    let y = zone_of(b);
    lemma_digits_some(n % 60);
    lemma_digits_some(m % 60);
    assert(padded(n % 60).len() == 2);
    assert(padded(m % 60).len() == 2);
    let l = padded(n / 60).len() as int;
    assert(x.len() == l + 4);
    assert(y.len() == padded(m / 60).len() + 4);
    assert(x[0] == y[0]);
    assert(x.subrange(1, 1 + l) =~= padded(n / 60));
    assert(y.subrange(1, 1 + l) =~= padded(m / 60));
    assert(x.subrange(2 + l, 4 + l) =~= padded(n % 60));
    assert(y.subrange(2 + l, 4 + l) =~= padded(m % 60));
    lemma_padded(n / 60, m / 60);
    lemma_padded(n % 60, m % 60);
}

fn pad(n: u128) -> (r: String)
    ensures
        r@ == padded(n as nat),
{
    if n < 10 {
        "0".to_owned().concat(counted(n).as_str())
    } else {
        counted(n)
    }
}

/// The offset written the way a `Temporal` time zone is named.
pub fn zone(minutes: i16) -> (r: String)
    ensures
        r@ == zone_of(minutes as int),
{
    let wide: i128 = minutes as i128;
    let n: u128 = (if wide < 0 { -wide } else { wide }) as u128;
    let sign = if minutes < 0 { "-" } else { "+" };
    sign.to_owned().concat(pad(n / 60).as_str()).concat(":").concat(pad(n % 60).as_str())
}

/// A count of nanoseconds from the epoch as the day it falls on and the
/// nanoseconds from that day's midnight.
pub fn split(nanos: i64) -> (r: (i64, i64))
    ensures
        r.0 == nanos as int / DAY as int,
        r.1 == nanos as int % DAY as int,
{
    let day: i64 = nanos / DAY;
    let left: i64 = nanos % DAY;
    if left < 0 {
        (day - 1, left + DAY)
    } else {
        (day, left)
    }
}

/// An offset is written as its sign, its hours, a colon and its minutes, with two digits for the
/// minutes and two at the least for the hours: read as numbers the two are the offset.
pub proof fn law_a_zone_reads_as_its_offset(minutes: int)
    ensures
        ({
            let z = zone_of(minutes);
            let n = if minutes < 0 { -minutes } else { minutes };
            &&& z.len() >= 6
            &&& z[0] == (if minutes < 0 { '-' } else { '+' })
            &&& z[z.len() - 3] == ':'
            &&& (z[z.len() - 2] as int - '0' as int) * 10 + (z[z.len() - 1] as int - '0' as int) == n % 60
            &&& n < 6_000 ==> z.len() == 6 && (z[1] as int - '0' as int) * 600 + (z[2] as int - '0' as int) * 60 + n % 60
                == n
            &&& n >= 6_000 ==> z.subrange(1, z.len() - 3) == digits((n / 60) as nat)
        }),
{
    reveal_strlit("-");
    reveal_strlit("+");
    reveal_strlit(":");
    reveal_strlit("0");
    let n = (if minutes < 0 { -minutes } else { minutes }) as nat;
    let h = n / 60;
    let m = n % 60;
    law_a_number_is_its_digits(h);
    law_a_number_is_its_digits(h / 10);
    law_a_number_is_its_digits(m);
    law_a_number_is_its_digits(m / 10);
    let z = zone_of(minutes);
    let l = padded(h).len() as int;
    assert(padded(m).len() == 2) by {
        if m >= 10 {
            assert(digits(m).drop_last().len() == 1);
        }
    }
    assert(l >= 2) by {
        if h >= 10 {
            assert(digits(h).drop_last().len() >= 1);
        }
    }
    assert(z.len() == l + 4);
    assert(z.subrange(1, 1 + l) =~= padded(h));
    assert(z.subrange(2 + l, 4 + l) =~= padded(m));
    assert(z[z.len() - 2] == padded(m)[0] && z[z.len() - 1] == padded(m)[1]);
    if m >= 10 {
        assert(digits(m)[0] == digits(m).drop_last()[0]);
    }
    if n < 6_000 {
        if h >= 10 {
            assert(digits(h).drop_last().len() == 1);
            assert(digits(h)[0] == digits(h).drop_last()[0]);
        }
        assert(l == 2);
        assert(z[1] == padded(h)[0] && z[2] == padded(h)[1]);
    }
}

/// Days are counted from the first of January 1970: that day and no other is none from it.
pub proof fn law_days_start_at_the_epoch(year: int, month: int, day: int)
    requires
        dated(year, month, day),
    ensures
        days_from(year, month, day) == 0 <==> year == 1970 && month == 1 && day == 1,
{
    law_days_are_counted(year, month, day);
    law_days_are_counted(1970, 1, 1);
    if days_from(year, month, day) == 0 {
        law_one_day_each(0, year, month, day, 1970, 1, 1);
    }
}

/// The calendar comes round every four hundred years, a day later is one more day, and a year is 366
/// days exactly when four divides it and a hundred does not or four hundred does.
pub proof fn law_the_calendar_comes_round(year: int, month: int, day: int)
    requires
        1 <= month <= 12,
    ensures
        days_from(year + 400, month, day) - days_from(year, month, day) == 146_097,
        days_from(year, month, day + 1) - days_from(year, month, day) == 1,
        days_from(year + 1, 1, 1) - days_from(year, 1, 1) == (if year % 4 == 0 && (year % 100 != 0 || year % 400 == 0) {
            366int
        } else {
            365int
        }),
        month < 12 ==> days_from(year, month + 1, 1) - days_from(year, month, 1) == (if month == 2 {
            if year % 4 == 0 && (year % 100 != 0 || year % 400 == 0) { 29int } else { 28int }
        } else if month == 4 || month == 6 || month == 9 || month == 11 {
            30int
        } else {
            31int
        }),
{
    law_days_are_counted(year, month, day);
    law_days_are_counted(year + 400, month, day);
    law_days_are_counted(year, 1, 1);
    law_days_are_counted(year + 1, 1, 1);
    law_days_are_counted(year, month, 1);
    law_year_length(year);
    if month < 12 {
        law_days_are_counted(year, month + 1, 1);
    }
    assert(march_year(year + 400, month) == march_year(year, month) + 400);
    let y = march_year(year, month);
    assert((y + 400) / 4 == y / 4 + 100 && (y + 400) / 100 == y / 100 + 4 && (y + 400) / 400 == y / 400 + 1);
}

} // verus!
