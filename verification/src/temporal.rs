//! `Temporal`, for the runtimes that have it.
//!
//! zu's temporal values are counts: a date is days from 1970-01-01, a time is
//! nanoseconds from midnight, a timestamp is nanoseconds from the epoch, and a
//! duration is months or nanoseconds. `Temporal` is the standard's answer for a
//! program that wants to know what day of the week it was, so this is the two
//! directions between the counts and the `Temporal` classes: which constructor a
//! count is handed to and with which arguments, and which count the fields of a
//! `Temporal` value stand for.

use vstd::prelude::*;

use crate::calendar::{civil, civil_days, clock, clock_of, days_fit, days_from, falls_on, law_a_zone_reads_as_its_offset, law_clock_ranges, law_clock_recombines, law_round_trip, law_zones_differ, nanos_from, quotient, remainder, split, zone, zone_of, DAY, SECOND};
use crate::js::{said, seen, told, Big, Calendar, Fault, Fields, Named, Trouble};
use crate::text::{opens, same, strip, stripped};

verus! {

/// What a program asking for `Temporal` on a runtime without one is told, wherever
/// it asked.
pub const MISSING: &'static str = "this runtime has no Temporal: Node 26 and the current browsers have \
                           it, Node 24 has it behind --harmony-temporal, and until then the \
                           ZuDate, ZuTime, ZuTimestamp and ZuDuration classes are the spelling \
                           there is";

/// What a zoned time is told, which is the one value zu holds and `Temporal` has no
/// type for.
pub const NO_ZONED_TIME: &'static str = "a time with an offset has no Temporal type: PlainTime is local \
                                 and ZonedDateTime carries a date, so this value stays a ZuTime \
                                 in temporal mode rather than losing its offset or gaining a day \
                                 nobody wrote";

/// Which of the two kinds a duration is. They do not mix, because no number of days
/// is a month.
#[derive(Clone, Copy, PartialEq, Eq, Structural)]
pub enum DurationKind {
    YearMonth,
    DayTime,
}

/// A temporal value, as the engine holds it.
#[derive(Clone, Copy, PartialEq, Eq, Structural)]
pub enum Temporal {
    /// Days from 1970-01-01.
    Date(i32),
    /// Nanoseconds from midnight.
    LocalTime(i64),
    /// Nanoseconds from midnight, and minutes from UTC.
    ZonedTime { nanos: i64, offset: i16 },
    /// Nanoseconds from the epoch.
    LocalDatetime(i64),
    /// Nanoseconds from the epoch in UTC, and minutes from it.
    ZonedDatetime { nanos: i64, offset: i16 },
    /// Months or nanoseconds.
    Duration(DurationKind, i64),
}

/// A `Temporal` class and the arguments its constructor is called with.
pub enum Build {
    PlainDate { year: i32, month: i64, day: i64 },
    PlainTime { clock: (i64, i64, i64, i64, i64, i64) },
    PlainDateTime { year: i32, month: i64, day: i64, clock: (i64, i64, i64, i64, i64, i64) },
    /// The instant and the name of the zone.
    ZonedDateTime { nanos: i64, zone: String },
    /// A duration of so many months.
    Months(i64),
    /// A duration of so many seconds and nanoseconds.
    Seconds { seconds: i64, nanos: i64 },
}

/// Whether these are the fields of a time of day.
pub open spec fn clocks(nanos: int, clock: (i64, i64, i64, i64, i64, i64)) -> bool {
    (clock.0 as int, clock.1 as int, clock.2 as int, clock.3 as int, clock.4 as int, clock.5 as int) == clock_of(nanos)
}

/// Whether this is the `Temporal` value for a zu one. A time with an offset has
/// none.
pub open spec fn builds(value: Temporal, made: Option<Build>) -> bool {
    match value {
        Temporal::Date(days) => made matches Some(Build::PlainDate { year, month, day }) && falls_on(
            days as int,
            year as int,
            month as int,
            day as int,
        ),
        Temporal::LocalTime(nanos) => made matches Some(Build::PlainTime { clock }) && clocks(nanos as int, clock),
        Temporal::ZonedTime { .. } => made is None,
        Temporal::LocalDatetime(nanos) => made matches Some(Build::PlainDateTime { year, month, day, clock })
            && falls_on(nanos as int / DAY as int, year as int, month as int, day as int) && clocks(
            nanos as int % DAY as int,
            clock,
        ),
        Temporal::ZonedDatetime { nanos, offset } => made matches Some(Build::ZonedDateTime { nanos: n, zone })
            && n == nanos && zone@ == zone_of(offset as int),
        Temporal::Duration(DurationKind::YearMonth, months) => made == Some(Build::Months(months)),
        Temporal::Duration(DurationKind::DayTime, nanos) => made matches Some(Build::Seconds { seconds, nanos: n })
            && seconds == quotient(nanos as int, SECOND as int) && n == remainder(nanos as int, SECOND as int),
    }
}

/// The `Temporal` value for a zu one, or `None` for the zoned time that has no
/// `Temporal` type, or the reason on a runtime with no `Temporal` at all.
///
/// Seconds and nanoseconds rather than nanoseconds alone for a duration, because a
/// `Temporal.Duration` field is a JavaScript number and a count of nanoseconds
/// passes 2^53 after fourteen weeks.
pub fn to_temporal(present: bool, value: Temporal) -> (r: Result<Option<Build>, String>)
    ensures
        present ==> r is Ok && builds(value, r->Ok_0),
        !present ==> r is Err && r->Err_0@ == MISSING@,
{
    if !present {
        return Err(MISSING.to_owned());
    }
    Ok(match value {
        Temporal::Date(days) => {
            let (year, month, day): (i32, i64, i64) = civil(days as i64);
            Some(Build::PlainDate { year, month, day })
        },
        Temporal::LocalTime(nanos) => Some(Build::PlainTime { clock: clock(nanos) }),
        Temporal::ZonedTime { .. } => None,
        Temporal::LocalDatetime(nanos) => {
            let (days, left): (i64, i64) = split(nanos);
            let (year, month, day): (i32, i64, i64) = civil(days);
            Some(Build::PlainDateTime { year, month, day, clock: clock(left) })
        },
        Temporal::ZonedDatetime { nanos, offset } => Some(Build::ZonedDateTime { nanos, zone: zone(offset) }),
        Temporal::Duration(DurationKind::YearMonth, months) => Some(Build::Months(months)),
        Temporal::Duration(DurationKind::DayTime, nanos) => Some(
            Build::Seconds { seconds: nanos / SECOND, nanos: nanos % SECOND },
        ),
    })
}

/// Whether a number is one a word of 64 signed bits holds.
pub open spec fn word(n: int) -> bool {
    i64::MIN <= n <= i64::MAX
}

/// Whether every step of counting the nanoseconds of a time is one a word holds.
pub open spec fn clock_fits(hour: int, minute: int, second: int, milli: int, micro: int, nano: int) -> bool {
    let minutes = hour * 60 + minute;
    let seconds = minutes * 60 + second;
    let with_milli = seconds * SECOND + milli * 1_000_000;
    &&& word(hour * 60) && word(minutes)
    &&& word(minutes * 60) && word(seconds)
    &&& word(seconds * SECOND) && word(milli * 1_000_000) && word(with_milli)
    &&& word(micro * 1_000) && word(with_milli + micro * 1_000)
    &&& word(with_milli + micro * 1_000 + nano)
}

/// The days a year, a month and a day count, when a word holds every step of the
/// count.
pub fn days_of(year: i32, month: i64, day: i64) -> (r: Option<i64>)
    ensures
        r is Some <==> days_fit(year as int, month as int, day as int),
        r matches Some(days) ==> days == days_from(year as int, month as int, day as int),
{
    if fits(year, month, day) {
        Some(civil_days(year as i64, month, day))
    } else {
        None
    }
}

fn fits(year: i32, month: i64, day: i64) -> (r: bool)
    ensures
        r == days_fit(year as int, month as int, day as int),
{
    let low: i128 = i64::MIN as i128;
    let high: i128 = i64::MAX as i128;
    let y: i128 = if month <= 2 { year as i128 - 1 } else { year as i128 };
    let era: i128 = (if y >= 0 { y } else { y - 399 }) / 400;
    let shifted: i128 = if month > 2 { month as i128 - 3 } else { month as i128 + 9 };
    let of_year: i128 = (153 * shifted + 2) / 5 + day as i128;
    let within: i128 = y - era * 400;
    proof {
        assert(era == y as int / 400);
        assert(y as int / 4 == 100 * era + within as int / 4);
        assert(y as int / 100 == 4 * era + within as int / 100);
    }
    let of_era: i128 = within * 365 + within / 4 - within / 100 + of_year - 1;
    low + 399 <= y && low <= 153 * shifted && 153 * shifted + 2 <= high && low + 1 <= of_year && of_year <= high
        && of_era <= high && low <= 146_097 * era && 146_097 * era <= high && low + 719_468 <= 146_097 * era + of_era
        && 146_097 * era + of_era <= high
}

/// The nanoseconds from midnight the fields of a time count, when a word holds
/// every step of the count.
pub fn nanos_of(hour: i64, minute: i64, second: i64, milli: i64, micro: i64, nano: i64) -> (r: Option<i64>)
    ensures
        r is Some <==> clock_fits(
            hour as int,
            minute as int,
            second as int,
            milli as int,
            micro as int,
            nano as int,
        ),
        r matches Some(nanos) ==> nanos == nanos_from(
            hour as int,
            minute as int,
            second as int,
            milli as int,
            micro as int,
            nano as int,
        ),
{
    let seconds: i64 = hour.checked_mul(60)?.checked_add(minute)?.checked_mul(60)?.checked_add(second)?;
    let milli: i64 = seconds.checked_mul(SECOND)?.checked_add(milli.checked_mul(1_000_000)?)?;
    milli.checked_add(micro.checked_mul(1_000)?)?.checked_add(nano)
}

/// The fields of a `Temporal.Duration`.
pub struct Span {
    pub years: i64,
    pub months: i64,
    pub weeks: i64,
    pub days: i64,
    pub hours: i64,
    pub minutes: i64,
    pub seconds: i64,
    pub millis: i64,
    pub micros: i64,
    pub nanos: i64,
}

impl Span {
    /// The days, a week being seven of them.
    pub open spec fn whole_days(&self) -> int {
        self.weeks * 7 + self.days
    }

    /// The months, a year being twelve of them.
    pub open spec fn whole_months(&self) -> int {
        self.years * 12 + self.months
    }

    /// The nanoseconds of everything under a month, a day being twenty-four hours.
    pub open spec fn whole_nanos(&self) -> int {
        nanos_from(
            self.whole_days() * 24 + self.hours,
            self.minutes as int,
            self.seconds as int,
            self.millis as int,
            self.micros as int,
            self.nanos as int,
        )
    }

    /// Whether a word holds every step of the two counts.
    pub open spec fn counts(&self) -> bool {
        &&& word(self.years * 12) && word(self.whole_months())
        &&& word(self.weeks * 7) && word(self.whole_days())
        &&& word(self.whole_days() * 24) && word(self.whole_days() * 24 + self.hours)
        &&& clock_fits(
            self.whole_days() * 24 + self.hours,
            self.minutes as int,
            self.seconds as int,
            self.millis as int,
            self.micros as int,
            self.nanos as int,
        )
    }

    /// The months and the nanoseconds, when a word holds every step of the counts.
    pub fn count(&self) -> (r: Option<(i64, i64)>)
        ensures
            r is Some <==> self.counts(),
            r matches Some(both) ==> both.0 == self.whole_months() && both.1 == self.whole_nanos(),
    {
        let months: i64 = self.years.checked_mul(12)?.checked_add(self.months)?;
        let days: i64 = self.weeks.checked_mul(7)?.checked_add(self.days)?;
        let hours: i64 = days.checked_mul(24)?.checked_add(self.hours)?;
        let nanos: i64 = nanos_of(hours, self.minutes, self.seconds, self.millis, self.micros, self.nanos)?;
        Some((months, nanos))
    }
}

/// What a value's calendar is called, when it can be got to say.
///
/// `calendarId` first, which is what the standard settled on, and then `calendar`,
/// which was a string for a while and an object with the name on it before that.
pub open spec fn calendar_of(asked: Calendar) -> Result<Option<Seq<char>>, Trouble> {
    match asked.id {
        Err(reason) => Err(Trouble::Boundary(reason@)),
        Ok(Some(id)) => Ok(Some(id@)),
        Ok(None) => match asked.named {
            Err(reason) => Err(Trouble::Boundary(reason@)),
            Ok(Named::Text(name)) => Ok(Some(name@)),
            Ok(Named::Object(Err(reason))) => Err(Trouble::Boundary(reason@)),
            Ok(Named::Object(Ok(id))) => Ok(seen(id)),
            Ok(Named::Other) => Ok(None),
        },
    }
}

fn calendar(asked: &Calendar) -> (r: Result<Option<&str>, Fault>)
    ensures
        match r {
            Ok(Some(name)) => calendar_of(*asked) == Ok::<_, Trouble>(Some(name@)),
            Ok(None) => calendar_of(*asked) == Ok::<Option<Seq<char>>, Trouble>(None),
            Err(fault) => calendar_of(*asked) == Err::<Option<Seq<char>>, _>(fault@),
        },
{
    match &asked.id {
        Err(reason) => Err(Fault::Boundary(reason.clone())),
        Ok(Some(id)) => Ok(Some(id.as_str())),
        Ok(None) => match &asked.named {
            Err(reason) => Err(Fault::Boundary(reason.clone())),
            Ok(Named::Text(name)) => Ok(Some(name.as_str())),
            Ok(Named::Object(Err(reason))) => Err(Fault::Boundary(reason.clone())),
            Ok(Named::Object(Ok(Some(id)))) => Ok(Some(id.as_str())),
            Ok(Named::Object(Ok(None))) => Ok(None),
            Ok(Named::Other) => Ok(None),
        },
    }
}

/// What a date on another calendar is told.
pub open spec fn foreign(name: Seq<char>, calendar: Seq<char>) -> Seq<char> {
    "parameter "@ + name + " is in the "@ + calendar
        + " calendar, and zu stores a date as days from \
             1970-01-01, which is the ISO calendar: convert it with .withCalendar('iso8601')"@
}

/// The days a date stands for. Only an ISO date has a count of days: the fields are
/// the calendar's own, so a date read as though it were on another calendar is a
/// different day.
pub open spec fn dated_as(name: Seq<char>, fields: Fields) -> Result<i32, Trouble> {
    match calendar_of(fields.calendar) {
        Err(trouble) => Err(trouble),
        Ok(Some(calendar)) if calendar != "iso8601"@ => Err(Trouble::Refused(foreign(name, calendar))),
        Ok(_) => match fields.day {
            Ok(days) => Ok(days as i32),
            Err(reason) => Err(Trouble::Boundary(reason@)),
        },
    }
}

fn days(name: &str, fields: &Fields) -> (r: Result<i32, Fault>)
    ensures
        told(r) == dated_as(name@, *fields),
{
    if let Some(calendar) = calendar(&fields.calendar)? {
        if !same(calendar, "iso8601") {
            return Err(
                Fault::Refused(
                    "parameter ".to_owned().concat(name).concat(" is in the ").concat(calendar).concat(
                        " calendar, and zu stores a date as days from \
             1970-01-01, which is the ISO calendar: convert it with .withCalendar('iso8601')",
                    ),
                ),
            );
        }
    }
    match &fields.day {
        Ok(days) => Ok(*days as i32),
        Err(reason) => Err(Fault::Boundary(reason.clone())),
    }
}

/// What a timestamp no word of nanoseconds reaches is told.
pub open spec fn outside(name: Seq<char>) -> Seq<char> {
    "parameter "@ + name
        + " is outside what a zu timestamp holds, which is nanoseconds in \
                 an INT64 and so runs from 1677-09-21 to 2262-04-11"@
}

fn outside_words(name: &str) -> (r: Fault)
    ensures
        r@ == Trouble::Refused(outside(name@)),
{
    Fault::Refused(
        "parameter ".to_owned().concat(name).concat(
            " is outside what a zu timestamp holds, which is nanoseconds in \
                 an INT64 and so runs from 1677-09-21 to 2262-04-11",
        ),
    )
}

/// The nanoseconds from the epoch, from a day and a time of day.
pub open spec fn epoch_of(name: Seq<char>, days: int, nanos: int) -> Result<i64, Trouble> {
    if word(days * DAY + nanos) {
        Ok((days * DAY + nanos) as i64)
    } else {
        Err(Trouble::Refused(outside(name)))
    }
}

fn epoch(name: &str, days: i64, nanos: i64) -> (r: Result<i64, Fault>)
    ensures
        told(r) == epoch_of(name@, days as int, nanos as int),
{
    // Midnight of the first day a word of nanoseconds reaches is not in reach itself, so the
    // sum is what has to fit.
    let sum: i128 = days as i128 * DAY as i128 + nanos as i128;
    if i64::MIN as i128 <= sum && sum <= i64::MAX as i128 {
        Ok(sum as i64)
    } else {
        Err(outside_words(name))
    }
}

/// The nanoseconds from the epoch an instant carries.
pub open spec fn since_of(name: Seq<char>, since: Result<Big, String>) -> Result<i64, Trouble> {
    match since {
        Err(reason) => Err(Trouble::Boundary(reason@)),
        Ok(nanos) => if nanos.fits() { Ok(nanos.signed() as i64) } else { Err(Trouble::Refused(outside(name))) },
    }
}

fn since(name: &str, held: &Result<Big, String>) -> (r: Result<i64, Fault>)
    ensures
        told(r) == since_of(name@, *held),
{
    match held {
        Err(reason) => Err(Fault::Boundary(reason.clone())),
        Ok(nanos) => {
            let (nanos, lossless): (i64, bool) = nanos.get_i64();
            if lossless {
                Ok(nanos)
            } else {
                Err(outside_words(name))
            }
        },
    }
}

/// What an offset of part of a minute is told.
pub open spec fn ragged(name: Seq<char>, written: Seq<char>) -> Seq<char> {
    "parameter "@ + name + " is at "@ + written + " from UTC, and zu stores an offset as whole minutes"@
}

/// The offset from UTC in minutes a zoned value was written at.
///
/// An offset that is not a whole number of minutes is refused: zu stores minutes,
/// and the zones that had seconds in their offsets stopped in 1972.
pub open spec fn offset_of(name: Seq<char>, fields: Fields) -> Result<i16, Trouble> {
    match fields.offset {
        Err(reason) => Err(Trouble::Boundary(reason@)),
        Ok(nanos) => {
            let minutes = quotient(nanos as int, 60 * SECOND);
            if remainder(nanos as int, 60 * SECOND) != 0 || !(i16::MIN <= minutes <= i16::MAX) {
                match fields.written {
                    Err(reason) => Err(Trouble::Boundary(reason@)),
                    Ok(written) => Err(Trouble::Refused(ragged(name, written@))),
                }
            } else {
                Ok(minutes as i16)
            }
        },
    }
}

fn offset(name: &str, fields: &Fields) -> (r: Result<i16, Fault>)
    ensures
        told(r) == offset_of(name@, *fields),
{
    match &fields.offset {
        Err(reason) => Err(Fault::Boundary(reason.clone())),
        Ok(nanos) => {
            let minutes: i64 = *nanos / (60 * SECOND);
            if *nanos % (60 * SECOND) != 0 || minutes < i16::MIN as i64 || minutes > i16::MAX as i64 {
                match &fields.written {
                    Err(reason) => Err(Fault::Boundary(reason.clone())),
                    Ok(written) => Err(
                        Fault::Refused(
                            "parameter ".to_owned().concat(name).concat(" is at ").concat(written.as_str()).concat(
                                " from UTC, and zu stores an offset as whole minutes",
                            ),
                        ),
                    ),
                }
            } else {
                Ok(minutes as i16)
            }
        },
    }
}

/// What a duration of both kinds is told.
pub open spec fn mixed(name: Seq<char>) -> Seq<char> {
    "parameter "@ + name
        + " counts both months and days, and a zu duration counts one or the \
             other: no number of days is a month, so a value holding both would have to invent an \
             answer for one month after 31 January"@
}

/// The zu duration a `Temporal.Duration` is: the one that counts months when that is
/// what it counts, and the one that counts nanoseconds when it counts no months.
pub open spec fn duration_of(name: Seq<char>, span: Result<(i64, i64), String>) -> Result<Temporal, Trouble> {
    match span {
        Err(reason) => Err(Trouble::Boundary(reason@)),
        Ok((months, nanos)) => if months == 0 {
            Ok(Temporal::Duration(DurationKind::DayTime, nanos))
        } else if nanos == 0 {
            Ok(Temporal::Duration(DurationKind::YearMonth, months))
        } else {
            Err(Trouble::Refused(mixed(name)))
        },
    }
}

fn duration(name: &str, span: &Result<(i64, i64), String>) -> (r: Result<Temporal, Fault>)
    ensures
        told(r) == duration_of(name@, *span),
{
    match span {
        Err(reason) => Err(Fault::Boundary(reason.clone())),
        Ok(both) => if both.0 == 0 {
            Ok(Temporal::Duration(DurationKind::DayTime, both.1))
        } else if both.1 == 0 {
            Ok(Temporal::Duration(DurationKind::YearMonth, both.0))
        } else {
            Err(
                Fault::Refused(
                    "parameter ".to_owned().concat(name).concat(
                        " counts both months and days, and a zu duration counts one or the \
             other: no number of days is a month, so a value holding both would have to invent an \
             answer for one month after 31 January",
                    ),
                ),
            )
        },
    }
}

/// What a `Temporal` value of a type zu has none of is told.
pub open spec fn no_such(name: Seq<char>, kind: Seq<char>) -> Seq<char> {
    "parameter "@ + name + " is a Temporal."@ + kind
        + ", and the temporal values zu holds are a \
                 date, a time, a timestamp and a duration"@
}

/// The zu value a `Temporal` one binds as, or nothing when the value is not a
/// `Temporal` one at all, which its tag says.
pub open spec fn moment_of(name: Seq<char>, tag: Result<Option<String>, String>, fields: Fields) -> Result<
    Option<Temporal>,
    Trouble,
> {
    match tag {
        Err(reason) => Err(Trouble::Boundary(reason@)),
        Ok(None) => Ok(None),
        Ok(Some(tag)) => match stripped(tag@, "Temporal."@) {
            None => Ok(None),
            Some(kind) => match bound_as(name, kind, fields) {
                Ok(bound) => Ok(Some(bound)),
                Err(trouble) => Err(trouble),
            },
        },
    }
}

/// The zu value a `Temporal` value of this type binds as.
pub open spec fn bound_as(name: Seq<char>, kind: Seq<char>, fields: Fields) -> Result<Temporal, Trouble> {
    if kind == "PlainDate"@ {
        match dated_as(name, fields) {
            Ok(days) => Ok(Temporal::Date(days)),
            Err(trouble) => Err(trouble),
        }
    } else if kind == "PlainTime"@ {
        match fields.clock {
            Ok(nanos) => Ok(Temporal::LocalTime(nanos)),
            Err(reason) => Err(Trouble::Boundary(reason@)),
        }
    } else if kind == "PlainDateTime"@ {
        match dated_as(name, fields) {
            Err(trouble) => Err(trouble),
            Ok(days) => match fields.clock {
                Err(reason) => Err(Trouble::Boundary(reason@)),
                Ok(nanos) => match epoch_of(name, days as int, nanos as int) {
                    Ok(nanos) => Ok(Temporal::LocalDatetime(nanos)),
                    Err(trouble) => Err(trouble),
                },
            },
        }
    } else if kind == "ZonedDateTime"@ {
        match since_of(name, fields.since) {
            Err(trouble) => Err(trouble),
            Ok(nanos) => match offset_of(name, fields) {
                Ok(offset) => Ok(Temporal::ZonedDatetime { nanos, offset }),
                Err(trouble) => Err(trouble),
            },
        }
    } else if kind == "Instant"@ {
        match since_of(name, fields.since) {
            Ok(nanos) => Ok(Temporal::ZonedDatetime { nanos, offset: 0 }),
            Err(trouble) => Err(trouble),
        }
    } else if kind == "Duration"@ {
        duration_of(name, fields.span)
    } else {
        Err(Trouble::Refused(no_such(name, kind)))
    }
}

fn bound(name: &str, kind: &str, fields: &Fields) -> (r: Result<Temporal, Fault>)
    ensures
        told(r) == bound_as(name@, kind@, *fields),
{
    if same(kind, "PlainDate") {
        Ok(Temporal::Date(days(name, fields)?))
    } else if same(kind, "PlainTime") {
        match &fields.clock {
            Ok(nanos) => Ok(Temporal::LocalTime(*nanos)),
            Err(reason) => Err(Fault::Boundary(reason.clone())),
        }
    } else if same(kind, "PlainDateTime") {
        let days: i32 = days(name, fields)?;
        match &fields.clock {
            Ok(nanos) => Ok(Temporal::LocalDatetime(epoch(name, days as i64, *nanos)?)),
            Err(reason) => Err(Fault::Boundary(reason.clone())),
        }
    } else if same(kind, "ZonedDateTime") {
        let nanos: i64 = since(name, &fields.since)?;
        let offset: i16 = offset(name, fields)?;
        Ok(Temporal::ZonedDatetime { nanos, offset })
    } else if same(kind, "Instant") {
        let nanos: i64 = since(name, &fields.since)?;
        Ok(Temporal::ZonedDatetime { nanos, offset: 0 })
    } else if same(kind, "Duration") {
        duration(name, &fields.span)
    } else {
        Err(
            Fault::Refused(
                "parameter ".to_owned().concat(name).concat(" is a Temporal.").concat(kind).concat(
                    ", and the temporal values zu holds are a \
                 date, a time, a timestamp and a duration",
                ),
            ),
        )
    }
}

/// The zu value a `Temporal` one binds as, or `None` when the value is not a
/// `Temporal` one at all.
///
/// Recognized by `Symbol.toStringTag`, which every `Temporal` class sets to its own
/// name, so a value that prints as a `PlainDate` binds as one.
pub fn from_temporal(name: &str, tag: &Result<Option<String>, String>, fields: &Fields) -> (r: Result<
    Option<Temporal>,
    Fault,
>)
    ensures
        told(r) == moment_of(name@, *tag, *fields),
{
    match tag {
        Err(reason) => Err(Fault::Boundary(reason.clone())),
        Ok(None) => Ok(None),
        Ok(Some(tag)) => match strip(tag.as_str(), "Temporal.") {
            None => Ok(None),
            Some(kind) => Ok(Some(bound(name, kind, fields)?)),
        },
    }
}

/// What a property of a `Temporal` value that its class does not have reads as.
pub const UNASKED: &'static str = "not a property of this class";

/// The properties of a `Temporal` value, each by what reading it found.
pub struct Properties {
    pub calendar: Calendar,
    pub year: Result<i32, String>,
    pub month: Result<i64, String>,
    pub day: Result<i64, String>,
    pub hour: Result<i64, String>,
    pub minute: Result<i64, String>,
    pub second: Result<i64, String>,
    pub millisecond: Result<i64, String>,
    pub microsecond: Result<i64, String>,
    pub nanosecond: Result<i64, String>,
    /// `epochNanoseconds`.
    pub since: Result<Big, String>,
    /// `offsetNanoseconds`.
    pub offset: Result<i64, String>,
    /// `offset`, which is the same thing written out.
    pub written: Result<String, String>,
    pub years: Result<i64, String>,
    pub months: Result<i64, String>,
    pub weeks: Result<i64, String>,
    pub days: Result<i64, String>,
    pub hours: Result<i64, String>,
    pub minutes: Result<i64, String>,
    pub seconds: Result<i64, String>,
    pub milliseconds: Result<i64, String>,
    pub microseconds: Result<i64, String>,
    pub nanoseconds: Result<i64, String>,
}

impl Properties {
    /// The days its year, month and day count, or the first of the three that could not be
    /// read and why. There is no count when a word does not hold every step of it.
    pub open spec fn dated(&self) -> Option<Result<i64, Seq<char>>> {
        match (self.year, self.month, self.day) {
            (Err(reason), _, _) => Some(Err(reason@)),
            (_, Err(reason), _) => Some(Err(reason@)),
            (_, _, Err(reason)) => Some(Err(reason@)),
            (Ok(year), Ok(month), Ok(day)) => if days_fit(year as int, month as int, day as int) {
                Some(Ok(days_from(year as int, month as int, day as int) as i64))
            } else {
                None
            },
        }
    }

    /// The nanoseconds its hour and the properties under it count, or the first of them that
    /// could not be read and why.
    pub open spec fn timed(&self) -> Option<Result<i64, Seq<char>>> {
        match (self.hour, self.minute, self.second, self.millisecond, self.microsecond, self.nanosecond) {
            (Err(reason), _, _, _, _, _) => Some(Err(reason@)),
            (_, Err(reason), _, _, _, _) => Some(Err(reason@)),
            (_, _, Err(reason), _, _, _) => Some(Err(reason@)),
            (_, _, _, Err(reason), _, _) => Some(Err(reason@)),
            (_, _, _, _, Err(reason), _) => Some(Err(reason@)),
            (_, _, _, _, _, Err(reason)) => Some(Err(reason@)),
            (Ok(hour), Ok(minute), Ok(second), Ok(milli), Ok(micro), Ok(nano)) => if clock_fits(
                hour as int,
                minute as int,
                second as int,
                milli as int,
                micro as int,
                nano as int,
            ) {
                Some(
                    Ok(
                        nanos_from(
                            hour as int,
                            minute as int,
                            second as int,
                            milli as int,
                            micro as int,
                            nano as int,
                        ) as i64,
                    ),
                )
            } else {
                None
            },
        }
    }

    /// The lengths of a duration, or the first of them that could not be read and why.
    pub open spec fn lengths(&self) -> Result<Span, Seq<char>> {
        match (self.years, self.months, self.weeks, self.days, self.hours) {
            (Err(reason), _, _, _, _) => Err(reason@),
            (_, Err(reason), _, _, _) => Err(reason@),
            (_, _, Err(reason), _, _) => Err(reason@),
            (_, _, _, Err(reason), _) => Err(reason@),
            (_, _, _, _, Err(reason)) => Err(reason@),
            (Ok(years), Ok(months), Ok(weeks), Ok(days), Ok(hours)) => match (
                self.minutes,
                self.seconds,
                self.milliseconds,
                self.microseconds,
                self.nanoseconds,
            ) {
                (Err(reason), _, _, _, _) => Err(reason@),
                (_, Err(reason), _, _, _) => Err(reason@),
                (_, _, Err(reason), _, _) => Err(reason@),
                (_, _, _, Err(reason), _) => Err(reason@),
                (_, _, _, _, Err(reason)) => Err(reason@),
                (Ok(minutes), Ok(seconds), Ok(millis), Ok(micros), Ok(nanos)) => Ok(
                    Span { years, months, weeks, days, hours, minutes, seconds, millis, micros, nanos },
                ),
            },
        }
    }

    /// The months and the nanoseconds its lengths count, or the first of them that could not
    /// be read and why.
    pub open spec fn spanned(&self) -> Option<Result<(i64, i64), Seq<char>>> {
        match self.lengths() {
            Err(reason) => Some(Err(reason)),
            Ok(span) => if span.counts() {
                Some(Ok((span.whole_months() as i64, span.whole_nanos() as i64)))
            } else {
                None
            },
        }
    }

    fn date(&self) -> (r: Option<Result<i64, String>>)
        ensures
            match r {
                Some(read) => self.dated() == Some(said(read)),
                None => self.dated() is None,
            },
    {
        let year: i32 = match &self.year {
            Ok(year) => *year,
            Err(reason) => return Some(Err(reason.clone())),
        };
        let month: i64 = match &self.month {
            Ok(month) => *month,
            Err(reason) => return Some(Err(reason.clone())),
        };
        let day: i64 = match &self.day {
            Ok(day) => *day,
            Err(reason) => return Some(Err(reason.clone())),
        };
        Some(Ok(days_of(year, month, day)?))
    }

    fn time(&self) -> (r: Option<Result<i64, String>>)
        ensures
            match r {
                Some(read) => self.timed() == Some(said(read)),
                None => self.timed() is None,
            },
    {
        let hour: i64 = match &self.hour {
            Ok(hour) => *hour,
            Err(reason) => return Some(Err(reason.clone())),
        };
        let minute: i64 = match &self.minute {
            Ok(minute) => *minute,
            Err(reason) => return Some(Err(reason.clone())),
        };
        let second: i64 = match &self.second {
            Ok(second) => *second,
            Err(reason) => return Some(Err(reason.clone())),
        };
        let milli: i64 = match &self.millisecond {
            Ok(milli) => *milli,
            Err(reason) => return Some(Err(reason.clone())),
        };
        let micro: i64 = match &self.microsecond {
            Ok(micro) => *micro,
            Err(reason) => return Some(Err(reason.clone())),
        };
        let nano: i64 = match &self.nanosecond {
            Ok(nano) => *nano,
            Err(reason) => return Some(Err(reason.clone())),
        };
        Some(Ok(nanos_of(hour, minute, second, milli, micro, nano)?))
    }

    fn measured(&self) -> (r: Result<Span, String>)
        ensures
            said(r) == self.lengths(),
    {
        let years: i64 = held(&self.years)?;
        let months: i64 = held(&self.months)?;
        let weeks: i64 = held(&self.weeks)?;
        let days: i64 = held(&self.days)?;
        let hours: i64 = held(&self.hours)?;
        let minutes: i64 = held(&self.minutes)?;
        let seconds: i64 = held(&self.seconds)?;
        let millis: i64 = held(&self.milliseconds)?;
        let micros: i64 = held(&self.microseconds)?;
        let nanos: i64 = held(&self.nanoseconds)?;
        Ok(Span { years, months, weeks, days, hours, minutes, seconds, millis, micros, nanos })
    }

    fn span(&self) -> (r: Option<Result<(i64, i64), String>>)
        ensures
            match r {
                Some(read) => self.spanned() == Some(said(read)),
                None => self.spanned() is None,
            },
    {
        match self.measured() {
            Err(reason) => Some(Err(reason)),
            Ok(span) => Some(Ok(span.count()?)),
        }
    }

    /// The fields a `Temporal` value binds by, from its properties: the counts its class has,
    /// and everything else as it was read.
    ///
    /// There are none when a word does not hold every step of one of those counts, which no
    /// value of a class that counts within its own range comes to but a duration.
    pub fn fields(self, tag: &Result<Option<String>, String>) -> (r: Option<Fields>)
        ensures
            match r {
                Some(fields) => counted(fields, self, *tag),
                None => {
                    ||| has_date(*tag) && self.dated() is None
                    ||| has_time(*tag) && self.timed() is None
                    ||| has_span(*tag) && self.spanned() is None
                },
            },
    {
        let dates: bool = is_tagged(tag, "PlainDate") || is_tagged(tag, "PlainDateTime");
        let times: bool = is_tagged(tag, "PlainTime") || is_tagged(tag, "PlainDateTime");
        let spans: bool = is_tagged(tag, "Duration");
        let day: Result<i64, String> = if dates { self.date()? } else { Err(UNASKED.to_owned()) };
        let clock: Result<i64, String> = if times { self.time()? } else { Err(UNASKED.to_owned()) };
        let span: Result<(i64, i64), String> = if spans { self.span()? } else { Err(UNASKED.to_owned()) };
        Some(
            Fields {
                calendar: self.calendar,
                day,
                clock,
                since: self.since,
                offset: self.offset,
                written: self.written,
                span,
            },
        )
    }
}

/// Whether a class of `Temporal` has a year, a month and a day that are bound by.
pub open spec fn has_date(tag: Result<Option<String>, String>) -> bool {
    tagged(tag, "PlainDate"@) || tagged(tag, "PlainDateTime"@)
}

/// Whether a class of `Temporal` has an hour and what is under it that are bound by.
pub open spec fn has_time(tag: Result<Option<String>, String>) -> bool {
    tagged(tag, "PlainTime"@) || tagged(tag, "PlainDateTime"@)
}

/// Whether a class of `Temporal` has the lengths of a duration.
pub open spec fn has_span(tag: Result<Option<String>, String>) -> bool {
    tagged(tag, "Duration"@)
}

/// Whether these are the fields a value with this tag and these properties binds by.
pub open spec fn counted(fields: Fields, given: Properties, tag: Result<Option<String>, String>) -> bool {
    &&& fields.calendar == given.calendar
    &&& fields.since == given.since
    &&& fields.offset == given.offset
    &&& fields.written == given.written
    &&& if has_date(tag) {
        given.dated() == Some(said(fields.day))
    } else {
        said(fields.day) == Err::<i64, _>(UNASKED@)
    }
    &&& if has_time(tag) {
        given.timed() == Some(said(fields.clock))
    } else {
        said(fields.clock) == Err::<i64, _>(UNASKED@)
    }
    &&& if has_span(tag) {
        given.spanned() == Some(said(fields.span))
    } else {
        said(fields.span) == Err::<(i64, i64), _>(UNASKED@)
    }
}

fn held(read: &Result<i64, String>) -> (r: Result<i64, String>)
    ensures
        said(r) == said(*read),
{
    match read {
        Ok(n) => Ok(*n),
        Err(reason) => Err(reason.clone()),
    }
}

fn is_tagged(tag: &Result<Option<String>, String>, class: &str) -> (r: bool)
    ensures
        r == tagged(*tag, class@),
{
    match tag {
        Ok(Some(tag)) => match strip(tag.as_str(), "Temporal.") {
            None => {
                proof {
                    assert(("Temporal."@ + class@).take("Temporal."@.len() as int) =~= "Temporal."@);
                }
                false
            },
            Some(kind) => {
                proof {
                    assert(("Temporal."@ + class@).skip("Temporal."@.len() as int) =~= class@);
                    assert(tag@ =~= "Temporal."@ + kind@);
                }
                same(kind, class)
            },
        },
        _ => false,
    }
}

/// Whether a tag is that of a `Temporal` class.
pub open spec fn tagged(tag: Result<Option<String>, String>, class: Seq<char>) -> bool {
    tag matches Ok(Some(tag)) && tag@ == "Temporal."@ + class
}

/// Whether these are the tag and the fields of the `Temporal` value a constructor
/// makes of its arguments, on the ISO calendar.
pub open spec fn reads_back(made: Build, tag: Result<Option<String>, String>, fields: Fields) -> bool {
    match made {
        Build::PlainDate { year, month, day } => {
            &&& tagged(tag, "PlainDate"@)
            &&& calendar_of(fields.calendar) == Ok::<_, Trouble>(Some("iso8601"@))
            &&& fields.day matches Ok(days) && days == days_from(year as int, month as int, day as int)
        },
        Build::PlainTime { clock } => {
            &&& tagged(tag, "PlainTime"@)
            &&& fields.clock matches Ok(nanos) && nanos == nanos_from(
                clock.0 as int,
                clock.1 as int,
                clock.2 as int,
                clock.3 as int,
                clock.4 as int,
                clock.5 as int,
            )
        },
        Build::PlainDateTime { year, month, day, clock } => {
            &&& tagged(tag, "PlainDateTime"@)
            &&& calendar_of(fields.calendar) == Ok::<_, Trouble>(Some("iso8601"@))
            &&& fields.day matches Ok(days) && days == days_from(year as int, month as int, day as int)
            &&& fields.clock matches Ok(nanos) && nanos == nanos_from(
                clock.0 as int,
                clock.1 as int,
                clock.2 as int,
                clock.3 as int,
                clock.4 as int,
                clock.5 as int,
            )
        },
        Build::ZonedDateTime { nanos, zone } => {
            &&& tagged(tag, "ZonedDateTime"@)
            &&& fields.since matches Ok(since) && since.fits() && since.signed() == nanos
            &&& fields.offset matches Ok(offset) && remainder(offset as int, 60 * SECOND) == 0 && i16::MIN
                <= quotient(offset as int, 60 * SECOND) <= i16::MAX && zone@ == zone_of(
                quotient(offset as int, 60 * SECOND),
            )
        },
        Build::Months(months) => {
            &&& tagged(tag, "Duration"@)
            &&& fields.span == Ok::<_, String>((months, 0i64))
        },
        Build::Seconds { seconds, nanos } => {
            &&& tagged(tag, "Duration"@)
            &&& fields.span matches Ok(both) && both.0 == 0 && both.1 == nanos_from(
                0,
                0,
                seconds as int,
                0,
                0,
                nanos as int,
            )
        },
    }
}

proof fn lemma_tagged(tag: Result<Option<String>, String>, class: Seq<char>)
    requires
        tagged(tag, class),
    ensures
        tag matches Ok(Some(tag)) && stripped(tag@, "Temporal."@) == Some(class),
{
    let t = tag->Ok_0->Some_0@;
    assert(t.take("Temporal."@.len() as int) =~= "Temporal."@);
    assert(t.skip("Temporal."@.len() as int) =~= class);
}

proof fn lemma_classes()
    ensures
        "PlainDate"@.len() == 9,
        "PlainTime"@.len() == 9,
        "PlainDate"@[5] == 'D',
        "PlainTime"@[5] == 'T',
        "PlainDateTime"@.len() == 13,
        "PlainDateTime"@[0] == 'P',
        "ZonedDateTime"@.len() == 13,
        "ZonedDateTime"@[0] == 'Z',
        "Instant"@.len() == 7,
        "Duration"@.len() == 8,
{
    reveal_strlit("PlainDate");
    reveal_strlit("PlainTime");
    reveal_strlit("PlainDateTime");
    reveal_strlit("ZonedDateTime");
    reveal_strlit("Instant");
    reveal_strlit("Duration");
}

/// A value that went out as a `Temporal` one comes back as the value it was: the
/// fields of the `Temporal` value that was made of it bind as it.
///
/// A duration of no months is left out. It goes out as a duration of nothing, and a
/// duration of nothing comes back as one of no nanoseconds.
pub proof fn law_temporal_round_trip(
    name: Seq<char>,
    value: Temporal,
    made: Build,
    tag: Result<Option<String>, String>,
    fields: Fields,
)
    requires
        builds(value, Some(made)),
        reads_back(made, tag, fields),
        value != Temporal::Duration(DurationKind::YearMonth, 0),
    ensures
        moment_of(name, tag, fields) == Ok::<_, Trouble>(Some(value)),
{
    lemma_classes();
    match value {
        Temporal::Date(days) => {
            lemma_tagged(tag, "PlainDate"@);
            law_round_trip(days as int, made->PlainDate_year as int, made->PlainDate_month as int, made->PlainDate_day as int);
        },
        Temporal::LocalTime(nanos) => {
            lemma_tagged(tag, "PlainTime"@);
            law_clock_recombines(nanos as int);
        },
        Temporal::ZonedTime { .. } => {},
        Temporal::LocalDatetime(nanos) => {
            lemma_tagged(tag, "PlainDateTime"@);
            let days = nanos as int / DAY as int;
            law_round_trip(
                days,
                made->PlainDateTime_year as int,
                made->PlainDateTime_month as int,
                made->PlainDateTime_day as int,
            );
            law_clock_recombines(nanos as int % DAY as int);
        },
        Temporal::ZonedDatetime { nanos, offset } => {
            lemma_tagged(tag, "ZonedDateTime"@);
            let read = fields.offset->Ok_0 as int;
            law_zones_differ(offset as int, quotient(read, 60 * SECOND));
        },
        Temporal::Duration(_, count) => {
            lemma_tagged(tag, "Duration"@);
        },
    }
}

/// Whether these are the tag and the properties of the `Temporal` value a constructor makes of
/// its arguments, on the ISO calendar: the arguments themselves, and nothing for every length
/// of a duration that was not given.
pub open spec fn shows_as(made: Build, tag: Result<Option<String>, String>, given: Properties) -> bool {
    match made {
        Build::PlainDate { year, month, day } => {
            &&& tagged(tag, "PlainDate"@)
            &&& calendar_of(given.calendar) == Ok::<_, Trouble>(Some("iso8601"@))
            &&& shows_date(given, year, month, day)
        },
        Build::PlainTime { clock } => {
            &&& tagged(tag, "PlainTime"@)
            &&& shows_time(given, clock)
        },
        Build::PlainDateTime { year, month, day, clock } => {
            &&& tagged(tag, "PlainDateTime"@)
            &&& calendar_of(given.calendar) == Ok::<_, Trouble>(Some("iso8601"@))
            &&& shows_date(given, year, month, day)
            &&& shows_time(given, clock)
        },
        Build::ZonedDateTime { nanos, zone } => {
            &&& tagged(tag, "ZonedDateTime"@)
            &&& given.since matches Ok(since) && since.fits() && since.signed() == nanos
            &&& given.offset matches Ok(offset) && remainder(offset as int, 60 * SECOND) == 0 && i16::MIN
                <= quotient(offset as int, 60 * SECOND) <= i16::MAX && zone@ == zone_of(
                quotient(offset as int, 60 * SECOND),
            )
        },
        Build::Months(months) => {
            &&& tagged(tag, "Duration"@)
            &&& given.lengths() == Ok::<_, Seq<char>>(Span { months, ..nothing() })
        },
        Build::Seconds { seconds, nanos } => {
            &&& tagged(tag, "Duration"@)
            &&& given.lengths() == Ok::<_, Seq<char>>(Span { seconds, nanos, ..nothing() })
        },
    }
}

/// A duration of nothing.
pub open spec fn nothing() -> Span {
    Span { years: 0, months: 0, weeks: 0, days: 0, hours: 0, minutes: 0, seconds: 0, millis: 0, micros: 0, nanos: 0 }
}

/// Whether these properties are those of a date.
pub open spec fn shows_date(given: Properties, year: i32, month: i64, day: i64) -> bool {
    given.year == Ok::<_, String>(year) && given.month == Ok::<_, String>(month) && given.day == Ok::<_, String>(day)
}

/// Whether these properties are those of a time.
pub open spec fn shows_time(given: Properties, clock: (i64, i64, i64, i64, i64, i64)) -> bool {
    &&& given.hour == Ok::<_, String>(clock.0)
    &&& given.minute == Ok::<_, String>(clock.1)
    &&& given.second == Ok::<_, String>(clock.2)
    &&& given.millisecond == Ok::<_, String>(clock.3)
    &&& given.microsecond == Ok::<_, String>(clock.4)
    &&& given.nanosecond == Ok::<_, String>(clock.5)
}

/// The properties of a `Temporal` value that was made of a zu one count as that value, so what
/// went out as a `Temporal` value and is read back by its properties binds as the value it was.
///
/// A duration of no months is left out, which goes out as a duration of nothing.
pub proof fn law_properties_come_back(
    name: Seq<char>,
    value: Temporal,
    made: Build,
    tag: Result<Option<String>, String>,
    given: Properties,
)
    requires
        builds(value, Some(made)),
        shows_as(made, tag, given),
        value != Temporal::Duration(DurationKind::YearMonth, 0),
    ensures
        has_date(tag) ==> given.dated() is Some,
        has_time(tag) ==> given.timed() is Some,
        has_span(tag) ==> given.spanned() is Some,
        forall|fields: Fields| #[trigger] counted(fields, given, tag) ==> moment_of(name, tag, fields) == Ok::<
            _,
            Trouble,
        >(Some(value)),
{
    lemma_tags(tag);
    match value {
        Temporal::Date(days) => {
            lemma_date_fits(days as int, made->PlainDate_year, made->PlainDate_month, made->PlainDate_day);
        },
        Temporal::LocalTime(nanos) => {
            lemma_time_fits(nanos as int);
        },
        Temporal::ZonedTime { .. } => {},
        Temporal::LocalDatetime(nanos) => {
            lemma_date_fits(
                nanos as int / DAY as int,
                made->PlainDateTime_year,
                made->PlainDateTime_month,
                made->PlainDateTime_day,
            );
            lemma_time_fits(nanos as int % DAY as int);
        },
        Temporal::ZonedDatetime { .. } => {},
        Temporal::Duration(_, count) => {},
    }
    assert forall|fields: Fields| #[trigger] counted(fields, given, tag) implies moment_of(name, tag, fields) == Ok::<
        _,
        Trouble,
    >(Some(value)) by {
        law_temporal_round_trip(name, value, made, tag, fields);
    }
}

/// On the ISO calendar a date binds as the days its year, month and day count, a time as the
/// nanoseconds its hour and what is under it count, a date with a time as the nanoseconds the two
/// count together, and a duration as the months or the nanoseconds its lengths count.
pub proof fn law_properties_are_counted(
    name: Seq<char>,
    tag: Result<Option<String>, String>,
    given: Properties,
    fields: Fields,
)
    requires
        counted(fields, given, tag),
    ensures
        ({
            let iso = calendar_of(given.calendar) matches Ok(calendar) && (calendar is None || calendar == Some(
                "iso8601"@,
            ));
            &&& tagged(tag, "PlainDate"@) && iso && (given.dated() matches Some(Ok(days))) ==> moment_of(
                name,
                tag,
                fields,
            ) == Ok::<_, Trouble>(Some(Temporal::Date(given.dated()->Some_0->Ok_0 as i32)))
            &&& tagged(tag, "PlainTime"@) && (given.timed() matches Some(Ok(nanos))) ==> moment_of(name, tag, fields)
                == Ok::<_, Trouble>(Some(Temporal::LocalTime(given.timed()->Some_0->Ok_0)))
            &&& tagged(tag, "PlainDateTime"@) && iso && (given.dated() matches Some(Ok(days))) && (
            given.timed() matches Some(Ok(nanos))) ==> moment_of(name, tag, fields) == match epoch_of(
                name,
                given.dated()->Some_0->Ok_0 as i32 as int,
                given.timed()->Some_0->Ok_0 as int,
            ) {
                Ok(nanos) => Ok::<_, Trouble>(Some(Temporal::LocalDatetime(nanos))),
                Err(trouble) => Err(trouble),
            }
            &&& tagged(tag, "Duration"@) && (given.spanned() matches Some(Ok(both))) ==> moment_of(name, tag, fields)
                == match duration_of(name, Ok(given.spanned()->Some_0->Ok_0)) {
                Ok(bound) => Ok::<_, Trouble>(Some(bound)),
                Err(trouble) => Err(trouble),
            }
        }),
{
    lemma_tags(tag);
}

/// A tag is that of one class.
proof fn lemma_tags(tag: Result<Option<String>, String>)
    ensures
        tagged(tag, "PlainDate"@) ==> !tagged(tag, "PlainTime"@) && !tagged(tag, "PlainDateTime"@) && !tagged(
            tag,
            "Duration"@,
        ) && stripped(tag->Ok_0->Some_0@, "Temporal."@) == Some("PlainDate"@),
        tagged(tag, "PlainTime"@) ==> !tagged(tag, "PlainDateTime"@) && !tagged(tag, "Duration"@) && stripped(
            tag->Ok_0->Some_0@,
            "Temporal."@,
        ) == Some("PlainTime"@),
        tagged(tag, "PlainDateTime"@) ==> !tagged(tag, "Duration"@) && stripped(tag->Ok_0->Some_0@, "Temporal."@)
            == Some("PlainDateTime"@),
        tagged(tag, "Duration"@) ==> stripped(tag->Ok_0->Some_0@, "Temporal."@) == Some("Duration"@),
        tagged(tag, "ZonedDateTime"@) ==> !has_date(tag) && !has_time(tag) && !has_span(tag),
        "PlainDate"@ != "PlainTime"@ && "PlainDate"@ != "PlainDateTime"@ && "PlainTime"@ != "PlainDateTime"@,
        "Duration"@ != "PlainDate"@ && "Duration"@ != "PlainTime"@ && "Duration"@ != "PlainDateTime"@ && "Duration"@
            != "ZonedDateTime"@ && "Duration"@ != "Instant"@,
{
    lemma_classes();
    if tagged(tag, "PlainDate"@) {
        lemma_tagged(tag, "PlainDate"@);
    }
    if tagged(tag, "PlainTime"@) {
        lemma_tagged(tag, "PlainTime"@);
    }
    if tagged(tag, "PlainDateTime"@) {
        lemma_tagged(tag, "PlainDateTime"@);
    }
    if tagged(tag, "ZonedDateTime"@) {
        lemma_tagged(tag, "ZonedDateTime"@);
    }
    if tagged(tag, "Duration"@) {
        lemma_tagged(tag, "Duration"@);
    }
}

proof fn lemma_date_fits(days: int, year: i32, month: i64, day: i64)
    requires
        falls_on(days, year as int, month as int, day as int),
        word(days),
    ensures
        days_fit(year as int, month as int, day as int),
        days_from(year as int, month as int, day as int) == days,
{
    law_round_trip(days, year as int, month as int, day as int);
}

/// Every step of counting a time out of the fields it was split into is within the time.
proof fn lemma_time_fits(nanos: int)
    requires
        word(nanos),
    ensures
        ({
            let c = clock_of(nanos);
            clock_fits(c.0, c.1, c.2, c.3, c.4, c.5) && nanos_from(c.0, c.1, c.2, c.3, c.4, c.5) == nanos
        }),
{
    law_clock_recombines(nanos);
    let n = if nanos >= 0 { nanos } else { -nanos };
    assert(n / 1_000_000 == (n / 1_000) / 1_000);
    assert(n / 1_000_000_000 == (n / 1_000_000) / 1_000);
    assert(n / 60_000_000_000 == (n / 1_000_000_000) / 60);
    assert(n / 3_600_000_000_000 == (n / 60_000_000_000) / 60);
}

/// Each length of a duration counts its own fixed number of nanoseconds, or of months, and no
/// other: so many more of one of them, everything else the same, makes the count larger by that
/// many times what one of it is. A duration of nothing counts nothing.
pub proof fn law_each_length_counts(span: Span, n: i64)
    ensures
        (Span { weeks: n, ..span }).whole_nanos() - span.whole_nanos() == (n - span.weeks) * 604_800_000_000_000,
        (Span { days: n, ..span }).whole_nanos() - span.whole_nanos() == (n - span.days) * 86_400_000_000_000,
        (Span { hours: n, ..span }).whole_nanos() - span.whole_nanos() == (n - span.hours) * 3_600_000_000_000,
        (Span { minutes: n, ..span }).whole_nanos() - span.whole_nanos() == (n - span.minutes) * 60_000_000_000,
        (Span { seconds: n, ..span }).whole_nanos() - span.whole_nanos() == (n - span.seconds) * 1_000_000_000,
        (Span { millis: n, ..span }).whole_nanos() - span.whole_nanos() == (n - span.millis) * 1_000_000,
        (Span { micros: n, ..span }).whole_nanos() - span.whole_nanos() == (n - span.micros) * 1_000,
        (Span { nanos: n, ..span }).whole_nanos() - span.whole_nanos() == n - span.nanos,
        (Span { years: n, ..span }).whole_nanos() == span.whole_nanos(),
        (Span { months: n, ..span }).whole_nanos() == span.whole_nanos(),
        (Span { years: n, ..span }).whole_months() - span.whole_months() == (n - span.years) * 12,
        (Span { months: n, ..span }).whole_months() - span.whole_months() == n - span.months,
        (Span { years: span.years, months: span.months, ..nothing() }).whole_months() == span.whole_months(),
        span.years == 0 && span.months == 0 ==> span.whole_months() == 0,
        span.weeks == 0 && span.days == 0 && span.hours == 0 && span.minutes == 0 && span.seconds == 0 && span.millis
            == 0 && span.micros == 0 && span.nanos == 0 ==> span.whole_nanos() == 0,
{
}

/// A duration whose lengths all run one way is counted whenever its months and its nanoseconds
/// are each within 64 bits, and what is counted always is.
pub proof fn law_a_duration_that_fits_is_counted(span: Span)
    ensures
        span.counts() ==> i64::MIN <= span.whole_months() <= i64::MAX && i64::MIN <= span.whole_nanos() <= i64::MAX,
        span.years >= 0 && span.months >= 0 && span.weeks >= 0 && span.days >= 0 && span.hours >= 0 && span.minutes >= 0
            && span.seconds >= 0 && span.millis >= 0 && span.micros >= 0 && span.nanos >= 0 ==> (span.counts() <==> (
        span.whole_months() <= i64::MAX && span.whole_nanos() <= i64::MAX)),
        span.years <= 0 && span.months <= 0 && span.weeks <= 0 && span.days <= 0 && span.hours <= 0 && span.minutes <= 0
            && span.seconds <= 0 && span.millis <= 0 && span.micros <= 0 && span.nanos <= 0 ==> (span.counts() <==> (
        span.whole_months() >= i64::MIN && span.whole_nanos() >= i64::MIN)),
{
}

/// A time of day is counted whenever its fields are those a clock shows, and a date whenever its
/// month and its day are those a calendar shows, whatever the year.
pub proof fn law_a_clock_and_a_calendar_are_counted(
    hour: int,
    minute: int,
    second: int,
    milli: int,
    micro: int,
    nano: int,
    year: i32,
    month: int,
    day: int,
)
    requires
        0 <= hour < 24,
        0 <= minute < 60,
        0 <= second < 60,
        0 <= milli < 1_000,
        0 <= micro < 1_000,
        0 <= nano < 1_000,
        1 <= month <= 12,
        1 <= day <= 31,
    ensures
        clock_fits(hour, minute, second, milli, micro, nano),
        0 <= nanos_from(hour, minute, second, milli, micro, nano) < 86_400_000_000_000,
        days_fit(year as int, month, day),
{
}

/// What is built of a value counts what the value counts: the fields of a time and of the time of
/// day of a timestamp are its nanoseconds, the date of a timestamp is the day they are left over
/// from, an instant keeps its nanoseconds, and a duration its months or its nanoseconds, with less
/// than a second of them apart from the seconds and on the same side of nothing.
pub proof fn law_what_is_built_counts(value: Temporal, made: Build)
    requires
        builds(value, Some(made)),
    ensures
        match value {
            Temporal::Date(days) => made matches Build::PlainDate { year, month, day } && days_from(
                year as int,
                month as int,
                day as int,
            ) == days && 1 <= month <= 12 && 1 <= day <= 31,
            Temporal::LocalTime(nanos) => made matches Build::PlainTime { clock } && clock.0 * 3_600_000_000_000
                + clock.1 * 60_000_000_000 + clock.2 * 1_000_000_000 + clock.3 * 1_000_000 + clock.4 * 1_000 + clock.5
                == nanos,
            Temporal::ZonedTime { .. } => false,
            Temporal::LocalDatetime(nanos) => made matches Build::PlainDateTime { year, month, day, clock }
                && days_from(year as int, month as int, day as int) * 86_400_000_000_000 + clock.0 * 3_600_000_000_000
                + clock.1 * 60_000_000_000 + clock.2 * 1_000_000_000 + clock.3 * 1_000_000 + clock.4 * 1_000 + clock.5
                == nanos && 0 <= clock.0 < 24 && 0 <= clock.1 < 60 && 0 <= clock.2 < 60 && 1 <= month <= 12 && 1 <= day
                <= 31,
            Temporal::ZonedDatetime { nanos, offset } => made matches Build::ZonedDateTime { nanos: n, zone } && n
                == nanos && zone@.len() >= 6 && zone@[0] == (if offset < 0 { '-' } else { '+' }) && (zone@[zone@.len() - 2]
                as int - '0' as int) * 10 + (zone@[zone@.len() - 1] as int - '0' as int) == (if offset < 0 {
                -offset
            } else {
                offset as int
            }) % 60,
            Temporal::Duration(DurationKind::YearMonth, months) => made matches Build::Months(n) && n == months,
            Temporal::Duration(DurationKind::DayTime, nanos) => made matches Build::Seconds { seconds, nanos: n }
                && seconds * 1_000_000_000 + n == nanos && -1_000_000_000 < n < 1_000_000_000 && (nanos >= 0 ==> n >= 0)
                && (nanos <= 0 ==> n <= 0),
        },
{
    match value {
        Temporal::Date(days) => {
            law_round_trip(days as int, made->PlainDate_year as int, made->PlainDate_month as int, made->PlainDate_day as int);
        },
        Temporal::LocalTime(nanos) => {
            law_clock_recombines(nanos as int);
        },
        Temporal::LocalDatetime(nanos) => {
            law_round_trip(
                nanos as int / DAY as int,
                made->PlainDateTime_year as int,
                made->PlainDateTime_month as int,
                made->PlainDateTime_day as int,
            );
            law_clock_recombines(nanos as int % DAY as int);
            law_clock_ranges(nanos as int % DAY as int);
        },
        Temporal::ZonedDatetime { nanos, offset } => {
            law_a_zone_reads_as_its_offset(offset as int);
        },
        _ => {},
    }
}

/// A timestamp is its day's nanoseconds and its time's, whenever the two together are within 64
/// bits. An instant is the nanoseconds it says, whenever they are. The offset of a zoned value is
/// the whole minutes its nanoseconds are, whenever they are whole minutes and 16 bits hold them.
pub proof fn law_a_timestamp_is_its_nanoseconds(
    name: Seq<char>,
    days: int,
    nanos: int,
    since: Result<Big, String>,
    fields: Fields,
    minutes: int,
)
    ensures
        epoch_of(name, days, nanos) matches Ok(n) ==> n == days * 86_400_000_000_000 + nanos,
        epoch_of(name, days, nanos) is Ok <==> -0x8000_0000_0000_0000 <= days * 86_400_000_000_000 + nanos
            < 0x8000_0000_0000_0000,
        since_of(name, since) matches Ok(n) ==> (since matches Ok(big) && big.high@.len() == 0 && n == (
        if big.negative { -(big.low as int) } else { big.low as int })),
        since_of(name, since) is Ok <==> (since matches Ok(big) && big.high@.len() == 0 && (if big.negative {
            big.low <= 0x8000_0000_0000_0000
        } else {
            big.low < 0x8000_0000_0000_0000
        })),
        offset_of(name, fields) matches Ok(n) ==> (fields.offset matches Ok(read) && n * 60_000_000_000 == read),
        fields.offset matches Ok(read) && read == minutes * 60_000_000_000 && -0x8000 <= minutes < 0x8000 ==> offset_of(
            name,
            fields,
        ) == Ok::<_, Trouble>(minutes as i16),
{
    if let Ok(read) = fields.offset {
        if read == minutes * 60_000_000_000 {
            assert(quotient(read as int, 60 * SECOND) == minutes);
        }
    }
}

/// A duration binds as the months it counts or as the nanoseconds it counts, and never as both:
/// what counts months and nanoseconds is refused.
pub proof fn law_a_duration_is_one_or_the_other(name: Seq<char>, months: i64, nanos: i64)
    ensures
        duration_of(name, Ok((0i64, nanos))) == Ok::<_, Trouble>(Temporal::Duration(DurationKind::DayTime, nanos)),
        months != 0 ==> duration_of(name, Ok((months, 0i64))) == Ok::<_, Trouble>(
            Temporal::Duration(DurationKind::YearMonth, months),
        ),
        months != 0 && nanos != 0 ==> duration_of(name, Ok((months, nanos))) is Err,
{
}

/// A date on a calendar that is not the ISO one is never bound, under whichever of its names the
/// calendar was found, and `calendarId` is believed before `calendar` is. A value with no
/// `Temporal` tag is no `Temporal` value, whatever else is on it.
pub proof fn law_only_iso_dates_bind(
    name: Seq<char>,
    tag: Result<Option<String>, String>,
    fields: Fields,
    calendar: String,
    other: Result<Named, String>,
)
    requires
        calendar@ != "iso8601"@,
        tagged(tag, "PlainDate"@) || tagged(tag, "PlainDateTime"@),
    ensures
        moment_of(
            name,
            tag,
            (Fields { calendar: Calendar { id: Ok(Some(calendar)), named: other }, ..fields }),
        ) is Err,
        moment_of(
            name,
            tag,
            (Fields { calendar: Calendar { id: Ok(None), named: Ok(Named::Text(calendar)) }, ..fields }),
        ) is Err,
        moment_of(
            name,
            tag,
            (Fields { calendar: Calendar { id: Ok(None), named: Ok(Named::Object(Ok(Some(calendar)))) }, ..fields }),
        ) is Err,
        moment_of(name, Ok(None), fields) == Ok::<Option<Temporal>, Trouble>(None),
{
    lemma_tags(tag);
}

/// An instant and a zoned timestamp bind as the nanoseconds since the epoch they say, the first at
/// no offset and the second at the one it was written at.
pub proof fn law_instants_bind(name: Seq<char>, tag: Result<Option<String>, String>, fields: Fields)
    ensures
        tagged(tag, "Instant"@) ==> (moment_of(name, tag, fields) matches Ok(bound) ==> (
        bound matches Some(Temporal::ZonedDatetime { nanos, offset }) && offset == 0 && (fields.since matches Ok(big)
            && nanos == big.signed()))),
        tagged(tag, "ZonedDateTime"@) ==> (moment_of(name, tag, fields) matches Ok(bound) ==> (
        bound matches Some(Temporal::ZonedDatetime { nanos, offset }) && (fields.since matches Ok(big) && nanos
            == big.signed()) && (fields.offset matches Ok(read) && offset * 60_000_000_000 == read))),
{
    lemma_classes();
    if tagged(tag, "Instant"@) {
        lemma_tagged(tag, "Instant"@);
    }
    if tagged(tag, "ZonedDateTime"@) {
        lemma_tagged(tag, "ZonedDateTime"@);
    }
    law_a_timestamp_is_its_nanoseconds(name, 0, 0, fields.since, fields, 0);
}

/// A duration binds as the months its years and months are, twelve to the year, or as the
/// nanoseconds everything under a month is, and as neither where both are something. So sixty
/// minutes bind as the hour does, and seven days as the week.
pub proof fn law_a_duration_binds_as_its_lengths(
    name: Seq<char>,
    tag: Result<Option<String>, String>,
    given: Properties,
    fields: Fields,
    span: Span,
)
    requires
        counted(fields, given, tag),
        tagged(tag, "Duration"@),
        given.years == Ok::<_, String>(span.years),
        given.months == Ok::<_, String>(span.months),
        given.weeks == Ok::<_, String>(span.weeks),
        given.days == Ok::<_, String>(span.days),
        given.hours == Ok::<_, String>(span.hours),
        given.minutes == Ok::<_, String>(span.minutes),
        given.seconds == Ok::<_, String>(span.seconds),
        given.milliseconds == Ok::<_, String>(span.millis),
        given.microseconds == Ok::<_, String>(span.micros),
        given.nanoseconds == Ok::<_, String>(span.nanos),
    ensures
        ({
            let months = span.years * 12 + span.months;
            let nanos = span.weeks * 604_800_000_000_000 + span.days * 86_400_000_000_000 + span.hours
                * 3_600_000_000_000 + span.minutes * 60_000_000_000 + span.seconds * 1_000_000_000 + span.millis
                * 1_000_000 + span.micros * 1_000 + span.nanos;
            &&& months == 0 ==> (moment_of(name, tag, fields) matches Ok(bound) && (bound matches Some(
                Temporal::Duration(kind, count),
            ) && kind == DurationKind::DayTime && count == nanos))
            &&& months != 0 && nanos == 0 ==> (moment_of(name, tag, fields) matches Ok(bound) && (bound matches Some(
                Temporal::Duration(kind, count),
            ) && kind == DurationKind::YearMonth && count == months))
            &&& months != 0 && nanos != 0 ==> moment_of(name, tag, fields) is Err
        }),
{
    lemma_tags(tag);
    assert(given.lengths() == Ok::<_, Seq<char>>(span));
    assert(span.counts());
    law_a_duration_that_fits_is_counted(span);
}

/// A time binds as its hours, minutes, seconds and what is under them, a date with a time as its
/// days and those together whenever 64 bits hold them, and is refused otherwise.
pub proof fn law_a_time_binds_as_its_fields(
    name: Seq<char>,
    tag: Result<Option<String>, String>,
    given: Properties,
    fields: Fields,
    clock: (i64, i64, i64, i64, i64, i64),
    year: i32,
    month: i64,
    day: i64,
)
    requires
        counted(fields, given, tag),
        given.hour == Ok::<_, String>(clock.0),
        given.minute == Ok::<_, String>(clock.1),
        given.second == Ok::<_, String>(clock.2),
        given.millisecond == Ok::<_, String>(clock.3),
        given.microsecond == Ok::<_, String>(clock.4),
        given.nanosecond == Ok::<_, String>(clock.5),
        given.year == Ok::<_, String>(year),
        given.month == Ok::<_, String>(month),
        given.day == Ok::<_, String>(day),
        given.calendar.id matches Ok(Some(id)) && id@ == "iso8601"@,
    ensures
        ({
            let nanos = clock.0 * 3_600_000_000_000 + clock.1 * 60_000_000_000 + clock.2 * 1_000_000_000 + clock.3
                * 1_000_000 + clock.4 * 1_000 + clock.5;
            let days = days_from(year as int, month as int, day as int);
            &&& tagged(tag, "PlainTime"@) ==> (moment_of(name, tag, fields) matches Ok(bound) && (bound matches Some(
                Temporal::LocalTime(count),
            ) && count == nanos))
            &&& tagged(tag, "PlainDate"@) && i32::MIN <= days <= i32::MAX ==> (moment_of(name, tag, fields) matches Ok(
                bound,
            ) && (bound matches Some(Temporal::Date(count)) && count == days))
            &&& tagged(tag, "PlainDateTime"@) && i32::MIN <= days <= i32::MAX ==> if i64::MIN <= days
                * 86_400_000_000_000 + nanos <= i64::MAX {
                moment_of(name, tag, fields) matches Ok(bound) && (bound matches Some(Temporal::LocalDatetime(count))
                    && count == days * 86_400_000_000_000 + nanos)
            } else {
                moment_of(name, tag, fields) is Err
            }
        }),
{
    lemma_tags(tag);
}

/// A `Temporal` value of a class zu has no value for is refused, and so is one with a property
/// it binds by that could not be read, with the reason that one gave.
pub proof fn law_what_is_not_read_is_not_bound(
    name: Seq<char>,
    tag: Result<Option<String>, String>,
    fields: Fields,
    reason: String,
)
    ensures
        (tag matches Ok(Some(t)) && opens(t@, "Temporal."@)) && !tagged(tag, "PlainDate"@) && !tagged(tag, "PlainTime"@)
            && !tagged(tag, "PlainDateTime"@) && !tagged(tag, "ZonedDateTime"@) && !tagged(tag, "Instant"@) && !tagged(
            tag,
            "Duration"@,
        ) ==> moment_of(name, tag, fields) is Err,
        (tag matches Ok(Some(t)) && !opens(t@, "Temporal."@)) ==> moment_of(name, tag, fields) == Ok::<
            Option<Temporal>,
            Trouble,
        >(None),
        moment_of(name, Err(reason), fields) == Err::<Option<Temporal>, _>(Trouble::Boundary(reason@)),
        tagged(tag, "PlainTime"@) ==> moment_of(name, tag, (Fields { clock: Err(reason), ..fields })) == Err::<
            Option<Temporal>,
            _,
        >(Trouble::Boundary(reason@)),
        tagged(tag, "Duration"@) ==> moment_of(name, tag, (Fields { span: Err(reason), ..fields })) == Err::<
            Option<Temporal>,
            _,
        >(Trouble::Boundary(reason@)),
        tagged(tag, "Instant"@) || tagged(tag, "ZonedDateTime"@) ==> moment_of(
            name,
            tag,
            (Fields { since: Err(reason), ..fields }),
        ) == Err::<Option<Temporal>, _>(Trouble::Boundary(reason@)),
        tagged(tag, "PlainDate"@) || tagged(tag, "PlainDateTime"@) ==> moment_of(
            name,
            tag,
            (Fields { day: Err(reason), ..fields }),
        ) is Err,
        tagged(tag, "PlainDateTime"@) ==> moment_of(name, tag, (Fields { clock: Err(reason), ..fields })) is Err,
        tagged(tag, "ZonedDateTime"@) ==> moment_of(name, tag, (Fields { offset: Err(reason), ..fields })) is Err,
{
    lemma_tags(tag);
    lemma_classes();
    if tagged(tag, "Instant"@) {
        lemma_tagged(tag, "Instant"@);
    }
    if tagged(tag, "ZonedDateTime"@) {
        lemma_tagged(tag, "ZonedDateTime"@);
    }
    if let Ok(Some(t)) = tag {
        if opens(t@, "Temporal."@) {
            let n = "Temporal."@.len() as int;
            assert(t@ =~= "Temporal."@ + t@.skip(n));
        }
    }
}

/// A `Temporal` value that is refused is refused by the name of the parameter it was passed for.
pub proof fn law_a_refused_moment_is_named(name: Seq<char>, tag: Result<Option<String>, String>, fields: Fields)
    ensures
        moment_of(name, tag, fields) matches Err(trouble) ==> (trouble matches Trouble::Refused(words) ==> opens(
            words,
            "parameter "@ + name,
        )),
{
    let start = "parameter "@ + name;
    if let Err(trouble) = moment_of(name, tag, fields) {
        if let Trouble::Refused(words) = trouble {
            let kind = tag->Ok_0->Some_0@.skip("Temporal."@.len() as int);
            assert(outside(name).take(start.len() as int) =~= start);
            assert(mixed(name).take(start.len() as int) =~= start);
            assert(no_such(name, kind).take(start.len() as int) =~= start);
            if let Ok(written) = fields.written {
                assert(ragged(name, written@).take(start.len() as int) =~= start);
            }
            if let Ok(Some(calendar)) = calendar_of(fields.calendar) {
                assert(foreign(name, calendar).take(start.len() as int) =~= start);
            }
        }
    }
}

/// Properties are counted only when each of them was read, and otherwise the first that was not says
/// why: a date by its year, its month and its day in turn, and a time and a duration from the
/// longest of their properties down.
pub proof fn law_an_unread_property_is_not_counted(given: Properties, reason: String)
    ensures
        given.dated() matches Some(Ok(_)) ==> given.year is Ok && given.month is Ok && given.day is Ok,
        given.timed() matches Some(Ok(_)) ==> given.hour is Ok && given.minute is Ok && given.second is Ok
            && given.millisecond is Ok && given.microsecond is Ok && given.nanosecond is Ok,
        given.lengths() is Ok <==> given.years is Ok && given.months is Ok && given.weeks is Ok && given.days is Ok
            && given.hours is Ok && given.minutes is Ok && given.seconds is Ok && given.milliseconds is Ok
            && given.microseconds is Ok && given.nanoseconds is Ok,
        given.spanned() matches Some(Ok(_)) ==> given.lengths() is Ok,
        (Properties { year: Err(reason), ..given }).dated() == Some(Err::<i64, _>(reason@)),
        given.year is Ok ==> (Properties { month: Err(reason), ..given }).dated() == Some(Err::<i64, _>(reason@)),
        given.year is Ok && given.month is Ok ==> (Properties { day: Err(reason), ..given }).dated() == Some(
            Err::<i64, _>(reason@),
        ),
        (Properties { hour: Err(reason), ..given }).timed() == Some(Err::<i64, _>(reason@)),
        given.hour is Ok ==> (Properties { minute: Err(reason), ..given }).timed() == Some(Err::<i64, _>(reason@)),
        given.hour is Ok && given.minute is Ok ==> (Properties { second: Err(reason), ..given }).timed() == Some(
            Err::<i64, _>(reason@),
        ),
        given.hour is Ok && given.minute is Ok && given.second is Ok ==> (Properties { millisecond: Err(reason), ..given }).timed()
            == Some(Err::<i64, _>(reason@)),
        (Properties { years: Err(reason), ..given }).lengths() == Err::<Span, _>(reason@),
        given.years is Ok ==> (Properties { months: Err(reason), ..given }).lengths() == Err::<Span, _>(reason@),
        given.lengths() matches Err(words) ==> given.spanned() == Some(Err::<(i64, i64), _>(words)),
{
}

} // verus!
