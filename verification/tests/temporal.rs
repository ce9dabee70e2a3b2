use zudb_js::calendar::{split, DAY, SECOND};
use zudb_js::js::{Big, Calendar, Fault, Fields, Named};
use zudb_js::temporal::{
    days_of, from_temporal, nanos_of, to_temporal, Build, DurationKind, Properties, Span, Temporal, MISSING, NO_ZONED_TIME,
    UNASKED,
};

fn big(n: i128) -> Big {
    Big { negative: n < 0, low: n.unsigned_abs() as u64, high: if n.unsigned_abs() > u64::MAX as u128 { vec![1] } else { vec![] } }
}

fn fields() -> Fields {
    let none = || "no such field".to_string();
    Fields {
        calendar: Calendar { id: Ok(Some("iso8601".to_string())), named: Ok(Named::Other) },
        day: Err(none()),
        clock: Err(none()),
        since: Err(none()),
        offset: Err(none()),
        written: Err(none()),
        span: Err(none()),
    }
}

fn read(tag: &str, fields: &Fields) -> Result<Option<Temporal>, String> {
    match from_temporal("p", &Ok(Some(tag.to_string())), fields) {
        Ok(found) => Ok(found),
        Err(Fault::Refused(words)) => Err(words),
        Err(Fault::Boundary(words)) => Err(format!("boundary: {words}")),
    }
}

fn nothing() -> Span {
    Span { years: 0, months: 0, weeks: 0, days: 0, hours: 0, minutes: 0, seconds: 0, millis: 0, micros: 0, nanos: 0 }
}

#[test]
fn every_value_but_one_has_a_temporal_type() {
    assert!(matches!(
        to_temporal(true, Temporal::Date(-1)),
        Ok(Some(Build::PlainDate { year: 1969, month: 12, day: 31 }))
    ));
    assert!(matches!(
        to_temporal(true, Temporal::LocalTime(DAY - 1)),
        Ok(Some(Build::PlainTime { clock: (23, 59, 59, 999, 999, 999) }))
    ));
    assert!(matches!(
        to_temporal(true, Temporal::LocalDatetime(-1)),
        Ok(Some(Build::PlainDateTime { year: 1969, month: 12, day: 31, clock: (23, 59, 59, 999, 999, 999) }))
    ));
    assert!(matches!(
        to_temporal(true, Temporal::ZonedDatetime { nanos: 5, offset: -90 }),
        Ok(Some(Build::ZonedDateTime { nanos: 5, zone })) if zone == "-01:30"
    ));
    assert!(matches!(
        to_temporal(true, Temporal::Duration(DurationKind::YearMonth, 14)),
        Ok(Some(Build::Months(14)))
    ));
    assert!(matches!(
        to_temporal(true, Temporal::Duration(DurationKind::DayTime, 2 * SECOND + 3)),
        Ok(Some(Build::Seconds { seconds: 2, nanos: 3 }))
    ));
    assert!(matches!(to_temporal(true, Temporal::ZonedTime { nanos: 0, offset: 0 }), Ok(None)));
    assert_eq!(to_temporal(false, Temporal::Date(0)).err(), Some(MISSING.to_string()));
    assert!(NO_ZONED_TIME.starts_with("a time with an offset has no Temporal type"));
}

#[test]
fn a_timestamp_splits_into_a_day_and_a_time_of_it() {
    assert_eq!(split(2 * DAY + 3), (2, 3));
    assert_eq!(split(0), (0, 0));
    assert_eq!(split(-1), (-1, DAY - 1));
}

#[test]
fn temporal_values_bind_as_the_values_they_are() {
    assert!(matches!(read("Temporal.PlainDate", &Fields { day: Ok(11_016), ..fields() }), Ok(Some(Temporal::Date(11_016)))));
    assert!(matches!(read("Temporal.PlainTime", &Fields { clock: Ok(7), ..fields() }), Ok(Some(Temporal::LocalTime(7)))));
    assert!(matches!(
        read("Temporal.PlainDateTime", &Fields { day: Ok(1), clock: Ok(7), ..fields() }),
        Ok(Some(Temporal::LocalDatetime(n))) if n == DAY + 7
    ));
    assert!(matches!(
        read("Temporal.ZonedDateTime", &Fields { since: Ok(big(9)), offset: Ok(-90 * 60 * SECOND), ..fields() }),
        Ok(Some(Temporal::ZonedDatetime { nanos: 9, offset: -90 }))
    ));
    assert!(matches!(
        read("Temporal.Instant", &Fields { since: Ok(big(9)), ..fields() }),
        Ok(Some(Temporal::ZonedDatetime { nanos: 9, offset: 0 }))
    ));
    assert!(matches!(
        read("Temporal.Duration", &Fields { span: Ok((14, 0)), ..fields() }),
        Ok(Some(Temporal::Duration(DurationKind::YearMonth, 14)))
    ));
    assert!(matches!(
        read("Temporal.Duration", &Fields { span: Ok((0, 0)), ..fields() }),
        Ok(Some(Temporal::Duration(DurationKind::DayTime, 0)))
    ));
    assert!(matches!(read("Map", &fields()), Ok(None)));
    assert!(matches!(from_temporal("p", &Ok(None), &fields()), Ok(None)));
}

#[test]
fn what_zu_does_not_hold_is_refused_by_name() {
    let words = |tag: &str, fields: &Fields| read(tag, fields).err().expect("it was refused");
    assert!(words("Temporal.PlainYearMonth", &fields()).starts_with("parameter p is a Temporal.PlainYearMonth"));
    let hebrew = Fields {
        calendar: Calendar { id: Ok(Some("hebrew".to_string())), named: Ok(Named::Other) },
        day: Ok(0),
        ..fields()
    };
    assert!(words("Temporal.PlainDate", &hebrew).contains("hebrew"));
    assert!(words("Temporal.Duration", &Fields { span: Ok((1, 1)), ..fields() }).contains("parameter p"));
    let far = Fields { since: Ok(big(1 << 70)), ..fields() };
    assert!(words("Temporal.Instant", &far).contains("parameter p"));
    let ragged = Fields { since: Ok(big(0)), offset: Ok(1), written: Ok("+00:00:00.000000001".to_string()), ..fields() };
    assert!(words("Temporal.ZonedDateTime", &ragged).contains("+00:00:00.000000001"));
    assert_eq!(words("Temporal.PlainDate", &fields()), "boundary: no such field");
}

/// An older `Temporal` names its calendar in a string or in an object with the name on it.
#[test]
fn a_calendar_is_asked_for_three_ways() {
    let with = |named| Fields { calendar: Calendar { id: Ok(None), named: Ok(named) }, day: Ok(1), ..fields() };
    assert!(matches!(read("Temporal.PlainDate", &with(Named::Text("iso8601".to_string()))), Ok(Some(Temporal::Date(1)))));
    assert!(matches!(
        read("Temporal.PlainDate", &with(Named::Object(Ok(Some("iso8601".to_string()))))),
        Ok(Some(Temporal::Date(1)))
    ));
    assert!(read("Temporal.PlainDate", &with(Named::Text("japanese".to_string()))).is_err());
}

#[test]
fn fields_are_counted_or_they_do_not_fit() {
    assert_eq!(days_of(1970, 1, 2), Some(1));
    assert_eq!(days_of(2000, 2, 29), Some(11_016));
    assert_eq!(nanos_of(13, 0, 0, 0, 0, 1), Some(13 * 3600 * SECOND + 1));
    assert_eq!(nanos_of(i64::MAX, 0, 0, 0, 0, 0), None);
    assert_eq!((Span { years: 1, months: 2, ..nothing() }).count(), Some((14, 0)));
    assert_eq!((Span { weeks: 1, days: 1, nanos: 5, ..nothing() }).count(), Some((0, 8 * DAY + 5)));
    assert_eq!((Span { years: i64::MAX, ..nothing() }).count(), None);
}

#[test]
fn the_first_day_of_a_timestamp_is_in_reach_though_its_midnight_is_not() {
    let noon = -9_223_329_600_000_000_000;
    let on = |day: i64, clock: i64| read("Temporal.PlainDateTime", &Fields { day: Ok(day), clock: Ok(clock), ..fields() });
    assert!(matches!(on(-106_752, 43_200 * SECOND), Ok(Some(Temporal::LocalDatetime(n))) if n == noon));
    assert!(matches!(
        to_temporal(true, Temporal::LocalDatetime(noon)),
        Ok(Some(Build::PlainDateTime { year: 1677, month: 9, day: 21, clock: (12, 0, 0, 0, 0, 0) }))
    ));
    let (first, rest) = split(i64::MIN);
    assert_eq!(first, -106_752);
    assert!(matches!(on(first, rest), Ok(Some(Temporal::LocalDatetime(i64::MIN)))));
    let outside = "parameter p is outside what a zu timestamp holds, which is nanoseconds in an INT64 and so runs from \
                   1677-09-21 to 2262-04-11";
    assert_eq!(on(first, rest - 1).err(), Some(outside.to_string()));
    let (last, rest) = split(i64::MAX);
    assert!(matches!(on(last, rest), Ok(Some(Temporal::LocalDatetime(i64::MAX)))));
    assert_eq!(on(last, rest + 1).err(), Some(outside.to_string()));
}

fn properties() -> Properties {
    let none = |name: &str| format!("no {name}");
    Properties {
        calendar: Calendar { id: Ok(Some("iso8601".to_string())), named: Ok(Named::Other) },
        year: Err(none("year")),
        month: Err(none("month")),
        day: Err(none("day")),
        hour: Err(none("hour")),
        minute: Err(none("minute")),
        second: Err(none("second")),
        millisecond: Err(none("millisecond")),
        microsecond: Err(none("microsecond")),
        nanosecond: Err(none("nanosecond")),
        since: Err(none("since")),
        offset: Err(none("offset")),
        written: Err(none("written")),
        years: Ok(0),
        months: Ok(0),
        weeks: Ok(0),
        days: Ok(0),
        hours: Ok(0),
        minutes: Ok(0),
        seconds: Ok(0),
        milliseconds: Ok(0),
        microseconds: Ok(0),
        nanoseconds: Ok(0),
    }
}

fn on_leap_day() -> Properties {
    Properties { year: Ok(2000), month: Ok(2), day: Ok(29), ..properties() }
}

fn after_noon(date: Properties) -> Properties {
    Properties {
        hour: Ok(13),
        minute: Ok(2),
        second: Ok(3),
        millisecond: Ok(4),
        microsecond: Ok(5),
        nanosecond: Ok(6),
        ..date
    }
}

fn bound(class: &str, given: Properties) -> Result<Option<Temporal>, String> {
    let tag = format!("Temporal.{class}");
    read(&tag, &given.fields(&Ok(Some(tag.clone()))).expect("the counts fit"))
}

#[test]
fn properties_bind_as_what_they_count() {
    let clock = ((13 * 60 + 2) * 60 + 3) * SECOND + 4_005_006;
    assert!(matches!(bound("PlainDate", on_leap_day()), Ok(Some(Temporal::Date(11_016)))));
    assert!(matches!(bound("PlainTime", after_noon(properties())), Ok(Some(Temporal::LocalTime(n))) if n == clock));
    assert!(matches!(
        bound("PlainDateTime", after_noon(on_leap_day())),
        Ok(Some(Temporal::LocalDatetime(n))) if n == 11_016 * DAY + clock
    ));
    assert!(matches!(
        bound("Duration", Properties { years: Ok(1), months: Ok(2), ..properties() }),
        Ok(Some(Temporal::Duration(DurationKind::YearMonth, 14)))
    ));
    assert!(matches!(
        bound("Duration", Properties { weeks: Ok(1), days: Ok(1), hours: Ok(1), nanoseconds: Ok(9), ..properties() }),
        Ok(Some(Temporal::Duration(DurationKind::DayTime, n))) if n == 8 * DAY + 3_600 * SECOND + 9
    ));
    assert!(matches!(
        bound("Instant", Properties { since: Ok(big(9)), ..properties() }),
        Ok(Some(Temporal::ZonedDatetime { nanos: 9, offset: 0 }))
    ));
}

#[test]
fn the_first_property_that_cannot_be_read_says_why() {
    assert_eq!(bound("PlainDate", properties()).err(), Some("boundary: no year".to_string()));
    assert_eq!(
        bound("PlainDate", Properties { year: Ok(2000), ..properties() }).err(),
        Some("boundary: no month".to_string())
    );
    assert_eq!(bound("PlainDateTime", on_leap_day()).err(), Some("boundary: no hour".to_string()));
    assert_eq!(
        bound("Duration", Properties { seconds: Err("gone".to_string()), days: Err("lost".to_string()), ..properties() })
            .err(),
        Some("boundary: lost".to_string())
    );
}

#[test]
fn a_class_is_asked_for_the_counts_it_has() {
    let tag = |class: &str| Ok(Some(format!("Temporal.{class}")));
    let fields = on_leap_day().fields(&tag("PlainDate")).expect("the counts fit");
    assert_eq!((fields.day, fields.clock, fields.span), (Ok(11_016), Err(UNASKED.to_string()), Err(UNASKED.to_string())));
    let long = || Properties { hours: Ok(i64::MAX), ..on_leap_day() };
    assert!(long().fields(&tag("PlainDate")).is_some());
    assert!(long().fields(&tag("Duration")).is_none());
    assert!(long().fields(&Ok(None)).is_some());
}
