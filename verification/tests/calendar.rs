use zudb_js::calendar::{civil, civil_days, clock, zone, DAY, SECOND};

/// The two directions agree, over a range wide enough to cross every leap rule
/// there is: the four year one, the hundred year one, and the four hundred year one
/// that made 2000 a leap year and 1900 not.
#[test]
fn civil_round_trips() {
    for days in (-1_000_000..1_000_000).step_by(7) {
        let (year, month, day) = civil(days);
        assert_eq!(civil_days(i64::from(year), month, day), days);
    }
}

#[test]
fn civil_knows_the_dates_everybody_checks() {
    assert_eq!(civil(0), (1970, 1, 1));
    assert_eq!(civil(-1), (1969, 12, 31));
    assert_eq!(civil(11_016), (2000, 2, 29));
    assert_eq!(civil_days(2000, 2, 29), 11_016);
    assert_eq!(civil_days(1900, 3, 1) - civil_days(1900, 2, 28), 1);
    assert_eq!(civil_days(1, 1, 1), -719_162);
}

#[test]
fn a_time_splits_into_its_fields() {
    assert_eq!(clock(0), (0, 0, 0, 0, 0, 0));
    assert_eq!(clock(DAY - 1), (23, 59, 59, 999, 999, 999));
    assert_eq!(clock(13 * 3600 * SECOND + 1), (13, 0, 0, 0, 0, 1));
}

#[test]
fn an_offset_is_named_the_way_a_zone_is() {
    assert_eq!(zone(0), "+00:00");
    assert_eq!(zone(120), "+02:00");
    assert_eq!(zone(-330), "-05:30");
    assert_eq!(zone(-1), "-00:01");
}
