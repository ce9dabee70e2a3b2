use zudb_js::buffer::{gathered, named, Column, Field, FloatBits, IntBits, LogicalType, Mismatch};
use zudb_js::js::{Big, Calendar, Class, Fields, Js, Named, Thing};
use zudb_js::temporal::{DurationKind, Temporal};

fn num(n: f64) -> Js {
    Js::Number { bits: n.to_bits(), shown: n.to_string() }
}

fn big(n: i64) -> Js {
    Js::BigInt(Big { negative: n < 0, low: n.unsigned_abs(), high: vec![] })
}

fn text(s: &str) -> Js {
    Js::Text(s.to_string())
}

fn thing() -> Thing {
    let none = || "no such field".to_string();
    Thing {
        maker: Some("Object".to_string()),
        class: Ok(None),
        items: None,
        typed: None,
        tag: Ok(None),
        fields: Fields {
            calendar: Calendar { id: Ok(None), named: Ok(Named::Other) },
            day: Err(none()),
            clock: Err(none()),
            since: Err(none()),
            offset: Err(none()),
            written: Err(none()),
            span: Err(none()),
        },
        keys: Ok(vec![]),
    }
}

fn date(days: i32) -> Js {
    Js::Object(Thing { maker: Some("ZuDate".to_string()), class: Ok(Some(Class::Date(Ok(days)))), ..thing() })
}

fn time(nanos: u64, offset: Option<i32>) -> Js {
    Js::Object(Thing {
        maker: Some("ZuTime".to_string()),
        class: Ok(Some(Class::Time { nanos: Ok(Big { negative: false, low: nanos, high: vec![] }), offset: Ok(offset) })),
        ..thing()
    })
}

fn says(why: Mismatch) -> String {
    match why {
        Mismatch::Wanted(holds) => format!("wanted {holds}"),
        Mismatch::Says(words) => words,
        Mismatch::Boundary(_) => "boundary".to_string(),
    }
}

fn int64() -> LogicalType {
    LogicalType::Int { signed: true, bits: IntBits::B64, precision: None }
}

#[test]
fn a_column_is_the_declared_type_and_not_its_family() {
    assert_eq!(Column::for_type(&int64()).map(|c| c.holds()), Some("whole numbers"));
    assert_eq!(Column::for_type(&LogicalType::Bool).map(|c| c.holds()), Some("booleans"));
    assert_eq!(
        Column::for_type(&LogicalType::Float { bits: FloatBits::B64, precision: None }).map(|c| c.holds()),
        Some("floats")
    );
    assert_eq!(
        Column::for_type(&LogicalType::Duration(DurationKind::YearMonth)).map(|c| c.holds()),
        Some("year-month durations")
    );
    assert!(Column::for_type(&LogicalType::Int { signed: true, bits: IntBits::B32, precision: None }).is_none());
    assert!(Column::for_type(&LogicalType::Str { min: None, max: Some(20), fixed: false }).is_none());
    assert!(Column::for_type(&LogicalType::Other).is_none());
}

#[test]
fn a_value_goes_in_a_column_that_holds_its_kind() {
    let mut ints = Column::for_type(&int64()).unwrap();
    assert!(ints.push(&num(1.0)).is_ok());
    assert!(ints.push(&big(-2)).is_ok());
    assert_eq!(says(ints.push(&num(2.5)).err().unwrap()), "it is 2.5, which is not a whole number");
    assert_eq!(
        says(ints.push(&num(1e17)).err().unwrap()),
        "it is 100000000000000000, which is past 2^53, where a number can no longer be told from its neighbours: \
         write it as a bigint"
    );
    assert_eq!(
        says(ints.push(&Js::BigInt(Big { negative: false, low: 1 << 63, high: vec![] })).err().unwrap()),
        "it is a bigint outside what INT64 holds, which is -2^63 up to 2^63 - 1"
    );
    assert_eq!(says(ints.push(&text("x")).err().unwrap()), "wanted whole numbers");
    assert_eq!(ints.len(), 2);
    assert!(matches!(ints.field(1), Field::Int(-2)));
    ints.pop();
    assert_eq!(ints.len(), 1);
    ints.clear();
    assert_eq!(ints.len(), 0);
}

#[test]
fn an_offset_does_not_go_in_a_column_of_local_times() {
    let mut times = Column::for_type(&LogicalType::LocalTime).unwrap();
    assert!(times.push(&time(5, None)).is_ok());
    assert_eq!(
        says(times.push(&time(5, Some(0))).err().unwrap()),
        "it carries an offset, and this column holds local times"
    );
    assert_eq!(says(times.push(&date(5)).err().unwrap()), "wanted times");
    assert!(matches!(times.field(0), Field::Temporal(Temporal::LocalTime(5))));
}

#[test]
fn the_first_value_settles_a_column_and_a_fraction_widens_it() {
    let built = gathered("n", &vec![num(1.0), num(2.0), num(2.5)], "a column");
    let Ok(Column::Float(bits)) = built else { panic!("not a column of floats") };
    assert_eq!(bits.into_iter().map(f64::from_bits).collect::<Vec<_>>(), [1.0, 2.0, 2.5]);
    assert!(matches!(gathered("n", &vec![num(1.0), big(2)], "a column"), Ok(Column::Int(v)) if v == [1, 2]));
    assert!(matches!(gathered("d", &vec![date(1), date(2)], "a column"), Ok(Column::Date(v)) if v == [1, 2]));
}

#[test]
fn a_column_that_disagrees_says_where() {
    assert_eq!(
        gathered("n", &vec![num(1.0), text("x")], "a column").err(),
        Some("column 'n' holds whole numbers and row 1 is a string".to_string())
    );
    assert_eq!(
        gathered("d", &vec![date(1), num(2.0)], "a column").err(),
        Some("column 'd' holds dates and row 1 is a number".to_string())
    );
    assert_eq!(
        gathered("n", &vec![num(2.5), num(1.0), Js::Null], "a column").err(),
        Some("column 'n' holds floats and row 2 is null".to_string())
    );
    assert_eq!(
        gathered("n", &vec![Js::Null], "a loaded column").err(),
        Some(
            "column 'n' starts at row 0 with null, and a loaded column holds booleans, integers, floats, strings, \
             dates, times, datetimes or durations"
                .to_string()
        )
    );
    assert_eq!(
        gathered("n", &vec![], "a column").err(),
        Some("column 'n' is empty, and an empty column says nothing about what it would hold".to_string())
    );
    assert_eq!(
        gathered("n", &vec![Js::BigInt(Big { negative: false, low: 0, high: vec![1] })], "a column").err(),
        Some(
            "row 0 does not go in column 'n': it is a bigint outside what INT64 holds, which is -2^63 up to 2^63 - 1"
                .to_string()
        )
    );
}

#[test]
fn what_arrived_is_named_the_way_a_person_would() {
    assert_eq!(named(&Js::Undefined), "undefined");
    assert_eq!(named(&Js::Null), "null");
    assert_eq!(named(&text("x")), "a string");
    assert_eq!(named(&big(1)), "a bigint");
    assert_eq!(named(&Js::Boolean(true)), "a boolean");
    assert_eq!(named(&date(1)), "a ZuDate");
    assert_eq!(named(&Js::Object(Thing { maker: Some("Array".to_string()), ..thing() })), "an Array");
    assert_eq!(named(&Js::Object(Thing { maker: None, ..thing() })), "an object");
}

#[test]
fn a_zero_that_widens_has_no_sign() {
    let items = vec![num(-0.0), big(0), num(1.5)];
    assert!(matches!(
        gathered("c", &items, "a column holds numbers"),
        Ok(Column::Float(made)) if made == vec![0f64.to_bits(), 0f64.to_bits(), 1.5f64.to_bits()]
    ));
}
