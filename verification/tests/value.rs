use zudb_js::js::{Big, Calendar, Class, Fault, Fields, Js, Named, Thing};
use zudb_js::temporal::{Build, DurationKind, Temporal, MISSING, NO_ZONED_TIME};
use zudb_js::value::{
    from_js, temporal_from, to_js, Ints, Made, Names, Shape, Spelling, Value, ZuDate, ZuDuration, ZuNode, ZuRel, ZuTime,
    ZuTimestamp, DEEP,
};

fn num(n: f64) -> Js {
    Js::Number { bits: n.to_bits(), shown: n.to_string() }
}

fn big(n: i128) -> Big {
    Big { negative: n < 0, low: n.unsigned_abs() as u64, high: if n.unsigned_abs() > u64::MAX as u128 { vec![1] } else { vec![] } }
}

fn text(s: &str) -> Js {
    Js::Text(s.to_string())
}

fn no_fields() -> Fields {
    let none = || "no such field".to_string();
    Fields {
        calendar: Calendar { id: Ok(Some("iso8601".to_string())), named: Ok(Named::Other) },
        day: Err(none()),
        clock: Err(none()),
        since: Err(none()),
        offset: Err(none()),
        written: Err(none()),
        span: Err(none()),
    }
}

fn thing() -> Thing {
    Thing {
        maker: Some("Object".to_string()),
        class: Ok(None),
        items: None,
        typed: None,
        tag: Ok(None),
        fields: no_fields(),
        keys: Ok(vec![]),
    }
}

fn array(items: Vec<Js>) -> Js {
    Js::Object(Thing { maker: Some("Array".to_string()), items: Some(items), ..thing() })
}

fn object(keys: Vec<(&str, Js)>) -> Js {
    Js::Object(Thing { keys: Ok(keys.into_iter().map(|(k, v)| (k.to_string(), v)).collect()), ..thing() })
}

fn refused(value: Js) -> String {
    match from_js("p", &value) {
        Err(Fault::Refused(words)) => words,
        Err(Fault::Boundary(words)) => panic!("a boundary failure: {words}"),
        Ok(_) => panic!("it bound"),
    }
}

fn bound(value: &Js) -> Value {
    match from_js("p", value) {
        Ok(bound) => bound,
        Err(Fault::Refused(words)) | Err(Fault::Boundary(words)) => panic!("{words}"),
    }
}

fn shape(ints: Ints, temporal: bool) -> Shape {
    Shape::of(
        &[(1, "person".to_string()), (7, "city".to_string())],
        &[(3, "knows".to_string())],
        Spelling { ints, temporal },
    )
}

#[test]
fn a_mode_is_one_of_two() {
    assert!(Ints::named("bigint") == Ok(Ints::BigInt));
    assert!(Ints::named("number") == Ok(Ints::Number));
    assert_eq!(
        Ints::named("BigInt").err(),
        Some("bigIntMode is \"BigInt\", and the modes are \"bigint\" and \"number\"".to_string())
    );
    assert!(Ints::default() == Ints::BigInt);
    let spelling = Spelling::default();
    assert!(spelling.ints == Ints::BigInt && !spelling.temporal);
}

#[test]
fn a_table_is_named_or_numbered() {
    let names = Names::of(&[(1, "a".to_string()), (1, "b".to_string())], &[(2, "r".to_string())]);
    assert_eq!(names.node(1), "b");
    assert_eq!(names.node(9), "#9");
    assert_eq!(names.rel(2), "r");
    assert_eq!(names.rel(1), "#1");
}

#[test]
fn scalars_bind_as_themselves() {
    assert!(matches!(bound(&Js::Null), Value::Null));
    assert!(matches!(bound(&Js::Undefined), Value::Null));
    assert!(matches!(bound(&Js::Boolean(true)), Value::Bool(true)));
    assert!(matches!(bound(&text("ada")), Value::Str(s) if s == "ada"));
    assert!(matches!(bound(&num(3.0)), Value::Int(3)));
    assert!(matches!(bound(&num(-0.0)), Value::Int(0)));
    assert!(matches!(bound(&num(2.5)), Value::Float(b) if f64::from_bits(b) == 2.5));
    assert!(matches!(bound(&num(9007199254740992.0)), Value::Int(9007199254740992)));
    assert!(matches!(bound(&num(1e300)), Value::Float(b) if f64::from_bits(b) == 1e300));
    assert!(matches!(bound(&num(f64::NAN)), Value::Float(b) if f64::from_bits(b).is_nan()));
    assert!(matches!(bound(&Js::BigInt(big(i64::MIN as i128))), Value::Int(i64::MIN)));
    assert!(matches!(bound(&Js::BigInt(big(i64::MAX as i128))), Value::Int(i64::MAX)));
}

#[test]
fn what_a_statement_cannot_hold_is_refused_by_name() {
    assert_eq!(refused(Js::Symbol), "parameter p is a Symbol, which is not a value a statement can hold");
    assert_eq!(refused(Js::Function), "parameter p is a Function, which is not a value a statement can hold");
    let far = "parameter p is a bigint outside what INT64 holds, which is -2^63 up to 2^63 - 1";
    assert_eq!(refused(Js::BigInt(big(1 << 63))), far);
    assert_eq!(refused(Js::BigInt(big(-(1 << 63) - 1))), far);
    assert_eq!(refused(Js::BigInt(Big { negative: false, low: 1, high: vec![1] })), far);
    assert!(matches!(from_js("p", &Js::Unread("gone".to_string())), Err(Fault::Boundary(w)) if w == "gone"));
}

#[test]
fn lists_and_records_bind_all_the_way_down() {
    let value = object(vec![("a", array(vec![num(1.0), text("x")])), ("b", Js::Null)]);
    let Value::Record(fields) = bound(&value) else { panic!("not a record") };
    assert_eq!(fields.len(), 2);
    assert_eq!(fields[0].0, "a");
    assert!(matches!(&fields[0].1, Value::List(v) if matches!(v[0], Value::Int(1)) && v.len() == 2));
    assert!(matches!(fields[1].1, Value::Null));
    assert_eq!(
        refused(array(vec![Js::Null, Js::Symbol])),
        "parameter p is a Symbol, which is not a value a statement can hold"
    );
}

#[test]
fn a_value_that_nests_too_deep_is_refused() {
    let nested = |deep: usize| {
        let mut value = num(1.0);
        for _ in 0..deep {
            value = array(vec![value]);
        }
        value
    };
    assert!(from_js("p", &nested(DEEP)).is_ok());
    assert_eq!(
        refused(nested(DEEP + 1)),
        "parameter p nests deeper than 64, which is what a value that contains itself looks like"
    );
}

#[test]
fn integers_go_out_in_the_mode_that_was_asked_for() {
    let out = |n: i64, ints: Ints| to_js("n", &Value::Int(n), &shape(ints, false), false);
    assert!(matches!(out(5, Ints::BigInt), Ok(Made::BigInt(5))));
    assert!(matches!(out(9007199254740991, Ints::Number), Ok(Made::Whole(9007199254740991))));
    assert_eq!(
        out(9007199254740992, Ints::Number).err(),
        Some(
            "column n holds 9007199254740992, which a JavaScript number cannot tell from its neighbours, and this \
             statement asked for bigIntMode: \"number\""
                .to_string()
        )
    );
    assert_eq!(
        out(-9007199254740992, Ints::Number).err(),
        Some(
            "column n holds -9007199254740992, which a JavaScript number cannot tell from its neighbours, and this \
             statement asked for bigIntMode: \"number\""
                .to_string()
        )
    );
    let list = Value::List(vec![Value::Int(1), Value::Int(i64::MAX)]);
    assert!(to_js("n", &list, &shape(Ints::Number, false), false).is_err());
    assert!(to_js("n", &list, &shape(Ints::BigInt, false), false).is_ok());
}

#[test]
fn nodes_edges_and_paths_name_their_tables() {
    let shape = shape(Ints::BigInt, false);
    let walk = Value::Path(vec![
        Value::Node { table: 1, offset: 0 },
        Value::Rel { table: 3, src: 0, dst: 4, ord: 9 },
        Value::Node { table: 8, offset: 4 },
    ]);
    let Ok(Made::Path { nodes, rels }) = to_js("p", &walk, &shape, false) else { panic!("not a path") };
    assert_eq!(nodes.len(), 2);
    assert_eq!((nodes[0].table(), nodes[0].offset()), ("person", 0));
    assert_eq!((nodes[1].table(), nodes[1].offset()), ("#8", 4));
    assert_eq!((rels[0].table(), rels[0].src(), rels[0].dst(), rels[0].ord()), ("knows", 0, 4, 9));
    assert!(matches!(to_js("p", &Value::Chain, &shape, false), Ok(Made::Null)));
}

#[test]
fn classes_and_json_hold_the_same_thing() {
    let Made::Object(fields) = (ZuNode { table: "t".to_string(), offset: 3 }).to_json() else { panic!() };
    assert!(fields[0].0 == "table" && matches!(&fields[0].1, Made::Text(t) if t == "t"));
    assert!(fields[1].0 == "offset" && matches!(fields[1].1, Made::BigUint(3)));
    let Made::Object(fields) = (ZuRel { table: "t".to_string(), src: 1, dst: 2, ord: 3 }).to_json() else { panic!() };
    assert_eq!(fields.iter().map(|f| f.0.as_str()).collect::<Vec<_>>(), ["table", "src", "dst", "ord"]);
    assert_eq!(ZuDuration::of_months(big(14)).kind(), "yearMonth");
    assert_eq!(ZuDuration::of_nanos(big(14)).kind(), "dayTime");
    assert_eq!(ZuDuration::of_nanos(big(-14)).nanos(), -14);
    assert_eq!(ZuDuration::of_months(big(14)).months(), 14);
    assert_eq!(ZuTime::new(big(5), Some(60)).nanos(), 5);
    assert_eq!(ZuTimestamp::new(big(i64::MIN as i128), None).nanos(), i64::MIN);
}

/// A `bigint` wider than INT64 keeps its lowest 64 bits.
#[test]
fn a_wide_bigint_keeps_its_low_bits() {
    assert_eq!(ZuTime::new(Big { negative: false, low: u64::MAX, high: vec![] }, None).nanos(), -1);
    assert_eq!(ZuTime::new(Big { negative: true, low: u64::MAX, high: vec![7] }, None).nanos(), 1);
}

#[test]
fn an_instance_of_a_class_is_the_value_it_holds() {
    let class = |class| temporal_from(&Ok(Some(class)));
    assert!(matches!(class(Class::Date(Ok(3))), Ok(Some(Temporal::Date(3)))));
    assert!(matches!(
        class(Class::Time { nanos: Ok(big(9)), offset: Ok(None) }),
        Ok(Some(Temporal::LocalTime(9)))
    ));
    assert!(matches!(
        class(Class::Timestamp { nanos: Ok(big(9)), offset: Ok(Some(-90)) }),
        Ok(Some(Temporal::ZonedDatetime { nanos: 9, offset: -90 }))
    ));
    assert!(matches!(
        class(Class::Duration { kind: Ok("yearMonth".to_string()), months: Ok(big(2)), nanos: Ok(big(0)) }),
        Ok(Some(Temporal::Duration(DurationKind::YearMonth, 2)))
    ));
    assert!(matches!(temporal_from(&Ok(None)), Ok(None)));
    assert!(matches!(class(Class::Date(Err("x".to_string()))), Err(Fault::Boundary(_))));
}

#[test]
fn a_runtime_without_temporal_is_told_so() {
    let date = Value::Temporal(Temporal::Date(0));
    assert_eq!(to_js("d", &date, &shape(Ints::BigInt, true), false).err(), Some(MISSING.to_string()));
    assert!(matches!(
        to_js("d", &date, &shape(Ints::BigInt, true), true),
        Ok(Made::Temporal(Build::PlainDate { year: 1970, month: 1, day: 1 }))
    ));
    assert!(matches!(to_js("d", &date, &shape(Ints::BigInt, false), false), Ok(Made::Date(ZuDate { days: 0 }))));
    let zoned = Value::Temporal(Temporal::ZonedTime { nanos: 1, offset: 60 });
    assert!(matches!(
        to_js("d", &zoned, &shape(Ints::BigInt, true), true),
        Ok(Made::Time(ZuTime { nanos: 1, offset: Some(60) }))
    ));
    assert_eq!(ZuTime::new(big(1), Some(60)).to_temporal(true).err(), Some(NO_ZONED_TIME.to_string()));
    assert_eq!(ZuDate::new(1).to_temporal(false).err(), Some(MISSING.to_string()));
}

/// What a statement gives back and a caller passes on binds as the value it was.
#[test]
fn a_value_that_went_out_comes_back() {
    let value = Value::List(vec![
        Value::Int(7),
        Value::Str("x".to_string()),
        Value::Temporal(Temporal::Duration(DurationKind::DayTime, 12)),
    ]);
    let Ok(Made::List(made)) = to_js("v", &value, &shape(Ints::Number, false), false) else { panic!() };
    assert!(matches!(made[0], Made::Whole(7)));
    let back = array(vec![
        num(7.0),
        text("x"),
        Js::Object(Thing {
            class: Ok(Some(Class::Duration { kind: Ok("dayTime".to_string()), months: Ok(big(0)), nanos: Ok(big(12)) })),
            ..thing()
        }),
    ]);
    let Value::List(items) = bound(&back) else { panic!() };
    assert!(matches!(items[0], Value::Int(7)));
    assert!(matches!(&items[1], Value::Str(s) if s == "x"));
    assert!(matches!(items[2], Value::Temporal(Temporal::Duration(DurationKind::DayTime, 12))));
}
