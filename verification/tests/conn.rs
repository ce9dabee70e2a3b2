use zudb_js::cancel::Watch;
use zudb_js::conn::{
    arguments, batch_rows, bind, connect, failed, finish, flag, int_mode, notices, opens, reach, rows, text, watch, worded,
    Close, ConnectOptions, Connection, Failure, Notice, Options, QueryTask, Slot, Source, Thrown, ABORTED, CLOSED, MEMORY,
    POISONED, STREAMING,
};
use zudb_js::js::{Big, Calendar, Fields, Js, Kind, Named, Thing};
use zudb_js::stream;
use zudb_js::temporal::MISSING;
use zudb_js::value::{Ints, Made, Shape, Spelling, Value};

fn num(n: f64) -> Js {
    Js::Number { bits: n.to_bits(), shown: n.to_string() }
}

fn string(s: &str) -> Js {
    Js::Text(s.to_string())
}

fn thing() -> Thing {
    let none = || "no such field".to_string();
    Thing {
        maker: Some("Object".to_string()),
        class: Ok(None),
        items: None,
        typed: None,
        tag: Ok(None),
        fields: Fields {
            calendar: Calendar { id: Ok(None), named: Ok(Named::Other) },
            day: Err(none()),
            clock: Err(none()),
            since: Err(none()),
            offset: Err(none()),
            written: Err(none()),
            span: Err(none()),
        },
        keys: Ok(vec![]),
    }
}

fn object(keys: Vec<(&str, Js)>) -> Js {
    Js::Object(Thing { keys: Ok(keys.into_iter().map(|(k, v)| (k.to_string(), v)).collect()), ..thing() })
}

fn no_options() -> ConnectOptions {
    ConnectOptions { read_only: None, memory_limit: None, threads: None, big_int_mode: None, temporal: None }
}

fn unread() -> Result<ConnectOptions, String> {
    Err("not options".to_string())
}

fn open() -> Connection {
    Connection::new(Spelling { ints: Ints::BigInt, temporal: false }, "social.zu1".to_string(), false, false)
}

fn options() -> Options {
    Options {
        big_int_mode: Js::Undefined,
        batch_rows: Js::Undefined,
        signal: Js::Undefined,
        aborted: Ok(Kind::Undefined),
    }
}

fn usage(r: Result<(), Failure<u8>>) -> String {
    match r {
        Err(Failure::Usage(words)) => words,
        Err(Failure::Engine(_)) => panic!("the engine"),
        Err(Failure::Aborted) => panic!("aborted"),
        Ok(()) => panic!("it ran"),
    }
}

#[test]
fn an_argument_that_is_no_string_says_what_it_is() {
    assert_eq!(text(&string("x"), "statement"), Ok("x".to_string()));
    assert_eq!(
        text(&num(42.0), "statement"),
        Err("the statement is a Number, and a statement is a string".to_string())
    );
    assert_eq!(
        text(&Js::Undefined, "path"),
        Err("the path is undefined, and a path is a string".to_string())
    );
    assert_eq!(text(&Js::Unread("gone".to_string()), "path"), Err("gone".to_string()));
    assert_eq!(worded(Kind::Null), "null");
    assert_eq!(worded(Kind::Text), "a String");
    assert_eq!(worded(Kind::BigInt), "a BigInt");
}

#[test]
fn a_flag_is_true_or_false_or_unwritten() {
    assert_eq!(flag(None, "readOnly"), Ok(None));
    assert_eq!(flag(Some(&Js::Null), "readOnly"), Ok(None));
    assert_eq!(flag(Some(&Js::Boolean(true)), "readOnly"), Ok(Some(true)));
    assert_eq!(
        flag(Some(&string("false")), "readOnly"),
        Err("readOnly is a String, and it is either true or false".to_string())
    );
}

#[test]
fn a_statement_may_name_its_own_mode() {
    assert!(int_mode(None, Ints::Number) == Ok(Ints::Number));
    assert!(int_mode(Some(&Js::Undefined), Ints::Number) == Ok(Ints::Number));
    assert!(int_mode(Some(&string("bigint")), Ints::Number) == Ok(Ints::BigInt));
    assert!(int_mode(Some(&string("both")), Ints::Number).is_err());
    assert_eq!(
        int_mode(Some(&num(1.0)), Ints::Number).err(),
        Some("bigIntMode is a Number, and a mode is named by a string".to_string())
    );
}

#[test]
fn a_batch_holds_a_whole_number_of_rows() {
    assert_eq!(batch_rows(None), Ok(None));
    assert_eq!(batch_rows(Some(&num(512.0))), Ok(Some(512)));
    assert_eq!(batch_rows(Some(&num(4294967295.0))), Ok(Some(u32::MAX)));
    for (n, shown) in [(0.0, "0"), (-1.0, "-1"), (1.5, "1.5"), (4294967296.0, "4294967296"), (f64::NAN, "NaN")] {
        assert_eq!(
            batch_rows(Some(&num(n))),
            Err(format!("batchRows is {shown}, and a batch holds a whole number of rows, one at the least"))
        );
    }
    assert_eq!(batch_rows(Some(&string("9"))), Err("batchRows is a String, which is not a number".to_string()));
}

#[test]
fn a_signal_is_an_abort_signal() {
    let undefined = Ok(Kind::Undefined);
    assert_eq!(watch(None, &undefined), Ok(false));
    assert_eq!(watch(Some(&Js::Null), &undefined), Ok(false));
    assert_eq!(watch(Some(&Js::Object(thing())), &Ok(Kind::Boolean)), Ok(true));
    assert_eq!(
        watch(Some(&Js::Object(thing())), &undefined),
        Err("signal is an object that is not an AbortSignal".to_string())
    );
    assert_eq!(
        watch(Some(&num(1.0)), &undefined),
        Err("signal is a Number, which is not an AbortSignal".to_string())
    );
    assert_eq!(watch(Some(&Js::Object(thing())), &Err("gone".to_string())), Err("gone".to_string()));
}

#[test]
fn parameters_are_named() {
    assert_eq!(bind(None).map(|v| v.len()), Ok(0));
    assert_eq!(bind(Some(&Js::Null)).map(|v| v.len()), Ok(0));
    let bound = bind(Some(&object(vec![("id", num(1.0)), ("name", string("zoe"))]))).expect("bound");
    assert_eq!(bound[0].0, "id");
    assert!(matches!(bound[0].1, Value::Int(1)));
    assert!(matches!(&bound[1].1, Value::Str(s) if s == "zoe"));
    let array = Js::Object(Thing { items: Some(vec![num(1.0)]), ..thing() });
    assert_eq!(
        bind(Some(&array)).err(),
        Some(
            "the parameters are an array, and zu names its parameters rather than numbering them: pass an object keyed \
             by the names the statement uses, without the $"
                .to_string()
        )
    );
    assert_eq!(
        bind(Some(&string("x"))).err(),
        Some(
            "the parameters are a String, and parameters are an object keyed by the names the statement uses, without \
             the $"
                .to_string()
        )
    );
    assert_eq!(
        bind(Some(&object(vec![("ok", num(1.0)), ("bad", Js::Symbol)]))).err(),
        Some("parameter bad is a Symbol, which is not a value a statement can hold".to_string())
    );
}

#[test]
fn a_database_in_memory_has_four_spellings() {
    for first in [None, Some(Js::Undefined), Some(Js::Null), Some(string(":memory:"))] {
        let task = connect(&first, unread(), Some(no_options()), false);
        assert!(task.memory && task.path == MEMORY && task.refused.is_none() && task.options.is_some());
    }
    let task = connect(&Some(string("social.zu1")), unread(), None, false);
    assert!(!task.memory && task.path == "social.zu1" && task.options.is_none());
}

#[test]
fn options_may_stand_where_the_path_would() {
    let first = Some(Js::Object(thing()));
    let (path, options, refused) = arguments(&first, Ok(ConnectOptions { threads: Some(2), ..no_options() }), None);
    assert!(path.is_none() && refused.is_none());
    assert_eq!(options.and_then(|o| o.threads), Some(2));
    let (_, _, refused) = arguments(&first, unread(), None);
    assert_eq!(refused, Some("not options".to_string()));
    let (_, _, refused) = arguments(&Some(num(4.0)), unread(), None);
    assert_eq!(refused, Some("the path is a Number, and a path is a string".to_string()));
}

#[test]
fn a_connect_is_settled_before_anything_is_opened() {
    let asked = |options| connect(&Some(string("p")), unread(), Some(options), false).compute();
    let Ok(opening) = asked(ConnectOptions {
        read_only: Some(true),
        memory_limit: Some(Big { negative: true, low: 4096, high: vec![1] }),
        threads: Some(3),
        big_int_mode: Some("number".to_string()),
        temporal: Some(false),
    }) else {
        panic!("refused")
    };
    assert!(opening.read_only && !opening.memory && opening.path == "p");
    assert_eq!((opening.memory_limit, opening.threads), (Some(4096), Some(3)));
    assert!(opening.spelling.ints == Ints::Number && !opening.spelling.temporal);
    let conn = opening.opened("/data/p".to_string());
    assert!(conn.open() && conn.read_only() && !conn.memory() && conn.path() == "/data/p");
    assert_eq!(
        asked(ConnectOptions { big_int_mode: Some("x".to_string()), temporal: Some(true), ..no_options() }).err(),
        Some("bigIntMode is \"x\", and the modes are \"bigint\" and \"number\"".to_string())
    );
    assert_eq!(asked(ConnectOptions { temporal: Some(true), ..no_options() }).err(), Some(MISSING.to_string()));
    assert_eq!(
        connect(&Some(num(1.0)), unread(), Some(ConnectOptions { temporal: Some(true), ..no_options() }), false)
            .compute()
            .err(),
        Some("the path is a Number, and a path is a string".to_string())
    );
    let Ok(memory) = connect(&None, unread(), None, false).compute() else { panic!("refused") };
    assert_eq!(memory.opened("zu-7".to_string()).path(), MEMORY);
}

#[test]
fn a_read_only_connection_creates_nothing() {
    assert!(opens(true, false));
    assert!(opens(true, true));
    assert!(opens(false, true));
    assert!(!opens(false, false));
}

#[test]
fn an_empty_slot_is_closed_or_streaming() {
    assert_eq!(reach(Slot::Held, true), Ok(()));
    assert_eq!(reach(Slot::Empty, true), Err(STREAMING.to_string()));
    assert_eq!(reach(Slot::Empty, false), Err(CLOSED.to_string()));
    assert_eq!(reach(Slot::Poisoned, true), Err(POISONED.to_string()));
}

#[test]
fn a_call_is_read_in_order() {
    let conn = open();
    let task = conn.task(&string("RETURN 1"), None, &None);
    assert!(task.refused.is_none() && matches!(task.source, Source::Text(s) if s == "RETURN 1"));
    let bad = Some(Options { big_int_mode: num(1.0), batch_rows: num(0.0), signal: num(1.0), ..options() });
    let params = string("x");
    assert_eq!(
        conn.task(&num(1.0), Some(&params), &bad).refused,
        Some("the statement is a Number, and a statement is a string".to_string())
    );
    assert_eq!(
        conn.task(&string("s"), Some(&params), &bad).refused,
        Some("bigIntMode is a Number, and a mode is named by a string".to_string())
    );
    let signal = Some(Options { batch_rows: num(0.0), signal: num(1.0), ..options() });
    assert!(conn.task(&string("s"), Some(&params), &signal).refused.unwrap().starts_with("the parameters are a String"));
    assert!(conn.cursor(&string("s"), Some(&params), &signal).task.refused.unwrap().starts_with("batchRows is 0"));
    assert!(conn.profile(&string("s"), None, &bad).refused.unwrap().starts_with("signal is a Number"));
    let streamed = conn.cursor(&string("s"), None, &Some(Options { batch_rows: num(9.0), ..options() }));
    assert!(streamed.task.refused.is_none() && streamed.batch_rows == Some(9));
    let numbers = conn.task(&string("s"), None, &Some(Options { big_int_mode: string("number"), ..options() }));
    assert!(numbers.spelling.ints == Ints::Number && !numbers.watch);
}

#[test]
fn a_closed_connection_refuses_everything() {
    let mut conn = open();
    assert!(conn.close() == Close::Release);
    assert!(conn.close() == Close::Nothing);
    assert!(!conn.open());
    let closed = Some(CLOSED.to_string());
    assert_eq!(conn.task(&num(1.0), None, &None).refused, closed);
    assert_eq!(conn.cursor(&num(1.0), None, &None).task.refused, closed);
    assert_eq!(conn.profile(&num(1.0), None, &None).refused, closed);
    assert_eq!(conn.transaction(None).refused, closed);
    assert_eq!(conn.appender(&num(1.0)).refused, closed);
    assert_eq!(conn.prepare(&num(1.0)).refused, closed);
    assert_eq!(conn.explain(&num(1.0)).refused, closed);
    assert_eq!(conn.duplicate().refused, closed);
    assert_eq!(conn.registered().refused, closed);
    assert_eq!(conn.unregister(&num(1.0)).refused, closed);
    assert_eq!(conn.register(&num(1.0), Err("unread".to_string())).refused, closed);
    let mut late = open();
    let mut task = late.task(&string("s"), None, &None);
    late.close();
    assert_eq!(usage(task.begin(&mut late, &mut None, false)), CLOSED);
}

#[test]
fn a_transaction_reads_its_option_before_the_connection() {
    let mut conn = open();
    let started = conn.transaction(Some(&Js::Boolean(true)));
    assert!(started.read_only && started.refused.is_none());
    conn.close();
    assert_eq!(
        conn.transaction(Some(&num(1.0))).refused,
        Some("readOnly is a Number, and it is either true or false".to_string())
    );
}

#[test]
fn a_duplicate_takes_the_switches_and_not_the_transaction() {
    let mut conn = Connection::new(Spelling { ints: Ints::Number, temporal: true }, "p".to_string(), true, true);
    conn.ran(9, true);
    assert!(conn.in_transaction());
    let other = conn.duplicate().made();
    assert!(other.spelling.ints == Ints::Number && other.spelling.temporal && other.read_only() && other.memory());
    assert!(!other.in_transaction() && other.open() && other.path() == "p");
    conn.close();
    assert!(other.open());
}

#[test]
fn a_stream_holds_the_connection_until_it_is_done() {
    let mut conn = open();
    let mut stream = conn.task(&string("s"), None, &None);
    let mut next = conn.task(&string("s"), None, &None);
    assert!(stream.begin::<u8>(&mut conn, &mut None, true).is_ok());
    assert_eq!(usage(next.begin(&mut conn, &mut None, false)), STREAMING);
    assert!(conn.restore(false));
    assert!(next.begin::<u8>(&mut conn, &mut None, false).is_ok());
    let mut last = conn.task(&string("s"), None, &None);
    assert!(last.begin::<u8>(&mut conn, &mut None, true).is_ok());
    assert!(conn.close() == Close::Nothing);
    assert!(!conn.restore(false));
    assert_eq!(reach(conn.slot, conn.alive), Err(CLOSED.to_string()));
    let mut broken = open();
    broken.slot = Slot::Poisoned;
    let mut task = broken.task(&string("s"), None, &None);
    assert_eq!(usage(task.begin(&mut broken, &mut None, true)), stream::POISONED);
    assert_eq!(usage(task.begin(&mut broken, &mut None, false)), POISONED);
}

#[test]
fn rows_read_start_again_at_each_statement() {
    let mut conn = open();
    let mut task = conn.task(&string("s"), None, &None);
    assert!(task.begin::<u8>(&mut conn, &mut None, false).is_ok());
    assert_eq!(f64::from_bits(conn.rows_read()), 0.0);
    assert!(matches!(finish::<u8, u8>(&mut conn, &mut None, 12, true, false, Ok(1)), Ok(1)));
    assert_eq!(f64::from_bits(conn.rows_read()), 12.0);
    assert!(conn.in_transaction());
    let mut task = conn.task(&string("s"), None, &None);
    assert!(task.begin::<u8>(&mut conn, &mut None, false).is_ok());
    assert_eq!(f64::from_bits(conn.rows_read()), 0.0);
}

#[test]
fn a_signal_that_fired_first_stops_the_statement_before_the_engine() {
    let mut conn = open();
    let mut task = conn.task(&string("s"), None, &None);
    let mut watch = Some(Watch::new(true));
    assert!(matches!(task.begin::<u8>(&mut conn, &mut watch, false), Err(Failure::Aborted)));
    assert!(reach(conn.slot, conn.alive).is_ok());
    let mut task = conn.task(&string("s"), None, &None);
    let mut watch = Some(Watch::new(false));
    assert!(task.begin::<u8>(&mut conn, &mut watch, false).is_ok());
    assert!(watch.as_mut().unwrap().shared.ask());
    assert!(matches!(finish::<u8, u8>(&mut conn, &mut watch, 0, false, true, Err(7)), Err(Failure::Aborted)));
    assert!(!watch.as_mut().unwrap().shared.ask());
    assert!(matches!(finish::<u8, u8>(&mut conn, &mut watch, 0, false, false, Err(7)), Err(Failure::Engine(7))));
    assert!(matches!(finish::<u8, u8>(&mut conn, &mut None, 0, false, true, Err(7)), Err(Failure::Engine(7))));
}

#[test]
fn a_failure_is_thrown_as_what_it_is() {
    assert!(matches!(failed(Failure::Engine(3), true), Thrown::Condition(3)));
    assert!(matches!(failed::<u8>(Failure::Usage("no".to_string()), true), Thrown::Mistake(w) if w == "no"));
    assert!(matches!(failed::<u8>(Failure::Aborted, true), Thrown::Reason));
    assert!(matches!(failed::<u8>(Failure::Aborted, false), Thrown::Abort(w) if w == ABORTED));
}

#[test]
fn rows_are_objects_keyed_by_column() {
    let shape = Shape::of(&[], &[], Spelling { ints: Ints::Number, temporal: false });
    let columns = vec!["id".to_string(), "name".to_string()];
    let table = vec![
        vec![Value::Int(1), Value::Str("ada".to_string())],
        vec![Value::Int(2), Value::Null],
    ];
    let Ok(made) = rows(&columns, &table, &shape, false) else { panic!("refused") };
    let Made::Object(fields) = &made[0] else { panic!("not an object") };
    assert!(fields[0].0 == "id" && matches!(fields[0].1, Made::Whole(1)));
    assert!(fields[1].0 == "name" && matches!(&fields[1].1, Made::Text(t) if t == "ada"));
    assert!(matches!(&made[1], Made::Object(f) if matches!(f[1].1, Made::Null)));
    let far = vec![vec![Value::Int(1)], vec![Value::Int(i64::MAX)]];
    assert!(rows(&columns, &far, &shape, false).err().unwrap().starts_with("column id holds 9223372036854775807"));
}

#[test]
fn a_notice_has_four_fields() {
    let notice = Notice {
        code: "01000".to_string(),
        condition: "warning".to_string(),
        message: "m".to_string(),
        doc_url: "u".to_string(),
    };
    let Made::List(made) = notices(&vec![notice]) else { panic!("not a list") };
    let Made::Object(fields) = &made[0] else { panic!("not an object") };
    assert_eq!(fields.iter().map(|f| f.0.as_str()).collect::<Vec<_>>(), ["code", "condition", "message", "docUrl"]);
    assert!(matches!(&fields[3].1, Made::Text(t) if t == "u"));
}

#[test]
fn a_refused_task_says_so_once() {
    let mut conn = open();
    let mut task: QueryTask = conn.task(&num(1.0), None, &None);
    assert_eq!(
        usage(task.begin(&mut conn, &mut None, false)),
        "the statement is a Number, and a statement is a string"
    );
    assert!(task.refused.is_none());
}

#[test]
fn what_is_no_statement_leaves_the_rows_alone() {
    let mut conn = open();
    let mut task = conn.task(&string("s"), None, &None);
    assert!(task.begin::<u8>(&mut conn, &mut None, false).is_ok());
    assert!(matches!(finish::<u8, u8>(&mut conn, &mut None, 12, false, false, Ok(1)), Ok(1)));
    assert_eq!(conn.reached(Slot::Held), Ok(()));
    conn.left(true);
    assert!(conn.in_transaction());
    assert_eq!(f64::from_bits(conn.rows_read()), 12.0);
    assert_eq!(conn.reached(Slot::Empty), Err(STREAMING.to_string()));
    assert_eq!(conn.reached(Slot::Poisoned), Err(POISONED.to_string()));
}
