use zudb_js::conn::{Options, Source, CLOSED};
use zudb_js::js::{Js, Kind};
use zudb_js::prepared::{Prepared, FINISHED};
use zudb_js::value::{Ints, Spelling};

fn prepared() -> Prepared {
    Prepared::new("RETURN $n".to_string(), vec!["n".to_string()], 4, Spelling { ints: Ints::Number, temporal: true })
}

fn options(mode: Js, signal: Js) -> Option<Options> {
    Some(Options { big_int_mode: mode, batch_rows: Js::Undefined, signal, aborted: Ok(Kind::Undefined) })
}

#[test]
fn a_run_carries_the_id() {
    let find = prepared();
    assert_eq!((find.statement().as_str(), find.params().as_slice(), find.closed()), ("RETURN $n", ["n".to_string()].as_slice(), false));
    let run = find.task(true, None, &None);
    assert!(matches!(run.source, Source::Prepared(4)) && run.refused.is_none());
    assert!(run.spelling.ints == Ints::Number && run.spelling.temporal);
    let run = find.task(true, None, &options(Js::Text("bigint".to_string()), Js::Null));
    assert!(run.spelling.ints == Ints::BigInt && run.spelling.temporal);
}

#[test]
fn a_run_is_refused_with_the_first_thing_wrong() {
    let mut find = prepared();
    let bad = options(Js::Symbol, Js::Symbol);
    let array = Js::Text("x".to_string());
    assert!(find.task(true, Some(&array), &bad).refused.unwrap().starts_with("bigIntMode is a Symbol"));
    let bad = options(Js::Null, Js::Symbol);
    assert!(find.task(true, Some(&array), &bad).refused.unwrap().starts_with("the parameters are a String"));
    assert!(find.task(true, None, &bad).refused.unwrap().starts_with("signal is a Symbol"));
    assert_eq!(find.task(false, Some(&array), &bad).refused, Some(CLOSED.to_string()));
    assert!(find.close());
    assert_eq!(find.task(false, Some(&array), &bad).refused, Some(FINISHED.to_string()));
    assert_eq!(find.task(true, None, &None).refused, Some(FINISHED.to_string()));
}

#[test]
fn closing_twice_gives_the_id_back_once() {
    let mut find = prepared();
    assert!(find.close());
    assert!(find.closed());
    assert!(!find.close());
}
