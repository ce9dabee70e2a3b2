use zudb_js::arrow::{self, ArrowTask};
use zudb_js::columns::{described, kind, taken, unit, Column, ColumnType, Held, Offsets, Validity};
use zudb_js::conn::{Failure, Notice, QueryTask, Source};
use zudb_js::value::{Ints, Made, Shape, Spelling, Value};

fn shape(ints: Ints) -> Shape {
    Shape::of(&[], &[], Spelling { ints, temporal: false })
}

fn col(ty: ColumnType, held: Held, validity: Option<Validity>) -> Column {
    Column { name: "c".to_string(), ty, held, validity, len: 2 }
}

fn object(column: Column) -> Vec<(String, Made)> {
    let mut read = taken(vec![column], 2, "00000".to_string(), vec![]);
    match described(read.columns.remove(0), &shape(Ints::BigInt), false) {
        Ok(Made::Object(fields)) => fields,
        _ => panic!("not an object"),
    }
}

#[test]
fn a_type_is_a_kind_and_a_unit() {
    assert_eq!((kind(ColumnType::Int), unit(ColumnType::Int)), ("int", None));
    assert_eq!((kind(ColumnType::Date), unit(ColumnType::Date)), ("date", Some("days")));
    assert_eq!((kind(ColumnType::YearMonth), unit(ColumnType::YearMonth)), ("duration", Some("months")));
    assert_eq!((kind(ColumnType::DayTime), unit(ColumnType::DayTime)), ("duration", Some("nanos")));
    let zoned = ColumnType::ZonedTime { offset: 60 };
    assert_eq!((kind(zoned), unit(zoned)), ("time", Some("nanos")));
    assert_eq!((kind(ColumnType::LocalDatetime), unit(ColumnType::LocalDatetime)), ("datetime", Some("nanos")));
    assert_eq!((kind(ColumnType::Other), unit(ColumnType::Other)), ("value", None));
}

#[test]
fn every_field_is_on_every_column() {
    let fields = object(col(ColumnType::Int, Held::Int(vec![1, 2]), None));
    assert_eq!(
        fields.iter().map(|f| f.0.as_str()).collect::<Vec<_>>(),
        ["name", "type", "length", "unit", "zone", "values", "data", "offsets", "items", "validity", "nulls"]
    );
    assert!(matches!(&fields[5].1, Made::Longs(v) if v.as_slice() == [1, 2]));
    assert!(matches!(fields[6].1, Made::Null) && matches!(fields[9].1, Made::Null));
    assert!(matches!(fields[10].1, Made::Count(0)));
}

#[test]
fn strings_are_bytes_and_cuts() {
    let held = Held::Str { bytes: b"adazoe".to_vec(), offsets: Offsets::I32(vec![0, 3, 6]) };
    let fields = object(col(ColumnType::Str, held, None));
    assert!(matches!(&fields[6].1, Made::Bytes(v) if v.as_slice() == b"adazoe"));
    assert!(matches!(&fields[7].1, Made::Words(v) if v.as_slice() == [0, 3, 6]));
    let wide = Held::Str { bytes: vec![], offsets: Offsets::I64(vec![0]) };
    assert!(matches!(&object(col(ColumnType::Str, wide, None))[7].1, Made::Longs(_)));
}

#[test]
fn validity_is_there_when_something_is_null() {
    let some = Some(Validity { bits: vec![1], nulls: 1 });
    let fields = object(col(ColumnType::ZonedDatetime { offset: -90 }, Held::Nanos(vec![1, 0]), some));
    assert!(matches!(&fields[9].1, Made::Bytes(v) if v.as_slice() == [1]));
    assert!(matches!(fields[10].1, Made::Count(1)));
    assert!(matches!(fields[4].1, Made::Whole(-90)));
    let none = Some(Validity { bits: vec![3], nulls: 0 });
    assert!(matches!(object(col(ColumnType::Float, Held::Float(vec![0, 0]), none))[9].1, Made::Null));
}

#[test]
fn what_no_buffer_covers_is_items() {
    let items = Held::Items(vec![Value::List(vec![Value::Int(i64::MAX)]), Value::Null]);
    let fields = object(col(ColumnType::Other, items, None));
    assert!(matches!(&fields[8].1, Made::List(v) if v.len() == 2));
    let items = Held::Items(vec![Value::List(vec![Value::Int(i64::MAX)])]);
    let read = taken(vec![col(ColumnType::Other, items, None)], 1, "00000".to_string(), vec![]);
    assert!(read.to_js(&shape(Ints::Number), false).err().unwrap().starts_with("column c holds 9223372036854775807"));
}

#[test]
fn a_whole_result_reads_down_its_columns() {
    let notice =
        Notice { code: "01000".to_string(), condition: "c".to_string(), message: "m".to_string(), doc_url: "u".to_string() };
    let columns = vec![col(ColumnType::Bool, Held::Bits(vec![2]), None), col(ColumnType::Null, Held::Empty, None)];
    let Ok(Made::Object(fields)) = taken(columns, 2, "00000".to_string(), vec![notice]).to_js(&shape(Ints::BigInt), false)
    else {
        panic!("not an object")
    };
    assert_eq!(fields.iter().map(|f| f.0.as_str()).collect::<Vec<_>>(), ["rows", "columns", "gqlstatus", "notices"]);
    assert!(matches!(fields[0].1, Made::Count(2)));
    assert!(matches!(&fields[1].1, Made::List(v) if v.len() == 2));
    assert!(matches!(&fields[3].1, Made::List(v) if v.len() == 1));
}

#[test]
fn a_batch_size_nobody_could_read_is_refused_before_the_run() {
    let task = |refused: Option<&str>| QueryTask {
        source: Source::Text("s".to_string()),
        params: vec![],
        spelling: Spelling { ints: Ints::BigInt, temporal: false },
        watch: false,
        refused: refused.map(str::to_string),
    };
    let mut bad = ArrowTask { task: task(Some("later")), batch: Err("first".to_string()) };
    assert!(matches!(bad.settle::<u8>(), Err(Failure::Usage(w)) if w == "first"));
    let mut refused = ArrowTask { task: task(Some("later")), batch: Ok(9) };
    assert!(matches!(refused.settle::<u8>(), Err(Failure::Usage(w)) if w == "later"));
    assert!(matches!((ArrowTask { task: task(None), batch: Ok(9) }).settle::<u8>(), Ok(9)));
    let read = arrow::Read { ipc: vec![1, 2], rows: 5, gqlstatus: "00000".to_string(), notices: vec![] };
    let Made::Object(fields) = read.to_js() else { panic!("not an object") };
    assert!(matches!(&fields[0].1, Made::Bytes(v) if v.as_slice() == [1, 2]));
    assert!(matches!(fields[1].1, Made::Count(5)));
}
