use zudb_js::append::{
    claim, in_batch, shape, Appender, Declared, Flush, NodeTable, Refused, BUSY, FINISHED,
};
use zudb_js::buffer::{Field, IntBits, LogicalType};
use zudb_js::conn::CLOSED;
use zudb_js::js::{Big, Calendar, Fields, Js, Named, Thing};

fn num(n: f64) -> Js {
    Js::Number { bits: n.to_bits(), shown: n.to_string() }
}

fn text(s: &str) -> Js {
    Js::Text(s.to_string())
}

fn thing() -> Thing {
    let none = || "no such field".to_string();
    Thing {
        maker: Some("Object".to_string()),
        class: Ok(None),
        items: None,
        typed: None,
        tag: Ok(None),
        fields: Fields {
            calendar: Calendar { id: Ok(None), named: Ok(Named::Other) },
            day: Err(none()),
            clock: Err(none()),
            since: Err(none()),
            offset: Err(none()),
            written: Err(none()),
            span: Err(none()),
        },
        keys: Ok(vec![]),
    }
}

fn array(items: Vec<Js>) -> Js {
    Js::Object(Thing { maker: Some("Array".to_string()), items: Some(items), ..thing() })
}

fn declared(name: &str, ty: LogicalType, printed: &str) -> Declared {
    Declared { name: name.to_string(), ty, printed: printed.to_string() }
}

fn people() -> Appender {
    let columns = vec![
        declared("id", LogicalType::Int { signed: true, bits: IntBits::B64, precision: None }, "INT64"),
        declared("name", LogicalType::Str { min: None, max: None, fixed: false }, "STRING"),
    ];
    let cols = shape("Person", None, &vec![], &Some(Some(columns))).expect("columns");
    Appender::new("Person".to_string(), cols)
}

fn words(why: Refused) -> String {
    match why {
        Refused::Row(words) => words,
        Refused::Boundary(fault) => fault.reason(),
    }
}

#[test]
fn a_row_is_every_column_in_order() {
    let mut rows = people();
    assert!(rows.append_row(false, true, &array(vec![num(1.0), text("ada")])).is_ok());
    assert_eq!(rows.buffered(), 1);
    let row = rows.row(0);
    assert!(matches!(row[0], Field::Int(1)) && matches!(row[1], Field::Str("ada")));
    assert_eq!(rows.table(), "Person");
    assert!(!rows.joins());
}

#[test]
fn a_refused_row_is_a_row_that_never_happened() {
    let mut rows = people();
    rows.append_row(false, true, &array(vec![num(1.0), text("ada")])).ok();
    let why = rows.append_row(false, true, &array(vec![text("x"), text("y")])).err().unwrap();
    assert_eq!(words(why), "value 0 of this row is a string and column 'id' of 'Person' holds whole numbers");
    let why = rows.append_row(false, true, &array(vec![num(2.0), num(3.0)])).err().unwrap();
    assert_eq!(words(why), "value 1 of this row is a number and column 'name' of 'Person' holds strings");
    let why = rows.append_row(false, true, &array(vec![num(2.5), text("y")])).err().unwrap();
    assert_eq!(
        words(why),
        "value 0 of this row does not go in column 'id' of 'Person': it is 2.5, which is not a whole number"
    );
    let why = rows.append_row(false, true, &array(vec![num(2.0), Js::Unread("gone".to_string())])).err().unwrap();
    assert_eq!(words(why), "gone");
    assert_eq!(rows.buffered(), 1);
    assert!(rows.append_row(false, true, &array(vec![num(2.0), text("zoe")])).is_ok());
    assert!(matches!(rows.row(1)[0], Field::Int(2)));
}

#[test]
fn a_batch_keeps_the_rows_before_the_one_it_refused() {
    let mut rows = people();
    let batch = array(vec![
        array(vec![num(1.0), text("ada")]),
        array(vec![num(2.0), text("zoe")]),
        array(vec![num(3.0)]),
        array(vec![num(4.0), text("eve")]),
    ]);
    let why = words(rows.append_rows(false, true, &batch).err().unwrap());
    assert!(why.starts_with("row 2"), "{why}");
    assert_eq!(rows.buffered(), 2);
    let good = array(vec![array(vec![num(5.0), text("kay")])]);
    assert!(matches!(rows.append_rows(false, true, &good), Ok(1)));
    assert_eq!(rows.buffered(), 3);
}

#[test]
fn a_flush_counts_and_empties() {
    let mut rows = people();
    assert!(matches!(rows.flush(false), Flush::Answered(0)));
    rows.append_row(false, true, &array(vec![num(1.0), text("ada")])).ok();
    assert!(matches!(rows.flush(false), Flush::Write(1)));
    assert_eq!(rows.buffered(), 1);
    assert_eq!(rows.flushed(false), 1);
    assert_eq!((rows.buffered(), rows.committed()), (0, 1));
    rows.append_row(false, true, &array(vec![num(2.0), text("zoe")])).ok();
    assert!(matches!(rows.discard(false, true), Ok(1)));
    assert_eq!((rows.buffered(), rows.committed()), (0, 1));
}

#[test]
fn a_closed_appender_writes_nothing() {
    let mut rows = people();
    assert!(matches!(rows.flush(true), Flush::Answered(0)));
    assert!(rows.closed());
    assert!(matches!(rows.flush(true), Flush::Answered(0)));
    assert!(matches!(rows.flush(false), Flush::Refused(words) if words == FINISHED));
    let row = array(vec![num(1.0), text("ada")]);
    assert_eq!(words(rows.append_row(false, true, &row).err().unwrap()), FINISHED);
    assert_eq!(words(people().append_row(true, true, &row).err().unwrap()), BUSY);
    assert_eq!(words(people().append_row(false, false, &row).err().unwrap()), CLOSED);
    assert!(claim(false).is_ok());
    assert_eq!(claim(true).err(), Some(BUSY.to_string()));
}

#[test]
fn a_table_has_columns_or_it_says_why_not() {
    let words = |node| shape("t", None, &vec![], &node).err().unwrap();
    assert_eq!(
        words(None),
        "there is no table 't' in this database, and an appender writes into a table that is already there"
    );
    assert_eq!(words(Some(None)), "'t' stores no properties, so it has no columns to append to");
    assert_eq!(
        words(Some(Some(vec![declared("x", LogicalType::Other, "DECIMAL")]))),
        "column 'x' of 't' holds DECIMAL, which this client cannot yet append to"
    );
}

#[test]
fn an_edge_joins_rows_that_are_there() {
    let nodes = vec![
        NodeTable { id: 1, name: "person".to_string(), count: 2 },
        NodeTable { id: 2, name: "city".to_string(), count: 1 },
    ];
    let cols = shape("lives", Some((1, 2)), &nodes, &None).expect("columns");
    assert_eq!(cols[0].name, "from person");
    assert_eq!(cols[1].name, "to city");
    let mut edges = Appender::new("lives".to_string(), cols);
    assert!(edges.joins());
    let why = edges.append_row(false, true, &array(vec![num(-1.0), num(0.0)])).err().unwrap();
    assert_eq!(
        words(why),
        "value 0 of this row is -1, and column 'from person' of 'lives' holds row offsets, which count from zero"
    );
    edges.append_row(false, true, &array(vec![num(1.0), num(0.0)])).ok();
    assert!(edges.reachable(&nodes).is_ok());
    let far = Js::BigInt(Big { negative: false, low: 1, high: vec![] });
    edges.append_row(false, true, &array(vec![num(0.0), far])).ok();
    assert_eq!(
        edges.reachable(&nodes).err(),
        Some(
            "row 1 of this batch joins row 1 of 'city', which has 1 rows in it, so the rows an edge joins have to be \
             written before the edge is"
                .to_string()
        )
    );
}

#[test]
fn a_row_the_engine_refused_is_numbered() {
    assert_eq!(in_batch(4, "no"), "row 4 of this batch: no");
}
