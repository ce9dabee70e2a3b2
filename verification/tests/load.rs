use zudb_js::buffer::Column;
use zudb_js::js::{Big, Calendar, Fields, Js, Named, Thing};
use zudb_js::load::{
    arranged, cast, filled, load, pairs, read, words, LoadOptions, Loaded, Plan, Rows, Typed, TWICE,
};
use zudb_js::value::Made;

fn num(n: f64) -> Js {
    Js::Number { bits: n.to_bits(), shown: n.to_string() }
}

fn big(n: i64) -> Js {
    Js::BigInt(Big { negative: n < 0, low: n.unsigned_abs(), high: vec![] })
}

fn text(s: &str) -> Js {
    Js::Text(s.to_string())
}

fn thing() -> Thing {
    let none = || "no such field".to_string();
    Thing {
        maker: Some("Object".to_string()),
        class: Ok(None),
        items: None,
        typed: None,
        tag: Ok(None),
        fields: Fields {
            calendar: Calendar { id: Ok(None), named: Ok(Named::Other) },
            day: Err(none()),
            clock: Err(none()),
            since: Err(none()),
            offset: Err(none()),
            written: Err(none()),
            span: Err(none()),
        },
        keys: Ok(vec![]),
    }
}

fn array(items: Vec<Js>) -> Js {
    Js::Object(Thing { maker: Some("Array".to_string()), items: Some(items), ..thing() })
}

fn edge(from: f64, to: f64) -> Js {
    array(vec![num(from), num(to)])
}

fn list(edges: Vec<Js>) -> Result<Option<Loaded<'static>>, String> {
    Ok(Some(Loaded::Value(array(edges))))
}

fn rows(n: f64) -> Result<Option<Rows>, String> {
    Ok(Some(Rows { value: num(n), shown: n.to_string() }))
}

fn options<'a>(columns: Vec<(&str, Loaded<'a>)>, edges: Result<Option<Loaded<'a>>, String>) -> LoadOptions<'a> {
    LoadOptions {
        nodes: Ok(Some(text("person"))),
        rels: Ok(None),
        columns: Ok(columns.into_iter().map(|(name, values)| (name.to_string(), Ok(values))).collect()),
        rows: Ok(None),
        edges,
    }
}

fn planned(asked: &LoadOptions<'_>) -> Plan {
    match read(&text("social.zu1"), &Js::Object(thing()), asked) {
        Ok(plan) => plan,
        Err(words) => panic!("{words}"),
    }
}

fn refused(asked: &LoadOptions<'_>) -> String {
    match read(&text("social.zu1"), &Js::Object(thing()), asked) {
        Ok(_) => panic!("it was taken"),
        Err(words) => words,
    }
}

#[test]
fn a_load_is_what_it_was_told() {
    let uid = [1i64, 2, 3];
    let names = array(vec![text("ada"), text("grace"), text("kay")]);
    let mut asked = options(
        vec![("uid", Loaded::Typed(Typed::BigInt64(&uid))), ("name", Loaded::Value(names))],
        list(vec![edge(0.0, 1.0), edge(1.0, 2.0)]),
    );
    asked.rels = Ok(Some(text("knows")));
    let plan = planned(&asked);
    assert_eq!((plan.path.as_str(), plan.nodes.as_str(), plan.rels.as_str()), ("social.zu1", "person", "knows"));
    assert_eq!(plan.rows, 3);
    assert_eq!(plan.pairs, [(0, 1), (1, 2)]);
    assert!(matches!(&plan.columns[0].1, Column::Int(v) if v.as_slice() == [1, 2, 3]));
    let stats = plan.stats();
    assert_eq!((stats.nodes, stats.rels, stats.columns), (3, 2, 2));
    let Made::Object(fields) = stats.to_js() else { panic!("not an object") };
    assert_eq!(fields.iter().map(|f| f.0.as_str()).collect::<Vec<_>>(), ["nodes", "rels", "columns"]);
}

#[test]
fn a_rel_table_nobody_named_is_called_rel() {
    let mut asked = options(vec![], Ok(None));
    asked.rows = rows(2.0);
    let plan = planned(&asked);
    assert_eq!(plan.rels, "rel");
    assert_eq!(plan.rows, 2);
    assert!(plan.pairs.is_empty());
}

#[test]
fn every_integer_width_lands_as_an_int64() {
    let ints = |typed: Typed<'_>| match filled("c", &typed) {
        Ok(Column::Int(v)) => v,
        _ => panic!("not integers"),
    };
    assert_eq!(ints(Typed::Int8(&[-1, 1])), [-1, 1]);
    assert_eq!(ints(Typed::Uint8(&[255])), [255]);
    assert_eq!(ints(Typed::Uint8Clamped(&[255])), [255]);
    assert_eq!(ints(Typed::Int16(&[-300])), [-300]);
    assert_eq!(ints(Typed::Uint16(&[65535])), [65535]);
    assert_eq!(ints(Typed::Int32(&[i32::MIN])), [i64::from(i32::MIN)]);
    assert_eq!(ints(Typed::Uint32(&[u32::MAX])), [i64::from(u32::MAX)]);
    assert_eq!(ints(Typed::BigUint64(&[0, i64::MAX as u64])), [0, i64::MAX]);
    assert_eq!(cast(&[7u16, 9]), [7, 9]);
    assert_eq!(words(&[-1, 5]), [u64::MAX, 5]);
    assert!(matches!(filled("c", &Typed::Float32(&[1.5f64.to_bits()])), Ok(Column::Float(v)) if f64::from_bits(v[0]) == 1.5));
    assert!(matches!(filled("c", &Typed::Float64(&[2.5f64.to_bits()])), Ok(Column::Float(v)) if f64::from_bits(v[0]) == 2.5));
}

#[test]
fn a_word_past_int64_is_refused_by_its_row() {
    assert_eq!(
        filled("c", &Typed::BigUint64(&[1, 1 << 63])).err(),
        Some(
            "column 'c' holds 9223372036854775808 at row 1, which is past what INT64 holds, and every whole number \
             this engine stores is an INT64"
                .to_string()
        )
    );
    assert_eq!(
        filled("c", &Typed::Other).err(),
        Some(
            "column 'c' is a typed array of a kind this client does not read, and a column of numbers is one of the \
             ten integer and float widths"
                .to_string()
        )
    );
}

#[test]
fn a_plain_column_is_read_a_value_at_a_time() {
    assert!(matches!(
        zudb_js::load::column("c", &Ok(Loaded::Value(array(vec![num(1.0), num(2.5)])))),
        Ok(Column::Float(_))
    ));
    assert_eq!(
        zudb_js::load::column("c", &Ok(Loaded::Value(num(1.0)))).err(),
        Some("column 'c' is a number, and a column is an array or a typed array of its values".to_string())
    );
    assert_eq!(zudb_js::load::column("c", &Err("gone".to_string())).err(), Some("gone".to_string()));
}

#[test]
fn the_same_edge_twice_is_one_edge() {
    assert_eq!(arranged(vec![(2, 1), (0, 1), (2, 1), (0, 0), (0, 1)]), [(0, 0), (0, 1), (2, 1)]);
    assert_eq!(arranged(vec![]), []);
    assert_eq!(arranged(vec![(0, 1), (2, 1), (0, 0)]), arranged(vec![(0, 0), (2, 1), (0, 1), (0, 1)]));
}

/// A flat list and a list of pairs of the same row numbers are the same edge list.
#[test]
fn a_flat_list_is_a_list_of_pairs() {
    let flat = [0i32, 1, 1, 2];
    let typed = pairs(&Ok(Some(Loaded::Typed(Typed::Int32(&flat)))), 3);
    let listed = pairs(&list(vec![edge(0.0, 1.0), array(vec![big(1), num(2.0)])]), 3);
    assert_eq!(typed, Ok(vec![(0, 1), (1, 2)]));
    assert_eq!(typed, listed);
    assert_eq!(pairs(&Ok(Some(Loaded::Typed(Typed::Uint32(&[2, 0])))), 3), Ok(vec![(2, 0)]));
    assert_eq!(pairs(&Ok(None), 3), Ok(vec![]));
    assert_eq!(pairs(&Ok(Some(Loaded::Value(Js::Null))), 3), Ok(vec![]));
}

#[test]
fn an_edge_is_a_pair_of_rows_the_table_has() {
    let words = |edges| pairs(&edges, 3).err().unwrap();
    assert_eq!(words(list(vec![edge(0.0, 3.0)])), "edge 0 joins row 3 of a table with 3 rows in it");
    assert_eq!(words(list(vec![edge(0.0, 1.0), edge(-1.0, 1.0)])), "edge 1 joins row -1 of a table with 3 rows in it");
    assert_eq!(words(list(vec![edge(0.5, 1.0)])), "edge 0 joins row 0.5, and a row number is a whole one");
    assert_eq!(words(list(vec![array(vec![num(1.0)])])), "edge 0 holds 1 row numbers, and an edge is a pair of them");
    assert_eq!(words(list(vec![num(1.0)])), "edge 0 is a number, and an edge is a pair of row numbers");
    assert_eq!(
        words(list(vec![array(vec![text("a"), num(1.0)])])),
        "edge 0 joins a string, and a row is named by its number"
    );
    let far = Js::BigInt(Big { negative: false, low: 0, high: vec![1] });
    assert_eq!(words(list(vec![array(vec![far, num(1.0)])])), "edge 0 joins a row past what INT64 holds");
    assert_eq!(
        words(Ok(Some(Loaded::Value(num(1.0))))),
        "the edge list is a number, and an edge list is an array of pairs of row numbers or a flat typed array of them"
    );
    assert_eq!(
        words(Ok(Some(Loaded::Typed(Typed::Float64(&[]))))),
        "the edge list is a typed array of a kind this client does not read, and a flat edge list is an Int32Array \
         or a Uint32Array of row numbers"
    );
    assert_eq!(
        words(Ok(Some(Loaded::Typed(Typed::Int32(&[0, 1, 2]))))),
        "the edge list is a flat array of 3 row numbers, and an edge is a pair of them"
    );
    assert_eq!(words(Ok(Some(Loaded::Typed(Typed::Int32(&[0, -1]))))), "edge 0 joins row -1 of a table with 3 rows in it");
    assert_eq!(words(Err("gone".to_string())), "gone");
}

#[test]
fn a_call_is_refused_with_the_first_thing_wrong() {
    let fine = options(vec![], Ok(None));
    assert_eq!(
        read(&num(1.0), &Js::Object(thing()), &fine).err(),
        Some("the path is a Number, and a path is a string".to_string())
    );
    assert_eq!(
        read(&text("p"), &Js::Undefined, &fine).err(),
        Some("the options are undefined, and a load is told at least which node table it is writing".to_string())
    );
    assert_eq!(
        refused(&LoadOptions { nodes: Ok(None), ..options(vec![], Ok(None)) }),
        "a load names the node table it is writing, and this one names none"
    );
    assert_eq!(
        refused(&LoadOptions { nodes: Ok(Some(text("1st"))), ..options(vec![], Ok(None)) }),
        "'1st' is not a name a statement can carry, and a node table is named by a letter or an underscore followed \
         by letters, digits or underscores"
    );
    assert_eq!(
        refused(&LoadOptions { rels: Ok(Some(Js::Null)), ..options(vec![], Ok(None)) }),
        "the rel table is null, and a rel table is a string"
    );
    assert_eq!(refused(&fine), "a load with no columns has no rows to count, so it has to be told how many");
}

#[test]
fn columns_agree_with_each_other_and_with_the_count() {
    let (two, three) = ([1i64, 2], [1i64, 2, 3]);
    let uneven = options(
        vec![("a", Loaded::Typed(Typed::BigInt64(&two))), ("b", Loaded::Typed(Typed::BigInt64(&three)))],
        Ok(None),
    );
    assert_eq!(
        refused(&uneven),
        "column 'b' holds 3 values and column 'a' holds 2, and a table is as wide as it is long"
    );
    let counted = |rows| LoadOptions { rows, ..options(vec![("a", Loaded::Typed(Typed::BigInt64(&two)))], Ok(None)) };
    assert_eq!(refused(&counted(rows(3.0))), "column 'a' holds 2 values against the 3 rows this load asks for");
    assert_eq!(
        refused(&counted(rows(2.5))),
        "a load of 2.5 rows is a load of a number of rows that is not a whole one"
    );
    assert_eq!(
        refused(&counted(rows(-1.0))),
        "a load of -1 rows is a load of a number of rows that is not a whole one"
    );
    assert_eq!(
        refused(&counted(Ok(Some(Rows { value: text("2"), shown: String::new() })))),
        "the row count is a string, and a row count is a number"
    );
    assert_eq!(planned(&counted(Ok(Some(Rows { value: big(2), shown: "2".to_string() })))).rows, 2);
    let bytes = Js::Object(Thing { typed: Some(Some(vec![1])), ..thing() });
    assert_eq!(
        refused(&options(vec![("a", Loaded::Value(array(vec![bytes])))], Ok(None))),
        "column 'a' holds byte strings, and no statement can read one back yet, so a load will not write a column of \
         them"
    );
}

#[test]
fn a_load_runs_once() {
    let one = [1i64, 2, 3];
    let asked = options(vec![("a", Loaded::Typed(Typed::BigInt64(&one)))], list(vec![edge(1.0, 2.0), edge(0.0, 1.0), edge(1.0, 2.0)]));
    let mut task = load(&text("p"), &Js::Object(thing()), &asked);
    let Ok(plan) = task.take() else { panic!("refused") };
    assert_eq!(plan.pairs, [(0, 1), (1, 2)]);
    assert_eq!(plan.stats().rels, 2);
    assert_eq!(task.take().err(), Some(TWICE.to_string()));
    let mut refused = load(&num(1.0), &Js::Object(thing()), &asked);
    assert_eq!(refused.take().err(), Some("the path is a Number, and a path is a string".to_string()));
}
