use zudb_js::buffer::{FloatBits, IntBits, LogicalType};
use zudb_js::frame::{
    arrowish, from_arrow, from_object, meaning, nanos, read, values, ArrowColumn, ArrowType, ArrowVector, Bytes, Chunk,
    Cuts, Elem, Elements, Frame, Given, Layout, Lent, Looks, Offsets, Place, Untaken, Written,
};
use zudb_js::js::{Calendar, Fields, Js, Kind, Named, Thing};
use zudb_js::temporal::DurationKind;

fn num(n: f64) -> Js {
    Js::Number { bits: n.to_bits(), shown: n.to_string() }
}

fn text(s: &str) -> Js {
    Js::Text(s.to_string())
}

fn thing() -> Thing {
    let none = || "no such field".to_string();
    Thing {
        maker: Some("Object".to_string()),
        class: Ok(None),
        items: None,
        typed: None,
        tag: Ok(None),
        fields: Fields {
            calendar: Calendar { id: Ok(None), named: Ok(Named::Other) },
            day: Err(none()),
            clock: Err(none()),
            since: Err(none()),
            offset: Err(none()),
            written: Err(none()),
            span: Err(none()),
        },
        keys: Ok(vec![]),
    }
}

fn array(items: Vec<Js>) -> Js {
    Js::Object(Thing { maker: Some("Array".to_string()), items: Some(items), ..thing() })
}

fn ty(id: i32) -> ArrowType {
    ArrowType {
        id: Ok(id),
        printed: Some(format!("Type{id}")),
        bit_width: Ok(64f64.to_bits()),
        is_signed: Ok(true),
        precision: Ok(2f64.to_bits()),
        unit: Ok(3f64.to_bits()),
        timezone: Ok(None),
    }
}

fn chunk<'a>(rows: usize, values: Lent<'a>) -> Chunk<'a> {
    Chunk {
        length: Ok((rows as f64).to_bits()),
        offset: Ok(0f64.to_bits()),
        bitmap: Ok(None),
        values: Ok(Some(values)),
        cuts: Ok(None),
    }
}

fn column<'a>(name: &str, ty: ArrowType, chunks: Vec<Chunk<'a>>) -> ArrowColumn<'a> {
    ArrowColumn {
        name: Ok(name.to_string()),
        vector: Ok(Some(ArrowVector { ty: Ok(ty), chunks: Ok(chunks), nulls: Ok(0f64.to_bits()) })),
    }
}

fn words(taken: Result<Frame, Untaken>) -> String {
    match taken {
        Err(Untaken::Words(words)) => words,
        Err(Untaken::Broken) => panic!("broken"),
        Ok(_) => panic!("it was taken"),
    }
}

fn taken(columns: &Vec<ArrowColumn<'_>>) -> Frame {
    match from_arrow(columns) {
        Ok(frame) => frame,
        Err(Untaken::Words(words)) => panic!("{words}"),
        Err(Untaken::Broken) => panic!("broken"),
    }
}

#[test]
fn a_unit_counts_so_many_nanoseconds() {
    assert_eq!(nanos(0), 1_000_000_000);
    assert_eq!(nanos(1), 1_000_000);
    assert_eq!(nanos(2), 1_000);
    assert_eq!(nanos(3), 1);
}

#[test]
fn an_arrow_type_means_what_the_engine_reads() {
    assert!(matches!(
        meaning("n", &ty(2)),
        Ok((LogicalType::Int { signed: true, bits: IntBits::B64, precision: None }, Elem::Int { bits: IntBits::B64, signed: true, .. }))
    ));
    assert!(matches!(
        meaning("n", &ty(3)),
        Ok((LogicalType::Float { bits: FloatBits::B64, precision: None }, Elem::Float(FloatBits::B64)))
    ));
    assert!(matches!(meaning("n", &ty(6)), Ok((LogicalType::Bool, Elem::Bool))));
    assert!(matches!(
        meaning("n", &ty(18)),
        Ok((LogicalType::Duration(DurationKind::DayTime), Elem::Int { bits: IntBits::B64, scale: 1, .. }))
    ));
    assert!(matches!(
        meaning("n", &ArrowType { unit: Ok(1f64.to_bits()), ..ty(9) }),
        Ok((LogicalType::LocalTime, Elem::Int { bits: IntBits::B32, scale: 1_000_000, .. }))
    ));
    assert!(meaning("n", &ty(17)).is_err());
    assert!(meaning("n", &ty(8)).err().unwrap().contains("a date of this engine counts whole days"));
    assert!(meaning("n", &ty(11)).err().unwrap().contains("a duration of this engine is months"));
    assert!(meaning("n", &ty(-1)).err().unwrap().contains("a dictionary is a layout"));
    assert!(meaning("n", &ty(4)).err().unwrap().contains("no statement can read a column of bytes back yet"));
    assert_eq!(meaning("n", &ArrowType { id: Err("gone".to_string()), ..ty(2) }).err(), Some("gone".to_string()));
    let zoned = ArrowType { timezone: Ok(Some("Europe/Paris".to_string())), ..ty(10) };
    assert!(meaning("at", &zoned).err().unwrap().contains("Europe/Paris"));
}

#[test]
fn one_chunk_is_described_where_it_lies() {
    let raw: Vec<u8> = [1i64, 2, 3].iter().flat_map(|n| n.to_le_bytes()).collect();
    let frame = taken(&vec![column("n", ty(2), vec![chunk(3, Lent { id: 7, kind: Elements::I64, raw: &raw })])]);
    assert_eq!(frame.rows, 3);
    assert_eq!(frame.held.lent, [7]);
    assert!(frame.held.owned.is_empty());
    assert!(matches!(
        frame.columns[0].layout,
        Layout::Int { place: Place::Lent { id: 7, at: 0 }, bits: IntBits::B64, signed: true, .. }
    ));
}

#[test]
fn several_chunks_are_put_together() {
    let one: Vec<u8> = [1i64, 2].iter().flat_map(|n| n.to_le_bytes()).collect();
    let two: Vec<u8> = [3i64].iter().flat_map(|n| n.to_le_bytes()).collect();
    let frame = taken(&vec![column(
        "n",
        ty(2),
        vec![
            chunk(2, Lent { id: 0, kind: Elements::I64, raw: &one }),
            chunk(1, Lent { id: 1, kind: Elements::I64, raw: &two }),
        ],
    )]);
    assert_eq!(frame.rows, 3);
    assert_eq!(frame.held.owned.len(), 1);
    let Bytes::Run { width: 8, bytes } = &frame.held.owned[0] else { panic!("not a run of words") };
    assert_eq!(bytes.as_slice(), [one, two].concat().as_slice());
}

/// The characters of several chunks end to end, cut where each of them said, are the strings of
/// the chunks.
#[test]
fn strings_of_several_chunks_read_back() {
    let (one, two) = (b"xxadazoe".to_vec(), b"kay".to_vec());
    let (cut_one, cut_two) = ([2i32, 5, 8], [0i32, 3]);
    let mut first = chunk(2, Lent { id: 0, kind: Elements::U8, raw: &one });
    first.cuts = Ok(Some(Cuts { id: 1, held: Offsets::I32(&cut_one) }));
    let mut second = chunk(1, Lent { id: 2, kind: Elements::U8, raw: &two });
    second.cuts = Ok(Some(Cuts { id: 3, held: Offsets::I32(&cut_two) }));
    let frame = taken(&vec![column("s", ty(5), vec![first, second])]);
    let Layout::Str { offsets: Place::Owned { index: at, .. }, wide: false, data: Place::Owned { index: data, .. }, data_len: 9 } =
        frame.columns[0].layout
    else {
        panic!("not strings")
    };
    let Bytes::Offsets(cuts) = &frame.held.owned[at] else { panic!("not offsets") };
    let Bytes::One(bytes) = &frame.held.owned[data] else { panic!("not bytes") };
    assert_eq!(cuts.as_slice(), [0, 3, 6, 9]);
    let read: Vec<&[u8]> = cuts.windows(2).map(|w| &bytes[w[0] as usize..w[1] as usize]).collect();
    assert_eq!(read, [b"ada".as_slice(), b"zoe", b"kay"]);
}

#[test]
fn a_gap_is_refused_by_its_row() {
    let raw: Vec<u8> = [1i64, 2, 3].iter().flat_map(|n| n.to_le_bytes()).collect();
    let bitmap = [0b101u8];
    let mut holed = chunk(3, Lent { id: 0, kind: Elements::I64, raw: &raw });
    holed.bitmap = Ok(Some(&bitmap));
    let mut table = column("n", ty(2), vec![holed]);
    table.vector.as_mut().unwrap().as_mut().unwrap().nulls = Ok(1f64.to_bits());
    assert_eq!(
        words(from_arrow(&vec![table])),
        "column 'n' has no value at row 1, and every column of a row holds one"
    );
}

#[test]
fn a_table_is_as_wide_as_it_is_long() {
    let raw: Vec<u8> = [1i64, 2, 3].iter().flat_map(|n| n.to_le_bytes()).collect();
    let lent = Lent { id: 0, kind: Elements::I64, raw: &raw };
    assert_eq!(
        words(from_arrow(&vec![column("a", ty(2), vec![chunk(3, lent)]), column("b", ty(2), vec![chunk(2, lent)])])),
        "column 'b' holds 2 values and the column before it holds 3, and a table is as wide as it is long"
    );
    assert!(matches!(from_arrow(&vec![column("a", ty(2), vec![chunk(9, lent), chunk(9, lent)])]), Err(Untaken::Broken)));
}

#[test]
fn an_object_of_columns_is_a_frame() {
    let raw: Vec<u8> = [1.5f64, 2.5].iter().flat_map(|n| n.to_le_bytes()).collect();
    let frame = from_object(&vec![
        ("x".to_string(), Ok(Given::Lent(Lent { id: 4, kind: Elements::F64, raw: &raw }))),
        ("s".to_string(), Ok(Given::Value(array(vec![text("\u{e9}t\u{e9}"), text("")])))),
        ("b".to_string(), Ok(Given::Value(array(vec![Js::Boolean(true), Js::Boolean(false)])))),
    ]);
    let Ok(frame) = frame else { panic!("it was refused") };
    assert_eq!(frame.rows, 2);
    assert_eq!(frame.held.lent, [4]);
    assert!(matches!(frame.columns[0].ty, LogicalType::Float { bits: FloatBits::B64, .. }));
    let Layout::Str { offsets: Place::Owned { index: at, .. }, data: Place::Owned { index: data, .. }, data_len: 5, .. } =
        frame.columns[1].layout
    else {
        panic!("not strings")
    };
    assert!(matches!(&frame.held.owned[at], Bytes::Offsets(v) if v.as_slice() == [0, 5, 5]));
    assert!(matches!(&frame.held.owned[data], Bytes::One(v) if v.as_slice() == "\u{e9}t\u{e9}".as_bytes()));
    let Layout::Bool { place: Place::Owned { index, .. } } = frame.columns[2].layout else { panic!("not booleans") };
    assert!(matches!(&frame.held.owned[index], Bytes::One(v) if v.as_slice() == [1]));
}

#[test]
fn a_typed_array_of_nothing_is_a_column_of_nothing() {
    let frame = from_object(&vec![("x".to_string(), Ok(Given::Lent(Lent { id: 4, kind: Elements::I32, raw: &[] })))]);
    let Ok(frame) = frame else { panic!("it was refused") };
    assert_eq!(frame.rows, 0);
    assert!(frame.held.lent.is_empty());
    assert_eq!(frame.held.owned.len(), 1);
}

#[test]
fn a_column_that_is_no_column_says_so() {
    let words = |value| from_object(&vec![("x".to_string(), Ok(Given::Value(value)))]).err();
    assert_eq!(
        words(num(1.0)),
        Some("column 'x' is a number, and a column is an array of values or a typed array".to_string())
    );
    assert_eq!(words(Js::Unread("gone".to_string())), Some("gone".to_string()));
    let bytes = Js::Object(Thing { maker: Some("Uint8Array".to_string()), typed: Some(Some(vec![1])), ..thing() });
    assert_eq!(
        words(array(vec![bytes])),
        Some("column 'x' holds byte strings, and no statement can read a column of bytes back yet".to_string())
    );
    assert_eq!(
        values("x", &array(vec![])).err(),
        Some("column 'x' is empty, and an empty column says nothing about what it would hold".to_string())
    );
}

#[test]
fn a_table_is_known_by_its_looks() {
    let looks = |schema, fields, child| Looks { schema: Ok(schema), fields: Ok(fields), child: Ok(child) };
    let table = looks(Kind::Object, (Kind::Object, true), Kind::Function);
    assert_eq!(arrowish(&table), Ok(true));
    assert_eq!(arrowish(&looks(Kind::Undefined, (Kind::Object, true), Kind::Function)), Ok(false));
    assert_eq!(arrowish(&looks(Kind::Object, (Kind::Object, false), Kind::Function)), Ok(false));
    assert_eq!(arrowish(&looks(Kind::Object, (Kind::Object, true), Kind::Undefined)), Ok(false));
    assert_eq!(
        arrowish(&Looks { schema: Err("gone".to_string()), fields: Ok((Kind::Object, true)), child: Ok(Kind::Function) }),
        Err("gone".to_string())
    );
    let plain = looks(Kind::Undefined, (Kind::Undefined, false), Kind::Undefined);
    assert!(read(&Js::Object(thing()), &table) == Ok(Written::Arrow));
    assert!(read(&Js::Object(thing()), &plain) == Ok(Written::Columns));
    let refused = "a frame is an Arrow table, which is what `apache-arrow` and everything built on it hands out, or \
                   an object of column name to values, and this is ";
    assert_eq!(read(&array(vec![]), &plain).err(), Some(format!("{refused}an Array")));
    assert_eq!(read(&num(1.0), &plain).err(), Some(format!("{refused}a number")));
}

#[test]
fn the_first_chunk_that_cannot_be_put_after_the_others_says_why() {
    let raw = b"abcdef".to_vec();
    let lent = Lent { id: 0, kind: Elements::U8, raw: &raw };
    let cut = |offsets: Offsets<'static>| Chunk { cuts: Ok(Some(Cuts { id: 1, held: offsets })), ..chunk(1, lent) };
    let good = || cut(Offsets::I32(&[1, 3]));
    let unread = || cut(Offsets::Other);
    let past = || cut(Offsets::I32(&[0, 9]));
    let back = || cut(Offsets::I32(&[3, 1]));
    let unreadable = "column 's' is cut by offsets this client cannot read";
    assert_eq!(words(from_arrow(&vec![column("s", ty(5), vec![unread(), past()])])), unreadable);
    assert_eq!(words(from_arrow(&vec![column("s", ty(5), vec![good(), unread(), back()])])), unreadable);
    assert!(matches!(from_arrow(&vec![column("s", ty(5), vec![past(), unread()])]), Err(Untaken::Broken)));
    assert!(matches!(from_arrow(&vec![column("s", ty(5), vec![good(), back()])]), Err(Untaken::Broken)));
    // A column of one chunk stops at the first of its offsets that is wrong too.
    let far = Chunk {
        cuts: Ok(Some(Cuts { id: 1, held: Offsets::I64(&[1, 0x1_0000_0000, 0, 2]) })),
        ..chunk(3, lent)
    };
    assert_eq!(
        words(from_arrow(&vec![column("s", ArrowType { bit_width: Ok(0), ..ty(20) }, vec![far])])),
        "column 's' holds more than two gigabytes of characters once its chunks are put together, which is further \
         than the offsets of a frame reach"
    );
    let long = || {
        let mut long = chunk(1, lent);
        long.length = Ok(f64::INFINITY.to_bits());
        long
    };
    let missing = Chunk { values: Ok(None), ..chunk(1, lent) };
    assert!(matches!(from_arrow(&vec![column("n", ty(2), vec![long(), long(), missing])]), Err(Untaken::Broken)));
}
