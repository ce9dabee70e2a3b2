//! A result read down its columns instead of across its rows.
//!
//! What comes back is the buffers themselves, in the layout Arrow already uses: values end to
//! end, one bit a row of validity where anything is null, strings as bytes and offsets. Two
//! things are not buffers. A column of nodes, rels, paths, lists or records has no fixed width
//! cell, so it arrives as `items`, and a column of nothing but nulls has a length and nothing
//! else. Both are named by the column's `type` rather than found out by looking.

use vstd::prelude::*;

use crate::conn::{notices, notices_as, Notice};
use crate::value::{
    elements, law_only_these_are_not_spelled, list, listing, object, properties, property, shows, spells, unspellable,
    unspellable_items, Made, Shape, Shown, Value,
};

verus! {

/// What the engine says a column holds.
#[allow(inconsistent_fields)]
#[derive(Clone, Copy, PartialEq, Eq, Structural)]
pub enum ColumnType {
    Null,
    Bool,
    Int,
    Float,
    Str,
    Date,
    LocalTime,
    /// With the minutes east of UTC.
    ZonedTime { offset: i16 },
    LocalDatetime,
    /// With the minutes east of UTC.
    ZonedDatetime { offset: i16 },
    YearMonth,
    DayTime,
    /// A type with no buffer of its own.
    Other,
}

/// Where the strings of a column are cut, 32 bits wide until the bytes pass what those
/// address.
pub enum Offsets {
    I32(Vec<i32>),
    I64(Vec<i64>),
}

/// What a column holds.
pub enum Held {
    /// A column of nulls, which has a length and no buffer.
    Empty,
    /// One bit a row, least significant bit first.
    Bits(Vec<u8>),
    Int(Vec<i64>),
    /// Floats, by the bits of the doubles they are.
    Float(Vec<u64>),
    Days(Vec<i32>),
    Nanos(Vec<i64>),
    Months(Vec<i64>),
    Str { bytes: Vec<u8>, offsets: Offsets },
    /// The values themselves, for what no buffer covers.
    Items(Vec<Value>),
}

/// Which rows of a column have a value, one bit a row, and how many have none.
pub struct Validity {
    pub bits: Vec<u8>,
    pub nulls: u64,
}

/// One column, as the engine hands it over.
pub struct Column {
    pub name: String,
    pub ty: ColumnType,
    pub held: Held,
    pub validity: Option<Validity>,
    pub len: u64,
}

/// One column: what it is called, what it holds, and the rows that have a value.
pub struct Out {
    pub name: String,
    /// What a reader calls this type, which is a smaller vocabulary than the engine's.
    pub kind: &'static str,
    /// What a fixed width cell counts, where counting is what it does.
    pub unit: Option<&'static str>,
    /// Minutes east of UTC, for a column of zoned times or datetimes.
    pub zone: Option<i32>,
    pub held: Held,
    pub validity: Option<Validity>,
    pub len: u64,
}

/// What a reader calls a column's type.
pub open spec fn kind_of(ty: ColumnType) -> Seq<char> {
    match ty {
        ColumnType::Null => "null"@,
        ColumnType::Bool => "bool"@,
        ColumnType::Int => "int"@,
        ColumnType::Float => "float"@,
        ColumnType::Str => "string"@,
        ColumnType::Date => "date"@,
        ColumnType::LocalTime | ColumnType::ZonedTime { .. } => "time"@,
        ColumnType::LocalDatetime | ColumnType::ZonedDatetime { .. } => "datetime"@,
        ColumnType::YearMonth | ColumnType::DayTime => "duration"@,
        ColumnType::Other => "value"@,
    }
}

/// What a reader calls this column's type.
///
/// Narrower than [`ColumnType`] on purpose: what a caller has to branch on is which buffer they
/// were handed, and a time with an offset and a time without are the same 64 bit cells.
pub fn kind(ty: ColumnType) -> (r: &'static str)
    ensures
        r@ == kind_of(ty),
{
    match ty {
        ColumnType::Null => "null",
        ColumnType::Bool => "bool",
        ColumnType::Int => "int",
        ColumnType::Float => "float",
        ColumnType::Str => "string",
        ColumnType::Date => "date",
        ColumnType::LocalTime | ColumnType::ZonedTime { .. } => "time",
        ColumnType::LocalDatetime | ColumnType::ZonedDatetime { .. } => "datetime",
        ColumnType::YearMonth | ColumnType::DayTime => "duration",
        ColumnType::Other => "value",
    }
}

/// What one cell of a column counts.
pub open spec fn unit_of(ty: ColumnType) -> Option<Seq<char>> {
    match ty {
        ColumnType::Date => Some("days"@),
        ColumnType::LocalTime
        | ColumnType::ZonedTime { .. }
        | ColumnType::LocalDatetime
        | ColumnType::ZonedDatetime { .. }
        | ColumnType::DayTime => Some("nanos"@),
        ColumnType::YearMonth => Some("months"@),
        _ => None,
    }
}

/// What one cell of this column counts.
///
/// A duration is months or nanoseconds and never both, which is the one thing a reader of the
/// buffer cannot work out from the numbers in it.
pub fn unit(ty: ColumnType) -> (r: Option<&'static str>)
    ensures
        match r {
            Some(words) => unit_of(ty) == Some(words@),
            None => unit_of(ty) is None,
        },
{
    match ty {
        ColumnType::Date => Some("days"),
        ColumnType::LocalTime
        | ColumnType::ZonedTime { .. }
        | ColumnType::LocalDatetime
        | ColumnType::ZonedDatetime { .. }
        | ColumnType::DayTime => Some("nanos"),
        ColumnType::YearMonth => Some("months"),
        _ => None,
    }
}

/// The minutes east of UTC a column of zoned times was written with.
pub open spec fn zone_of(ty: ColumnType) -> Option<i32> {
    match ty {
        ColumnType::ZonedTime { offset } => Some(offset as i32),
        ColumnType::ZonedDatetime { offset } => Some(offset as i32),
        _ => None,
    }
}

/// Whether this is a column of the engine's, with every buffer moved out of it.
pub open spec fn is_out(out: Out, column: Column) -> bool {
    &&& out.name@ == column.name@
    &&& out.kind@ == kind_of(column.ty)
    &&& match out.unit {
        Some(words) => unit_of(column.ty) == Some(words@),
        None => unit_of(column.ty) is None,
    }
    &&& out.zone == zone_of(column.ty)
    &&& out.held == column.held
    &&& out.validity == column.validity
    &&& out.len == column.len
}

fn moved(column: Column) -> (r: Out)
    ensures
        is_out(r, column),
{
    let ty: ColumnType = column.ty;
    let zone: Option<i32> = match ty {
        ColumnType::ZonedTime { offset } => Some(offset as i32),
        ColumnType::ZonedDatetime { offset } => Some(offset as i32),
        _ => None,
    };
    Out {
        name: column.name,
        kind: kind(ty),
        unit: unit(ty),
        zone,
        held: column.held,
        validity: column.validity,
        len: column.len,
    }
}

/// A whole result, read down its columns.
pub struct Read {
    pub rows: u64,
    pub columns: Vec<Out>,
    pub gqlstatus: String,
    pub notices: Vec<Notice>,
}

/// The engine's columns, with every buffer moved out of them.
pub fn taken(columns: Vec<Column>, rows: u64, gqlstatus: String, notices: Vec<Notice>) -> (r: Read)
    ensures
        r.rows == rows,
        r.gqlstatus@ == gqlstatus@,
        r.notices == notices,
        r.columns@.len() == columns@.len(),
        forall|i: int| 0 <= i < columns@.len() ==> is_out(#[trigger] r.columns@[i], columns@[i]),
{
    let ghost given = columns@;
    let mut made: Vec<Out> = Vec::new();
    for column in it: columns
        invariant
            it.seq() == given,
            made@.len() == it.index(),
            forall|i: int| 0 <= i < made@.len() ==> is_out(#[trigger] made@[i], given[i]),
    {
        made.push(moved(column));
    }
    Read { rows, columns: made, gqlstatus, notices }
}

/// A string or null.
pub open spec fn text_or_null(words: Option<Seq<char>>) -> Shown {
    match words {
        Some(words) => Shown::Text(words),
        None => Shown::Null,
    }
}

/// Where the strings are cut, as the typed array of the width it is.
pub open spec fn offsets_as(offsets: Offsets) -> Shown {
    match offsets {
        Offsets::I32(v) => Shown::Words(v@),
        Offsets::I64(v) => Shown::Longs(v@),
    }
}

/// `values`, which carries everything of a fixed width.
pub open spec fn values_as(held: Held) -> Shown {
    match held {
        Held::Bits(v) => Shown::Bytes(v@),
        Held::Int(v) => Shown::Longs(v@),
        Held::Nanos(v) => Shown::Longs(v@),
        Held::Months(v) => Shown::Longs(v@),
        Held::Float(v) => Shown::Doubles(v@),
        Held::Days(v) => Shown::Words(v@),
        _ => Shown::Null,
    }
}

/// `data`, which is the bytes of every string end to end.
pub open spec fn data_as(held: Held) -> Shown {
    match held {
        Held::Str { bytes, .. } => Shown::Bytes(bytes@),
        _ => Shown::Null,
    }
}

/// `offsets`, which is where the strings are cut.
pub open spec fn cuts_as(held: Held) -> Shown {
    match held {
        Held::Str { offsets, .. } => offsets_as(offsets),
        _ => Shown::Null,
    }
}

/// `items`, which is the values themselves for what no buffer covers.
pub open spec fn items_as(held: Held, shape: Shape) -> Shown {
    match held {
        Held::Items(items) => Shown::List(items@.map_values(|value: Value| Shown::Spelled(value, shape))),
        _ => Shown::Null,
    }
}

/// `validity`, which is null when every row has a value, so that present means at least one
/// null.
pub open spec fn validity_as(validity: Option<Validity>) -> Shown {
    match validity {
        Some(validity) => if validity.nulls > 0 { Shown::Bytes(validity.bits@) } else { Shown::Null },
        None => Shown::Null,
    }
}

/// How many rows have no value.
pub open spec fn nulls_of(validity: Option<Validity>) -> u64 {
    match validity {
        Some(validity) => validity.nulls,
        None => 0,
    }
}

/// One column as the object a caller reads: every field on every column, holding null where it
/// does not apply.
pub open spec fn column_as(column: Out, shape: Shape) -> Seq<(Seq<char>, Shown)> {
    Seq::empty().push(("name"@, Shown::Text(column.name@))).push(("type"@, Shown::Text(column.kind@))).push(
        ("length"@, Shown::Count(column.len)),
    ).push(
        (
            "unit"@,
            text_or_null(
                match column.unit {
                    Some(words) => Some(words@),
                    None => None,
                },
            ),
        ),
    ).push(
        (
            "zone"@,
            match column.zone {
                Some(minutes) => Shown::Whole(minutes as i64),
                None => Shown::Null,
            },
        ),
    ).push(("values"@, values_as(column.held))).push(("data"@, data_as(column.held))).push(
        ("offsets"@, cuts_as(column.held)),
    ).push(("items"@, items_as(column.held, shape))).push(("validity"@, validity_as(column.validity))).push(
        ("nulls"@, Shown::Count(nulls_of(column.validity))),
    )
}

/// Why a column cannot be spelled as it was asked to be, when it cannot.
pub open spec fn undescribed(column: Out, shape: Shape, present: bool) -> Option<Seq<char>> {
    match column.held {
        Held::Items(items) => unspellable_items(column.name@, items@, shape.spelling, present, items@.len()),
        _ => None,
    }
}

fn spelled(name: &str, items: &Vec<Value>, shape: &Shape, present: bool) -> (r: Result<Made, String>)
    ensures
        match r {
            Ok(made) => unspellable_items(name@, items@, shape.spelling, present, items@.len()) is None && shows(
                made,
                Shown::List(items@.map_values(|value: Value| Shown::Spelled(value, *shape))),
            ),
            Err(words) => unspellable_items(name@, items@, shape.spelling, present, items@.len()) == Some(words@),
        },
{
    let made: Vec<Made> = list(name, items, shape, present)?;
    proof {
        assert(elements(made@, items@.map_values(|value: Value| Shown::Spelled(value, *shape))));
    }
    Ok(listing(made))
}

/// One column as the object a caller reads.
///
/// A shape that changes by type is a shape a program has to test before it can read, and the
/// whole point of `type` is that the test is one string comparison. The mode an integer is
/// spelled in says nothing about the buffers and decides what is inside `items`.
pub fn described(column: Out, shape: &Shape, present: bool) -> (r: Result<Made, String>)
    ensures
        match r {
            Ok(made) => undescribed(column, *shape, present) is None && shows(
                made,
                Shown::Object(column_as(column, *shape)),
            ),
            Err(words) => undescribed(column, *shape, present) == Some(words@),
        },
{
    let ghost given = column;
    let Out { name, kind, unit, zone, held, validity, len } = column;
    let (values, data, offsets, items): (Made, Made, Made, Made) = match held {
        Held::Empty => (Made::Null, Made::Null, Made::Null, Made::Null),
        Held::Bits(bits) => (Made::Bytes(bits), Made::Null, Made::Null, Made::Null),
        Held::Int(v) => (Made::Longs(v), Made::Null, Made::Null, Made::Null),
        Held::Nanos(v) => (Made::Longs(v), Made::Null, Made::Null, Made::Null),
        Held::Months(v) => (Made::Longs(v), Made::Null, Made::Null, Made::Null),
        Held::Float(v) => (Made::Doubles(v), Made::Null, Made::Null, Made::Null),
        Held::Days(v) => (Made::Words(v), Made::Null, Made::Null, Made::Null),
        Held::Str { bytes, offsets } => (
            Made::Null,
            Made::Bytes(bytes),
            match offsets {
                Offsets::I32(v) => Made::Words(v),
                Offsets::I64(v) => Made::Longs(v),
            },
            Made::Null,
        ),
        Held::Items(items) => (Made::Null, Made::Null, Made::Null, spelled(name.as_str(), &items, shape, present)?),
    };
    let (bits, nulls): (Made, u64) = match validity {
        Some(validity) => if validity.nulls > 0 {
            (Made::Bytes(validity.bits), validity.nulls)
        } else {
            (Made::Null, 0)
        },
        None => (Made::Null, 0),
    };
    let mut fields: Vec<(String, Made)> = Vec::new();
    property(&mut fields, "name", Made::Text(name));
    property(&mut fields, "type", Made::Text(kind.to_owned()));
    property(&mut fields, "length", Made::Count(len));
    property(
        &mut fields,
        "unit",
        match unit {
            Some(words) => Made::Text(words.to_owned()),
            None => Made::Null,
        },
    );
    property(
        &mut fields,
        "zone",
        match zone {
            Some(minutes) => Made::Whole(minutes as i64),
            None => Made::Null,
        },
    );
    proof {
        assert(shows(values, values_as(given.held)));
        assert(shows(data, data_as(given.held)));
        assert(shows(offsets, cuts_as(given.held)));
        assert(shows(items, items_as(given.held, *shape)));
        assert(shows(bits, validity_as(given.validity)));
        assert(shows(fields@[3].1, column_as(given, *shape)[3].1));
        assert(shows(fields@[4].1, column_as(given, *shape)[4].1));
    }
    property(&mut fields, "values", values);
    property(&mut fields, "data", data);
    property(&mut fields, "offsets", offsets);
    property(&mut fields, "items", items);
    property(&mut fields, "validity", bits);
    property(&mut fields, "nulls", Made::Count(nulls));
    proof {
        assert(properties(fields@, column_as(given, *shape)));
    }
    Ok(object(fields))
}

/// Why the columns from `at` on cannot be spelled as asked, when they cannot.
pub open spec fn unread(columns: Seq<Out>, shape: Shape, present: bool, at: int) -> Option<Seq<char>>
    decreases columns.len() - at,
{
    if at < 0 || at >= columns.len() {
        None
    } else if undescribed(columns[at], shape, present) is Some {
        undescribed(columns[at], shape, present)
    } else {
        unread(columns, shape, present, at + 1)
    }
}

/// A whole result as the object a caller reads.
pub open spec fn read_as(read: Read, shape: Shape) -> Seq<(Seq<char>, Shown)> {
    Seq::empty().push(("rows"@, Shown::Count(read.rows))).push(
        ("columns"@, Shown::List(read.columns@.map_values(|column: Out| Shown::Object(column_as(column, shape))))),
    ).push(("gqlstatus"@, Shown::Text(read.gqlstatus@))).push(("notices"@, notices_as(read.notices@)))
}

impl Read {
    /// The result as the object a caller reads.
    pub fn to_js(self, shape: &Shape, present: bool) -> (r: Result<Made, String>)
        ensures
            match r {
                Ok(made) => unread(self.columns@, *shape, present, 0) is None && shows(
                    made,
                    Shown::Object(read_as(self, *shape)),
                ),
                Err(words) => unread(self.columns@, *shape, present, 0) == Some(words@),
            },
    {
        let ghost given = self.columns@;
        let mut made: Vec<Made> = Vec::new();
        for column in it: self.columns
            invariant
                it.seq() == given,
                given == self.columns@,
                made@.len() == it.index(),
                unread(given, *shape, present, 0) == unread(given, *shape, present, made@.len() as int),
                forall|i: int|
                    0 <= i < made@.len() ==> shows(#[trigger] made@[i], Shown::Object(column_as(given[i], *shape))),
        {
            made.push(described(column, shape, present)?);
        }
        proof {
            assert(elements(made@, given.map_values(|column: Out| Shown::Object(column_as(column, *shape)))));
        }
        let columns: Made = listing(made);
        let mut fields: Vec<(String, Made)> = Vec::new();
        property(&mut fields, "rows", Made::Count(self.rows));
        property(&mut fields, "columns", columns);
        property(&mut fields, "gqlstatus", Made::Text(self.gqlstatus));
        property(&mut fields, "notices", notices(&self.notices));
        proof {
            assert(properties(fields@, read_as(self, *shape)));
        }
        Ok(object(fields))
    }
}

/// A column hands its buffer out whole: `values` is the typed array of the buffer's own elements,
/// as many and in the order the engine had them, `data` and `offsets` are the bytes and the cuts of
/// a column of strings, and `items` the values of a column that has no buffer, each spelled. Each
/// column has the ones it has and null for the rest, so only a column of nothing but nulls has none.
pub proof fn law_a_column_hands_its_buffer_out(column: Column, out: Out, made: Made, shape: Shape)
    requires
        is_out(out, column),
        shows(made, Shown::Object(column_as(out, shape))),
    ensures
        made matches Made::Object(f) && f@.len() == 11 && f@[5].0@ == "values"@ && f@[6].0@ == "data"@ && f@[7].0@
            == "offsets"@ && f@[8].0@ == "items"@ && match column.held {
            Held::Empty => f@[5].1 is Null && f@[6].1 is Null && f@[7].1 is Null && f@[8].1 is Null,
            Held::Bits(v) => (f@[5].1 matches Made::Bytes(w) && w@ == v@) && f@[6].1 is Null && f@[7].1 is Null && f@[8].1
                is Null,
            Held::Int(v) => (f@[5].1 matches Made::Longs(w) && w@ == v@) && f@[6].1 is Null && f@[7].1 is Null && f@[8].1
                is Null,
            Held::Float(v) => (f@[5].1 matches Made::Doubles(w) && w@ == v@) && f@[6].1 is Null && f@[7].1 is Null
                && f@[8].1 is Null,
            Held::Days(v) => (f@[5].1 matches Made::Words(w) && w@ == v@) && f@[6].1 is Null && f@[7].1 is Null && f@[8].1
                is Null,
            Held::Nanos(v) => (f@[5].1 matches Made::Longs(w) && w@ == v@) && f@[6].1 is Null && f@[7].1 is Null
                && f@[8].1 is Null,
            Held::Months(v) => (f@[5].1 matches Made::Longs(w) && w@ == v@) && f@[6].1 is Null && f@[7].1 is Null
                && f@[8].1 is Null,
            Held::Str { bytes, offsets } => f@[5].1 is Null && (f@[6].1 matches Made::Bytes(w) && w@ == bytes@)
                && match offsets {
                Offsets::I32(v) => f@[7].1 matches Made::Words(w) && w@ == v@,
                Offsets::I64(v) => f@[7].1 matches Made::Longs(w) && w@ == v@,
            } && f@[8].1 is Null,
            Held::Items(items) => f@[5].1 is Null && f@[6].1 is Null && f@[7].1 is Null && (f@[8].1 matches Made::List(
                list,
            ) && list@.len() == items@.len() && forall|i: int|
                0 <= i < items@.len() ==> spells(#[trigger] list@[i], items@[i], shape)),
        },
{
    let f = made->Object_0;
    let shown = column_as(out, shape);
    assert(f@.len() == shown.len());
    assert(f@[5].0@ == shown[5].0 && shows(f@[5].1, shown[5].1));
    assert(f@[6].0@ == shown[6].0 && shows(f@[6].1, shown[6].1));
    assert(f@[7].0@ == shown[7].0 && shows(f@[7].1, shown[7].1));
    assert(f@[8].0@ == shown[8].0 && shows(f@[8].1, shown[8].1));
    if let Held::Items(items) = column.held {
        let list = f@[8].1->List_0;
        let spelled = items@.map_values(|value: Value| Shown::Spelled(value, shape));
        assert(shown[8].1 == Shown::List(spelled));
        assert forall|i: int| 0 <= i < items@.len() implies spells(#[trigger] list@[i], items@[i], shape) by {
            assert(shows(list@[i], spelled[i]));
        }
    }
}

/// A column is described as it is: under its own name, as the kind its type is called, with its own
/// length, with what a cell of it counts and the minutes its type is east of UTC where those apply,
/// with the bits of its validity exactly when a row of it has no value, and with how many have none.
pub proof fn law_a_column_is_described_as_it_is(column: Column, out: Out, made: Made, shape: Shape)
    requires
        is_out(out, column),
        shows(made, Shown::Object(column_as(out, shape))),
    ensures
        made matches Made::Object(f) && f@.len() == 11 && f@[0].0@ == "name"@ && (f@[0].1 matches Made::Text(t) && t@
            == column.name@) && f@[1].0@ == "type"@ && (f@[1].1 matches Made::Text(t) && t@ == kind_of(column.ty))
            && f@[2].0@ == "length"@ && f@[2].1 == Made::Count(column.len) && f@[3].0@ == "unit"@ && match unit_of(
            column.ty,
        ) {
            Some(words) => f@[3].1 matches Made::Text(t) && t@ == words,
            None => f@[3].1 is Null,
        } && f@[4].0@ == "zone"@ && match column.ty {
            ColumnType::ZonedTime { offset } => f@[4].1 matches Made::Whole(n) && n == offset,
            ColumnType::ZonedDatetime { offset } => f@[4].1 matches Made::Whole(n) && n == offset,
            _ => f@[4].1 is Null,
        } && f@[9].0@ == "validity"@ && f@[10].0@ == "nulls"@ && match column.validity {
            Some(validity) => f@[10].1 == Made::Count(validity.nulls) && if validity.nulls == 0 {
                f@[9].1 is Null
            } else {
                f@[9].1 matches Made::Bytes(w) && w@ == validity.bits@
            },
            None => f@[9].1 is Null && f@[10].1 == Made::Count(0),
        },
{
    let f = made->Object_0;
    let shown = column_as(out, shape);
    assert(f@.len() == shown.len());
    assert(f@[0].0@ == shown[0].0 && shows(f@[0].1, shown[0].1));
    assert(f@[1].0@ == shown[1].0 && shows(f@[1].1, shown[1].1));
    assert(f@[2].0@ == shown[2].0 && shows(f@[2].1, shown[2].1));
    assert(f@[3].0@ == shown[3].0 && shows(f@[3].1, shown[3].1));
    assert(f@[4].0@ == shown[4].0 && shows(f@[4].1, shown[4].1));
    assert(f@[9].0@ == shown[9].0 && shows(f@[9].1, shown[9].1));
    assert(f@[10].0@ == shown[10].0 && shows(f@[10].1, shown[10].1));
}

/// Columns of one type whose buffers differ are never one object: what two columns have in common
/// when one object is both of them is the buffer, element by element.
pub proof fn law_buffers_that_differ_are_told_apart(one: Column, other: Column, out: Out, too: Out, made: Made, shape: Shape)
    requires
        is_out(out, one),
        is_out(too, other),
        shows(made, Shown::Object(column_as(out, shape))),
        shows(made, Shown::Object(column_as(too, shape))),
    ensures
        one.held is Empty <==> other.held is Empty,
        one.held is Items <==> other.held is Items,
        one.held matches Held::Bits(v) ==> (other.held matches Held::Bits(w) && v@ == w@),
        one.held matches Held::Float(v) ==> (other.held matches Held::Float(w) && v@ == w@),
        one.held matches Held::Days(v) ==> (other.held matches Held::Days(w) && v@ == w@),
        one.held matches Held::Int(v) ==> match other.held {
            Held::Int(w) | Held::Nanos(w) | Held::Months(w) => v@ == w@,
            _ => false,
        },
        one.held matches Held::Nanos(v) ==> match other.held {
            Held::Int(w) | Held::Nanos(w) | Held::Months(w) => v@ == w@,
            _ => false,
        },
        one.held matches Held::Months(v) ==> match other.held {
            Held::Int(w) | Held::Nanos(w) | Held::Months(w) => v@ == w@,
            _ => false,
        },
        one.held matches Held::Str { bytes, offsets } ==> (other.held matches Held::Str { bytes: same, offsets: cuts }
            && bytes@ == same@ && match offsets {
            Offsets::I32(v) => cuts matches Offsets::I32(w) && v@ == w@,
            Offsets::I64(v) => cuts matches Offsets::I64(w) && v@ == w@,
        }),
        one.name@ == other.name@,
        one.len == other.len,
        kind_of(one.ty) == kind_of(other.ty),
        zone_of(one.ty) == zone_of(other.ty),
{
    law_a_column_hands_its_buffer_out(one, out, made, shape);
    law_a_column_hands_its_buffer_out(other, too, made, shape);
    law_a_column_is_described_as_it_is(one, out, made, shape);
    law_a_column_is_described_as_it_is(other, too, made, shape);
}

/// Each kind is the name of the types it is the name of and of no others, a cell counts days,
/// nanoseconds or months exactly where its type does, and two types of one kind and one unit differ
/// at most in where they are.
pub proof fn law_a_kind_names_its_types(ty: ColumnType)
    ensures
        kind_of(ty) == "null"@ <==> ty is Null,
        kind_of(ty) == "bool"@ <==> ty is Bool,
        kind_of(ty) == "int"@ <==> ty is Int,
        kind_of(ty) == "float"@ <==> ty is Float,
        kind_of(ty) == "string"@ <==> ty is Str,
        kind_of(ty) == "date"@ <==> ty is Date,
        kind_of(ty) == "time"@ <==> ty is LocalTime || ty is ZonedTime,
        kind_of(ty) == "datetime"@ <==> ty is LocalDatetime || ty is ZonedDatetime,
        kind_of(ty) == "duration"@ <==> ty is YearMonth || ty is DayTime,
        kind_of(ty) == "value"@ <==> ty is Other,
        unit_of(ty) == Some("days"@) <==> ty is Date,
        unit_of(ty) == Some("months"@) <==> ty is YearMonth,
        unit_of(ty) == Some("nanos"@) <==> ty is LocalTime || ty is ZonedTime || ty is LocalDatetime || ty
            is ZonedDatetime || ty is DayTime,
{
    reveal_strlit("null");
    reveal_strlit("bool");
    reveal_strlit("int");
    reveal_strlit("float");
    reveal_strlit("string");
    reveal_strlit("date");
    reveal_strlit("time");
    reveal_strlit("datetime");
    reveal_strlit("duration");
    reveal_strlit("value");
    reveal_strlit("days");
    reveal_strlit("months");
    reveal_strlit("nanos");
    assert("null"@.len() == 4 && "bool"@.len() == 4 && "date"@.len() == 4 && "time"@.len() == 4 && "int"@.len() == 3);
    assert("float"@.len() == 5 && "value"@.len() == 5 && "string"@.len() == 6);
    assert("datetime"@.len() == 8 && "duration"@.len() == 8);
    assert("null"@[0] == 'n' && "bool"@[0] == 'b' && "date"@[0] == 'd' && "time"@[0] == 't');
    assert("float"@[0] == 'f' && "value"@[0] == 'v' && "datetime"@[1] == 'a' && "duration"@[1] == 'u');
    assert("days"@.len() == 4 && "months"@.len() == 6 && "nanos"@.len() == 5);
}

/// Only what is in `items` can fail to be spelled: a column of a buffer never fails, and a column of
/// values fails when one of them does, with the words of the first that does.
pub proof fn law_a_buffer_is_always_described(column: Out, shape: Shape, present: bool)
    ensures
        !(column.held is Items) ==> undescribed(column, shape, present) is None,
        column.held matches Held::Items(items) ==> match undescribed(column, shape, present) {
            None => forall|i: int|
                0 <= i < items@.len() ==> unspellable(column.name@, #[trigger] items@[i], shape.spelling, present) is None,
            Some(words) => exists|i: int|
                0 <= i < items@.len() && unspellable(column.name@, #[trigger] items@[i], shape.spelling, present) == Some(
                    words,
                ) && forall|j: int|
                    0 <= j < i ==> unspellable(column.name@, #[trigger] items@[j], shape.spelling, present) is None,
        },
{
    if let Held::Items(items) = column.held {
        law_only_these_are_not_spelled(column.name@, Value::List(items), shape.spelling, present);
    }
}

proof fn lemma_first_unread(columns: Seq<Out>, shape: Shape, present: bool, at: int)
    requires
        0 <= at <= columns.len(),
    ensures
        match unread(columns, shape, present, at) {
            None => forall|i: int| at <= i < columns.len() ==> undescribed(#[trigger] columns[i], shape, present) is None,
            Some(words) => exists|i: int|
                at <= i < columns.len() && undescribed(#[trigger] columns[i], shape, present) == Some(words) && forall|j: int|
                    at <= j < i ==> undescribed(#[trigger] columns[j], shape, present) is None,
        },
    decreases columns.len() - at,
{
    if at < columns.len() {
        lemma_first_unread(columns, shape, present, at + 1);
        if undescribed(columns[at], shape, present) is None {
            if let Some(words) = unread(columns, shape, present, at + 1) {
                let i = choose|i: int|
                    at + 1 <= i < columns.len() && undescribed(#[trigger] columns[i], shape, present) == Some(words)
                        && forall|j: int| at + 1 <= j < i ==> undescribed(#[trigger] columns[j], shape, present) is None;
                assert forall|j: int| at <= j < i implies undescribed(#[trigger] columns[j], shape, present) is None by {
                    if j == at {
                    }
                }
                assert(undescribed(columns[i], shape, present) == Some(words));
            }
        } else {
            assert(undescribed(columns[at], shape, present) is Some);
        }
    }
}

/// A result is its columns in the order the engine had them, under how many rows there are and the
/// status they ended with; and it fails when a column does, with the words of the first that does.
pub proof fn law_a_result_is_its_columns(read: Read, made: Made, shape: Shape, present: bool)
    requires
        shows(made, Shown::Object(read_as(read, shape))),
    ensures
        made matches Made::Object(f) && f@.len() == 4 && f@[0].0@ == "rows"@ && f@[0].1 == Made::Count(read.rows)
            && f@[1].0@ == "columns"@ && (f@[1].1 matches Made::List(list) && list@.len() == read.columns@.len()
            && forall|i: int|
            0 <= i < list@.len() ==> shows(#[trigger] list@[i], Shown::Object(column_as(read.columns@[i], shape))))
            && f@[2].0@ == "gqlstatus"@ && (f@[2].1 matches Made::Text(t) && t@ == read.gqlstatus@) && f@[3].0@
            == "notices"@ && (f@[3].1 matches Made::List(told) && told@.len() == read.notices@.len()),
        match unread(read.columns@, shape, present, 0) {
            None => forall|i: int|
                0 <= i < read.columns@.len() ==> undescribed(#[trigger] read.columns@[i], shape, present) is None,
            Some(words) => exists|i: int|
                0 <= i < read.columns@.len() && undescribed(#[trigger] read.columns@[i], shape, present) == Some(words)
                    && forall|j: int| 0 <= j < i ==> undescribed(#[trigger] read.columns@[j], shape, present) is None,
        },
{
    lemma_first_unread(read.columns@, shape, present, 0);
    let f = made->Object_0;
    let shown = read_as(read, shape);
    assert(f@.len() == shown.len());
    assert(f@[0].0@ == shown[0].0 && shows(f@[0].1, shown[0].1));
    assert(f@[1].0@ == shown[1].0 && shows(f@[1].1, shown[1].1));
    assert(f@[2].0@ == shown[2].0 && shows(f@[2].1, shown[2].1));
    assert(f@[3].0@ == shown[3].0 && shows(f@[3].1, shown[3].1));
    let list = f@[1].1->List_0;
    let each = read.columns@.map_values(|column: Out| Shown::Object(column_as(column, shape)));
    assert(shown[1].1 == Shown::List(each));
    assert forall|i: int| 0 <= i < list@.len() implies shows(
        #[trigger] list@[i],
        Shown::Object(column_as(read.columns@[i], shape)),
    ) by {
        assert(shows(list@[i], each[i]));
    }
}

} // verus!
