//! Building a database out of columns and an edge list.
//!
//! A load is a table's columns whole, an edge list whole, and one file written once: a node
//! table with a row per element of every column, and a rel table holding the edges between
//! those rows. Edges name rows by position, counting from zero, because at load time a row has
//! no other name.
//!
//! Everything the caller passed is read into a [`Plan`] or refused with one sentence, and what
//! is written afterwards owes the runtime nothing.

use vstd::prelude::*;

use crate::buffer::{gathered, is_column, lane_after, named, named_as, no_values, rows_refused, Column, Lane};
use crate::conn::{text, text_of};
use crate::js::{said, Big, Js, Thing};
use crate::number::{self, cast_i64, clamped, double, integral, is_double, law_rounding_is_near, rounded, whole};
use crate::register::{carries, identifier, no_name};
use crate::text::{self, counted as written_out, decimal, integer};
use crate::value::Made;

verus! {

/// What a load says when it is run a second time.
pub const TWICE: &'static str = "this load has already run, and a database is written once";

/// The elements of a typed array, by what its class is.
pub enum Typed<'a> {
    Int8(&'a [i8]),
    Uint8(&'a [u8]),
    Uint8Clamped(&'a [u8]),
    Int16(&'a [i16]),
    Uint16(&'a [u16]),
    Int32(&'a [i32]),
    Uint32(&'a [u32]),
    BigInt64(&'a [i64]),
    BigUint64(&'a [u64]),
    /// By the bits of the doubles the elements are.
    Float32(&'a [u64]),
    /// By the bits of its doubles.
    Float64(&'a [u64]),
    /// A class this client does not read.
    Other,
}

/// What stands where a column or an edge list goes: a typed array, or any other value.
pub enum Loaded<'a> {
    Typed(Typed<'a>),
    Value(Js),
}

/// An integer every value of which is an INT64.
pub trait Narrow: Sized + Copy {
    /// The INT64 this is.
    spec fn wide(self) -> i64;

    /// The INT64 this is.
    fn widen(self) -> (r: i64)
        ensures
            r == self.wide(),
    ;
}

impl Narrow for i8 {
    open spec fn wide(self) -> i64 {
        self as i64
    }

    fn widen(self) -> (r: i64) {
        self as i64
    }
}

impl Narrow for u8 {
    open spec fn wide(self) -> i64 {
        self as i64
    }

    fn widen(self) -> (r: i64) {
        self as i64
    }
}

impl Narrow for i16 {
    open spec fn wide(self) -> i64 {
        self as i64
    }

    fn widen(self) -> (r: i64) {
        self as i64
    }
}

impl Narrow for u16 {
    open spec fn wide(self) -> i64 {
        self as i64
    }

    fn widen(self) -> (r: i64) {
        self as i64
    }
}

impl Narrow for i32 {
    open spec fn wide(self) -> i64 {
        self as i64
    }

    fn widen(self) -> (r: i64) {
        self as i64
    }
}

impl Narrow for u32 {
    open spec fn wide(self) -> i64 {
        self as i64
    }

    fn widen(self) -> (r: i64) {
        self as i64
    }
}

/// Every element of a narrower integer array, as the INT64 it becomes.
pub open spec fn widened<T: Narrow>(values: Seq<T>) -> Seq<i64> {
    values.map_values(|n: T| n.wide())
}

/// Every element of a narrower integer array, as the INT64 it becomes.
pub fn cast<T: Narrow>(values: &[T]) -> (r: Vec<i64>)
    ensures
        r@ == widened(values@),
{
    let mut made: Vec<i64> = Vec::new();
    let mut at: usize = 0;
    while at < values.len()
        invariant
            at <= values@.len(),
            made@ == widened(values@.take(at as int)),
        decreases values@.len() - at,
    {
        made.push(values[at].widen());
        at += 1;
        proof {
            assert(made@ =~= widened(values@.take(at as int)));
        }
    }
    proof {
        assert(values@.take(at as int) =~= values@);
    }
    made
}

/// The integers of an unsigned array, one past what INT64 holds becoming nothing in
/// particular.
pub open spec fn signed(values: Seq<u64>) -> Seq<i64> {
    values.map_values(|n: u64| n as i64)
}

/// The first of these past what INT64 holds, from `at` on.
pub open spec fn past(values: Seq<u64>, at: int) -> Option<int>
    decreases values.len() - at,
{
    if at < 0 || at >= values.len() {
        None
    } else if values[at] > i64::MAX {
        Some(at)
    } else {
        past(values, at + 1)
    }
}

/// What an unsigned integer past what INT64 holds is refused with.
pub open spec fn too_far(name: Seq<char>, n: u64, row: int) -> Seq<char> {
    "column '"@ + name + "' holds "@ + decimal(n as int) + " at row "@ + decimal(row)
        + ", which is past what INT64 \
                             holds, and every whole number this engine stores is an INT64"@
}

/// What a typed array of a class this client does not read is refused with.
pub open spec fn no_class(name: Seq<char>) -> Seq<char> {
    "column '"@ + name
        + "' is a typed array of a kind this client does not read, and a \
                     column of numbers is one of the ten integer and float widths"@
}

/// Why a typed array is not a column, when it is not.
pub open spec fn unfilled(name: Seq<char>, values: Typed<'_>) -> Option<Seq<char>> {
    match values {
        Typed::BigUint64(v) => match past(v@, 0) {
            Some(row) => Some(too_far(name, v@[row], row)),
            None => None,
        },
        Typed::Other => Some(no_class(name)),
        _ => None,
    }
}

/// Whether this is the column a typed array is: every integer width as the INT64 the store
/// keeps, and both float widths as doubles.
pub open spec fn fills(column: Column, values: Typed<'_>) -> bool {
    match values {
        Typed::Int8(v) => column matches Column::Int(out) && out@ == widened(v@),
        Typed::Uint8(v) => column matches Column::Int(out) && out@ == widened(v@),
        Typed::Uint8Clamped(v) => column matches Column::Int(out) && out@ == widened(v@),
        Typed::Int16(v) => column matches Column::Int(out) && out@ == widened(v@),
        Typed::Uint16(v) => column matches Column::Int(out) && out@ == widened(v@),
        Typed::Int32(v) => column matches Column::Int(out) && out@ == widened(v@),
        Typed::Uint32(v) => column matches Column::Int(out) && out@ == widened(v@),
        Typed::BigInt64(v) => column matches Column::Int(out) && out@ == v@,
        Typed::BigUint64(v) => column matches Column::Int(out) && out@ == signed(v@),
        Typed::Float32(v) => column matches Column::Float(out) && out@ == v@,
        Typed::Float64(v) => column matches Column::Float(out) && out@ == v@,
        Typed::Other => false,
    }
}

fn unsigned(name: &str, values: &[u64]) -> (r: Result<Vec<i64>, String>)
    ensures
        match r {
            Ok(out) => past(values@, 0) is None && out@ == signed(values@),
            Err(words) => past(values@, 0) matches Some(row) && words@ == too_far(name@, values@[row], row),
        },
{
    let mut made: Vec<i64> = Vec::new();
    let mut row: usize = 0;
    while row < values.len()
        invariant
            row <= values@.len(),
            past(values@, 0) == past(values@, row as int),
            made@ == signed(values@.take(row as int)),
        decreases values@.len() - row,
    {
        let n: u64 = values[row];
        if n > i64::MAX as u64 {
            return Err(
                "column '".to_owned().concat(name).concat("' holds ").concat(written_out(n as u128).as_str()).concat(
                    " at row ",
                ).concat(written_out(row as u128).as_str()).concat(
                    ", which is past what INT64 \
                             holds, and every whole number this engine stores is an INT64",
                ),
            );
        }
        made.push(n as i64);
        row += 1;
        proof {
            assert(made@ =~= signed(values@.take(row as int)));
        }
    }
    proof {
        assert(values@.take(row as int) =~= values@);
    }
    Ok(made)
}

fn copied(values: &[u64]) -> (r: Vec<u64>)
    ensures
        r@ == values@,
{
    let mut made: Vec<u64> = Vec::new();
    let mut at: usize = 0;
    while at < values.len()
        invariant
            at <= values@.len(),
            made@ == values@.take(at as int),
        decreases values@.len() - at,
    {
        made.push(values[at]);
        at += 1;
        proof {
            assert(made@ =~= values@.take(at as int));
        }
    }
    proof {
        assert(values@.take(at as int) =~= values@);
    }
    made
}

fn longs(values: &[i64]) -> (r: Vec<i64>)
    ensures
        r@ == values@,
{
    let mut made: Vec<i64> = Vec::new();
    let mut at: usize = 0;
    while at < values.len()
        invariant
            at <= values@.len(),
            made@ == values@.take(at as int),
        decreases values@.len() - at,
    {
        made.push(values[at]);
        at += 1;
        proof {
            assert(made@ =~= values@.take(at as int));
        }
    }
    proof {
        assert(values@.take(at as int) =~= values@);
    }
    made
}

/// A column read straight out of a typed array.
///
/// Every width goes in as the INT64 or the FLOAT64 the store keeps. An unsigned word past what
/// INT64 holds is refused by the row that holds it, because a column of them is one a caller
/// may well have built without ever going near 2^63 and the one value that did is the thing
/// worth naming.
pub fn filled(name: &str, values: &Typed<'_>) -> (r: Result<Column, String>)
    ensures
        match r {
            Ok(column) => unfilled(name@, *values) is None && fills(column, *values),
            Err(words) => unfilled(name@, *values) == Some(words@),
        },
{
    Ok(
        match values {
            Typed::Int8(v) => Column::Int(cast(*v)),
            Typed::Uint8(v) => Column::Int(cast(*v)),
            Typed::Uint8Clamped(v) => Column::Int(cast(*v)),
            Typed::Int16(v) => Column::Int(cast(*v)),
            Typed::Uint16(v) => Column::Int(cast(*v)),
            Typed::Int32(v) => Column::Int(cast(*v)),
            Typed::Uint32(v) => Column::Int(cast(*v)),
            Typed::BigInt64(v) => Column::Int(longs(*v)),
            Typed::BigUint64(v) => Column::Int(unsigned(name, *v)?),
            Typed::Float32(v) => Column::Float(copied(*v)),
            Typed::Float64(v) => Column::Float(copied(*v)),
            Typed::Other => {
                return Err(
                    "column '".to_owned().concat(name).concat(
                        "' is a typed array of a kind this client does not read, and a \
                     column of numbers is one of the ten integer and float widths",
                    ),
                );
            },
        },
    )
}

/// What a value that is no column is refused with.
pub open spec fn no_column(name: Seq<char>, value: Js) -> Seq<char> {
    "column '"@ + name + "' is "@ + named_as(value) + ", and a column is an array or a typed array of its values"@
}

/// Why a column is not taken, when it is not.
pub open spec fn column_refused(name: Seq<char>, values: Result<Loaded<'_>, String>) -> Option<Seq<char>> {
    match values {
        Err(reason) => Some(reason@),
        Ok(Loaded::Typed(array)) => unfilled(name, array),
        Ok(Loaded::Value(Js::Unread(reason))) => Some(reason@),
        Ok(Loaded::Value(Js::Object(thing))) if thing.items is Some => {
            let items = thing.items->Some_0@;
            if items.len() == 0 {
                Some(no_values(name))
            } else {
                rows_refused(name, items, items.len(), "a loaded column"@)
            }
        },
        Ok(Loaded::Value(value)) => Some(no_column(name, value)),
    }
}

/// Whether this is the column these values make.
pub open spec fn loads(column: Column, values: Result<Loaded<'_>, String>) -> bool {
    match values {
        Err(_) => false,
        Ok(Loaded::Typed(array)) => fills(column, array),
        Ok(Loaded::Value(value)) => value matches Js::Object(thing) && thing.items matches Some(items) && is_column(
            column,
            items@,
            items@.len(),
        ),
    }
}

/// How many values a typed array holds.
pub open spec fn typed_len(values: Typed<'_>) -> nat {
    match values {
        Typed::Int8(v) => v@.len(),
        Typed::Uint8(v) => v@.len(),
        Typed::Uint8Clamped(v) => v@.len(),
        Typed::Int16(v) => v@.len(),
        Typed::Uint16(v) => v@.len(),
        Typed::Int32(v) => v@.len(),
        Typed::Uint32(v) => v@.len(),
        Typed::BigInt64(v) => v@.len(),
        Typed::BigUint64(v) => v@.len(),
        Typed::Float32(v) => v@.len(),
        Typed::Float64(v) => v@.len(),
        Typed::Other => 0,
    }
}

/// How many values a column that is taken holds.
pub open spec fn loaded_len(values: Result<Loaded<'_>, String>) -> nat {
    match values {
        Err(_) => 0,
        Ok(Loaded::Typed(array)) => typed_len(array),
        Ok(Loaded::Value(value)) => match value {
            Js::Object(thing) => match thing.items {
                Some(items) => items@.len(),
                None => 0,
            },
            _ => 0,
        },
    }
}

/// Whether a column that is taken is one of byte strings.
pub open spec fn loads_bytes(values: Result<Loaded<'_>, String>) -> bool {
    values matches Ok(Loaded::Value(Js::Object(thing))) && thing.items matches Some(items) && lane_after(
        items@,
        items@.len(),
    ) == Lane::Bytes
}

proof fn lemma_loaded(column: Column, values: Result<Loaded<'_>, String>)
    requires
        loads(column, values),
    ensures
        column.cells().len() == loaded_len(values),
        (column.lane() == Lane::Bytes) == loads_bytes(values),
{
}

/// One column, read out of whatever the caller wrote it as.
///
/// A typed array is read as the numbers it already holds. An ordinary array is read a value at
/// a time, where the first value settles what the column is and every value after it has to
/// agree.
pub fn column(name: &str, values: &Result<Loaded<'_>, String>) -> (r: Result<Column, String>)
    ensures
        match r {
            Ok(made) => column_refused(name@, *values) is None && loads(made, *values),
            Err(words) => column_refused(name@, *values) == Some(words@),
        },
{
    match values {
        Err(reason) => Err(reason.clone()),
        Ok(Loaded::Typed(array)) => filled(name, array),
        Ok(Loaded::Value(value)) => {
            match value {
                Js::Unread(reason) => return Err(reason.clone()),
                Js::Object(thing) => {
                    if let Some(items) = &thing.items {
                        return gathered(name, items, "a loaded column");
                    }
                },
                _ => {},
            }
            Err(
                "column '".to_owned().concat(name).concat("' is ").concat(named(value).as_str()).concat(
                    ", and a column is an array or a typed array of its values",
                ),
            )
        },
    }
}

/// What a column of byte strings is refused with.
pub open spec fn no_bytes(name: Seq<char>) -> Seq<char> {
    "column '"@ + name
        + "' holds byte strings, and no statement can read one back yet, \
                     so a load will not write a column of them"@
}

/// What a column of another length than the first is refused with.
pub open spec fn uneven(name: Seq<char>, len: nat, first: Seq<char>, had: nat) -> Seq<char> {
    "column '"@ + name + "' holds "@ + decimal(len as int) + " values and column '"@ + first + "' holds "@ + decimal(
        had as int,
    )
        + ", and a table \
                     is as wide as it is long"@
}

/// Columns by name, as a caller wrote them.
pub type Columns<'a> = Vec<(String, Result<Loaded<'a>, String>)>;

/// Why the column at `at` is not taken, when it is not.
pub open spec fn one_refused(columns: Seq<(String, Result<Loaded<'_>, String>)>, at: int) -> Option<Seq<char>> {
    let (name, values) = columns[at];
    if !carries(name@) {
        Some(no_name(name@, "a column"@))
    } else if column_refused(name@, values) is Some {
        column_refused(name@, values)
    } else if loads_bytes(values) {
        Some(no_bytes(name@))
    } else if loaded_len(values) != loaded_len(columns[0].1) {
        Some(uneven(name@, loaded_len(values), columns[0].0@, loaded_len(columns[0].1)))
    } else {
        None
    }
}

/// The first refusal among the columns from `at` on.
pub open spec fn any_refused(columns: Seq<(String, Result<Loaded<'_>, String>)>, at: int) -> Option<Seq<char>>
    decreases columns.len() - at,
{
    if at < 0 || at >= columns.len() {
        None
    } else if one_refused(columns, at) is Some {
        one_refused(columns, at)
    } else {
        any_refused(columns, at + 1)
    }
}

/// Whether these are the first `n` of those columns, in the order they were written.
pub open spec fn are_loaded(
    made: Seq<(String, Column)>,
    columns: Seq<(String, Result<Loaded<'_>, String>)>,
    n: int,
) -> bool {
    &&& made.len() == n
    &&& forall|i: int|
        0 <= i < n ==> (#[trigger] made[i]).0@ == columns[i].0@ && loads(made[i].1, columns[i].1)
            && made[i].1.cells().len() == loaded_len(columns[0].1) && carries(made[i].0@)
}

/// Every column, in the order they were written.
///
/// A column of bytes is one the store takes and every statement that reads one back refuses,
/// so a load that wrote one would be writing data the caller cannot get at again.
pub fn built(columns: &Columns<'_>) -> (r: Result<Vec<(String, Column)>, String>)
    ensures
        match r {
            Ok(made) => any_refused(columns@, 0) is None && are_loaded(made@, columns@, columns@.len() as int),
            Err(words) => any_refused(columns@, 0) == Some(words@),
        },
{
    let mut made: Vec<(String, Column)> = Vec::new();
    let mut at: usize = 0;
    while at < columns.len()
        invariant
            at <= columns@.len(),
            any_refused(columns@, 0) == any_refused(columns@, at as int),
            are_loaded(made@, columns@, at as int),
        decreases columns@.len() - at,
    {
        let name: &String = &columns[at].0;
        identifier(name.as_str(), "a column")?;
        let one: Column = column(name.as_str(), &columns[at].1)?;
        proof {
            lemma_loaded(one, columns@[at as int].1);
        }
        if let Column::Bytes(_) = &one {
            return Err(
                "column '".to_owned().concat(name.as_str()).concat(
                    "' holds byte strings, and no statement can read one back yet, \
                     so a load will not write a column of them",
                ),
            );
        }
        if at > 0 {
            let had: usize = made[0].1.len();
            if one.len() != had {
                return Err(
                    "column '".to_owned().concat(name.as_str()).concat("' holds ").concat(
                        written_out(one.len() as u128).as_str(),
                    ).concat(" values and column '").concat(columns[0].0.as_str()).concat("' holds ").concat(
                        written_out(had as u128).as_str(),
                    ).concat(
                        ", and a table \
                     is as wide as it is long",
                    ),
                );
            }
        }
        made.push((name.clone(), one));
        at += 1;
    }
    Ok(made)
}

/// How many rows a caller said the table has, and what the double that reads as prints as.
pub struct Rows {
    pub value: Js,
    pub shown: String,
}

/// What a row count that is no number is refused with.
pub open spec fn no_count(value: Js) -> Seq<char> {
    "the row count is "@ + named_as(value) + ", and a row count is a number"@
}

/// A row count: whether it is a whole number, and which one, or nothing when none was
/// written.
pub open spec fn count_of(rows: Result<Option<Rows>, String>) -> Result<Option<(bool, int)>, Seq<char>> {
    match rows {
        Err(reason) => Err(reason@),
        Ok(None) => Ok(None),
        Ok(Some(rows)) => match rows.value {
            Js::Unread(reason) => Err(reason@),
            Js::Null | Js::Undefined => Ok(None),
            Js::Number { bits, .. } => Ok(Some((whole(bits), integral(bits)))),
            Js::BigInt(big) => Ok(Some((true, rounded(big.kept())))),
            other => Err(no_count(other)),
        },
    }
}

/// Whether these are the bits of the double a row count is.
pub open spec fn is_count(bits: u64, value: Js) -> bool {
    match value {
        Js::Number { bits: held, .. } => bits == held,
        Js::BigInt(big) => is_double(bits, big.kept()),
        _ => false,
    }
}

/// How many rows the caller said the table has, written either way a count is written, by the
/// bits of the double it is.
pub fn counted(rows: &Result<Option<Rows>, String>) -> (r: Result<Option<u64>, String>)
    ensures
        match r {
            Ok(None) => count_of(*rows) == Ok::<Option<(bool, int)>, Seq<char>>(None),
            Ok(Some(bits)) => {
                &&& count_of(*rows) == Ok::<_, Seq<char>>(Some((whole(bits), integral(bits))))
                &&& *rows matches Ok(Some(held)) && is_count(bits, held.value)
            },
            Err(words) => count_of(*rows) == Err::<Option<(bool, int)>, _>(words@),
        },
{
    match rows {
        Err(reason) => Err(reason.clone()),
        Ok(None) => Ok(None),
        Ok(Some(rows)) => match &rows.value {
            Js::Unread(reason) => Err(reason.clone()),
            Js::Null | Js::Undefined => Ok(None),
            Js::Number { bits, .. } => Ok(Some(*bits)),
            Js::BigInt(big) => Ok(Some(double(big.get_i64().0 as i128))),
            _ => Err(
                "the row count is ".to_owned().concat(named(&rows.value).as_str()).concat(
                    ", and a row count is a number",
                ),
            ),
        },
    }
}

/// What a count of rows that is not a whole one is refused with.
pub open spec fn partial(shown: Seq<char>) -> Seq<char> {
    "a load of "@ + shown + " rows is a load of a number of rows that is not a whole one"@
}

/// What a count of rows the columns disagree with is refused with.
pub open spec fn against(name: Seq<char>, len: nat, shown: Seq<char>) -> Seq<char> {
    "column '"@ + name + "' holds "@ + decimal(len as int) + " values against the "@ + shown
        + " rows this load asks for"@
}

/// What a load with nothing to count is refused with.
pub open spec fn countless() -> Seq<char> {
    "a load with no columns has no rows to count, so it has to be told how many"@
}

/// How many rows a load writes, by what the caller said and the first of the columns.
pub open spec fn rows_of(
    rows: Result<Option<Rows>, String>,
    first: Option<(Seq<char>, nat)>,
) -> Result<u64, Seq<char>> {
    match count_of(rows) {
        Err(words) => Err(words),
        Ok(None) => match first {
            Some((_, len)) => Ok(len as u64),
            None => Err(countless()),
        },
        Ok(Some((is_whole, n))) => {
            let shown = rows->Ok_0->Some_0.shown@;
            if !is_whole || n < 0 {
                Err(partial(shown))
            } else if first is Some && rounded(first->Some_0.1 as int) != n {
                Err(against(first->Some_0.0, first->Some_0.1, shown))
            } else {
                Ok(clamped(n, 0, u64::MAX as int) as u64)
            }
        },
    }
}

/// How many rows a load writes.
///
/// Asked for and counted have to agree when there is both, and one of the two there has to be.
pub fn rows(asked: &Result<Option<Rows>, String>, columns: &Vec<(String, Column)>) -> (r: Result<u64, String>)
    ensures
        said(r) == rows_of(
            *asked,
            if columns@.len() == 0 { None } else { Some((columns@[0].0@, columns@[0].1.cells().len())) },
        ),
{
    let count: Option<u64> = counted(asked)?;
    let bits: u64 = match count {
        None => {
            if columns.len() == 0 {
                return Err(
                    "a load with no columns has no rows to count, so it has to be told how many".to_owned(),
                );
            }
            return Ok(columns[0].1.len() as u64);
        },
        Some(bits) => bits,
    };
    let shown: &str = match asked {
        Ok(Some(rows)) => rows.shown.as_str(),
        _ => "",
    };
    let (fits, n): (bool, i128) = number::read(bits);
    if !fits || n < 0 {
        return Err(
            "a load of ".to_owned().concat(shown).concat(
                " rows is a load of a number of rows that is not a whole one",
            ),
        );
    }
    if columns.len() > 0 {
        let len: usize = columns[0].1.len();
        let counted_as: u64 = double(len as i128);
        proof {
            law_rounding_is_near(len as int);
        }
        if number::read(counted_as).1 != n {
            return Err(
                "column '".to_owned().concat(columns[0].0.as_str()).concat("' holds ").concat(
                    written_out(len as u128).as_str(),
                ).concat(" values against the ").concat(shown).concat(" rows this load asks for"),
            );
        }
    }
    Ok(number::to_u64(bits))
}

/// The row an end of an edge names, when the table has it.
pub open spec fn within_of(at: nat, end: i64, rows: u64) -> Result<u32, Seq<char>> {
    if end < 0 || end >= rows {
        Err(
            "edge "@ + decimal(at as int) + " joins row "@ + decimal(end as int) + " of a table with "@ + decimal(
                rows as int,
            ) + " rows in it"@,
        )
    } else {
        Ok(end as u32)
    }
}

fn within(at: usize, end: i64, rows: u64) -> (r: Result<u32, String>)
    ensures
        said(r) == within_of(at as nat, end, rows),
{
    if end < 0 || end as u64 >= rows {
        Err(
            "edge ".to_owned().concat(written_out(at as u128).as_str()).concat(" joins row ").concat(
                integer(end as i128).as_str(),
            ).concat(" of a table with ").concat(written_out(rows as u128).as_str()).concat(" rows in it"),
        )
    } else {
        Ok(end as u32)
    }
}

/// The row number an end of an edge is written as.
pub open spec fn end_of(at: nat, value: Js) -> Result<i64, Seq<char>> {
    match value {
        Js::Unread(reason) => Err(reason@),
        Js::Number { bits, shown } => if whole(bits) {
            Ok(cast_i64(bits) as i64)
        } else {
            Err("edge "@ + decimal(at as int) + " joins row "@ + shown@ + ", and a row number is a whole one"@)
        },
        Js::BigInt(big) => if big.fits() {
            Ok(clamped(rounded(big.signed()), i64::MIN as int, i64::MAX as int) as i64)
        } else {
            Err("edge "@ + decimal(at as int) + " joins a row past what INT64 holds"@)
        },
        _ => Err("edge "@ + decimal(at as int) + " joins "@ + named_as(value) + ", and a row is named by its number"@),
    }
}

fn end(at: usize, value: &Js) -> (r: Result<i64, String>)
    ensures
        said(r) == end_of(at as nat, *value),
{
    match value {
        Js::Unread(reason) => Err(reason.clone()),
        Js::Number { bits, shown } => if number::is_whole(*bits) {
            Ok(number::to_i64(*bits))
        } else {
            Err(
                "edge ".to_owned().concat(written_out(at as u128).as_str()).concat(" joins row ").concat(
                    shown.as_str(),
                ).concat(", and a row number is a whole one"),
            )
        },
        Js::BigInt(big) => {
            let (n, lossless): (i64, bool) = big.get_i64();
            if lossless {
                proof {
                    law_rounding_is_near(n as int);
                }
                Ok(number::to_i64(double(n as i128)))
            } else {
                Err(
                    "edge ".to_owned().concat(written_out(at as u128).as_str()).concat(
                        " joins a row past what INT64 holds",
                    ),
                )
            }
        },
        _ => Err(
            "edge ".to_owned().concat(written_out(at as u128).as_str()).concat(" joins ").concat(
                named(value).as_str(),
            ).concat(", and a row is named by its number"),
        ),
    }
}

/// One end of an edge: the row it names, when it is written as one and the table has it.
pub open spec fn joins(at: nat, value: Js, rows: u64) -> Result<u32, Seq<char>> {
    match end_of(at, value) {
        Err(words) => Err(words),
        Ok(end) => within_of(at, end, rows),
    }
}

/// One edge: the pair of rows it joins.
pub open spec fn edge_of(at: nat, edge: Js, rows: u64) -> Result<(u32, u32), Seq<char>> {
    match edge {
        Js::Unread(reason) => Err(reason@),
        Js::Object(thing) if thing.items is Some => {
            let ends = thing.items->Some_0@;
            if ends.len() != 2 {
                Err(
                    "edge "@ + decimal(at as int) + " holds "@ + decimal(ends.len() as int)
                        + " row numbers, and an edge is a pair of them"@,
                )
            } else {
                match joins(at, ends[0], rows) {
                    Err(words) => Err(words),
                    Ok(from) => match joins(at, ends[1], rows) {
                        Err(words) => Err(words),
                        Ok(to) => Ok((from, to)),
                    },
                }
            }
        },
        _ => Err("edge "@ + decimal(at as int) + " is "@ + named_as(edge) + ", and an edge is a pair of row numbers"@),
    }
}

fn edge(at: usize, value: &Js, rows: u64) -> (r: Result<(u32, u32), String>)
    ensures
        said(r) == edge_of(at as nat, *value, rows),
{
    match value {
        Js::Unread(reason) => return Err(reason.clone()),
        Js::Object(thing) => {
            if let Some(ends) = &thing.items {
                if ends.len() != 2 {
                    return Err(
                        "edge ".to_owned().concat(written_out(at as u128).as_str()).concat(" holds ").concat(
                            written_out(ends.len() as u128).as_str(),
                        ).concat(" row numbers, and an edge is a pair of them"),
                    );
                }
                let from: u32 = within(at, end(at, &ends[0])?, rows)?;
                let to: u32 = within(at, end(at, &ends[1])?, rows)?;
                return Ok((from, to));
            }
        },
        _ => {},
    }
    Err(
        "edge ".to_owned().concat(written_out(at as u128).as_str()).concat(" is ").concat(named(value).as_str()).concat(
            ", and an edge is a pair of row numbers",
        ),
    )
}

/// The first `n` edges of a list of pairs, or what the first bad one is refused with.
pub open spec fn listed(edges: Seq<Js>, rows: u64, n: nat) -> Result<Seq<(u32, u32)>, Seq<char>>
    decreases n,
{
    if n == 0 {
        Ok(Seq::empty())
    } else {
        match listed(edges, rows, (n - 1) as nat) {
            Err(words) => Err(words),
            Ok(before) => match edge_of((n - 1) as nat, edges[n - 1], rows) {
                Err(words) => Err(words),
                Ok(pair) => Ok(before.push(pair)),
            },
        }
    }
}

proof fn lemma_listed_stops(edges: Seq<Js>, rows: u64, k: nat, n: nat)
    requires
        k <= n,
        listed(edges, rows, k) is Err,
    ensures
        listed(edges, rows, n) == listed(edges, rows, k),
    decreases n,
{
    if k < n {
        lemma_listed_stops(edges, rows, k, (n - 1) as nat);
    }
}

/// The first `n` edges of a flat list of row numbers, or what the first bad one is refused
/// with.
pub open spec fn flattened(flat: Seq<i64>, rows: u64, n: nat) -> Result<Seq<(u32, u32)>, Seq<char>>
    decreases n,
{
    if n == 0 {
        Ok(Seq::empty())
    } else {
        let at = (n - 1) as nat;
        match flattened(flat, rows, at) {
            Err(words) => Err(words),
            Ok(before) => match within_of(at, flat[2 * (n - 1)], rows) {
                Err(words) => Err(words),
                Ok(from) => match within_of(at, flat[2 * (n - 1) + 1], rows) {
                    Err(words) => Err(words),
                    Ok(to) => Ok(before.push((from, to))),
                },
            },
        }
    }
}

proof fn lemma_flattened_stops(flat: Seq<i64>, rows: u64, k: nat, n: nat)
    requires
        k <= n,
        flattened(flat, rows, k) is Err,
    ensures
        flattened(flat, rows, n) == flattened(flat, rows, k),
    decreases n,
{
    if k < n {
        lemma_flattened_stops(flat, rows, k, (n - 1) as nat);
    }
}

/// A flat edge list as the row numbers it holds, or none for a typed array that is not a run
/// of them.
///
/// The two widths a row number is written in and no others: a row is numbered from zero and a
/// table has fewer than 2^32 rows.
pub open spec fn flat_of(edges: Typed<'_>) -> Option<Seq<i64>> {
    match edges {
        Typed::Int32(v) => Some(widened(v@)),
        Typed::Uint32(v) => Some(widened(v@)),
        _ => None,
    }
}

fn flat(edges: &Typed<'_>) -> (r: Option<Vec<i64>>)
    ensures
        match r {
            Some(v) => flat_of(*edges) == Some(v@),
            None => flat_of(*edges) is None,
        },
{
    match edges {
        Typed::Int32(v) => Some(cast(*v)),
        Typed::Uint32(v) => Some(cast(*v)),
        _ => None,
    }
}

/// What a typed array that is no edge list is refused with.
pub open spec fn no_flat() -> Seq<char> {
    "the edge list is a typed array of a kind this client does not read, and a flat \
                 edge list is an Int32Array or a Uint32Array of row numbers"@
}

/// What a flat list of an odd number of row numbers is refused with.
pub open spec fn odd(len: nat) -> Seq<char> {
    "the edge list is a flat array of "@ + decimal(len as int) + " row numbers, and an edge is a pair of them"@
}

/// What a value that is no edge list is refused with.
pub open spec fn no_edges(value: Js) -> Seq<char> {
    "the edge list is "@ + named_as(value)
        + ", and an edge list is an array of pairs of row numbers or a flat \
             typed array of them"@
}

/// The edges, as the pairs of rows they join, or what the list is refused with.
pub open spec fn pairs_of(edges: Result<Option<Loaded<'_>>, String>, rows: u64) -> Result<Seq<(u32, u32)>, Seq<char>> {
    match edges {
        Err(reason) => Err(reason@),
        Ok(None) => Ok(Seq::empty()),
        Ok(Some(Loaded::Typed(array))) => match flat_of(array) {
            None => Err(no_flat()),
            Some(flat) => if flat.len() % 2 != 0 {
                Err(odd(flat.len()))
            } else {
                flattened(flat, rows, flat.len() / 2)
            },
        },
        Ok(Some(Loaded::Value(value))) => match value {
            Js::Unread(reason) => Err(reason@),
            Js::Null => Ok(Seq::empty()),
            Js::Object(thing) if thing.items is Some => listed(
                thing.items->Some_0@,
                rows,
                thing.items->Some_0@.len(),
            ),
            _ => Err(no_edges(value)),
        },
    }
}

/// A sequence a vector holds, or what it is refused with.
pub open spec fn listing<T>(r: Result<Vec<T>, String>) -> Result<Seq<T>, Seq<char>> {
    match r {
        Ok(v) => Ok(v@),
        Err(words) => Err(words@),
    }
}

/// The edge list, as the pairs of row numbers it is.
///
/// An edge naming a row the table has not got is refused here rather than written, because a
/// graph builder handed one would either invent the row or lose the edge and neither is what
/// the caller meant.
pub fn pairs(edges: &Result<Option<Loaded<'_>>, String>, rows: u64) -> (r: Result<Vec<(u32, u32)>, String>)
    ensures
        listing(r) == pairs_of(*edges, rows),
{
    match edges {
        Err(reason) => Err(reason.clone()),
        Ok(None) => Ok(Vec::new()),
        Ok(Some(Loaded::Typed(array))) => flat_pairs(array, rows),
        Ok(Some(Loaded::Value(value))) => {
            match value {
                Js::Unread(reason) => return Err(reason.clone()),
                Js::Null => return Ok(Vec::new()),
                Js::Object(thing) => {
                    if let Some(items) = &thing.items {
                        return listed_pairs(items, rows);
                    }
                },
                _ => {},
            }
            Err(
                "the edge list is ".to_owned().concat(named(value).as_str()).concat(
                    ", and an edge list is an array of pairs of row numbers or a flat \
             typed array of them",
                ),
            )
        },
    }
}

fn listed_pairs(edges: &Vec<Js>, rows: u64) -> (r: Result<Vec<(u32, u32)>, String>)
    ensures
        listing(r) == listed(edges@, rows, edges@.len()),
{
    let mut made: Vec<(u32, u32)> = Vec::new();
    let mut at: usize = 0;
    while at < edges.len()
        invariant
            at <= edges@.len(),
            listed(edges@, rows, at as nat) == Ok::<_, Seq<char>>(made@),
        decreases edges@.len() - at,
    {
        match edge(at, &edges[at], rows) {
            Ok(pair) => made.push(pair),
            Err(words) => {
                proof {
                    lemma_listed_stops(edges@, rows, (at + 1) as nat, edges@.len());
                }
                return Err(words);
            },
        }
        at += 1;
    }
    Ok(made)
}

/// A flat array of row numbers, two elements an edge: the shape a program that built its edges
/// in memory already has and the one that costs nothing to read.
fn flat_pairs(edges: &Typed<'_>, rows: u64) -> (r: Result<Vec<(u32, u32)>, String>)
    ensures
        listing(r) == pairs_of(Ok(Some(Loaded::Typed(*edges))), rows),
{
    let flat: Vec<i64> = match flat(edges) {
        Some(flat) => flat,
        None => {
            return Err(
                "the edge list is a typed array of a kind this client does not read, and a flat \
                 edge list is an Int32Array or a Uint32Array of row numbers".to_owned(),
            );
        },
    };
    if flat.len() % 2 != 0 {
        return Err(
            "the edge list is a flat array of ".to_owned().concat(written_out(flat.len() as u128).as_str()).concat(
                " row numbers, and an edge is a pair of them",
            ),
        );
    }
    let mut made: Vec<(u32, u32)> = Vec::new();
    let count: usize = flat.len() / 2;
    let mut at: usize = 0;
    while at < count
        invariant
            at <= count,
            2 * count == flat@.len(),
            flat@.len() <= usize::MAX,
            flattened(flat@, rows, at as nat) == Ok::<_, Seq<char>>(made@),
            flat_of(*edges) == Some(flat@),
        decreases count - at,
    {
        match (within(at, flat[2 * at], rows), within(at, flat[2 * at + 1], rows)) {
            (Ok(from), Ok(to)) => made.push((from, to)),
            (Err(words), _) => {
                proof {
                    lemma_flattened_stops(flat@, rows, (at + 1) as nat, count as nat);
                }
                return Err(words);
            },
            (_, Err(words)) => {
                proof {
                    lemma_flattened_stops(flat@, rows, (at + 1) as nat, count as nat);
                }
                return Err(words);
            },
        }
        at += 1;
    }
    Ok(made)
}

/// Whether this is an edge written as a pair of these two row numbers.
pub open spec fn writes(edge: Js, from: i64, to: i64) -> bool {
    edge matches Js::Object(thing) && thing.items matches Some(ends) && ends@.len() == 2 && (
    ends@[0] matches Js::Number { bits, .. } && whole(bits) && integral(bits) == from) && (
    ends@[1] matches Js::Number { bits, .. } && whole(bits) && integral(bits) == to)
}

/// An edge list written as pairs and the same one written flat are the same edge list.
pub proof fn law_flat_is_pairs(edges: Seq<Js>, flat: Seq<i64>, rows: u64, n: nat)
    requires
        n <= edges.len(),
        2 * edges.len() == flat.len(),
        forall|i: int| 0 <= i < edges.len() ==> writes(#[trigger] edges[i], flat[2 * i], flat[2 * i + 1]),
    ensures
        listed(edges, rows, n) == flattened(flat, rows, n),
    decreases n,
{
    if n > 0 {
        law_flat_is_pairs(edges, flat, rows, (n - 1) as nat);
        assert(writes(edges[n - 1], flat[2 * (n - 1)], flat[2 * (n - 1) + 1]));
    }
}

proof fn lemma_listed_inside(edges: Seq<Js>, rows: u64, n: nat, at: int)
    requires
        rows <= 0x1_0000_0000,
        listed(edges, rows, n) is Ok,
        0 <= at < listed(edges, rows, n)->Ok_0.len(),
    ensures
        listed(edges, rows, n)->Ok_0[at].0 < rows,
        listed(edges, rows, n)->Ok_0[at].1 < rows,
    decreases n,
{
    if n > 0 {
        let before = listed(edges, rows, (n - 1) as nat)->Ok_0;
        if at < before.len() {
            lemma_listed_inside(edges, rows, (n - 1) as nat, at);
        }
    }
}

proof fn lemma_flattened_inside(flat: Seq<i64>, rows: u64, n: nat, at: int)
    requires
        rows <= 0x1_0000_0000,
        flattened(flat, rows, n) is Ok,
        0 <= at < flattened(flat, rows, n)->Ok_0.len(),
    ensures
        flattened(flat, rows, n)->Ok_0[at].0 < rows,
        flattened(flat, rows, n)->Ok_0[at].1 < rows,
    decreases n,
{
    if n > 0 {
        let before = flattened(flat, rows, (n - 1) as nat)->Ok_0;
        if at < before.len() {
            lemma_flattened_inside(flat, rows, (n - 1) as nat, at);
        }
    }
}

/// An edge that goes in joins two rows the table has, on every table of no more rows than a
/// row number counts.
pub proof fn law_edges_join_rows(edges: Result<Option<Loaded<'_>>, String>, rows: u64, at: int)
    requires
        rows <= 0x1_0000_0000,
        pairs_of(edges, rows) is Ok,
        0 <= at < pairs_of(edges, rows)->Ok_0.len(),
    ensures
        pairs_of(edges, rows)->Ok_0[at].0 < rows,
        pairs_of(edges, rows)->Ok_0[at].1 < rows,
{
    match edges {
        Ok(Some(Loaded::Typed(array))) => {
            let flat = flat_of(array)->Some_0;
            lemma_flattened_inside(flat, rows, flat.len() / 2, at);
        },
        Ok(Some(Loaded::Value(Js::Object(thing)))) => {
            let items = thing.items->Some_0@;
            lemma_listed_inside(items, rows, items.len(), at);
        },
        _ => {},
    }
}

/// Whether one edge comes before another: by the row it starts at, and by the row it ends at
/// for two that start at one.
pub open spec fn before(a: (u32, u32), b: (u32, u32)) -> bool {
    a.0 < b.0 || (a.0 == b.0 && a.1 < b.1)
}

/// Sorts a list of edges.
///
/// `sort_unstable` of std's slices, which puts the elements in ascending order and keeps
/// every one of them. A tuple is ordered by its first element and then by its second.
#[verifier::external_body]
fn sorted(pairs: Vec<(u32, u32)>) -> (r: Vec<(u32, u32)>)
    ensures
        r@.to_multiset() == pairs@.to_multiset(),
        forall|i: int, j: int| 0 <= i < j < r@.len() ==> !before(#[trigger] r@[j], #[trigger] r@[i]),
{
    let mut pairs = pairs;
    pairs.sort_unstable();
    pairs
}

/// Whether every edge comes before the next, so that no edge is there twice.
pub open spec fn ascending(pairs: Seq<(u32, u32)>) -> bool {
    forall|i: int, j: int| 0 <= i < j < pairs.len() ==> before(#[trigger] pairs[i], #[trigger] pairs[j])
}

/// The edges in order and each of them once, which is how the builder wants them: an edge list
/// a program produced by walking something else is neither.
pub fn arranged(pairs: Vec<(u32, u32)>) -> (r: Vec<(u32, u32)>)
    ensures
        ascending(r@),
        forall|pair: (u32, u32)| r@.contains(pair) <==> pairs@.contains(pair),
{
    let ghost given = pairs@;
    let sorted: Vec<(u32, u32)> = sorted(pairs);
    let mut made: Vec<(u32, u32)> = Vec::new();
    let mut at: usize = 0;
    while at < sorted.len()
        invariant
            at <= sorted@.len(),
            forall|i: int, j: int| 0 <= i < j < sorted@.len() ==> !before(#[trigger] sorted@[j], #[trigger] sorted@[i]),
            ascending(made@),
            made@.len() > 0 <==> at > 0,
            at > 0 ==> made@.last() == sorted@[at - 1],
            forall|i: int| 0 <= i < made@.len() ==> sorted@.contains(#[trigger] made@[i]),
            forall|i: int| 0 <= i < at ==> made@.contains(#[trigger] sorted@[i]),
        decreases sorted@.len() - at,
    {
        let pair: (u32, u32) = sorted[at];
        let ghost had = made@;
        if at == 0 {
            made.push(pair);
            proof {
                assert(made@.last() == made@[0]);
            }
        } else {
            let last: (u32, u32) = sorted[at - 1];
            if last.0 != pair.0 || last.1 != pair.1 {
                proof {
                    assert(!before(sorted@[at as int], sorted@[at - 1]));
                }
                made.push(pair);
            } else {
                proof {
                    assert(had.contains(had.last()));
                }
            }
        }
        proof {
            assert forall|i: int, j: int| 0 <= i < j < made@.len() implies before(
                #[trigger] made@[i],
                #[trigger] made@[j],
            ) by {
                if made@.len() > had.len() {
                    assert(made@[i] == had[i]);
                    if j == had.len() {
                        if i < had.len() - 1 {
                            assert(before(had[i], had[had.len() - 1]));
                        }
                    } else {
                        assert(made@[j] == had[j]);
                    }
                }
            }
            assert forall|i: int| 0 <= i < at + 1 implies made@.contains(#[trigger] sorted@[i]) by {
                if i < at {
                    assert(had.contains(sorted@[i]));
                    let k = choose|k: int| 0 <= k < had.len() && had[k] == sorted@[i];
                    assert(made@[k] == sorted@[i]);
                } else {
                    assert(made@[made@.len() - 1] == sorted@[i]);
                }
            }
            assert forall|i: int| 0 <= i < made@.len() implies sorted@.contains(#[trigger] made@[i]) by {
                if i < had.len() {
                    assert(made@[i] == had[i]);
                } else {
                    assert(sorted@[at as int] == made@[i]);
                }
            }
        }
        at += 1;
    }
    proof {
        broadcast use vstd::seq_lib::group_to_multiset_ensures;
        assert forall|pair: (u32, u32)| made@.contains(pair) <==> given.contains(pair) by {
            assert(sorted@.contains(pair) <==> sorted@.to_multiset().count(pair) > 0);
            assert(given.contains(pair) <==> given.to_multiset().count(pair) > 0);
            if made@.contains(pair) {
                let k = choose|k: int| 0 <= k < made@.len() && made@[k] == pair;
                assert(sorted@.contains(made@[k]));
            }
            if sorted@.contains(pair) {
                let k = choose|k: int| 0 <= k < sorted@.len() && sorted@[k] == pair;
                assert(made@.contains(sorted@[k]));
            }
        }
    }
    made
}

/// The same edge twice is one edge: two edge lists that name the same edges, in whatever order
/// and however often, are arranged into the same list.
pub proof fn law_an_edge_is_one_edge(one: Seq<(u32, u32)>, other: Seq<(u32, u32)>)
    requires
        ascending(one),
        ascending(other),
        forall|pair: (u32, u32)| one.contains(pair) <==> other.contains(pair),
    ensures
        one == other,
    decreases one.len(),
{
    if one.len() == 0 {
        if other.len() > 0 {
            assert(other.contains(other[0]));
            assert(one.contains(other[0]));
        }
    } else {
        assert(one.contains(one.last()));
        assert(other.contains(one.last()));
        assert(other.contains(other.last()));
        assert(one.contains(other.last()));
        let a = choose|k: int| 0 <= k < other.len() && other[k] == one.last();
        let b = choose|k: int| 0 <= k < one.len() && one[k] == other.last();
        if a < other.len() - 1 {
            assert(before(other[a], other[other.len() - 1]));
            if b < one.len() - 1 {
                assert(before(one[b], one[one.len() - 1]));
            }
        }
        assert(one.last() == other.last());
        let rest = one.drop_last();
        let less = other.drop_last();
        assert forall|pair: (u32, u32)| rest.contains(pair) <==> less.contains(pair) by {
            if rest.contains(pair) {
                let k = choose|k: int| 0 <= k < rest.len() && rest[k] == pair;
                assert(one[k] == pair);
                assert(before(one[k], one[one.len() - 1]));
                assert(other.contains(pair));
                let m = choose|m: int| 0 <= m < other.len() && other[m] == pair;
                assert(less[m] == pair);
            }
            if less.contains(pair) {
                let k = choose|k: int| 0 <= k < less.len() && less[k] == pair;
                assert(other[k] == pair);
                assert(before(other[k], other[other.len() - 1]));
                assert(one.contains(pair));
                let m = choose|m: int| 0 <= m < one.len() && one[m] == pair;
                assert(rest[m] == pair);
            }
        }
        assert(ascending(rest)) by {
            assert forall|i: int, j: int| 0 <= i < j < rest.len() implies before(
                #[trigger] rest[i],
                #[trigger] rest[j],
            ) by {
                assert(before(one[i], one[j]));
            }
        }
        assert(ascending(less)) by {
            assert forall|i: int, j: int| 0 <= i < j < less.len() implies before(
                #[trigger] less[i],
                #[trigger] less[j],
            ) by {
                assert(before(other[i], other[j]));
            }
        }
        law_an_edge_is_one_edge(rest, less);
        assert(one =~= rest.push(one.last()));
        assert(other =~= less.push(other.last()));
    }
}

/// What a load is asked for with, each option by what reading it found and none where it was
/// not written.
pub struct LoadOptions<'a> {
    pub nodes: Result<Option<Js>, String>,
    pub rels: Result<Option<Js>, String>,
    pub columns: Result<Columns<'a>, String>,
    pub rows: Result<Option<Rows>, String>,
    pub edges: Result<Option<Loaded<'a>>, String>,
}

/// Everything a load needs, read off the caller's objects and owned here.
pub struct Plan {
    pub path: String,
    pub nodes: String,
    pub rels: String,
    pub rows: u64,
    pub columns: Vec<(String, Column)>,
    pub pairs: Vec<(u32, u32)>,
}

/// What options that are no object are refused with.
pub open spec fn no_options(options: Js) -> Seq<char> {
    "the options are "@ + named_as(options) + ", and a load is told at least which node table it is writing"@
}

/// What a load that names no node table is refused with.
pub open spec fn nameless() -> Seq<char> {
    "a load names the node table it is writing, and this one names none"@
}

/// What the node table is called.
pub open spec fn nodes_of(nodes: Result<Option<Js>, String>) -> Result<Seq<char>, Seq<char>> {
    match nodes {
        Err(reason) => Err(reason@),
        Ok(None) => Err(nameless()),
        Ok(Some(value)) => text_of(value, "node table"@),
    }
}

/// What the rel table is called, which is `rel` where nothing else is said: a graph with no
/// edges still gets one, and a caller who wrote none has no opinion about its name.
pub open spec fn rels_of(rels: Result<Option<Js>, String>) -> Result<Seq<char>, Seq<char>> {
    match rels {
        Err(reason) => Err(reason@),
        Ok(None) => Ok("rel"@),
        Ok(Some(value)) => text_of(value, "rel table"@),
    }
}

/// The columns as they were written, or why they are not taken.
pub open spec fn columns_of<'a>(columns: Result<Columns<'a>, String>) -> Result<
    Seq<(String, Result<Loaded<'a>, String>)>,
    Seq<char>,
> {
    match columns {
        Err(reason) => Err(reason@),
        Ok(columns) => match any_refused(columns@, 0) {
            Some(words) => Err(words),
            None => Ok(columns@),
        },
    }
}

/// What the row count is held against: the first column, when there is one.
pub open spec fn first_of(columns: Seq<(String, Result<Loaded<'_>, String>)>) -> Option<(Seq<char>, nat)> {
    if columns.len() == 0 { None } else { Some((columns[0].0@, loaded_len(columns[0].1))) }
}

/// The names of the two tables, or what they are refused with.
pub open spec fn tables_of(asked: LoadOptions<'_>) -> Result<(Seq<char>, Seq<char>), Seq<char>> {
    match nodes_of(asked.nodes) {
        Err(words) => Err(words),
        Ok(nodes) => match rels_of(asked.rels) {
            Err(words) => Err(words),
            Ok(rels) => if !carries(nodes) {
                Err(no_name(nodes, "a node table"@))
            } else if !carries(rels) {
                Err(no_name(rels, "a rel table"@))
            } else {
                Ok((nodes, rels))
            },
        },
    }
}

/// What a load is refused with, when it is: the first thing wrong with it, in the order a call
/// is read.
pub open spec fn load_refused(path: Js, options: Js, asked: LoadOptions<'_>) -> Option<Seq<char>> {
    if text_of(path, "path"@) is Err {
        Some(text_of(path, "path"@)->Err_0)
    } else if options is Unread {
        Some(options->Unread_0@)
    } else if !(options is Object) {
        Some(no_options(options))
    } else if tables_of(asked) is Err {
        Some(tables_of(asked)->Err_0)
    } else if columns_of(asked.columns) is Err {
        Some(columns_of(asked.columns)->Err_0)
    } else {
        match rows_of(asked.rows, first_of(columns_of(asked.columns)->Ok_0)) {
            Err(words) => Some(words),
            Ok(rows) => match pairs_of(asked.edges, rows) {
                Err(words) => Some(words),
                Ok(_) => None,
            },
        }
    }
}

/// Whether this is what a load writes.
pub open spec fn is_plan(plan: Plan, path: Js, asked: LoadOptions<'_>) -> bool {
    let columns = columns_of(asked.columns)->Ok_0;
    &&& text_of(path, "path"@) == Ok::<_, Seq<char>>(plan.path@)
    &&& tables_of(asked) == Ok::<_, Seq<char>>((plan.nodes@, plan.rels@))
    &&& are_loaded(plan.columns@, columns, columns.len() as int)
    &&& rows_of(asked.rows, first_of(columns)) == Ok::<_, Seq<char>>(plan.rows)
    &&& pairs_of(asked.edges, plan.rows) == Ok::<_, Seq<char>>(plan.pairs@)
}

/// The whole call, read into a [`Plan`], or the one sentence it was refused with.
pub fn read(path: &Js, options: &Js, asked: &LoadOptions<'_>) -> (r: Result<Plan, String>)
    ensures
        match r {
            Ok(plan) => load_refused(*path, *options, *asked) is None && is_plan(plan, *path, *asked),
            Err(words) => load_refused(*path, *options, *asked) == Some(words@),
        },
{
    let path: String = text(path, "path")?;
    match options {
        Js::Unread(reason) => return Err(reason.clone()),
        Js::Object(_) => {},
        _ => {
            return Err(
                "the options are ".to_owned().concat(named(options).as_str()).concat(
                    ", and a load is told at least which node table it is writing",
                ),
            );
        },
    }
    let nodes: String = match &asked.nodes {
        Err(reason) => return Err(reason.clone()),
        Ok(None) => {
            return Err("a load names the node table it is writing, and this one names none".to_owned());
        },
        Ok(Some(value)) => text(value, "node table")?,
    };
    let rels: String = match &asked.rels {
        Err(reason) => return Err(reason.clone()),
        Ok(None) => "rel".to_owned(),
        Ok(Some(value)) => text(value, "rel table")?,
    };
    identifier(nodes.as_str(), "a node table")?;
    identifier(rels.as_str(), "a rel table")?;
    let columns: Vec<(String, Column)> = match &asked.columns {
        Err(reason) => return Err(reason.clone()),
        Ok(columns) => built(columns)?,
    };
    let rows: u64 = rows(&asked.rows, &columns)?;
    let pairs: Vec<(u32, u32)> = pairs(&asked.edges, rows)?;
    Ok(Plan { path, nodes, rels, rows, columns, pairs })
}

/// What went into a database.
pub struct Stats {
    pub nodes: u64,
    pub rels: u64,
    pub columns: u64,
}

/// A load that has been read and not yet run.
pub struct LoadTask {
    pub plan: Option<Plan>,
    /// What this client refused the call with, before any of it ran.
    pub refused: Option<String>,
}

/// Reads a call to load.
pub fn load(path: &Js, options: &Js, asked: &LoadOptions<'_>) -> (r: LoadTask)
    ensures
        match load_refused(*path, *options, *asked) {
            Some(words) => r.plan is None && (r.refused matches Some(said) && said@ == words),
            None => r.refused is None && (r.plan matches Some(plan) && is_plan(plan, *path, *asked)),
        },
{
    match read(path, options, asked) {
        Ok(plan) => LoadTask { plan: Some(plan), refused: None },
        Err(words) => LoadTask { plan: None, refused: Some(words) },
    }
}

impl LoadTask {
    /// Takes what is to be written, with its edges in order and each of them once, which a
    /// load has one time.
    pub fn take(&mut self) -> (r: Result<Plan, String>)
        ensures
            final(self).refused is None,
            match old(self).refused {
                Some(words) => said(r) == Err::<Plan, _>(words@) && final(self).plan == old(self).plan,
                None => {
                    &&& final(self).plan is None
                    &&& match old(self).plan {
                        None => said(r) == Err::<Plan, _>(TWICE@),
                        Some(plan) => {
                            &&& r matches Ok(ready)
                            &&& ready == (Plan { pairs: ready.pairs, ..plan })
                            &&& ascending(ready.pairs@)
                            &&& forall|pair: (u32, u32)|
                                ready.pairs@.contains(pair) <==> plan.pairs@.contains(pair)
                        },
                    }
                },
            },
    {
        if let Some(words) = self.refused.take() {
            return Err(words);
        }
        match self.plan.take() {
            None => Err(TWICE.to_owned()),
            Some(plan) => {
                let Plan { path, nodes, rels, rows, columns, pairs } = plan;
                Ok(Plan { path, nodes, rels, rows, columns, pairs: arranged(pairs) })
            },
        }
    }
}

impl Plan {
    /// What goes in, which is what the caller gets back.
    pub fn stats(&self) -> (r: Stats)
        ensures
            r.nodes == self.rows,
            r.rels == self.pairs@.len(),
            r.columns == self.columns@.len(),
    {
        Stats { nodes: self.rows, rels: self.pairs.len() as u64, columns: self.columns.len() as u64 }
    }
}

impl Stats {
    /// What went in as the object a caller reads.
    ///
    /// Numbers rather than bigints, because these are counts this client made rather than
    /// INT64 columns a statement gave back.
    pub fn to_js(&self) -> (r: Made)
        ensures
            r matches Made::Object(fields) && fields@.len() == 3 && fields@[0].0@ == "nodes"@ && fields@[0].1
                == Made::Count(self.nodes) && fields@[1].0@ == "rels"@ && fields@[1].1 == Made::Count(self.rels)
                && fields@[2].0@ == "columns"@ && fields@[2].1 == Made::Count(self.columns),
    {
        let mut fields: Vec<(String, Made)> = Vec::new();
        fields.push(("nodes".to_owned(), Made::Count(self.nodes)));
        fields.push(("rels".to_owned(), Made::Count(self.rels)));
        fields.push(("columns".to_owned(), Made::Count(self.columns)));
        Made::Object(fields)
    }
}

/// A column of whole numbers as the words the store keeps them in, which is the same run of
/// bits read with a different sign.
pub fn words(values: &[i64]) -> (r: Vec<u64>)
    ensures
        r@ == values@.map_values(|n: i64| n as u64),
{
    let mut made: Vec<u64> = Vec::new();
    let mut at: usize = 0;
    while at < values.len()
        invariant
            at <= values@.len(),
            made@ == values@.take(at as int).map_values(|n: i64| n as u64),
        decreases values@.len() - at,
    {
        made.push(values[at] as u64);
        at += 1;
        proof {
            assert(made@ =~= values@.take(at as int).map_values(|n: i64| n as u64));
        }
    }
    proof {
        assert(values@.take(at as int) =~= values@);
    }
    made
}

/// A row number is the row it says. On a table of no more rows than a row number counts, an end of
/// an edge is taken exactly when it is a whole number, or a `bigint`, from nothing up to the rows
/// of the table, and is then that number.
pub proof fn law_a_row_number_is_itself(at: nat, value: Js, rows: u64)
    requires
        rows <= 0x1_0000_0000,
    ensures
        joins(at, value, rows) is Ok <==> match value {
            Js::Number { bits, .. } => whole(bits) && 0 <= integral(bits) < rows,
            Js::BigInt(big) => big.high@.len() == 0 && 0 <= big.signed() < rows,
            _ => false,
        },
        joins(at, value, rows) matches Ok(row) ==> row == (match value {
            Js::Number { bits, .. } => integral(bits),
            Js::BigInt(big) => big.signed(),
            _ => -1,
        }),
{
    match value {
        Js::BigInt(big) => {
            let n = big.signed();
            law_rounding_is_near(n);
            if -0x1_0000_0000_0000 <= n <= 0x1_0000_0000_0000 {
                number::law_exact(n);
            }
        },
        _ => {},
    }
}

proof fn lemma_listed_each(edges: Seq<Js>, rows: u64, n: nat, at: int)
    requires
        n <= edges.len(),
        listed(edges, rows, n) is Ok,
    ensures
        listed(edges, rows, n)->Ok_0.len() == n,
        0 <= at < n ==> edge_of(at as nat, edges[at], rows) == Ok::<_, Seq<char>>(listed(edges, rows, n)->Ok_0[at]),
    decreases n,
{
    if n > 0 {
        lemma_listed_each(edges, rows, (n - 1) as nat, at);
    }
}

proof fn lemma_flattened_each(flat: Seq<i64>, rows: u64, n: nat, at: int)
    requires
        2 * n <= flat.len(),
        flattened(flat, rows, n) is Ok,
    ensures
        flattened(flat, rows, n)->Ok_0.len() == n,
        0 <= at < n ==> 0 <= flat[2 * at] < rows && 0 <= flat[2 * at + 1] < rows && flattened(flat, rows, n)->Ok_0[at].0
            == flat[2 * at] as u32 && flattened(flat, rows, n)->Ok_0[at].1 == flat[2 * at + 1] as u32,
    decreases n,
{
    if n > 0 {
        lemma_flattened_each(flat, rows, (n - 1) as nat, at);
    }
}

/// Edges keep their direction and their order: the first number of a pair is the row the edge runs
/// from and the second the row it runs to, every pair is an edge, and the edges are in the order
/// the pairs were in.
pub proof fn law_edges_keep_their_direction(edges: Seq<Js>, thing: Thing, rows: u64, at: int)
    requires
        rows <= 0x1_0000_0000,
        thing.items matches Some(items) && items@ == edges,
        pairs_of(Ok(Some(Loaded::Value(Js::Object(thing)))), rows) is Ok,
        0 <= at < edges.len(),
    ensures
        ({
            let pairs = pairs_of(Ok(Some(Loaded::Value(Js::Object(thing)))), rows)->Ok_0;
            &&& pairs.len() == edges.len()
            &&& edges[at] matches Js::Object(edge) && edge.items matches Some(ends) && ends@.len() == 2 && (
            ends@[0] matches Js::Number { bits, .. } ==> pairs[at].0 == integral(bits)) && (ends@[0] matches Js::BigInt(big)
                ==> pairs[at].0 == big.signed()) && (ends@[1] matches Js::Number { bits, .. } ==> pairs[at].1 == integral(
                bits,
            )) && (ends@[1] matches Js::BigInt(big) ==> pairs[at].1 == big.signed()) && (ends@[0] is Number || ends@[0]
                is BigInt) && (ends@[1] is Number || ends@[1] is BigInt)
        }),
{
    lemma_listed_each(edges, rows, edges.len(), at);
    let ends = edges[at]->Object_0.items->Some_0@;
    law_a_row_number_is_itself(at as nat, ends[0], rows);
    law_a_row_number_is_itself(at as nat, ends[1], rows);
}

/// The same of a flat list: the numbers at even places are the rows the edges run from and the ones
/// after them the rows they run to.
pub proof fn law_flat_edges_keep_their_direction(edges: Typed<'_>, rows: u64, at: int)
    requires
        rows <= 0x1_0000_0000,
        pairs_of(Ok(Some(Loaded::Typed(edges))), rows) is Ok,
        0 <= at < pairs_of(Ok(Some(Loaded::Typed(edges))), rows)->Ok_0.len(),
    ensures
        ({
            let pairs = pairs_of(Ok(Some(Loaded::Typed(edges))), rows)->Ok_0;
            match edges {
                Typed::Int32(v) => 2 * pairs.len() == v@.len() && pairs[at].0 == v@[2 * at] && pairs[at].1 == v@[2 * at + 1],
                Typed::Uint32(v) => 2 * pairs.len() == v@.len() && pairs[at].0 == v@[2 * at] && pairs[at].1 == v@[2 * at
                    + 1],
                _ => false,
            }
        }),
{
    let flat = flat_of(edges)->Some_0;
    lemma_flattened_each(flat, rows, flat.len() / 2, at);
}

/// No edges are no pairs, and a list of pairs or of numbers is refused when one end of one of them
/// is no row of the table.
pub proof fn law_edges_off_the_table_are_refused(edges: Seq<Js>, thing: Thing, rows: u64, at: int)
    requires
        thing.items matches Some(items) && items@ == edges,
        0 <= at < edges.len(),
        edge_of(at as nat, edges[at], rows) is Err,
    ensures
        pairs_of(Ok(Some(Loaded::Value(Js::Object(thing)))), rows) is Err,
        pairs_of(Ok(None), rows) == Ok::<_, Seq<char>>(Seq::<(u32, u32)>::empty()),
        pairs_of(Ok(Some(Loaded::Value(Js::Null))), rows) == Ok::<_, Seq<char>>(Seq::<(u32, u32)>::empty()),
{
    if listed(edges, rows, edges.len()) is Ok {
        lemma_listed_each(edges, rows, edges.len(), at);
    }
}

/// An edge comes before another by the row it starts at and then by the row it ends at: of any two
/// edges that differ one comes first, none comes before itself, and what comes before what comes
/// before comes before.
pub proof fn law_edges_have_one_order(a: (u32, u32), b: (u32, u32), c: (u32, u32))
    ensures
        !before(a, a),
        before(a, b) ==> !before(b, a),
        before(a, b) || before(b, a) || a == b,
        before(a, b) && before(b, c) ==> before(a, c),
        a.0 < b.0 ==> before(a, b),
        a.0 == b.0 && a.1 < b.1 ==> before(a, b),
{
}

proof fn lemma_first_past(values: Seq<u64>, at: int)
    requires
        0 <= at <= values.len(),
    ensures
        match past(values, at) {
            None => forall|i: int| at <= i < values.len() ==> #[trigger] values[i] < 0x8000_0000_0000_0000,
            Some(row) => at <= row < values.len() && values[row] >= 0x8000_0000_0000_0000 && forall|i: int|
                at <= i < row ==> #[trigger] values[i] < 0x8000_0000_0000_0000,
        },
    decreases values.len() - at,
{
    if at < values.len() {
        lemma_first_past(values, at + 1);
    }
}

/// A typed array fills its column with its own elements, as many and in its order: every width of
/// integer as the integer it is and both widths of float by the double it is. An array of unsigned
/// words goes in exactly when none of them is past what 64 signed bits hold.
pub proof fn law_a_typed_array_fills_its_column(name: Seq<char>, column: Column, values: Typed<'_>, at: int)
    requires
        unfilled(name, values) is None,
        fills(column, values),
        0 <= at < column.cells().len(),
    ensures
        match values {
            Typed::Int8(v) => column matches Column::Int(out) && out@.len() == v@.len() && out@[at] == v@[at],
            Typed::Uint8(v) => column matches Column::Int(out) && out@.len() == v@.len() && out@[at] == v@[at],
            Typed::Uint8Clamped(v) => column matches Column::Int(out) && out@.len() == v@.len() && out@[at] == v@[at],
            Typed::Int16(v) => column matches Column::Int(out) && out@.len() == v@.len() && out@[at] == v@[at],
            Typed::Uint16(v) => column matches Column::Int(out) && out@.len() == v@.len() && out@[at] == v@[at],
            Typed::Int32(v) => column matches Column::Int(out) && out@.len() == v@.len() && out@[at] == v@[at],
            Typed::Uint32(v) => column matches Column::Int(out) && out@.len() == v@.len() && out@[at] == v@[at],
            Typed::BigInt64(v) => column matches Column::Int(out) && out@.len() == v@.len() && out@[at] == v@[at],
            Typed::BigUint64(v) => column matches Column::Int(out) && out@.len() == v@.len() && out@[at] == v@[at],
            Typed::Float32(v) => column matches Column::Float(out) && out@ == v@,
            Typed::Float64(v) => column matches Column::Float(out) && out@ == v@,
            Typed::Other => false,
        },
        column.cells().len() == typed_len(values),
{
    if let Typed::BigUint64(v) = values {
        lemma_first_past(v@, 0);
    }
}

/// A typed array is refused for two reasons: its class is not read, or it holds an unsigned word no
/// INT64 holds.
pub proof fn law_a_typed_array_is_taken(name: Seq<char>, values: Typed<'_>)
    ensures
        unfilled(name, values) is None <==> match values {
            Typed::BigUint64(v) => forall|i: int| 0 <= i < v@.len() ==> #[trigger] v@[i] < 0x8000_0000_0000_0000,
            Typed::Other => false,
            _ => true,
        },
{
    if let Typed::BigUint64(v) = values {
        lemma_first_past(v@, 0);
    }
}

proof fn lemma_none_refused(columns: Seq<(String, Result<Loaded<'_>, String>)>, from: int, at: int)
    requires
        any_refused(columns, from) is None,
        0 <= from <= at < columns.len(),
    ensures
        one_refused(columns, at) is None,
    decreases at - from,
{
    if from < at {
        lemma_none_refused(columns, from + 1, at);
    }
}

proof fn lemma_one_refused(columns: Seq<(String, Result<Loaded<'_>, String>)>, from: int, at: int)
    requires
        0 <= from <= at < columns.len(),
        one_refused(columns, at) is Some,
    ensures
        any_refused(columns, from) is Some,
    decreases at - from,
{
    if from < at {
        lemma_one_refused(columns, from + 1, at);
    }
}

/// What a load writes is what was asked for: the path, the tables under the names they were given,
/// `rel` for an edge table that was given none, the columns under their own names and in their own
/// order, all of them of one length, and as many rows as that where nothing else says how many.
pub proof fn law_a_plan_is_what_was_asked(plan: Plan, path: Js, options: Js, asked: LoadOptions<'_>, columns: Columns<'_>, at: int)
    requires
        load_refused(path, options, asked) is None,
        is_plan(plan, path, asked),
        asked.columns == Ok::<_, String>(columns),
        0 <= at < columns@.len(),
    ensures
        path matches Js::Text(s) && plan.path@ == s@,
        asked.nodes matches Ok(Some(Js::Text(s))) && plan.nodes@ == s@,
        asked.rels matches Ok(None) ==> plan.rels@ == "rel"@,
        asked.rels matches Ok(Some(rels)) ==> (rels matches Js::Text(s) && plan.rels@ == s@),
        carries(plan.nodes@),
        carries(plan.rels@),
        plan.columns@.len() == columns@.len(),
        plan.columns@[at].0@ == columns@[at].0@,
        carries(plan.columns@[at].0@),
        loads(plan.columns@[at].1, columns@[at].1),
        plan.columns@[at].1.cells().len() == plan.columns@[0].1.cells().len(),
        asked.rows matches Ok(None) ==> plan.rows == plan.columns@[0].1.cells().len() as u64,
        pairs_of(asked.edges, plan.rows) == Ok::<_, Seq<char>>(plan.pairs@),
{
    assert(are_loaded(plan.columns@, columns@, columns@.len() as int));
    assert(plan.columns@[at].0@ == columns@[at].0@);
    assert(plan.columns@[0].0@ == columns@[0].0@);
}

/// A number of rows that was asked for is a whole one that is not negative, and the number the
/// columns hold where there are any; without one, the columns say, and with neither there is none.
pub proof fn law_rows_are_what_was_asked(bits: u64, shown: String, said: String, first: Option<(Seq<char>, nat)>)
    requires
        first matches Some(one) ==> one.1 <= 9_007_199_254_740_992,
    ensures
        rows_of(Ok(None), None) is Err,
        first matches Some(one) ==> rows_of(Ok(None), first) == Ok::<_, Seq<char>>(one.1 as u64),
        ({
            let rows = Ok::<_, String>(Some(Rows { value: Js::Number { bits, shown }, shown: said }));
            &&& rows_of(rows, first) is Ok <==> whole(bits) && integral(bits) >= 0 && (first matches Some(one) ==> one.1
                == integral(bits))
            &&& rows_of(rows, first) matches Ok(n) ==> n == integral(bits) || (n == u64::MAX && integral(bits) > u64::MAX)
        }),
{
    if let Some(one) = first {
        number::law_exact(one.1 as int);
    }
}

/// A load is refused when one of its columns is: no name a statement can carry, values no column
/// takes, byte strings, or a length that is not the first column's; and taken when none is.
pub proof fn law_a_column_that_is_refused_refuses_the_load(columns: Columns<'_>, at: int)
    requires
        0 <= at < columns@.len(),
    ensures
        columns_of(Ok(columns)) is Ok ==> carries(columns@[at].0@) && column_refused(columns@[at].0@, columns@[at].1) is None
            && !loads_bytes(columns@[at].1) && loaded_len(columns@[at].1) == loaded_len(columns@[0].1),
        !carries(columns@[at].0@) || column_refused(columns@[at].0@, columns@[at].1) is Some || loads_bytes(columns@[at].1)
            || loaded_len(columns@[at].1) != loaded_len(columns@[0].1) ==> columns_of(Ok(columns)) is Err,
        columns_of(Ok(columns)) matches Ok(kept) ==> kept == columns@,
{
    if columns_of(Ok(columns)) is Ok {
        lemma_none_refused(columns@, 0, at);
    }
    if one_refused(columns@, at) is Some {
        lemma_one_refused(columns@, 0, at);
    }
}

/// A `bigint` of rows is read as the number it is, like any other, as far as a number tells one row
/// from the next.
pub proof fn law_rows_may_be_a_bigint(big: Big, shown: String, first: Option<(Seq<char>, nat)>)
    requires
        big.fits(),
        -9_007_199_254_740_992 <= big.signed() <= 9_007_199_254_740_992,
        first matches Some(one) ==> one.1 <= 9_007_199_254_740_992,
    ensures
        ({
            let rows = Ok::<_, String>(Some(Rows { value: Js::BigInt(big), shown }));
            &&& rows_of(rows, first) is Ok <==> big.signed() >= 0 && (first matches Some(one) ==> one.1 == big.signed())
            &&& rows_of(rows, first) matches Ok(n) ==> n == big.signed()
        }),
        rows_of(Ok(Some(Rows { value: Js::Null, shown })), first) == rows_of(Ok(None), first),
        rows_of(Ok(Some(Rows { value: Js::Undefined, shown })), first) == rows_of(Ok(None), first),
{
    number::law_exact(big.signed());
    if let Some(one) = first {
        number::law_exact(one.1 as int);
    }
}

/// A load that is refused for a number says which: an unsigned word no INT64 holds by itself and its
/// row, a column of another length by both lengths, and an end of an edge by the edge and the row it
/// names.
pub proof fn law_a_refused_number_is_told(
    name: Seq<char>,
    n: u64,
    row: int,
    len: nat,
    first: Seq<char>,
    had: nat,
    at: nat,
    end: i64,
    rows: u64,
)
    ensures
        text::opens(too_far(name, n, row), "column '"@ + name + "' holds "@ + decimal(n as int) + " at row "@ + decimal(row)),
        text::opens(
            uneven(name, len, first, had),
            "column '"@ + name + "' holds "@ + decimal(len as int) + " values and column '"@ + first + "' holds "@ + decimal(
                had as int,
            ),
        ),
        within_of(at, end, rows) is Err <==> end < 0 || end >= rows,
        within_of(at, end, rows) matches Err(words) ==> text::opens(
            words,
            "edge "@ + decimal(at as int) + " joins row "@ + decimal(end as int) + " of a table with "@ + decimal(rows as int),
        ),
        within_of(at, end, rows) matches Ok(joined) ==> (rows <= 0x1_0000_0000 ==> joined == end),
{
    let start = "column '"@ + name + "' holds "@ + decimal(n as int) + " at row "@ + decimal(row);
    assert(too_far(name, n, row).take(start.len() as int) =~= start);
    let start = "column '"@ + name + "' holds "@ + decimal(len as int) + " values and column '"@ + first + "' holds "@
        + decimal(had as int);
    assert(uneven(name, len, first, had).take(start.len() as int) =~= start);
    if let Err(words) = within_of(at, end, rows) {
        let start = "edge "@ + decimal(at as int) + " joins row "@ + decimal(end as int) + " of a table with "@ + decimal(
            rows as int,
        );
        assert(words.take(start.len() as int) =~= start);
    }
}

/// What could not be read is not loaded, for the reason it could not be: a column, the tables, the
/// number of rows and the edges alike. A column that is no array is refused, and so are rows that
/// are no number and edges that are no list.
pub proof fn law_what_is_not_read_is_not_loaded(
    name: Seq<char>,
    reason: String,
    shown: String,
    value: Js,
    first: Option<(Seq<char>, nat)>,
    rows: u64,
)
    ensures
        column_refused(name, Err(reason)) == Some(reason@),
        column_refused(name, Ok(Loaded::Value(Js::Unread(reason)))) == Some(reason@),
        rows_of(Err(reason), first) == Err::<u64, _>(reason@),
        rows_of(Ok(Some(Rows { value: Js::Unread(reason), shown })), first) == Err::<u64, _>(reason@),
        pairs_of(Err(reason), rows) == Err::<Seq<(u32, u32)>, _>(reason@),
        pairs_of(Ok(Some(Loaded::Value(Js::Unread(reason)))), rows) == Err::<Seq<(u32, u32)>, _>(reason@),
        nodes_of(Err(reason)) == Err::<Seq<char>, _>(reason@),
        rels_of(Err(reason)) == Err::<Seq<char>, _>(reason@),
        nodes_of(Ok(None)) is Err,
        nodes_of(Ok(Some(value))) is Ok <==> value is Text,
        rels_of(Ok(Some(value))) is Ok <==> value is Text,
        !(value is Object) ==> column_refused(name, Ok(Loaded::Value(value))) is Some,
        !(value is Object) && !(value is Null) ==> pairs_of(Ok(Some(Loaded::Value(value))), rows) is Err,
        !(value is Number) && !(value is BigInt) && !(value is Null) && !(value is Undefined) ==> rows_of(
            Ok(Some(Rows { value, shown })),
            first,
        ) is Err,
{
}

} // verus!
