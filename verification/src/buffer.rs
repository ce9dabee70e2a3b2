//! JavaScript values, buffered as the columns the engine stores.
//!
//! A row appended is not a row written. It goes into a vector per column, in the shape
//! the property store keeps that column in, and a flush hands the whole batch over as
//! one commit. So the work per value is a conversion and a push, and the conversion is
//! where a value that does not belong in a column is caught.
//!
//! There is no null: a column that holds one cannot be appended to at all, so a null
//! here could only ever be refused, and refusing it at the row that wrote it is better
//! than refusing it at the flush a million rows later.
//!
//! The rules are the parameter binder's, in [`crate::value`]. What is different is that
//! a column has already said what it holds, so a value of the wrong type is refused here
//! where the binder would have bound it and let the engine decide.

use vstd::prelude::*;

use crate::js::{kind_name, spelled, told, Fault, Js, Thing, Trouble};
use crate::number::{self, double, integral, is_double, whole, PAST};
use crate::temporal::{from_temporal, moment_of, DurationKind, Temporal};
use crate::text::{self, decimal, lowercase, lowered};
use crate::value::{binds, classed, countable, lemma_moment_is_one, same_value, temporal_from, Value};

verus! {

/// The width of an integer.
#[derive(Clone, Copy, PartialEq, Eq, Structural)]
pub enum IntBits {
    B8,
    B16,
    B32,
    B64,
    B128,
    B256,
}

/// The width of a float.
#[derive(Clone, Copy, PartialEq, Eq, Structural)]
pub enum FloatBits {
    B16,
    B32,
    B64,
    B128,
    B256,
}

/// What a column of the engine is declared as.
#[allow(inconsistent_fields)]
#[derive(Clone, Copy, PartialEq, Eq, Structural)]
pub enum LogicalType {
    Bool,
    Int { signed: bool, bits: IntBits, precision: Option<u16> },
    Float { bits: FloatBits, precision: Option<u16> },
    Str { min: Option<u32>, max: Option<u32>, fixed: bool },
    Bytes { min: Option<u32>, max: Option<u32>, fixed: bool },
    Date,
    LocalTime,
    LocalDatetime,
    Duration(DurationKind),
    /// A type no column here is of.
    Other,
}

/// What the values of a column are.
#[derive(Clone, Copy, PartialEq, Eq, Structural)]
pub enum Lane {
    Int,
    Float,
    Bool,
    Str,
    Bytes,
    Date,
    LocalTime,
    LocalDatetime,
    Duration(DurationKind),
}

/// One column's values, in the shape the property store wants them.
///
/// The arms are the storage arms, so a flush hands a buffer over with no pass to convert
/// it.
pub enum Column {
    Int(Vec<i64>),
    /// Floats, by the bits of the doubles they are.
    Float(Vec<u64>),
    Bool(Vec<bool>),
    Str(Vec<String>),
    Bytes(Vec<Vec<u8>>),
    Date(Vec<i32>),
    LocalTime(Vec<i64>),
    LocalDatetime(Vec<i64>),
    Duration(DurationKind, Vec<i64>),
}

/// One value of a column.
pub enum Cell {
    Int(i64),
    Float(u64),
    Bool(bool),
    Str(Seq<char>),
    Bytes(Seq<u8>),
    Temporal(Temporal),
}

/// One value of a column as the engine's appender takes it, borrowed where it can be.
pub enum Field<'a> {
    Bool(bool),
    Int(i64),
    Float(u64),
    Str(&'a str),
    Bytes(&'a [u8]),
    Temporal(Temporal),
}

impl<'a> Field<'a> {
    /// The value of the column this is.
    pub open spec fn cell(&self) -> Cell {
        match self {
            Field::Bool(b) => Cell::Bool(*b),
            Field::Int(n) => Cell::Int(*n),
            Field::Float(bits) => Cell::Float(*bits),
            Field::Str(s) => Cell::Str(s@),
            Field::Bytes(b) => Cell::Bytes(b@),
            Field::Temporal(t) => Cell::Temporal(*t),
        }
    }
}

/// Why a value did not go in.
///
/// A column that wanted something else says what it holds and lets the caller word the
/// rest. A value that is of the right kind and still wrong says so itself, as a phrase the
/// caller puts its subject in front of.
pub enum Mismatch {
    Wanted(&'static str),
    Says(String),
    /// The value itself could not be had, which is passed along as it is.
    Boundary(Fault),
}

/// What a [`Mismatch`] says.
pub enum Complaint {
    Wanted(Seq<char>),
    Says(Seq<char>),
    Boundary(Trouble),
}

impl View for Mismatch {
    type V = Complaint;

    open spec fn view(&self) -> Complaint {
        match self {
            Mismatch::Wanted(holds) => Complaint::Wanted(holds@),
            Mismatch::Says(reason) => Complaint::Says(reason@),
            Mismatch::Boundary(fault) => Complaint::Boundary(fault@),
        }
    }
}

/// What a column holds, for the message when it was handed something else.
pub open spec fn holding(lane: Lane) -> Seq<char> {
    match lane {
        Lane::Int => "whole numbers"@,
        Lane::Float => "floats"@,
        Lane::Bool => "booleans"@,
        Lane::Str => "strings"@,
        Lane::Bytes => "byte strings"@,
        Lane::Date => "dates"@,
        Lane::LocalTime => "times"@,
        Lane::LocalDatetime => "datetimes"@,
        Lane::Duration(DurationKind::YearMonth) => "year-month durations"@,
        Lane::Duration(DurationKind::DayTime) => "day-time durations"@,
    }
}

/// What a `bigint` no INT64 holds is told.
pub open spec fn beyond() -> Seq<char> {
    "it is a bigint outside what INT64 holds, which is -2^63 up to 2^63 - 1"@
}

/// What a fraction in a column of whole numbers is told.
pub open spec fn fractional(shown: Seq<char>) -> Seq<char> {
    "it is "@ + shown + ", which is not a whole number"@
}

/// What a number that cannot be told from its neighbours is told.
pub open spec fn blurred(shown: Seq<char>) -> Seq<char> {
    "it is "@ + shown
        + ", which is past 2^53, where a number can no longer be told from \
                     its neighbours: write it as a bigint"@
}

/// A `bigint`, or a `number` that is a whole one, or nothing for any other value.
///
/// A number that is not whole is refused: rounding it would put a value in the database
/// that the caller never wrote, and a number past 2^53 is one whose neighbours it can no
/// longer be told from.
pub open spec fn int_of(value: Js) -> Result<Option<i64>, Complaint> {
    match value {
        Js::Unread(reason) => Err(Complaint::Boundary(Trouble::Boundary(reason@))),
        Js::BigInt(big) => if big.fits() { Ok(Some(big.signed() as i64)) } else { Err(Complaint::Says(beyond())) },
        Js::Number { bits, shown } => if !whole(bits) {
            Err(Complaint::Says(fractional(shown@)))
        } else if !countable(bits) {
            Err(Complaint::Says(blurred(shown@)))
        } else {
            Ok(Some(integral(bits) as i64))
        },
        _ => Ok(None),
    }
}

/// The instant a value carries, whichever of the two spellings it is written in: the four
/// classes first and `Temporal` second.
pub open spec fn instant_of(value: Js) -> Result<Option<Temporal>, Complaint> {
    match value {
        Js::Unread(reason) => Err(Complaint::Boundary(Trouble::Boundary(reason@))),
        Js::Object(thing) => match classed(thing.class) {
            Err(trouble) => Err(Complaint::Boundary(trouble)),
            Ok(Some(t)) => Ok(Some(t)),
            Ok(None) => match moment_of("this value"@, thing.tag, thing.fields) {
                Err(trouble) => Err(Complaint::Boundary(trouble)),
                Ok(found) => Ok(found),
            },
        },
        _ => Ok(None),
    }
}

/// What a value becomes in a column, or why the column would not have it.
pub open spec fn cell_of(lane: Lane, value: Js) -> Result<Cell, Complaint> {
    let wanted = Err::<Cell, Complaint>(Complaint::Wanted(holding(lane)));
    match lane {
        Lane::Bool => match value {
            Js::Boolean(b) => Ok(Cell::Bool(b)),
            _ => wanted,
        },
        Lane::Int => match int_of(value) {
            Err(why) => Err(why),
            Ok(Some(n)) => Ok(Cell::Int(n)),
            Ok(None) => wanted,
        },
        Lane::Float => match value {
            Js::Number { bits, .. } => Ok(Cell::Float(bits)),
            Js::Unread(reason) => Err(Complaint::Boundary(Trouble::Boundary(reason@))),
            _ => wanted,
        },
        Lane::Str => match value {
            Js::Text(s) => Ok(Cell::Str(s@)),
            Js::Unread(reason) => Err(Complaint::Boundary(Trouble::Boundary(reason@))),
            _ => wanted,
        },
        Lane::Bytes => match value {
            Js::Object(thing) => match thing.typed {
                Some(Some(bytes)) => Ok(Cell::Bytes(bytes@)),
                _ => wanted,
            },
            Js::Unread(reason) => Err(Complaint::Boundary(Trouble::Boundary(reason@))),
            _ => wanted,
        },
        Lane::Date => match instant_of(value) {
            Err(why) => Err(why),
            Ok(Some(Temporal::Date(days))) => Ok(Cell::Temporal(Temporal::Date(days))),
            Ok(_) => wanted,
        },
        Lane::LocalTime => match instant_of(value) {
            Err(why) => Err(why),
            Ok(Some(Temporal::LocalTime(nanos))) => Ok(Cell::Temporal(Temporal::LocalTime(nanos))),
            Ok(Some(Temporal::ZonedTime { .. })) => Err(
                Complaint::Says("it carries an offset, and this column holds local times"@),
            ),
            Ok(_) => wanted,
        },
        Lane::LocalDatetime => match instant_of(value) {
            Err(why) => Err(why),
            Ok(Some(Temporal::LocalDatetime(nanos))) => Ok(Cell::Temporal(Temporal::LocalDatetime(nanos))),
            Ok(Some(Temporal::ZonedDatetime { .. })) => Err(
                Complaint::Says("it carries an offset, and this column holds local datetimes"@),
            ),
            Ok(_) => wanted,
        },
        Lane::Duration(kind) => match instant_of(value) {
            Err(why) => Err(why),
            Ok(Some(Temporal::Duration(found, count))) if found == kind => Ok(
                Cell::Temporal(Temporal::Duration(kind, count)),
            ),
            Ok(_) => wanted,
        },
    }
}

/// The lane a column of this declared type is buffered in, or none for a type the ingest
/// cannot carry.
///
/// The exact declared type and not its family, because that is what the ingest checks: an
/// `INT32` column or a `VARCHAR(20)` one has no buffer here even though its bits would fit
/// the same lane.
pub open spec fn lane_for(ty: LogicalType) -> Option<Lane> {
    match ty {
        LogicalType::Int { signed: true, bits: IntBits::B64, precision: None } => Some(Lane::Int),
        LogicalType::Bool => Some(Lane::Bool),
        LogicalType::Float { bits: FloatBits::B64, precision: None } => Some(Lane::Float),
        LogicalType::Date => Some(Lane::Date),
        LogicalType::LocalTime => Some(Lane::LocalTime),
        LogicalType::LocalDatetime => Some(Lane::LocalDatetime),
        LogicalType::Duration(kind) => Some(Lane::Duration(kind)),
        LogicalType::Str { min: None, max: None, fixed: false } => Some(Lane::Str),
        LogicalType::Bytes { min: None, max: None, fixed: false } => Some(Lane::Bytes),
        _ => None,
    }
}

impl Column {
    /// What the values of this column are.
    pub open spec fn lane(&self) -> Lane {
        match self {
            Column::Int(_) => Lane::Int,
            Column::Float(_) => Lane::Float,
            Column::Bool(_) => Lane::Bool,
            Column::Str(_) => Lane::Str,
            Column::Bytes(_) => Lane::Bytes,
            Column::Date(_) => Lane::Date,
            Column::LocalTime(_) => Lane::LocalTime,
            Column::LocalDatetime(_) => Lane::LocalDatetime,
            Column::Duration(kind, _) => Lane::Duration(*kind),
        }
    }

    /// The values of this column, in order.
    pub open spec fn cells(&self) -> Seq<Cell> {
        match self {
            Column::Int(v) => v@.map_values(|n: i64| Cell::Int(n)),
            Column::Float(v) => v@.map_values(|bits: u64| Cell::Float(bits)),
            Column::Bool(v) => v@.map_values(|b: bool| Cell::Bool(b)),
            Column::Str(v) => v@.map_values(|s: String| Cell::Str(s@)),
            Column::Bytes(v) => v@.map_values(|b: Vec<u8>| Cell::Bytes(b@)),
            Column::Date(v) => v@.map_values(|days: i32| Cell::Temporal(Temporal::Date(days))),
            Column::LocalTime(v) => v@.map_values(|nanos: i64| Cell::Temporal(Temporal::LocalTime(nanos))),
            Column::LocalDatetime(v) => v@.map_values(|nanos: i64| Cell::Temporal(Temporal::LocalDatetime(nanos))),
            Column::Duration(kind, v) => v@.map_values(
                |count: i64| Cell::Temporal(Temporal::Duration(*kind, count)),
            ),
        }
    }

    /// An empty column of a lane.
    pub fn empty(lane: Lane) -> (r: Column)
        ensures
            r.lane() == lane,
            r.cells() == Seq::<Cell>::empty(),
    {
        let made = match lane {
            Lane::Int => Column::Int(Vec::new()),
            Lane::Float => Column::Float(Vec::new()),
            Lane::Bool => Column::Bool(Vec::new()),
            Lane::Str => Column::Str(Vec::new()),
            Lane::Bytes => Column::Bytes(Vec::new()),
            Lane::Date => Column::Date(Vec::new()),
            Lane::LocalTime => Column::LocalTime(Vec::new()),
            Lane::LocalDatetime => Column::LocalDatetime(Vec::new()),
            Lane::Duration(kind) => Column::Duration(kind, Vec::new()),
        };
        proof {
            assert(made.cells() =~= Seq::<Cell>::empty());
        }
        made
    }

    /// The buffer a column of this declared type appends into, or `None` for a type the
    /// ingest path cannot carry.
    pub fn for_type(ty: &LogicalType) -> (r: Option<Column>)
        ensures
            match lane_for(*ty) {
                Some(lane) => r matches Some(made) && made.lane() == lane && made.cells() == Seq::<Cell>::empty(),
                None => r is None,
            },
    {
        Some(
            match ty {
                LogicalType::Int { signed: true, bits: IntBits::B64, precision: None } => Column::empty(Lane::Int),
                LogicalType::Bool => Column::empty(Lane::Bool),
                LogicalType::Float { bits: FloatBits::B64, precision: None } => Column::empty(Lane::Float),
                LogicalType::Date => Column::empty(Lane::Date),
                LogicalType::LocalTime => Column::empty(Lane::LocalTime),
                LogicalType::LocalDatetime => Column::empty(Lane::LocalDatetime),
                LogicalType::Duration(kind) => Column::empty(Lane::Duration(*kind)),
                LogicalType::Str { min: None, max: None, fixed: false } => Column::empty(Lane::Str),
                LogicalType::Bytes { min: None, max: None, fixed: false } => Column::empty(Lane::Bytes),
                _ => return None,
            },
        )
    }

    /// What this column holds, for the message when it was handed something else. Plural,
    /// because it is the column that is being described and not the value.
    pub fn holds(&self) -> (r: &'static str)
        ensures
            r@ == holding(self.lane()),
    {
        match self {
            Column::Int(_) => "whole numbers",
            Column::Float(_) => "floats",
            Column::Bool(_) => "booleans",
            Column::Str(_) => "strings",
            Column::Bytes(_) => "byte strings",
            Column::Date(_) => "dates",
            Column::LocalTime(_) => "times",
            Column::LocalDatetime(_) => "datetimes",
            Column::Duration(DurationKind::YearMonth, _) => "year-month durations",
            Column::Duration(DurationKind::DayTime, _) => "day-time durations",
        }
    }

    /// How many values this column holds.
    pub fn len(&self) -> (r: usize)
        ensures
            r == self.cells().len(),
    {
        match self {
            Column::Int(v) => v.len(),
            Column::Float(v) => v.len(),
            Column::Bool(v) => v.len(),
            Column::Str(v) => v.len(),
            Column::Bytes(v) => v.len(),
            Column::Date(v) => v.len(),
            Column::LocalTime(v) => v.len(),
            Column::LocalDatetime(v) => v.len(),
            Column::Duration(_, v) => v.len(),
        }
    }

    /// Takes one more value, or says why this column would not have it. A column that
    /// would not have a value is as it was.
    pub fn push(&mut self, value: &Js) -> (r: Result<(), Mismatch>)
        ensures
            final(self).lane() == old(self).lane(),
            match r {
                Ok(()) => cell_of(old(self).lane(), *value) is Ok && final(self).cells() == old(self).cells().push(
                    cell_of(old(self).lane(), *value)->Ok_0,
                ),
                Err(why) => cell_of(old(self).lane(), *value) == Err::<Cell, _>(why@) && final(self).cells() == old(self).cells(),
            },
    {
        let holds = self.holds();
        match self {
            Column::Bool(v) => match value {
                Js::Boolean(b) => v.push(*b),
                _ => return Err(Mismatch::Wanted(holds)),
            },
            Column::Int(v) => match read_int(value)? {
                Some(n) => v.push(n),
                None => return Err(Mismatch::Wanted(holds)),
            },
            Column::Float(v) => match value {
                Js::Number { bits, .. } => v.push(*bits),
                Js::Unread(reason) => return Err(Mismatch::Boundary(Fault::Boundary(reason.clone()))),
                _ => return Err(Mismatch::Wanted(holds)),
            },
            Column::Str(v) => match value {
                Js::Text(s) => v.push(s.clone()),
                Js::Unread(reason) => return Err(Mismatch::Boundary(Fault::Boundary(reason.clone()))),
                _ => return Err(Mismatch::Wanted(holds)),
            },
            Column::Bytes(v) => match value {
                Js::Object(thing) => match &thing.typed {
                    Some(Some(bytes)) => v.push(copied(bytes)),
                    _ => return Err(Mismatch::Wanted(holds)),
                },
                Js::Unread(reason) => return Err(Mismatch::Boundary(Fault::Boundary(reason.clone()))),
                _ => return Err(Mismatch::Wanted(holds)),
            },
            Column::Date(v) => match moment(value)? {
                Some(Temporal::Date(days)) => v.push(days),
                _ => return Err(Mismatch::Wanted(holds)),
            },
            Column::LocalTime(v) => match moment(value)? {
                Some(Temporal::LocalTime(nanos)) => v.push(nanos),
                // A time that carries an offset is a different type and not a time this
                // column can hold, and saying so beats dropping the offset.
                Some(Temporal::ZonedTime { .. }) => {
                    return Err(
                        Mismatch::Says("it carries an offset, and this column holds local times".to_owned()),
                    );
                },
                _ => return Err(Mismatch::Wanted(holds)),
            },
            Column::LocalDatetime(v) => match moment(value)? {
                Some(Temporal::LocalDatetime(nanos)) => v.push(nanos),
                Some(Temporal::ZonedDatetime { .. }) => {
                    return Err(
                        Mismatch::Says("it carries an offset, and this column holds local datetimes".to_owned()),
                    );
                },
                _ => return Err(Mismatch::Wanted(holds)),
            },
            Column::Duration(kind, v) => match moment(value)? {
                // The two kinds do not mix: a duration of the other kind is refused rather
                // than converted through a month of some length nobody chose.
                Some(Temporal::Duration(found, count)) => {
                    if found != *kind {
                        return Err(Mismatch::Wanted(holds));
                    }
                    v.push(count)
                },
                _ => return Err(Mismatch::Wanted(holds)),
            },
        }
        proof {
            assert(self.cells() =~= old(self).cells().push(cell_of(old(self).lane(), *value)->Ok_0));
        }
        Ok(())
    }
}

/// What a column is of that starts with this value, or none for a value no column holds.
///
/// The rules are the parameter binder's: a whole number a double can be told from its
/// neighbours at is an integer, any other number is a float, and a time or a timestamp
/// with an offset is no column's.
pub open spec fn starts(value: Js) -> Result<Option<Lane>, Complaint> {
    match value {
        Js::Unread(reason) => Err(Complaint::Boundary(Trouble::Boundary(reason@))),
        Js::Boolean(_) => Ok(Some(Lane::Bool)),
        Js::BigInt(_) => Ok(Some(Lane::Int)),
        Js::Number { bits, .. } => Ok(Some(if countable(bits) { Lane::Int } else { Lane::Float })),
        Js::Text(_) => Ok(Some(Lane::Str)),
        Js::Object(thing) => match thing.typed {
            Some(Some(_)) => Ok(Some(Lane::Bytes)),
            Some(None) => Ok(None),
            None => match instant_of(value) {
                Err(why) => Err(why),
                Ok(Some(Temporal::Date(_))) => Ok(Some(Lane::Date)),
                Ok(Some(Temporal::LocalTime(_))) => Ok(Some(Lane::LocalTime)),
                Ok(Some(Temporal::LocalDatetime(_))) => Ok(Some(Lane::LocalDatetime)),
                Ok(Some(Temporal::Duration(kind, _))) => Ok(Some(Lane::Duration(kind))),
                Ok(_) => Ok(None),
            },
        },
        _ => Ok(None),
    }
}

fn first_lane(value: &Js) -> (r: Result<Option<Lane>, Mismatch>)
    ensures
        match r {
            Ok(lane) => starts(*value) == Ok::<_, Complaint>(lane),
            Err(why) => starts(*value) == Err::<Option<Lane>, _>(why@),
        },
{
    match value {
        Js::Unread(reason) => Err(Mismatch::Boundary(Fault::Boundary(reason.clone()))),
        Js::Boolean(_) => Ok(Some(Lane::Bool)),
        Js::BigInt(_) => Ok(Some(Lane::Int)),
        Js::Number { bits, .. } => {
            let (whole, n): (bool, i128) = number::read(*bits);
            Ok(Some(if whole && -PAST <= n && n <= PAST { Lane::Int } else { Lane::Float }))
        },
        Js::Text(_) => Ok(Some(Lane::Str)),
        Js::Object(thing) => match &thing.typed {
            Some(Some(_)) => Ok(Some(Lane::Bytes)),
            Some(None) => Ok(None),
            None => match moment(value)? {
                Some(Temporal::Date(_)) => Ok(Some(Lane::Date)),
                Some(Temporal::LocalTime(_)) => Ok(Some(Lane::LocalTime)),
                Some(Temporal::LocalDatetime(_)) => Ok(Some(Lane::LocalDatetime)),
                Some(Temporal::Duration(kind, _)) => Ok(Some(Lane::Duration(kind))),
                _ => Ok(None),
            },
        },
        _ => Ok(None),
    }
}

/// Whether a value turns a column of whole numbers into a column of floats: it is a number
/// and it is not a whole one.
pub open spec fn widens(lane: Lane, value: Js) -> bool {
    lane == Lane::Int && (value matches Js::Number { bits, .. } && !whole(bits))
}

/// Whether this is a column of whole numbers turned into the nearest doubles.
pub open spec fn widened(floats: Seq<Cell>, ints: Seq<Cell>) -> bool {
    &&& floats.len() == ints.len()
    &&& forall|i: int|
        0 <= i < ints.len() ==> (#[trigger] floats[i] matches Cell::Float(bits) && ints[i] matches Cell::Int(n)
            && is_double(bits, n as int))
}

impl Column {
    /// A column that starts with this value, or `None` for a value no column holds.
    pub fn start(value: &Js) -> (r: Result<Option<Column>, Mismatch>)
        ensures
            match starts(*value) {
                Err(why) => r matches Err(found) && found@ == why,
                Ok(None) => r matches Ok(None),
                Ok(Some(lane)) => match cell_of(lane, *value) {
                    Ok(cell) => r matches Ok(Some(made)) && made.lane() == lane && made.cells() == seq![cell],
                    Err(why) => r matches Err(found) && found@ == why,
                },
            },
    {
        match first_lane(value)? {
            None => Ok(None),
            Some(lane) => {
                let mut made = Column::empty(lane);
                made.push(value)?;
                proof {
                    assert(made.cells() =~= seq![cell_of(lane, *value)->Ok_0]);
                }
                Ok(Some(made))
            },
        }
    }

    /// Takes one more value as [`Column::push`] does, with the one widening there is: a
    /// column that started as whole numbers and meets a fractional one becomes a column of
    /// floats, because `[1, 2, 2.5]` is a column of numbers however it was written.
    pub fn widening_push(&mut self, value: &Js) -> (r: Result<(), Mismatch>)
        ensures
            widens(old(self).lane(), *value) ==> r is Ok && final(self).lane() == Lane::Float && final(self).cells().len() == old(self).cells().len() + 1 && widened(
                final(self).cells().drop_last(),
                old(self).cells(),
            ) && final(self).cells().last() == Cell::Float(value->bits),
            !widens(old(self).lane(), *value) ==> final(self).lane() == old(self).lane() && match r {
                Ok(()) => cell_of(old(self).lane(), *value) is Ok && final(self).cells() == old(self).cells().push(
                    cell_of(old(self).lane(), *value)->Ok_0,
                ),
                Err(why) => cell_of(old(self).lane(), *value) == Err::<Cell, _>(why@) && final(self).cells() == old(self).cells(),
            },
    {
        if let Js::Number { bits, .. } = value {
            if let Column::Int(ints) = &*self {
                if !number::is_whole(*bits) {
                    let mut floats = doubles(ints);
                    let ghost before = floats@;
                    floats.push(*bits);
                    let made = Column::Float(floats);
                    proof {
                        assert(made.cells().drop_last() =~= Column::Float(floats).cells().take(before.len() as int));
                        assert(widened(made.cells().drop_last(), old(self).cells()));
                    }
                    *self = made;
                    return Ok(());
                }
            }
        }
        self.push(value)
    }

    /// Drops the value written last, which is how a refused row takes back the fields it
    /// managed to write before the one that failed.
    pub fn pop(&mut self)
        ensures
            final(self).lane() == old(self).lane(),
            old(self).cells().len() > 0 ==> final(self).cells() == old(self).cells().drop_last(),
            old(self).cells().len() == 0 ==> final(self).cells() == old(self).cells(),
    {
        match self {
            Column::Int(v) => {
                let _ = v.pop();
            },
            Column::Float(v) => {
                let _ = v.pop();
            },
            Column::Bool(v) => {
                let _ = v.pop();
            },
            Column::Str(v) => {
                let _ = v.pop();
            },
            Column::Bytes(v) => {
                let _ = v.pop();
            },
            Column::Date(v) => {
                let _ = v.pop();
            },
            Column::LocalTime(v) => {
                let _ = v.pop();
            },
            Column::LocalDatetime(v) => {
                let _ = v.pop();
            },
            Column::Duration(_, v) => {
                let _ = v.pop();
            },
        }
        proof {
            if old(self).cells().len() > 0 {
                assert(self.cells() =~= old(self).cells().drop_last());
            } else {
                assert(self.cells() =~= old(self).cells());
            }
        }
    }

    /// Drops every value.
    pub fn clear(&mut self)
        ensures
            final(self).lane() == old(self).lane(),
            final(self).cells() == Seq::<Cell>::empty(),
    {
        match self {
            Column::Int(v) => v.clear(),
            Column::Float(v) => v.clear(),
            Column::Bool(v) => v.clear(),
            Column::Str(v) => v.clear(),
            Column::Bytes(v) => v.clear(),
            Column::Date(v) => v.clear(),
            Column::LocalTime(v) => v.clear(),
            Column::LocalDatetime(v) => v.clear(),
            Column::Duration(_, v) => v.clear(),
        }
        proof {
            assert(self.cells() =~= Seq::<Cell>::empty());
        }
    }

    /// One value of this column as the engine's appender takes it.
    ///
    /// A field borrows rather than owning, which is the point of it on a string column:
    /// the buffer already holds the bytes and the appender is about to copy them.
    pub fn field(&self, row: usize) -> (r: Field<'_>)
        requires
            row < self.cells().len(),
        ensures
            r.cell() == self.cells()[row as int],
    {
        match self {
            Column::Int(v) => Field::Int(v[row]),
            Column::Float(v) => Field::Float(v[row]),
            Column::Bool(v) => Field::Bool(v[row]),
            Column::Str(v) => Field::Str(v[row].as_str()),
            Column::Bytes(v) => Field::Bytes(v[row].as_slice()),
            Column::Date(v) => Field::Temporal(Temporal::Date(v[row])),
            Column::LocalTime(v) => Field::Temporal(Temporal::LocalTime(v[row])),
            Column::LocalDatetime(v) => Field::Temporal(Temporal::LocalDatetime(v[row])),
            Column::Duration(kind, v) => Field::Temporal(Temporal::Duration(*kind, v[row])),
        }
    }
}

/// Whole numbers as the nearest doubles.
fn doubles(ints: &Vec<i64>) -> (r: Vec<u64>)
    ensures
        r@.len() == ints@.len(),
        forall|i: int| 0 <= i < ints@.len() ==> is_double(#[trigger] r@[i], ints@[i] as int),
{
    let mut made: Vec<u64> = Vec::new();
    let mut at: usize = 0;
    while at < ints.len()
        invariant
            at <= ints@.len(),
            made@.len() == at,
            forall|i: int| 0 <= i < at ==> is_double(#[trigger] made@[i], ints@[i] as int),
        decreases ints@.len() - at,
    {
        made.push(double(ints[at] as i128));
        at += 1;
    }
    made
}

/// The name of the class a value was made by, in the words a sentence has room for.
pub open spec fn class_named(maker: Option<String>) -> Seq<char> {
    match maker {
        None => "an object"@,
        Some(name) => if name@.len() == 0 {
            "an object"@
        } else if vowel(name@[0]) {
            "an "@ + name@
        } else {
            "a "@ + name@
        },
    }
}

/// Whether a name that opens with this letter is read with `an` in front of it.
pub open spec fn vowel(c: char) -> bool {
    c == 'A' || c == 'E' || c == 'I' || c == 'O' || c == 'U'
}

/// What arrived, in the words a person writing JavaScript uses for it.
pub open spec fn named_as(value: Js) -> Seq<char> {
    match value {
        Js::Unread(_) => "a value this client could not read"@,
        Js::Undefined => "undefined"@,
        Js::Null => "null"@,
        Js::Object(thing) => class_named(thing.maker),
        _ => lowered("a "@ + kind_name(value.spec_kind())),
    }
}

/// What arrived, in the words a person writing JavaScript uses for it.
///
/// A class name where there is one, because `a ZuTimestamp` in a message about a column of
/// dates is the whole explanation.
pub fn named(value: &Js) -> (r: String)
    ensures
        r@ == named_as(*value),
{
    match value {
        Js::Unread(_) => "a value this client could not read".to_owned(),
        Js::Undefined => "undefined".to_owned(),
        Js::Null => "null".to_owned(),
        Js::Object(thing) => match &thing.maker {
            None => "an object".to_owned(),
            Some(name) => if name.as_str().unicode_len() == 0 {
                "an object".to_owned()
            } else {
                let first: char = name.as_str().get_char(0);
                if first == 'A' || first == 'E' || first == 'I' || first == 'O' || first == 'U' {
                    "an ".to_owned().concat(name.as_str())
                } else {
                    "a ".to_owned().concat(name.as_str())
                }
            },
        },
        other => lowercase("a ".to_owned().concat(spelled(other.kind()).as_str()).as_str()),
    }
}

fn copied(bytes: &Vec<u8>) -> (r: Vec<u8>)
    ensures
        r@ == bytes@,
{
    let made: Vec<u8> = bytes.clone();
    proof {
        assert(made@ =~= bytes@);
    }
    made
}

/// The instant a value carries, whichever of the two spellings it is written in.
///
/// The four classes first and `Temporal` second, which is the order a parameter is bound
/// in and for the same reason: a `Temporal` value has no own enumerable properties, so
/// anything that reads it as a plain object reads it as empty.
fn moment(value: &Js) -> (r: Result<Option<Temporal>, Mismatch>)
    ensures
        match r {
            Ok(found) => instant_of(*value) == Ok::<_, Complaint>(found),
            Err(why) => instant_of(*value) == Err::<Option<Temporal>, _>(why@),
        },
{
    match value {
        Js::Unread(reason) => Err(Mismatch::Boundary(Fault::Boundary(reason.clone()))),
        Js::Object(thing) => match temporal_from(&thing.class) {
            Err(fault) => Err(Mismatch::Boundary(fault)),
            Ok(Some(found)) => Ok(Some(found)),
            Ok(None) => match from_temporal("this value", &thing.tag, &thing.fields) {
                Err(fault) => Err(Mismatch::Boundary(fault)),
                Ok(found) => Ok(found),
            },
        },
        _ => Ok(None),
    }
}

/// A `bigint`, or a `number` that is a whole one.
fn read_int(value: &Js) -> (r: Result<Option<i64>, Mismatch>)
    ensures
        match r {
            Ok(n) => int_of(*value) == Ok::<_, Complaint>(n),
            Err(why) => int_of(*value) == Err::<Option<i64>, _>(why@),
        },
{
    match value {
        Js::Unread(reason) => Err(Mismatch::Boundary(Fault::Boundary(reason.clone()))),
        Js::BigInt(big) => {
            let (n, lossless): (i64, bool) = big.get_i64();
            if lossless {
                Ok(Some(n))
            } else {
                Err(
                    Mismatch::Says(
                        "it is a bigint outside what INT64 holds, which is -2^63 up to 2^63 - 1".to_owned(),
                    ),
                )
            }
        },
        Js::Number { bits, shown } => {
            let (whole, n): (bool, i128) = number::read(*bits);
            if !whole {
                return Err(
                    Mismatch::Says(
                        "it is ".to_owned().concat(shown.as_str()).concat(", which is not a whole number"),
                    ),
                );
            }
            if n < -PAST || n > PAST {
                return Err(
                    Mismatch::Says(
                        "it is ".to_owned().concat(shown.as_str()).concat(
                            ", which is past 2^53, where a number can no longer be told from \
                     its neighbours: write it as a bigint",
                        ),
                    ),
                );
            }
            Ok(Some(n as i64))
        },
        _ => Ok(None),
    }
}

/// What a column of these values is of, after the first `n` of them: what the first one started
/// it as, and floats from the first number on that is not a whole one.
pub open spec fn lane_after(items: Seq<Js>, n: nat) -> Lane
    decreases n,
{
    if n <= 1 {
        match starts(items[0]) {
            Ok(Some(lane)) => lane,
            _ => Lane::Int,
        }
    } else {
        let before = lane_after(items, (n - 1) as nat);
        if widens(before, items[n - 1]) { Lane::Float } else { before }
    }
}

/// What a value that does not agree with its column is refused with.
pub open spec fn disagrees(name: Seq<char>, row: nat, value: Js, why: Complaint) -> Seq<char> {
    match why {
        Complaint::Wanted(holds) => "column '"@ + name + "' holds "@ + holds + " and row "@ + decimal(row as int)
            + " is "@ + named_as(value),
        Complaint::Says(reason) => "row "@ + decimal(row as int) + " does not go in column '"@ + name + "': "@ + reason,
        Complaint::Boundary(trouble) => trouble.words(),
    }
}

/// What a column that starts with nothing a column holds is refused with.
pub open spec fn no_start(name: Seq<char>, row: nat, value: Js, what: Seq<char>) -> Seq<char> {
    "column '"@ + name + "' starts at row "@ + decimal(row as int) + " with "@ + named_as(value) + ", and "@ + what
        + " \
                                 holds booleans, integers, floats, strings, dates, times, \
                                 datetimes or durations"@
}

/// What a column of no values is refused with.
pub open spec fn no_values(name: Seq<char>) -> Seq<char> {
    "column '"@ + name + "' is empty, and an empty column says nothing about what it would hold"@
}

/// Why one value does not go in the column the values before it made, when it does not.
pub open spec fn row_refused(name: Seq<char>, items: Seq<Js>, row: nat, what: Seq<char>) -> Option<Seq<char>> {
    let value = items[row as int];
    if row == 0 {
        match starts(value) {
            Err(why) => Some(disagrees(name, row, value, why)),
            Ok(None) => Some(no_start(name, row, value, what)),
            Ok(Some(lane)) => match cell_of(lane, value) {
                Ok(_) => None,
                Err(why) => Some(disagrees(name, row, value, why)),
            },
        }
    } else {
        let lane = lane_after(items, row);
        if widens(lane, value) {
            None
        } else {
            match cell_of(lane, value) {
                Ok(_) => None,
                Err(why) => Some(disagrees(name, row, value, why)),
            }
        }
    }
}

/// The first refusal among the first `n` values.
pub open spec fn rows_refused(name: Seq<char>, items: Seq<Js>, n: nat, what: Seq<char>) -> Option<Seq<char>>
    decreases n,
{
    if n == 0 {
        None
    } else {
        match rows_refused(name, items, (n - 1) as nat, what) {
            Some(words) => Some(words),
            None => row_refused(name, items, (n - 1) as nat, what),
        }
    }
}

/// Whether a cell is what a value became: the nearest double to it for a whole number that went
/// in before the column became one of floats, and the value in the column's own lane otherwise.
pub open spec fn became(cell: Cell, items: Seq<Js>, row: int, lane: Lane) -> bool {
    if lane == Lane::Float && lane_after(items, (row + 1) as nat) == Lane::Int {
        int_of(items[row]) matches Ok(Some(n)) && cell matches Cell::Float(bits) && is_double(bits, n as int)
    } else {
        cell_of(lane, items[row]) == Ok::<_, Complaint>(cell)
    }
}

/// Whether this is the column the first `n` values make.
pub open spec fn is_column(column: Column, items: Seq<Js>, n: nat) -> bool {
    &&& column.lane() == lane_after(items, n)
    &&& column.cells().len() == n
    &&& forall|i: int| 0 <= i < n ==> became(#[trigger] column.cells()[i], items, i, column.lane())
}

fn disagreement(name: &str, row: usize, value: &Js, why: Mismatch) -> (r: String)
    ensures
        r@ == disagrees(name@, row as nat, *value, why@),
{
    match why {
        Mismatch::Wanted(holds) => "column '".to_owned().concat(name).concat("' holds ").concat(holds).concat(
            " and row ",
        ).concat(text::counted(row as u128).as_str()).concat(" is ").concat(named(value).as_str()),
        Mismatch::Says(reason) => "row ".to_owned().concat(text::counted(row as u128).as_str()).concat(
            " does not go in column '",
        ).concat(name).concat("': ").concat(reason.as_str()),
        Mismatch::Boundary(fault) => fault.reason(),
    }
}

proof fn lemma_refused_stops(name: Seq<char>, items: Seq<Js>, k: nat, n: nat, what: Seq<char>)
    requires
        k <= n,
        rows_refused(name, items, k, what) is Some,
    ensures
        rows_refused(name, items, n, what) == rows_refused(name, items, k, what),
    decreases n,
{
    if k < n {
        lemma_refused_stops(name, items, k, (n - 1) as nat, what);
    }
}

/// Once a column is one of floats, every number that went in as an integer did so before that.
proof fn lemma_lanes(items: Seq<Js>, i: nat, n: nat)
    requires
        1 <= i <= n,
    ensures
        lane_after(items, i) != Lane::Int ==> lane_after(items, n) == lane_after(items, i),
        lane_after(items, i) == Lane::Int ==> lane_after(items, n) == Lane::Int || lane_after(items, n) == Lane::Float,
    decreases n,
{
    if i < n {
        lemma_lanes(items, i, (n - 1) as nat);
    }
}

/// One column, read out of an array of JavaScript values.
///
/// The first value settles what the column is and every value after it has to agree, with the
/// one widening there is. `what` is what the message about a first value calls the column.
pub fn gathered(name: &str, items: &Vec<Js>, what: &str) -> (r: Result<Column, String>)
    ensures
        match r {
            Ok(column) => items@.len() > 0 && rows_refused(name@, items@, items@.len(), what@) is None && is_column(
                column,
                items@,
                items@.len(),
            ),
            Err(words) => if items@.len() == 0 {
                words@ == no_values(name@)
            } else {
                rows_refused(name@, items@, items@.len(), what@) == Some(words@)
            },
        },
{
    if items.len() == 0 {
        return Err(
            "column '".to_owned().concat(name).concat(
                "' is empty, and an empty column says nothing about what it would hold",
            ),
        );
    }
    proof {
        reveal_with_fuel(rows_refused, 2);
    }
    let first: &Js = &items[0];
    let mut column: Column = match Column::start(first) {
        Ok(Some(column)) => column,
        Ok(None) => {
            proof {
                lemma_refused_stops(name@, items@, 1, items@.len(), what@);
            }
            return Err(
                "column '".to_owned().concat(name).concat("' starts at row ").concat(text::counted(0).as_str()).concat(
                    " with ",
                ).concat(named(first).as_str()).concat(", and ").concat(what).concat(
                    " \
                                 holds booleans, integers, floats, strings, dates, times, \
                                 datetimes or durations",
                ),
            );
        },
        Err(why) => {
            proof {
                lemma_refused_stops(name@, items@, 1, items@.len(), what@);
            }
            return Err(disagreement(name, 0, first, why));
        },
    };
    let mut row: usize = 1;
    while row < items.len()
        invariant
            1 <= row <= items@.len(),
            rows_refused(name@, items@, row as nat, what@) is None,
            is_column(column, items@, row as nat),
        decreases items@.len() - row,
    {
        let ghost was = column;
        let value: &Js = &items[row];
        match column.widening_push(value) {
            Ok(()) => {
                proof {
                    lemma_grown(was, column, items@, row as nat);
                }
            },
            Err(why) => {
                proof {
                    lemma_refused_stops(name@, items@, (row + 1) as nat, items@.len(), what@);
                }
                return Err(disagreement(name, row, value, why));
            },
        }
        row += 1;
    }
    Ok(column)
}

proof fn lemma_grown(was: Column, column: Column, items: Seq<Js>, row: nat)
    requires
        1 <= row < items.len(),
        is_column(was, items, row),
        widens(was.lane(), items[row as int]) ==> column.lane() == Lane::Float && column.cells().len()
            == was.cells().len() + 1 && widened(column.cells().drop_last(), was.cells()) && column.cells().last()
            == Cell::Float(items[row as int]->bits),
        !widens(was.lane(), items[row as int]) ==> column.lane() == was.lane() && cell_of(
            was.lane(),
            items[row as int],
        ) is Ok && column.cells() == was.cells().push(cell_of(was.lane(), items[row as int])->Ok_0),
    ensures
        is_column(column, items, (row + 1) as nat),
{
    let lane = column.lane();
    assert(lane == lane_after(items, (row + 1) as nat));
    assert forall|i: int| 0 <= i < row + 1 implies became(#[trigger] column.cells()[i], items, i, lane) by {
        if i < row {
            assert(became(was.cells()[i], items, i, was.lane()));
            lemma_lanes(items, (i + 1) as nat, row);
            if widens(was.lane(), items[row as int]) {
                assert(column.cells().drop_last()[i] == column.cells()[i]);
                assert(was.cells()[i] is Int);
            } else {
                assert(column.cells()[i] == was.cells()[i]);
            }
        } else if widens(was.lane(), items[row as int]) {
            assert(column.cells().last() == column.cells()[i]);
        }
    }
}

/// A value goes into a column as the engine value it binds as: a truth value, an integer, a string,
/// a date, a time, a datetime and a duration as themselves, and a number in a column of floats as
/// the double it is, which is also the integer it binds as when it is a whole one.
pub proof fn law_a_cell_is_what_binds(lane: Lane, value: Js, cell: Cell, bound: Value, name: Seq<char>)
    requires
        lane != Lane::Bytes,
        value matches Js::Object(thing) ==> thing.items is None,
        cell_of(lane, value) == Ok::<_, Complaint>(cell),
        binds(bound, name, value),
    ensures
        match cell {
            Cell::Bool(b) => bound == Value::Bool(b),
            Cell::Int(n) => bound == Value::Int(n),
            Cell::Float(bits) => bound == Value::Float(bits) || (bound matches Value::Int(n) && whole(bits) && integral(
                bits,
            ) == n),
            Cell::Str(s) => bound matches Value::Str(t) && t@ == s,
            Cell::Bytes(_) => false,
            Cell::Temporal(t) => bound == Value::Temporal(t),
        },
        match lane {
            Lane::Bool => cell is Bool,
            Lane::Int => cell is Int,
            Lane::Float => cell is Float && value is Number && cell->Float_0 == value->bits,
            Lane::Str => cell is Str,
            Lane::Bytes => false,
            Lane::Date => cell matches Cell::Temporal(t) && t is Date,
            Lane::LocalTime => cell matches Cell::Temporal(t) && t is LocalTime,
            Lane::LocalDatetime => cell matches Cell::Temporal(t) && t is LocalDatetime,
            Lane::Duration(kind) => cell matches Cell::Temporal(t) && (t matches Temporal::Duration(found, _) && found
                == kind),
        },
{
    if let Js::Object(thing) = value {
        lemma_moment_is_one(name, "this value"@, thing.tag, thing.fields);
    }
}

/// Two values of one column are one cell only when they bind as one value.
pub proof fn law_two_values_are_not_one_cell(
    lane: Lane,
    one: Js,
    other: Js,
    cell: Cell,
    bound: Value,
    too: Value,
    name: Seq<char>,
)
    requires
        lane != Lane::Bytes,
        one matches Js::Object(thing) ==> thing.items is None,
        other matches Js::Object(thing) ==> thing.items is None,
        cell_of(lane, one) == Ok::<_, Complaint>(cell),
        cell_of(lane, other) == Ok::<_, Complaint>(cell),
        binds(bound, name, one),
        binds(too, name, other),
    ensures
        same_value(bound, too),
{
    law_a_cell_is_what_binds(lane, one, cell, bound, name);
    law_a_cell_is_what_binds(lane, other, cell, too, name);
}

/// A column takes exactly the values that bind as what it holds, and a column of floats every
/// number. A column of bytes takes exactly the byte arrays, as the bytes they are.
pub proof fn law_a_column_takes_what_it_holds(lane: Lane, value: Js, bound: Value, name: Seq<char>)
    requires
        value matches Js::Object(thing) ==> thing.items is None,
        binds(bound, name, value),
    ensures
        cell_of(lane, value) is Ok <==> match lane {
            Lane::Bool => bound is Bool,
            Lane::Int => bound is Int,
            Lane::Float => value is Number,
            Lane::Str => bound is Str,
            Lane::Bytes => value matches Js::Object(thing) && (thing.typed matches Some(bytes) && bytes is Some),
            Lane::Date => bound matches Value::Temporal(t) && t is Date,
            Lane::LocalTime => bound matches Value::Temporal(t) && t is LocalTime,
            Lane::LocalDatetime => bound matches Value::Temporal(t) && t is LocalDatetime,
            Lane::Duration(kind) => bound matches Value::Temporal(t) && (t matches Temporal::Duration(found, _) && found
                == kind),
        },
        value matches Js::Object(thing) ==> (thing.typed matches Some(Some(bytes)) ==> cell_of(Lane::Bytes, value)
            == Ok::<_, Complaint>(Cell::Bytes(bytes@))),
{
    if let Js::Object(thing) = value {
        lemma_moment_is_one(name, "this value"@, thing.tag, thing.fields);
    }
}

/// A value that could not be read goes into no column, and neither does one that is missing, a
/// function or a symbol; a number in a column of integers goes in exactly when it is a whole one
/// no further than 2^53 from nothing, and a `bigint` exactly when 64 signed bits hold it.
pub proof fn law_what_no_column_takes(lane: Lane, value: Js)
    ensures
        value is Unread || value is Undefined || value is Null || value is Symbol || value is Function
            || value is External || value is Unknown ==> cell_of(lane, value) is Err,
        value matches Js::Number { bits, .. } ==> (cell_of(Lane::Int, value) is Ok <==> whole(bits)
            && -9_007_199_254_740_992 <= integral(bits) <= 9_007_199_254_740_992) && (cell_of(Lane::Int, value) matches Ok(
            cell,
        ) ==> (cell matches Cell::Int(n) && n == integral(bits))) && cell_of(Lane::Float, value) == Ok::<_, Complaint>(
            Cell::Float(bits),
        ),
        value matches Js::BigInt(big) ==> (cell_of(Lane::Int, value) is Ok <==> big.high@.len() == 0 && (if big.negative {
            big.low <= 0x8000_0000_0000_0000
        } else {
            big.low < 0x8000_0000_0000_0000
        })) && (cell_of(Lane::Int, value) matches Ok(cell) ==> (cell matches Cell::Int(n) && n == (if big.negative {
            -(big.low as int)
        } else {
            big.low as int
        }))),
{
}

/// A column is read back value by value: each cell is the value at its place in the buffer, of the
/// type the buffer is of, and there are as many of them.
pub proof fn law_a_column_is_its_buffer(column: Column, at: int)
    ensures
        match column {
            Column::Int(v) => column.lane() is Int && column.cells().len() == v@.len() && (0 <= at < v@.len()
                ==> column.cells()[at] == Cell::Int(v@[at])),
            Column::Float(v) => column.lane() is Float && column.cells().len() == v@.len() && (0 <= at < v@.len()
                ==> column.cells()[at] == Cell::Float(v@[at])),
            Column::Bool(v) => column.lane() is Bool && column.cells().len() == v@.len() && (0 <= at < v@.len()
                ==> column.cells()[at] == Cell::Bool(v@[at])),
            Column::Str(v) => column.lane() is Str && column.cells().len() == v@.len() && (0 <= at < v@.len()
                ==> column.cells()[at] == Cell::Str(v@[at]@)),
            Column::Bytes(v) => column.lane() is Bytes && column.cells().len() == v@.len() && (0 <= at < v@.len()
                ==> column.cells()[at] == Cell::Bytes(v@[at]@)),
            Column::Date(v) => column.lane() is Date && column.cells().len() == v@.len() && (0 <= at < v@.len()
                ==> column.cells()[at] == Cell::Temporal(Temporal::Date(v@[at]))),
            Column::LocalTime(v) => column.lane() is LocalTime && column.cells().len() == v@.len() && (0 <= at
                < v@.len() ==> column.cells()[at] == Cell::Temporal(Temporal::LocalTime(v@[at]))),
            Column::LocalDatetime(v) => column.lane() is LocalDatetime && column.cells().len() == v@.len() && (0 <= at
                < v@.len() ==> column.cells()[at] == Cell::Temporal(Temporal::LocalDatetime(v@[at]))),
            Column::Duration(kind, v) => column.lane() == Lane::Duration(kind) && column.cells().len() == v@.len() && (0
                <= at < v@.len() ==> column.cells()[at] == Cell::Temporal(Temporal::Duration(kind, v@[at]))),
        },
{
}

/// A field handed over is the value of the column it was read from, and of the type that is.
pub proof fn law_a_field_is_its_cell(field: Field<'_>)
    ensures
        match field.cell() {
            Cell::Int(n) => field == Field::Int(n),
            Cell::Float(bits) => field == Field::Float(bits),
            Cell::Bool(b) => field == Field::Bool(b),
            Cell::Str(s) => field matches Field::Str(t) && t@ == s,
            Cell::Bytes(b) => field matches Field::Bytes(t) && t@ == b,
            Cell::Temporal(t) => field == Field::Temporal(t),
        },
{
}

/// A column is of a lane exactly when it is declared as the one type that lane is: 64 bits for an
/// integer and a float, no length for a string and for bytes, and the kind it is for a duration.
pub proof fn law_a_lane_is_one_type(ty: LogicalType, kind: DurationKind)
    ensures
        lane_for(ty) == Some(Lane::Int) <==> ty == (LogicalType::Int { signed: true, bits: IntBits::B64, precision: None }),
        lane_for(ty) == Some(Lane::Float) <==> ty == (LogicalType::Float { bits: FloatBits::B64, precision: None }),
        lane_for(ty) == Some(Lane::Bool) <==> ty == LogicalType::Bool,
        lane_for(ty) == Some(Lane::Str) <==> ty == (LogicalType::Str { min: None, max: None, fixed: false }),
        lane_for(ty) == Some(Lane::Bytes) <==> ty == (LogicalType::Bytes { min: None, max: None, fixed: false }),
        lane_for(ty) == Some(Lane::Date) <==> ty == LogicalType::Date,
        lane_for(ty) == Some(Lane::LocalTime) <==> ty == LogicalType::LocalTime,
        lane_for(ty) == Some(Lane::LocalDatetime) <==> ty == LogicalType::LocalDatetime,
        lane_for(ty) == Some(Lane::Duration(kind)) <==> ty == LogicalType::Duration(kind),
{
}

/// A column starts as what its first value binds as, when a column holds that: a whole number
/// starts one of integers and any other number one of floats. A time and a timestamp with an
/// offset, a list, a record and nothing start none.
pub proof fn law_a_column_starts_as_what_binds(value: Js, bound: Value, name: Seq<char>)
    requires
        value matches Js::Object(thing) ==> thing.items is None && thing.typed is None,
        binds(bound, name, value),
    ensures
        starts(value) == Ok::<_, Complaint>(
            match bound {
                Value::Bool(_) => Some(Lane::Bool),
                Value::Int(_) => Some(Lane::Int),
                Value::Float(_) => Some(Lane::Float),
                Value::Str(_) => Some(Lane::Str),
                Value::Temporal(Temporal::Date(_)) => Some(Lane::Date),
                Value::Temporal(Temporal::LocalTime(_)) => Some(Lane::LocalTime),
                Value::Temporal(Temporal::LocalDatetime(_)) => Some(Lane::LocalDatetime),
                Value::Temporal(Temporal::Duration(kind, _)) => Some(Lane::Duration(kind)),
                _ => None,
            },
        ),
        starts(value) matches Ok(Some(lane)) ==> cell_of(lane, value) is Ok,
{
    if let Js::Object(thing) = value {
        lemma_moment_is_one(name, "this value"@, thing.tag, thing.fields);
    }
}

/// A column of numbers is one of floats exactly when it started as one or met a number that is not
/// whole after it started as integers; every other column stays what it started as.
pub proof fn law_a_column_widens_for_a_fraction(items: Seq<Js>, n: nat)
    requires
        n >= 1,
    ensures
        lane_after(items, 1) != Lane::Int ==> lane_after(items, n) == lane_after(items, 1),
        lane_after(items, 1) == Lane::Int ==> lane_after(items, n) == (if exists|i: int|
            1 <= i < n && (#[trigger] items[i]) is Number && !whole(items[i]->bits) { Lane::Float } else { Lane::Int }),
        starts(items[0]) matches Ok(Some(lane)) ==> lane_after(items, 1) == lane,
    decreases n,
{
    if n > 1 {
        law_a_column_widens_for_a_fraction(items, (n - 1) as nat);
        if lane_after(items, 1) == Lane::Int {
            let last = items[n - 1];
            if exists|i: int| 1 <= i < n - 1 && (#[trigger] items[i]) is Number && !whole(items[i]->bits) {
                let i = choose|i: int| 1 <= i < n - 1 && (#[trigger] items[i]) is Number && !whole(items[i]->bits);
                assert(1 <= i < n && items[i] is Number && !whole(items[i]->bits));
            } else if last is Number && !whole(last->bits) {
                assert(1 <= n - 1 < n && items[n - 1] is Number && !whole(items[n - 1]->bits));
            }
        }
    }
}

/// Every number of a gathered column is in it as the number it was: as itself, or, in a column that
/// became one of floats later, as the double that is the same whole number. Every other value is
/// in it as the cell it is in that column.
pub proof fn law_gathered_values_are_kept(column: Column, items: Seq<Js>, row: int)
    requires
        0 <= row < items.len(),
        is_column(column, items, items.len()),
    ensures
        column.cells().len() == items.len(),
        column.lane() != Lane::Float ==> cell_of(column.lane(), items[row]) == Ok::<_, Complaint>(column.cells()[row]),
        column.lane() == Lane::Float ==> (column.cells()[row] matches Cell::Float(bits) && match items[row] {
            Js::Number { bits: given, .. } => bits == given || (whole(bits) && whole(given) && integral(bits)
                == integral(given)),
            Js::BigInt(big) => is_double(bits, big.signed()),
            _ => false,
        }),
{
    assert(became(column.cells()[row], items, row, column.lane()));
    if column.lane() == Lane::Float && lane_after(items, (row + 1) as nat) == Lane::Int {
        if let Js::Number { bits, .. } = items[row] {
            crate::number::law_exact(integral(bits));
        }
    }
}

proof fn lemma_first_refused(name: Seq<char>, items: Seq<Js>, n: nat, what: Seq<char>)
    ensures
        rows_refused(name, items, n, what) is None <==> forall|row: nat|
            row < n ==> #[trigger] row_refused(name, items, row, what) is None,
        rows_refused(name, items, n, what) matches Some(words) ==> exists|row: nat|
            row < n && #[trigger] row_refused(name, items, row, what) == Some(words) && forall|before: nat|
                before < row ==> #[trigger] row_refused(name, items, before, what) is None,
    decreases n,
{
    if n > 0 {
        lemma_first_refused(name, items, (n - 1) as nat, what);
        let last = row_refused(name, items, (n - 1) as nat, what);
        if rows_refused(name, items, (n - 1) as nat, what) is None {
            if let Some(words) = last {
                assert(row_refused(name, items, (n - 1) as nat, what) == Some(words));
            }
        }
    }
}

/// Values that agree with the column the first of them starts all go in, and otherwise the first
/// that does not is the one told of. In a column that is not of integers, to agree is to be of the
/// column's own lane; in one of integers a number that is not whole agrees as well.
pub proof fn law_the_first_that_disagrees_is_told(name: Seq<char>, items: Seq<Js>, what: Seq<char>, lane: Lane)
    requires
        items.len() > 0,
        starts(items[0]) == Ok::<_, Complaint>(Some(lane)),
    ensures
        lane != Lane::Int ==> (rows_refused(name, items, items.len(), what) is None <==> forall|i: int|
            0 <= i < items.len() ==> cell_of(lane, #[trigger] items[i]) is Ok),
        lane == Lane::Int && (forall|i: int| 0 <= i < items.len() ==> cell_of(Lane::Int, #[trigger] items[i]) is Ok)
            ==> rows_refused(name, items, items.len(), what) is None,
        lane == Lane::Int && rows_refused(name, items, items.len(), what) is None ==> forall|i: int|
            0 <= i < items.len() ==> (#[trigger] items[i]) is Number || items[i] is BigInt,
        rows_refused(name, items, items.len(), what) matches Some(words) ==> exists|row: nat|
            row < items.len() && #[trigger] row_refused(name, items, row, what) == Some(words) && forall|before: nat|
                before < row ==> #[trigger] row_refused(name, items, before, what) is None,
{
    lemma_first_refused(name, items, items.len(), what);
    assert forall|row: nat| row < items.len() && lane != Lane::Int implies (#[trigger] row_refused(name, items, row, what)
        is None <==> cell_of(lane, items[row as int]) is Ok) by {
        if row > 0 {
            law_a_column_widens_for_a_fraction(items, row);
        }
    }
    if lane != Lane::Int {
        if rows_refused(name, items, items.len(), what) is None {
            assert forall|i: int| 0 <= i < items.len() implies cell_of(lane, #[trigger] items[i]) is Ok by {
                assert(row_refused(name, items, i as nat, what) is None);
            }
        }
    } else {
        if forall|i: int| 0 <= i < items.len() ==> cell_of(Lane::Int, #[trigger] items[i]) is Ok {
            assert forall|row: nat| row < items.len() implies #[trigger] row_refused(name, items, row, what) is None by {
                assert(cell_of(Lane::Int, items[row as int]) is Ok);
                if row > 0 {
                    law_a_column_widens_for_a_fraction(items, row);
                    assert forall|i: int| 1 <= i < row && (#[trigger] items[i]) is Number implies whole(items[i]->bits) by {
                        assert(cell_of(Lane::Int, items[i]) is Ok);
                    }
                }
            }
        }
        if rows_refused(name, items, items.len(), what) is None {
            assert forall|i: int| 0 <= i < items.len() implies (#[trigger] items[i]) is Number || items[i] is BigInt by {
                assert(row_refused(name, items, i as nat, what) is None);
                if i > 0 {
                    law_a_column_widens_for_a_fraction(items, i as nat);
                }
            }
        }
    }
}

/// Each lane is told in words of its own.
pub proof fn law_a_lane_is_told_in_its_own_words(one: Lane, other: Lane)
    requires
        holding(one) == holding(other),
    ensures
        one == other,
{
    reveal_strlit("whole numbers");
    reveal_strlit("floats");
    reveal_strlit("booleans");
    reveal_strlit("strings");
    reveal_strlit("byte strings");
    reveal_strlit("dates");
    reveal_strlit("times");
    reveal_strlit("datetimes");
    reveal_strlit("year-month durations");
    reveal_strlit("day-time durations");
    assert("whole numbers"@.len() == 13 && "floats"@.len() == 6 && "booleans"@.len() == 8 && "strings"@.len() == 7);
    assert("byte strings"@.len() == 12 && "dates"@.len() == 5 && "times"@.len() == 5 && "datetimes"@.len() == 9);
    assert("year-month durations"@.len() == 20 && "day-time durations"@.len() == 18);
    assert("dates"@[0] == 'd' && "times"@[0] == 't');
}

/// A value that does not agree with its column is told of by the column, by its row and by what it is
/// or what is wrong with it; and one that could not be read by the reason it could not.
pub proof fn law_what_disagrees_is_told_of(name: Seq<char>, row: nat, value: Js, why: Complaint, what: Seq<char>)
    ensures
        ({
            let words = disagrees(name, row, value, why);
            match why {
                Complaint::Wanted(holds) => text::opens(
                    words,
                    "column '"@ + name + "' holds "@ + holds + " and row "@ + decimal(row as int),
                ) && words.len() >= named_as(value).len() && words.skip(words.len() - named_as(value).len()) == named_as(
                    value,
                ),
                Complaint::Says(reason) => text::opens(words, "row "@ + decimal(row as int)) && words.len() >= reason.len()
                    && words.skip(words.len() - reason.len()) == reason,
                Complaint::Boundary(trouble) => words == trouble.words(),
            }
        }),
        text::opens(
            no_start(name, row, value, what),
            "column '"@ + name + "' starts at row "@ + decimal(row as int) + " with "@ + named_as(value),
        ),
        text::opens(no_values(name), "column '"@ + name),
{
    let words = disagrees(name, row, value, why);
    match why {
        Complaint::Wanted(holds) => {
            let start = "column '"@ + name + "' holds "@ + holds + " and row "@ + decimal(row as int);
            assert(words.take(start.len() as int) =~= start);
            assert(words.skip(words.len() - named_as(value).len()) =~= named_as(value));
        },
        Complaint::Says(reason) => {
            let start = "row "@ + decimal(row as int);
            assert(words.take(start.len() as int) =~= start);
            assert(words.skip(words.len() - reason.len()) =~= reason);
        },
        Complaint::Boundary(_) => {},
    }
    let start = "column '"@ + name + "' starts at row "@ + decimal(row as int) + " with "@ + named_as(value);
    assert(no_start(name, row, value, what).take(start.len() as int) =~= start);
    let start = "column '"@ + name;
    assert(no_values(name).take(start.len() as int) =~= start);
}

/// What arrived is named by the class that made it, with the article that is read before it, and by
/// its kind where it has none.
pub proof fn law_a_value_is_named_by_its_class(thing: Thing, name: String)
    requires
        thing.maker == Some(name),
        name@.len() > 0,
    ensures
        ({
            let words = named_as(Js::Object(thing));
            let c = name@[0];
            if c == 'A' || c == 'E' || c == 'I' || c == 'O' || c == 'U' {
                words == "an "@ + name@
            } else {
                words == "a "@ + name@
            }
        }),
        named_as(Js::Null) == "null"@,
        named_as(Js::Undefined) == "undefined"@,
{
}

/// A value that could not be read is passed along for the reason it could not be, by every lane but
/// that of booleans, which wants a boolean, and it starts no column.
pub proof fn law_an_unread_value_is_passed_along(lane: Lane, reason: String)
    ensures
        lane != Lane::Bool ==> cell_of(lane, Js::Unread(reason)) == Err::<Cell, _>(
            Complaint::Boundary(Trouble::Boundary(reason@)),
        ),
        cell_of(Lane::Bool, Js::Unread(reason)) == Err::<Cell, _>(Complaint::Wanted(holding(Lane::Bool))),
        starts(Js::Unread(reason)) == Err::<Option<Lane>, _>(Complaint::Boundary(Trouble::Boundary(reason@))),
{
}

/// A time or a datetime with an offset goes into no column of local ones, and is told that it is the
/// offset; a value of another kind is told what the column holds.
pub proof fn law_an_offset_is_not_dropped(value: Js, found: Temporal, lane: Lane)
    requires
        instant_of(value) == Ok::<_, Complaint>(Some(found)),
    ensures
        found is ZonedTime ==> (cell_of(Lane::LocalTime, value) matches Err(why) && why is Says),
        found is ZonedDatetime ==> (cell_of(Lane::LocalDatetime, value) matches Err(why) && why is Says),
        found is ZonedTime || found is ZonedDatetime ==> cell_of(lane, value) is Err || lane is Bytes,
        !(found is Date) ==> cell_of(Lane::Date, value) == Err::<Cell, _>(Complaint::Wanted(holding(Lane::Date))),
        !(found is Duration) ==> cell_of(Lane::Duration(DurationKind::DayTime), value) == Err::<Cell, _>(
            Complaint::Wanted(holding(Lane::Duration(DurationKind::DayTime))),
        ),
{
}

} // verus!
