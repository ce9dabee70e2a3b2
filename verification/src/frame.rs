//! A frame of columns, described where the caller keeps them.
//!
//! The way in for data that is already in columns. What a JavaScript program holds columns
//! in is a typed array, and what an Arrow table holds them in is typed arrays too: words
//! back to back, one bit a row for a boolean, characters end to end with offsets cutting
//! them up. That is how this engine lays a column out as well, so what this module produces
//! is not a copy of any of it but a description: which array each column is in, where in it,
//! how wide its values are, and what they mean.
//!
//! Two things copy. A column an Arrow table holds in more than one chunk is concatenated,
//! because a column of a table is one run of bytes and three chunks are three of them. A
//! plain array of JavaScript values is read into buffers of this module's own, because there
//! is nothing there to point at.
//!
//! There is no null anywhere in it. A column with a gap in it can only ever be refused, and
//! refusing it by name and row number is the difference between a caller who knows which
//! cell to fix and one who knows only that something somewhere was empty.

use vstd::prelude::*;
use vstd::utf8::encode_utf8;

use crate::buffer::{became, gathered, is_column, lane_after, lane_for, named, named_as, no_values, rows_refused, Cell, Column, FloatBits, IntBits, Lane, LogicalType};
use crate::js::{said, Js, Kind, Thing};
use crate::load;
use crate::number::{cast_i64, cast_usize, is_zero, to_i64, to_usize, zero};
use crate::temporal::DurationKind;
use crate::text::{self, decimal};

verus! {

/// What the elements of a typed array are.
#[derive(Clone, Copy, PartialEq, Eq, Structural)]
pub enum Elements {
    I8,
    U8,
    I16,
    U16,
    I32,
    U32,
    I64,
    U64,
    F32,
    F64,
}

/// One of the caller's typed arrays: which of them it is, what its elements are, and the
/// bytes under them.
#[derive(Clone, Copy)]
pub struct Lent<'a> {
    pub id: usize,
    pub kind: Elements,
    pub raw: &'a [u8],
}

/// What one value of a column is, in the terms the engine reads it in.
///
/// This is the layout and not the meaning: a date and a count of days are the same `Int`,
/// and the logical type beside it is what tells them apart.
#[derive(Clone, Copy, PartialEq, Eq, Structural)]
pub enum Elem {
    Int {
        bits: IntBits,
        signed: bool,
        /// What one value is multiplied by to reach the unit its meaning counts in, which
        /// is where Arrow's microseconds meet this engine's nanoseconds.
        scale: i64,
    },
    Float(FloatBits),
    /// One bit a row, low bit of the first byte first.
    Bool,
    /// Characters end to end with offsets cutting them up, 64 bits wide or 32.
    Str { wide: bool },
}

/// How many bytes an integer of this width takes.
pub open spec fn int_width(bits: IntBits) -> nat {
    match bits {
        IntBits::B8 => 1,
        IntBits::B16 => 2,
        IntBits::B32 => 4,
        IntBits::B64 => 8,
        IntBits::B128 => 16,
        IntBits::B256 => 32,
    }
}

/// How many bytes a float of this width takes.
pub open spec fn float_width(bits: FloatBits) -> nat {
    match bits {
        FloatBits::B16 => 2,
        FloatBits::B32 => 4,
        FloatBits::B64 => 8,
        FloatBits::B128 => 16,
        FloatBits::B256 => 32,
    }
}

impl Elem {
    /// How many bytes one value takes, which for a boolean is the byte eight of them share.
    pub open spec fn spec_width(&self) -> nat {
        match self {
            Elem::Int { bits, .. } => int_width(*bits),
            Elem::Float(bits) => float_width(*bits),
            Elem::Bool => 1,
            Elem::Str { wide } => if *wide { 8 } else { 4 },
        }
    }

    /// How many bytes one value takes.
    pub fn width(&self) -> (r: usize)
        ensures
            r == self.spec_width(),
            1 <= r <= 32,
    {
        match self {
            Elem::Int { bits, .. } => match bits {
                IntBits::B8 => 1,
                IntBits::B16 => 2,
                IntBits::B32 => 4,
                IntBits::B64 => 8,
                IntBits::B128 => 16,
                IntBits::B256 => 32,
            },
            Elem::Float(bits) => match bits {
                FloatBits::B16 => 2,
                FloatBits::B32 => 4,
                FloatBits::B64 => 8,
                FloatBits::B128 => 16,
                FloatBits::B256 => 32,
            },
            Elem::Bool => 1,
            Elem::Str { wide } => if *wide { 8 } else { 4 },
        }
    }
}

/// An integer that counts in its own unit.
pub open spec fn plain_int(bits: IntBits, signed: bool) -> Elem {
    Elem::Int { bits, signed, scale: 1 }
}

/// What one element of a typed array is, in the terms a layout is written in.
pub open spec fn elem_of(kind: Elements) -> Elem {
    match kind {
        Elements::I8 => plain_int(IntBits::B8, true),
        Elements::U8 => plain_int(IntBits::B8, false),
        Elements::I16 => plain_int(IntBits::B16, true),
        Elements::U16 => plain_int(IntBits::B16, false),
        Elements::I32 => plain_int(IntBits::B32, true),
        Elements::U32 => plain_int(IntBits::B32, false),
        Elements::I64 => plain_int(IntBits::B64, true),
        Elements::U64 => plain_int(IntBits::B64, false),
        Elements::F32 => Elem::Float(FloatBits::B32),
        Elements::F64 => Elem::Float(FloatBits::B64),
    }
}

impl<'a> Lent<'a> {
    /// What one element of it is, in the terms a layout is written in.
    pub fn elem(&self) -> (r: Elem)
        ensures
            r == elem_of(self.kind),
    {
        match self.kind {
            Elements::I8 => Elem::Int { bits: IntBits::B8, signed: true, scale: 1 },
            Elements::U8 => Elem::Int { bits: IntBits::B8, signed: false, scale: 1 },
            Elements::I16 => Elem::Int { bits: IntBits::B16, signed: true, scale: 1 },
            Elements::U16 => Elem::Int { bits: IntBits::B16, signed: false, scale: 1 },
            Elements::I32 => Elem::Int { bits: IntBits::B32, signed: true, scale: 1 },
            Elements::U32 => Elem::Int { bits: IntBits::B32, signed: false, scale: 1 },
            Elements::I64 => Elem::Int { bits: IntBits::B64, signed: true, scale: 1 },
            Elements::U64 => Elem::Int { bits: IntBits::B64, signed: false, scale: 1 },
            Elements::F32 => Elem::Float(FloatBits::B32),
            Elements::F64 => Elem::Float(FloatBits::B64),
        }
    }

    /// How many elements it holds.
    pub fn len(&self) -> (r: usize)
        ensures
            r == self.raw@.len() / elem_of(self.kind).spec_width(),
    {
        let width: usize = self.elem().width();
        self.raw.len() / width
    }
}

/// The type of an Arrow column, by what its fields read as. A number is the bits of the
/// double it is.
pub struct ArrowType {
    /// Arrow's own number for the type.
    pub id: Result<i32, String>,
    /// What the type calls itself.
    pub printed: Option<String>,
    pub bit_width: Result<u64, String>,
    pub is_signed: Result<bool, String>,
    pub precision: Result<u64, String>,
    pub unit: Result<u64, String>,
    /// The zone, when it is a string.
    pub timezone: Result<Option<String>, String>,
}

/// How many nanoseconds one count of an Arrow time unit is.
pub open spec fn nanos_per(unit: int) -> i64 {
    if unit == 0 {
        1_000_000_000
    } else if unit == 1 {
        1_000_000
    } else if unit == 2 {
        1_000
    } else {
        1
    }
}

/// How many nanoseconds one count of an Arrow time unit is.
pub fn nanos(unit: i64) -> (r: i64)
    ensures
        r == nanos_per(unit as int),
{
    match unit {
        0 => 1_000_000_000,
        1 => 1_000_000,
        2 => 1_000,
        _ => 1,
    }
}

/// A signed count of a width, and what it means.
pub open spec fn counts(bits: IntBits, scale: i64, means: LogicalType) -> (LogicalType, Elem) {
    (means, Elem::Int { bits, signed: true, scale })
}

/// A string of any length.
pub open spec fn characters() -> LogicalType {
    LogicalType::Str { min: None, max: None, fixed: false }
}

/// What a type calls itself in a message, which is its number when it does not say.
pub open spec fn arrow_name(ty: ArrowType, id: i32) -> Seq<char> {
    match ty.printed {
        Some(name) => name@,
        None => "type "@ + decimal(id as int),
    }
}

/// What an Arrow column that is not taken is told.
pub open spec fn untaken(name: Seq<char>, printed: Seq<char>, instead: Seq<char>) -> Seq<char> {
    "column '"@ + name + "' is "@ + printed + ", and "@ + instead
}

/// What a column of instants in a zone is told instead.
pub open spec fn zoned(zone: Seq<char>) -> Seq<char> {
    "a column of this table has nowhere to keep '"@ + zone
        + "', so drop the zone once \
                     the values are in the zone you want them in, or write it as a string"@
}

/// What one Arrow column holds, and how wide its values are.
///
/// The type ids are Arrow's own and the numbers are part of its format rather than of any
/// one library.
pub open spec fn meaning_of(name: Seq<char>, ty: ArrowType) -> Result<(LogicalType, Elem), Seq<char>> {
    match ty.id {
        Err(reason) => Err(reason@),
        Ok(id) => {
            let printed = arrow_name(ty, id);
            if id == 2 {
                match ty.bit_width {
                    Err(reason) => Err(reason@),
                    Ok(width) => match ty.is_signed {
                        Err(reason) => Err(reason@),
                        Ok(signed) => match int_bits(cast_i64(width)) {
                            None => Err(
                                untaken(name, printed, "this engine reads integers of 8, 16, 32 and 64 bits"@),
                            ),
                            Some(bits) => Ok(
                                (LogicalType::Int { signed, bits, precision: None }, plain_int(bits, signed)),
                            ),
                        },
                    },
                }
            } else if id == 3 {
                match ty.precision {
                    Err(reason) => Err(reason@),
                    Ok(precision) => match float_bits(cast_i64(precision)) {
                        None => Err(untaken(name, printed, "this engine reads 32 and 64 bit floats"@)),
                        Some(bits) => Ok((LogicalType::Float { bits, precision: None }, Elem::Float(bits))),
                    },
                }
            } else if id == 6 {
                Ok((LogicalType::Bool, Elem::Bool))
            } else if id == 5 {
                Ok((characters(), Elem::Str { wide: false }))
            } else if id == 20 {
                Ok((characters(), Elem::Str { wide: true }))
            } else if id == 8 {
                match ty.unit {
                    Err(reason) => Err(reason@),
                    Ok(unit) => if cast_i64(unit) == 0 {
                        Ok(counts(IntBits::B32, 1, LogicalType::Date))
                    } else {
                        Err(
                            untaken(
                                name,
                                printed,
                                "a date of this engine counts whole days, so cast it to Date32 or read it as \
                     a datetime"@,
                            ),
                        )
                    },
                }
            } else if id == 9 {
                match ty.unit {
                    Err(reason) => Err(reason@),
                    Ok(unit) => {
                        let unit = cast_i64(unit);
                        if unit == 0 {
                            Ok(counts(IntBits::B32, 1_000_000_000, LogicalType::LocalTime))
                        } else if unit == 1 {
                            Ok(counts(IntBits::B32, 1_000_000, LogicalType::LocalTime))
                        } else if unit == 2 {
                            Ok(counts(IntBits::B64, 1_000, LogicalType::LocalTime))
                        } else {
                            Ok(counts(IntBits::B64, 1, LogicalType::LocalTime))
                        }
                    },
                }
            } else if id == 10 {
                match ty.timezone {
                    Err(reason) => Err(reason@),
                    Ok(Some(zone)) => Err(untaken(name, printed, zoned(zone@))),
                    Ok(None) => match ty.unit {
                        Err(reason) => Err(reason@),
                        Ok(unit) => Ok(counts(IntBits::B64, nanos_per(cast_i64(unit)), LogicalType::LocalDatetime)),
                    },
                }
            } else if id == 18 {
                match ty.unit {
                    Err(reason) => Err(reason@),
                    Ok(unit) => Ok(
                        counts(
                            IntBits::B64,
                            nanos_per(cast_i64(unit)),
                            LogicalType::Duration(DurationKind::DayTime),
                        ),
                    ),
                }
            } else if id == 11 {
                match ty.unit {
                    Err(reason) => Err(reason@),
                    Ok(unit) => if cast_i64(unit) == 0 {
                        Ok(counts(IntBits::B32, 1, LogicalType::Duration(DurationKind::YearMonth)))
                    } else {
                        Err(
                            untaken(
                                name,
                                printed,
                                "a duration of this engine is months or it is nanoseconds, so cast it to \
                     Interval<YEAR_MONTH> or to a Duration"@,
                            ),
                        )
                    },
                }
            } else if id == -1 {
                Err(
                    untaken(
                        name,
                        printed,
                        "a dictionary is a layout rather than a type here, so cast it to what it holds \
                 first"@,
                    ),
                )
            } else if id == 4 || id == 19 || id == 23 {
                Err(
                    untaken(
                        name,
                        printed,
                        "no statement can read a column of bytes back yet, so registering one would be \
                 naming data the caller cannot get at"@,
                    ),
                )
            } else {
                Err(
                    untaken(
                        name,
                        printed,
                        "a column holds booleans, integers, floats, strings, dates, times, datetimes or \
                 durations"@,
                    ),
                )
            }
        },
    }
}

/// The integers this engine reads, by how many bits they have.
pub open spec fn int_bits(width: int) -> Option<IntBits> {
    if width == 8 {
        Some(IntBits::B8)
    } else if width == 16 {
        Some(IntBits::B16)
    } else if width == 32 {
        Some(IntBits::B32)
    } else if width == 64 {
        Some(IntBits::B64)
    } else {
        None
    }
}

/// The floats this engine reads, by Arrow's numbers for their precisions.
pub open spec fn float_bits(precision: int) -> Option<FloatBits> {
    if precision == 1 {
        Some(FloatBits::B32)
    } else if precision == 2 {
        Some(FloatBits::B64)
    } else {
        None
    }
}

fn refused(name: &str, printed: &str, instead: &str) -> (r: String)
    ensures
        r@ == untaken(name@, printed@, instead@),
{
    "column '".to_owned().concat(name).concat("' is ").concat(printed).concat(", and ").concat(instead)
}

fn held<T: Copy>(read: &Result<T, String>) -> (r: Result<T, String>)
    ensures
        said(r) == said(*read),
{
    match read {
        Ok(value) => Ok(*value),
        Err(reason) => Err(reason.clone()),
    }
}

fn word(bits: IntBits, scale: i64, means: LogicalType) -> (r: (LogicalType, Elem))
    ensures
        r == counts(bits, scale, means),
{
    (means, Elem::Int { bits, signed: true, scale })
}

/// What one Arrow column holds, and how wide its values are.
pub fn meaning(name: &str, ty: &ArrowType) -> (r: Result<(LogicalType, Elem), String>)
    ensures
        said(r) == meaning_of(name@, *ty),
{
    let id: i32 = held(&ty.id)?;
    let printed: String = match &ty.printed {
        Some(name) => name.clone(),
        None => "type ".to_owned().concat(text::integer(id as i128).as_str()),
    };
    let printed: &str = printed.as_str();
    match id {
        // Integers, whose width and signedness are on the type rather than in the id.
        2 => {
            let width: u64 = held(&ty.bit_width)?;
            let signed: bool = held(&ty.is_signed)?;
            let bits: IntBits = match to_i64(width) {
                8 => IntBits::B8,
                16 => IntBits::B16,
                32 => IntBits::B32,
                64 => IntBits::B64,
                _ => {
                    return Err(refused(name, printed, "this engine reads integers of 8, 16, 32 and 64 bits"));
                },
            };
            Ok((LogicalType::Int { signed, bits, precision: None }, Elem::Int { bits, signed, scale: 1 }))
        },
        3 => {
            let precision: u64 = held(&ty.precision)?;
            let bits: FloatBits = match to_i64(precision) {
                1 => FloatBits::B32,
                2 => FloatBits::B64,
                _ => return Err(refused(name, printed, "this engine reads 32 and 64 bit floats")),
            };
            Ok((LogicalType::Float { bits, precision: None }, Elem::Float(bits)))
        },
        6 => Ok((LogicalType::Bool, Elem::Bool)),
        // The two string layouts that cut one buffer up with offsets.
        5 => Ok((LogicalType::Str { min: None, max: None, fixed: false }, Elem::Str { wide: false })),
        20 => Ok((LogicalType::Str { min: None, max: None, fixed: false }, Elem::Str { wide: true })),
        // A date is days when its unit is days and milliseconds when it is not.
        8 => match to_i64(held(&ty.unit)?) {
            0 => Ok(word(IntBits::B32, 1, LogicalType::Date)),
            _ => Err(
                refused(
                    name,
                    printed,
                    "a date of this engine counts whole days, so cast it to Date32 or read it as \
                     a datetime",
                ),
            ),
        },
        // A time, a datetime and a duration are all counts, and what differs is the unit they
        // count in and what the count means.
        9 => match to_i64(held(&ty.unit)?) {
            0 => Ok(word(IntBits::B32, 1_000_000_000, LogicalType::LocalTime)),
            1 => Ok(word(IntBits::B32, 1_000_000, LogicalType::LocalTime)),
            2 => Ok(word(IntBits::B64, 1_000, LogicalType::LocalTime)),
            _ => Ok(word(IntBits::B64, 1, LogicalType::LocalTime)),
        },
        10 => {
            match &ty.timezone {
                Err(reason) => return Err(reason.clone()),
                Ok(Some(zone)) => {
                    return Err(
                        refused(
                            name,
                            printed,
                            "a column of this table has nowhere to keep '".to_owned().concat(zone.as_str()).concat(
                                "', so drop the zone once \
                     the values are in the zone you want them in, or write it as a string",
                            ).as_str(),
                        ),
                    );
                },
                Ok(None) => {},
            }
            Ok(word(IntBits::B64, nanos(to_i64(held(&ty.unit)?)), LogicalType::LocalDatetime))
        },
        18 => Ok(
            word(IntBits::B64, nanos(to_i64(held(&ty.unit)?)), LogicalType::Duration(DurationKind::DayTime)),
        ),
        11 => match to_i64(held(&ty.unit)?) {
            0 => Ok(word(IntBits::B32, 1, LogicalType::Duration(DurationKind::YearMonth))),
            _ => Err(
                refused(
                    name,
                    printed,
                    "a duration of this engine is months or it is nanoseconds, so cast it to \
                     Interval<YEAR_MONTH> or to a Duration",
                ),
            ),
        },
        -1 => Err(
            refused(
                name,
                printed,
                "a dictionary is a layout rather than a type here, so cast it to what it holds \
                 first",
            ),
        ),
        4 | 19 | 23 => Err(
            refused(
                name,
                printed,
                "no statement can read a column of bytes back yet, so registering one would be \
                 naming data the caller cannot get at",
            ),
        ),
        _ => Err(
            refused(
                name,
                printed,
                "a column holds booleans, integers, floats, strings, dates, times, datetimes or \
                 durations",
            ),
        ),
    }
}

/// The offsets that cut a string column up, 32 bits wide in Arrow's `Utf8` and 64 in its
/// `LargeUtf8`, and which of the caller's arrays they are.
#[derive(Clone, Copy)]
pub struct Cuts<'a> {
    pub id: usize,
    pub held: Offsets<'a>,
}

/// The elements of an offset array.
#[derive(Clone, Copy)]
pub enum Offsets<'a> {
    I32(&'a [i32]),
    I64(&'a [i64]),
    /// An array that holds no offsets.
    Other,
}

impl<'a> Cuts<'a> {
    /// One offset, when there is one there.
    pub open spec fn spec_offset(&self, at: int) -> Option<i64> {
        match self.held {
            Offsets::I32(v) => if 0 <= at < v@.len() { Some(v@[at] as i64) } else { None },
            Offsets::I64(v) => if 0 <= at < v@.len() { Some(v@[at]) } else { None },
            Offsets::Other => None,
        }
    }

    /// One offset of a string column's offset array.
    pub fn offset(&self, at: usize) -> (r: Option<i64>)
        ensures
            r == self.spec_offset(at as int),
    {
        match self.held {
            Offsets::I32(v) => if at < v.len() { Some(v[at] as i64) } else { None },
            Offsets::I64(v) => if at < v.len() { Some(v[at]) } else { None },
            Offsets::Other => None,
        }
    }
}

/// One chunk of one Arrow column, by what its fields read as.
///
/// Slicing narrows the values buffer and the offsets buffer to the rows that were kept, so
/// those two already start at row zero of the chunk. It leaves the validity bitmap and a
/// boolean column's bits alone, because both count in bits. So `offset` means those two
/// buffers and nothing else.
pub struct Chunk<'a> {
    pub length: Result<u64, String>,
    pub offset: Result<u64, String>,
    /// The bytes of the validity bitmap, when there is one.
    pub bitmap: Result<Option<&'a [u8]>, String>,
    pub values: Result<Option<Lent<'a>>, String>,
    pub cuts: Result<Option<Cuts<'a>>, String>,
}

/// One chunk of one Arrow column, read.
#[derive(Clone, Copy)]
pub struct Piece<'a> {
    pub rows: usize,
    /// Which bit of the validity bitmap, and of a boolean column's data, this chunk's first
    /// row is.
    pub at: usize,
    pub values: Lent<'a>,
    pub cuts: Option<Cuts<'a>>,
}

/// Whether a bit of a byte is set, counting from the lowest.
pub open spec fn bit(byte: u8, k: int) -> bool {
    (byte >> (k as u8)) & 1 == 1
}

/// Whether a bit of a run of bytes is there and set, counting from the lowest of the first.
pub open spec fn bit_set(raw: Seq<u8>, i: int) -> bool {
    0 <= i / 8 < raw.len() && bit(raw[i / 8], i % 8)
}

fn is_set(raw: &[u8], i: u128) -> (r: bool)
    ensures
        r == bit_set(raw@, i as int),
{
    let byte: u128 = i / 8;
    if byte >= raw.len() as u128 {
        return false;
    }
    let k: u8 = (i % 8) as u8;
    (raw[byte as usize] >> k) & 1 == 1
}

/// The first row from `row` on whose bit is not set.
pub open spec fn clear_from(raw: Seq<u8>, at: int, row: int, rows: int) -> Option<int>
    decreases rows - row,
{
    if row >= rows {
        None
    } else if !bit_set(raw, at + row) {
        Some(row)
    } else {
        clear_from(raw, at, row + 1, rows)
    }
}

/// Which row of this chunk holds nothing, when one does.
///
/// The validity bitmap is a bit a row, set where there is a value. A chunk whose bitmap is
/// empty has none of them clear.
pub open spec fn hole_of(chunk: Chunk<'_>) -> Result<Option<int>, Seq<char>> {
    match chunk.bitmap {
        Err(reason) => Err(reason@),
        Ok(None) => Ok(None),
        Ok(Some(raw)) => if raw@.len() == 0 {
            Ok(None)
        } else {
            match chunk.length {
                Err(reason) => Err(reason@),
                Ok(rows) => match chunk.offset {
                    Err(reason) => Err(reason@),
                    Ok(at) => Ok(clear_from(raw@, cast_usize(at), 0, cast_usize(rows))),
                },
            }
        },
    }
}

fn hole(chunk: &Chunk<'_>) -> (r: Result<Option<usize>, String>)
    ensures
        match r {
            Err(words) => hole_of(*chunk) == Err::<Option<int>, _>(words@),
            Ok(None) => hole_of(*chunk) == Ok::<Option<int>, Seq<char>>(None),
            Ok(Some(row)) => hole_of(*chunk) == Ok::<_, Seq<char>>(Some(row as int)),
        },
{
    let raw: &[u8] = match &chunk.bitmap {
        Err(reason) => return Err(reason.clone()),
        Ok(None) => return Ok(None),
        Ok(Some(raw)) => *raw,
    };
    if raw.len() == 0 {
        return Ok(None);
    }
    let rows: usize = to_usize(held(&chunk.length)?);
    let at: usize = to_usize(held(&chunk.offset)?);
    let mut row: usize = 0;
    while row < rows
        invariant
            row <= rows,
            hole_of(*chunk) == Ok::<_, Seq<char>>(clear_from(raw@, at as int, 0, rows as int)),
            clear_from(raw@, at as int, 0, rows as int) == clear_from(raw@, at as int, row as int, rows as int),
        decreases rows - row,
    {
        if !is_set(raw, at as u128 + row as u128) {
            return Ok(Some(row));
        }
        row += 1;
    }
    Ok(None)
}

/// What a chunk with no values in it is told.
pub open spec fn missing(name: Seq<char>) -> Seq<char> {
    "column '"@ + name + "' is a shape this client cannot find the values of"@
}

/// One chunk of one Arrow column, read, or why it could not be.
pub open spec fn piece_of<'a>(name: Seq<char>, elem: Elem, chunk: Chunk<'a>) -> Result<Piece<'a>, Seq<char>> {
    match chunk.length {
        Err(reason) => Err(reason@),
        Ok(rows) => match chunk.offset {
            Err(reason) => Err(reason@),
            Ok(at) => match chunk.values {
                Err(reason) => Err(reason@),
                Ok(None) => Err(missing(name)),
                Ok(Some(values)) => {
                    let rows = cast_usize(rows) as usize;
                    let at = cast_usize(at) as usize;
                    if elem is Str {
                        match chunk.cuts {
                            Err(reason) => Err(reason@),
                            Ok(None) => Err(missing(name)),
                            Ok(Some(cuts)) => Ok(Piece { rows, at, values, cuts: Some(cuts) }),
                        }
                    } else {
                        Ok(Piece { rows, at, values, cuts: None })
                    }
                },
            },
        },
    }
}

fn missing_words(name: &str) -> (r: String)
    ensures
        r@ == missing(name@),
{
    "column '".to_owned().concat(name).concat("' is a shape this client cannot find the values of")
}

fn piece<'a>(name: &str, elem: &Elem, chunk: &Chunk<'a>) -> (r: Result<Piece<'a>, String>)
    ensures
        said(r) == piece_of(name@, *elem, *chunk),
{
    let rows: usize = to_usize(held(&chunk.length)?);
    let at: usize = to_usize(held(&chunk.offset)?);
    let values: Lent<'a> = match &chunk.values {
        Err(reason) => return Err(reason.clone()),
        Ok(None) => return Err(missing_words(name)),
        Ok(Some(values)) => *values,
    };
    let cuts: Option<Cuts<'a>> = match elem {
        Elem::Str { .. } => match &chunk.cuts {
            Err(reason) => return Err(reason.clone()),
            Ok(None) => return Err(missing_words(name)),
            Ok(Some(cuts)) => Some(*cuts),
        },
        _ => None,
    };
    Ok(Piece { rows, at, values, cuts })
}

/// Where bytes are: which of the caller's arrays or of this client's buffers they are in, and
/// how many bytes into it.
#[derive(Clone, Copy, PartialEq, Eq, Structural)]
pub enum Place {
    Lent { id: usize, at: usize },
    Owned { index: usize, at: usize },
}

/// How a column's values are laid out.
#[allow(inconsistent_fields)]
pub enum Layout {
    Int { place: Place, bits: IntBits, signed: bool, scale: i64 },
    Float { place: Place, bits: FloatBits },
    /// One bit a row.
    Bool { place: Place },
    /// `rows + 1` offsets into characters end to end.
    Str { offsets: Place, wide: bool, data: Place, data_len: usize },
}

/// One buffer this client built, because a JavaScript value is not a column and something has
/// to hold the bytes.
///
/// What a run of eight-byte words means is said by the logical type recorded beside it, and a
/// count of nanoseconds and a number are the same eight bytes.
pub enum Bytes {
    Eight(Vec<u64>),
    Four(Vec<u32>),
    One(Vec<u8>),
    /// The `rows + 1` offsets that cut a string column up, always 32 bits wide.
    Offsets(Vec<i32>),
    /// Values of some width back to back, copied as they lay, to be kept where a value of that
    /// width may be read.
    Run { width: usize, bytes: Vec<u8> },
}

/// What a registered frame's bytes are: the caller's arrays, which have to be kept, and the
/// buffers this client built.
pub struct Held {
    pub lent: Vec<usize>,
    pub owned: Vec<Bytes>,
}

impl Held {
    /// Whether this is another one with these arrays and so many buffers more.
    pub open spec fn more(&self, before: Held, lent: Seq<usize>, owned: nat) -> bool {
        &&& self.lent@ == before.lent@ + lent
        &&& self.owned@.len() == before.owned@.len() + owned
        &&& self.owned@.take(before.owned@.len() as int) == before.owned@
    }

    /// Holding nothing.
    pub fn new() -> (r: Held)
        ensures
            r.lent@.len() == 0,
            r.owned@.len() == 0,
    {
        Held { lent: Vec::new(), owned: Vec::new() }
    }

    /// Keeps one of the caller's arrays and says where its bytes are.
    fn lend(&mut self, array: &Lent<'_>) -> (r: Place)
        ensures
            final(self).more(*old(self), seq![array.id], 0),
            r == (Place::Lent { id: array.id, at: 0 }),
    {
        self.keep(array.id)
    }

    /// Keeps one of the caller's arrays and says where its bytes are.
    fn keep(&mut self, id: usize) -> (r: Place)
        ensures
            final(self).more(*old(self), seq![id], 0),
            r == (Place::Lent { id, at: 0 }),
    {
        self.lent.push(id);
        proof {
            assert(self.lent@ =~= old(self).lent@ + seq![id]);
            assert(self.owned@.take(old(self).owned@.len() as int) =~= old(self).owned@);
        }
        Place::Lent { id, at: 0 }
    }

    /// Keeps one buffer of this client's own and says where it is.
    fn own(&mut self, bytes: Bytes) -> (r: Place)
        ensures
            final(self).more(*old(self), Seq::empty(), 1),
            final(self).has(r),
            final(self).at(r) == bytes,
    {
        let index: usize = self.owned.len();
        self.owned.push(bytes);
        proof {
            assert(self.lent@ =~= old(self).lent@ + Seq::<usize>::empty());
            assert(self.owned@.take(old(self).owned@.len() as int) =~= old(self).owned@);
        }
        Place::Owned { index, at: 0 }
    }
}

/// The layout a fixed width column of this element is read through.
pub open spec fn plain_at(elem: Elem, place: Place) -> Layout {
    match elem {
        Elem::Float(bits) => Layout::Float { place, bits },
        Elem::Int { bits, signed, scale } => Layout::Int { place, bits, signed, scale },
        _ => Layout::Bool { place },
    }
}

/// The layout a fixed width column of this element is read through.
fn plain(elem: Elem, place: Place) -> (r: Layout)
    ensures
        r == plain_at(elem, place),
{
    match elem {
        Elem::Float(bits) => Layout::Float { place, bits },
        Elem::Int { bits, signed, scale } => Layout::Int { place, bits, signed, scale },
        _ => Layout::Bool { place },
    }
}

/// An empty buffer of the width an element is read through.
pub open spec fn is_empty(bytes: Bytes, elem: Elem) -> bool {
    bytes matches Bytes::Run { width, bytes } && width == elem.spec_width() && bytes@.len() == 0
}

fn empty(elem: &Elem) -> (r: Bytes)
    ensures
        is_empty(r, *elem),
{
    Bytes::Run { width: elem.width(), bytes: Vec::new() }
}

/// How many rows these chunks hold between them.
pub open spec fn total_rows(pieces: Seq<Piece<'_>>) -> nat
    decreases pieces.len(),
{
    if pieces.len() == 0 {
        0
    } else {
        total_rows(pieces.drop_last()) + pieces.last().rows as nat
    }
}

/// The bytes of fixed width values, one chunk after another.
pub open spec fn joined_words(width: nat, pieces: Seq<Piece<'_>>) -> Seq<u8>
    decreases pieces.len(),
{
    if pieces.len() == 0 {
        Seq::empty()
    } else {
        joined_words(width, pieces.drop_last()) + pieces.last().values.raw@.take(
            (pieces.last().rows * width) as int,
        )
    }
}

/// Whether every chunk holds as many bytes as its rows take.
pub open spec fn words_there(width: nat, pieces: Seq<Piece<'_>>) -> bool {
    forall|i: int|
        0 <= i < pieces.len() ==> (#[trigger] pieces[i]).rows * width <= pieces[i].values.raw@.len()
}

/// Where a fixed width column's words are.
///
/// The values buffer of a chunk already starts at that chunk's first row, sliced or not, so
/// one chunk is lent exactly as it arrived. Several are copied one after another, as they lie.
fn words(elem: Elem, pieces: &Vec<Piece<'_>>, held: &mut Held) -> (r: Place)
    requires
        pieces@.len() != 1 ==> words_there(elem.spec_width(), pieces@),
    ensures
        final(held).extends(*old(held)),
        words_at(r, *final(held), elem.spec_width(), pieces@),
{
    let ghost before = *held;
    if pieces.len() == 1 {
        let place: Place = held.lend(&pieces[0].values);
        proof {
            lemma_more_extends(before, *held, seq![pieces@[0].values.id], 0);
            assert(held.keeps(seq![pieces@[0].values.id][0]));
        }
        return place;
    }
    let width: usize = elem.width();
    let mut built: Vec<u8> = Vec::new();
    let mut at: usize = 0;
    while at < pieces.len()
        invariant
            width == elem.spec_width(),
            words_there(width as nat, pieces@),
            at <= pieces@.len(),
            built@ == joined_words(width as nat, pieces@.take(at as int)),
        decreases pieces@.len() - at,
    {
        let piece: Piece<'_> = pieces[at];
        let size: usize = piece.values.raw.len();
        proof {
            let more = pieces@.take(at as int + 1);
            assert(more.drop_last() =~= pieces@.take(at as int));
            assert(pieces@[at as int].rows * width <= size);
        }
        let ghost before = built@;
        let taken: &[u8] = vstd::slice::slice_subrange(piece.values.raw, 0, piece.rows * width);
        append(&mut built, taken);
        proof {
            assert(taken@ =~= piece.values.raw@.take((piece.rows * width) as int));
        }
        at += 1;
    }
    proof {
        assert(pieces@.take(at as int) =~= pieces@);
    }
    let place: Place = held.own(Bytes::Run { width, bytes: built });
    proof {
        lemma_more_extends(before, *held, Seq::empty(), 1);
    }
    place
}

/// Copies bytes onto the end of others.
fn append(built: &mut Vec<u8>, more: &[u8])
    ensures
        final(built)@ == old(built)@ + more@,
{
    let ghost before = built@;
    built.extend_from_slice(more);
    proof {
        assert(built@ =~= before + more@);
    }
}

/// How many bytes so many bits take, one at the least.
pub open spec fn bytes_for(rows: nat) -> nat {
    if rows == 0 { 1 } else { (rows + 7) / 8 }
}

/// Whether these bytes hold these bits, one a row, with every bit past the last of them clear.
pub open spec fn is_bitmap(bytes: Seq<u8>, bits: Seq<bool>) -> bool {
    &&& bytes.len() == bytes_for(bits.len())
    &&& forall|i: int| 0 <= i < 8 * bytes.len() ==> #[trigger] bit_set(bytes, i) == (i < bits.len() && bits[i])
}

proof fn lemma_bits(byte: u8, k: u8, j: u8)
    by (bit_vector)
    requires
        k < 8,
        j < 8,
    ensures
        (((byte | (1u8 << k)) >> j) & 1 == 1) <==> ((byte >> j) & 1 == 1 || j == k),
        (0u8 >> j) & 1 == 0,
{
}

/// Bytes enough for so many bits, all of them clear.
fn cleared(rows: usize) -> (r: Vec<u8>)
    ensures
        r@.len() == bytes_for(rows as nat),
        forall|i: int| !#[trigger] bit_set(r@, i),
{
    let whole: usize = rows / 8;
    let n: usize = if rows == 0 {
        1
    } else if rows % 8 == 0 {
        whole
    } else {
        whole + 1
    };
    let made: Vec<u8> = vec![0u8; n];
    proof {
        assert forall|i: int| !#[trigger] bit_set(made@, i) by {
            if 0 <= i / 8 < made@.len() {
                lemma_bits(0, 0, (i % 8) as u8);
                assert(made@[i / 8] == 0);
            }
        }
    }
    made
}

/// Sets one bit.
fn set(built: &mut Vec<u8>, row: usize)
    requires
        row / 8 < old(built)@.len(),
    ensures
        final(built)@.len() == old(built)@.len(),
        forall|i: int| 0 <= i ==> #[trigger] bit_set(final(built)@, i) == (bit_set(old(built)@, i) || i == row),
{
    let at: usize = row / 8;
    let k: u8 = (row % 8) as u8;
    let ghost before = built@;
    let byte: u8 = built[at];
    built.set(at, byte | (1u8 << k));
    proof {
        assert forall|i: int| 0 <= i implies #[trigger] bit_set(built@, i) == (bit_set(before, i) || i == row) by {
            if i / 8 == at {
                lemma_bits(byte, k, (i % 8) as u8);
            }
        }
    }
}

/// A boolean column's bits, one chunk after another.
pub open spec fn joined_bits(pieces: Seq<Piece<'_>>) -> Seq<bool>
    decreases pieces.len(),
{
    if pieces.len() == 0 {
        Seq::empty()
    } else {
        joined_bits(pieces.drop_last()) + Seq::new(
            pieces.last().rows as nat,
            |j: int| bit_set(pieces.last().values.raw@, pieces.last().at + j),
        )
    }
}

/// Whether every row of every chunk has a bit.
pub open spec fn bits_there(pieces: Seq<Piece<'_>>) -> bool {
    forall|i: int|
        0 <= i < pieces.len() ==> (#[trigger] pieces[i]).rows == 0 || (pieces[i].at + pieces[i].rows - 1) / 8
            < pieces[i].values.raw@.len()
}

/// Whether a boolean column is one chunk whose first row is a whole byte in, which is read
/// where it lies because the engine reads a bitmap from a byte boundary.
pub open spec fn aligned(pieces: Seq<Piece<'_>>) -> bool {
    pieces.len() == 1 && pieces[0].at % 8 == 0
}

proof fn lemma_joined_bits(pieces: Seq<Piece<'_>>)
    ensures
        joined_bits(pieces).len() == total_rows(pieces),
    decreases pieces.len(),
{
    if pieces.len() > 0 {
        lemma_joined_bits(pieces.drop_last());
    }
}

proof fn lemma_rows_grow(pieces: Seq<Piece<'_>>, n: int)
    requires
        0 <= n <= pieces.len(),
    ensures
        total_rows(pieces.take(n)) <= total_rows(pieces),
    decreases pieces.len(),
{
    if n == pieces.len() {
        assert(pieces.take(n) =~= pieces);
    } else {
        lemma_rows_grow(pieces.drop_last(), n);
        assert(pieces.drop_last().take(n) =~= pieces.take(n));
    }
}

/// Where a boolean column's bitmap is.
///
/// A chunk that starts partway through a byte, or a column of several chunks, is rebuilt, which
/// is a bit a row and happens once.
fn bits(pieces: &Vec<Piece<'_>>, rows: usize, held: &mut Held) -> (r: Place)
    requires
        rows == total_rows(pieces@),
        aligned(pieces@) || bits_there(pieces@),
    ensures
        final(held).extends(*old(held)),
        bits_at(r, *final(held), pieces@),
{
    let ghost before = *held;
    if pieces.len() == 1 && pieces[0].at % 8 == 0 {
        let byte: usize = pieces[0].at / 8;
        let id: usize = pieces[0].values.id;
        let _ = held.lend(&pieces[0].values);
        proof {
            lemma_more_extends(before, *held, seq![id], 0);
            assert(held.keeps(seq![id][0]));
        }
        return Place::Lent { id, at: byte };
    }
    let mut built: Vec<u8> = cleared(rows);
    let mut row: usize = 0;
    let mut at: usize = 0;
    while at < pieces.len()
        invariant
            rows == total_rows(pieces@),
            bits_there(pieces@),
            at <= pieces@.len(),
            row == total_rows(pieces@.take(at as int)),
            row <= rows,
            built@.len() == bytes_for(rows as nat),
            forall|i: int|
                0 <= i ==> #[trigger] bit_set(built@, i) == (i < row && joined_bits(pieces@.take(at as int))[i]),
        decreases pieces@.len() - at,
    {
        let piece: Piece<'_> = pieces[at];
        let ghost before = joined_bits(pieces@.take(at as int));
        let ghost start = row;
        proof {
            let more = pieces@.take(at as int + 1);
            assert(more.drop_last() =~= pieces@.take(at as int));
            lemma_joined_bits(pieces@.take(at as int));
            lemma_rows_grow(pieces@, at as int + 1);
            assert(pieces@[at as int] == piece);
        }
        let ghost after = joined_bits(pieces@.take(at as int + 1));
        let mut local: usize = 0;
        while local < piece.rows
            invariant
                piece.rows == 0 || (piece.at + piece.rows - 1) / 8 < piece.values.raw@.len(),
                local <= piece.rows,
                row == start + local,
                start + piece.rows <= rows,
                start == before.len(),
                after == before + Seq::new(piece.rows as nat, |j: int| bit_set(piece.values.raw@, piece.at + j)),
                built@.len() == bytes_for(rows as nat),
                forall|i: int| 0 <= i ==> #[trigger] bit_set(built@, i) == (i < row && after[i]),
            decreases piece.rows - local,
        {
            proof {
                assert(after[row as int] == bit_set(piece.values.raw@, piece.at + local));
                assert(row as int / 8 < built@.len());
            }
            if is_set(piece.values.raw, piece.at as u128 + local as u128) {
                set(&mut built, row);
            }
            row += 1;
            local += 1;
        }
        at += 1;
    }
    proof {
        assert(pieces@.take(at as int) =~= pieces@);
        lemma_joined_bits(pieces@);
    }
    let place: Place = held.own(Bytes::One(built));
    proof {
        lemma_more_extends(before, *held, Seq::empty(), 1);
    }
    place
}

/// What a string column with no offsets is told.
pub open spec fn uncut(name: Seq<char>) -> Seq<char> {
    "column '"@ + name + "' holds strings and does not say where they are cut"@
}

/// What a string column with offsets nothing here reads is told.
pub open spec fn unreadable(name: Seq<char>) -> Seq<char> {
    "column '"@ + name + "' is cut by offsets this client cannot read"@
}

/// What a string column with too many characters in it is told.
pub open spec fn too_long(name: Seq<char>) -> Seq<char> {
    "column '"@ + name
        + "' holds more than two gigabytes of characters once its chunks are \
                 put together, which is further than the offsets of a frame reach"@
}

/// Where a chunk's characters start and end, by its first offset and its last.
pub open spec fn span_of(name: Seq<char>, piece: Piece<'_>) -> Result<(usize, usize), Seq<char>> {
    match piece.cuts {
        None => Err(uncut(name)),
        Some(cuts) => match (cuts.spec_offset(0), cuts.spec_offset(piece.rows as int)) {
            (Some(from), Some(to)) => Ok((from as usize, to as usize)),
            _ => Err(unreadable(name)),
        },
    }
}

/// An offset of a chunk.
pub open spec fn cut(piece: Piece<'_>, row: int) -> usize {
    match piece.cuts {
        None => 0,
        Some(cuts) => match cuts.spec_offset(row) {
            Some(offset) => offset as usize,
            None => 0,
        },
    }
}

fn span(name: &str, piece: &Piece<'_>) -> (r: Result<(usize, usize), String>)
    ensures
        said(r) == span_of(name@, *piece),
        r matches Ok(both) ==> both == (cut(*piece, 0), cut(*piece, piece.rows as int)),
{
    let cuts: Cuts<'_> = match piece.cuts {
        None => {
            return Err("column '".to_owned().concat(name).concat("' holds strings and does not say where they are cut"));
        },
        Some(cuts) => cuts,
    };
    match (cuts.offset(0), cuts.offset(piece.rows)) {
        (Some(from), Some(to)) => Ok((from as usize, to as usize)),
        _ => Err("column '".to_owned().concat(name).concat("' is cut by offsets this client cannot read")),
    }
}

/// One offset of a rebuilt string column, which is 32 bits wide.
fn narrow(name: &str, offset: u128) -> (r: Result<i32, String>)
    ensures
        match r {
            Ok(n) => n == offset,
            Err(words) => offset > i32::MAX && words@ == too_long(name@),
        },
{
    if offset > i32::MAX as u128 {
        Err(
            "column '".to_owned().concat(name).concat(
                "' holds more than two gigabytes of characters once its chunks are \
                 put together, which is further than the offsets of a frame reach",
            ),
        )
    } else {
        Ok(offset as i32)
    }
}

/// A chunk's offsets counted from the first of them, so that its first string starts at zero.
pub open spec fn rebased(piece: Piece<'_>, rows: nat) -> Seq<int> {
    Seq::new(rows, |row: int| cut(piece, row) - cut(piece, 0))
}

/// Whether every one of these is an offset of 32 bits.
pub open spec fn narrows(cuts: Seq<int>) -> bool {
    forall|i: int| 0 <= i < cuts.len() ==> (#[trigger] cuts[i]) <= i32::MAX
}

/// Where the strings of a chunk end, counted from where its characters start in the column.
pub open spec fn ends_of(piece: Piece<'_>, base: nat) -> Seq<int> {
    Seq::new(piece.rows as nat, |row: int| cut(piece, row + 1) - cut(piece, 0) + base)
}

/// Why the offsets of a chunk cannot be counted from where its characters start in the column,
/// when they cannot: by the first of them from `row` on that is before the chunk's first or
/// further than an offset reaches.
pub open spec fn miscut(name: Seq<char>, piece: Piece<'_>, base: nat, row: int) -> Option<Denied>
    decreases piece.rows + 1 - row,
{
    if row > piece.rows {
        None
    } else if cut(piece, row) < cut(piece, 0) {
        Some(Denied::Broken)
    } else if cut(piece, row) - cut(piece, 0) + base > i32::MAX {
        Some(Denied::Words(too_long(name)))
    } else {
        miscut(name, piece, base, row + 1)
    }
}

proof fn lemma_well_cut(name: Seq<char>, piece: Piece<'_>, base: nat, row: int)
    requires
        miscut(name, piece, base, row) is None,
    ensures
        forall|k: int|
            row <= k <= piece.rows ==> cut(piece, 0) <= #[trigger] cut(piece, k) && cut(piece, k) - cut(piece, 0) + base
                <= i32::MAX,
    decreases piece.rows + 1 - row,
{
    if row <= piece.rows {
        lemma_well_cut(name, piece, base, row + 1);
    }
}

/// A string column of several chunks: the characters one chunk after another, and the offsets
/// that cut them up, or why it could not be had, which is what the first chunk says that cannot
/// be put after the ones before it.
pub open spec fn joined_strings(name: Seq<char>, pieces: Seq<Piece<'_>>) -> Result<(Seq<u8>, Seq<int>), Denied>
    decreases pieces.len(),
{
    if pieces.len() == 0 {
        Ok((Seq::empty(), seq![0int]))
    } else {
        match joined_strings(name, pieces.drop_last()) {
            Err(denied) => Err(denied),
            Ok((data, cuts)) => match span_of(name, pieces.last()) {
                Err(words) => Err(Denied::Words(words)),
                Ok((from, to)) => if !(from <= to <= pieces.last().values.raw@.len()) {
                    Err(Denied::Broken)
                } else {
                    match miscut(name, pieces.last(), data.len(), 1) {
                        Some(denied) => Err(denied),
                        None => Ok(
                            (
                                data + pieces.last().values.raw@.subrange(from as int, to as int),
                                cuts + ends_of(pieces.last(), data.len()),
                            ),
                        ),
                    }
                },
            },
        }
    }
}

/// Where a string column's characters and offsets are.
///
/// The characters are never copied for one chunk. What may be is the offsets: the engine reads
/// a column whose first offset is zero, and a chunk that is a slice of a longer array starts
/// somewhere else, so the offsets are rebased and the characters are pointed at from where that
/// chunk's first one begins. A column of several chunks is the one case where the characters do
/// move.
fn strings(name: &str, wide: bool, pieces: &Vec<Piece<'_>>, held: &mut Held) -> (r: Result<Layout, Untaken>)
    ensures
        final(held).extends(*old(held)),
        match strings_refused(name@, pieces@) {
            Some(denied) => r is Err && r->Err_0@ == denied,
            None => r is Ok && strings_at(r->Ok_0, *final(held), name@, wide, pieces@),
        },
{
    proof {
        lemma_extends_itself(*held);
    }
    if pieces.len() == 1 {
        let one: Piece<'_> = pieces[0];
        return one_string(name, wide, &one, Ghost(pieces@), held);
    }
    let mut data: Vec<u8> = Vec::new();
    let mut offsets: Vec<i32> = Vec::new();
    offsets.push(0);
    let mut at: usize = 0;
    proof {
        assert(offsets@.map_values(|n: i32| n as int) =~= seq![0int]);
        assert(pieces@.take(0) =~= Seq::<Piece<'_>>::empty());
    }
    while at < pieces.len()
        invariant
            *held == *old(held),
            held.extends(*old(held)),
            pieces@.len() != 1,
            at <= pieces@.len(),
            joined_strings(name@, pieces@.take(at as int)) == Ok::<_, Denied>(
                (data@, offsets@.map_values(|n: i32| n as int)),
            ),
        decreases pieces@.len() - at,
    {
        let piece: Piece<'_> = pieces[at];
        let ghost data0 = data@;
        let ghost cuts0 = offsets@.map_values(|n: i32| n as int);
        proof {
            let more = pieces@.take(at as int + 1);
            assert(more.drop_last() =~= pieces@.take(at as int));
            assert(more.last() == piece);
        }
        let (from, to): (usize, usize) = match span(name, &piece) {
            Ok(both) => both,
            Err(words) => {
                proof {
                    lemma_joined_stops(name@, pieces@, at as int + 1);
                }
                return Err(Untaken::Words(words));
            },
        };
        if from > to || to > piece.values.raw.len() {
            proof {
                lemma_joined_stops(name@, pieces@, at as int + 1);
            }
            return Err(Untaken::Broken);
        }
        let base: usize = data.len();
        append(&mut data, vstd::slice::slice_subrange(piece.values.raw, from, to));
        let ghost ends = ends_of(piece, base as nat);
        let mut row: usize = 0;
        while row < piece.rows
            invariant
                *held == *old(held),
                held.extends(*old(held)),
                pieces@.len() != 1,
                at < pieces@.len(),
                piece == pieces@[at as int],
                from == cut(piece, 0),
                span_of(name@, piece) == Ok::<_, Seq<char>>((from, to)),
                pieces@.take(at as int + 1).drop_last() == pieces@.take(at as int),
                pieces@.take(at as int + 1).last() == piece,
                joined_strings(name@, pieces@.take(at as int)) == Ok::<_, Denied>((data0, cuts0)),
                base == data0.len(),
                ends == ends_of(piece, base as nat),
                from <= to <= piece.values.raw@.len(),
                row <= piece.rows,
                miscut(name@, piece, base as nat, 1) == miscut(name@, piece, base as nat, row + 1),
                offsets@.map_values(|n: i32| n as int) == cuts0 + ends.take(row as int),
            decreases piece.rows - row,
        {
            let next: usize = row + 1;
            let raw: usize = match piece.cuts {
                Some(cuts) => match cuts.offset(next) {
                    Some(offset) => offset as usize,
                    None => 0,
                },
                None => 0,
            };
            proof {
                assert(raw == cut(piece, next as int));
                assert(ends[row as int] == raw - from + base);
            }
            if raw < from {
                proof {
                    lemma_joined_stops(name@, pieces@, at as int + 1);
                }
                return Err(Untaken::Broken);
            }
            let end: u128 = (raw - from) as u128 + base as u128;
            match narrow(name, end) {
                Ok(n) => {
                    let ghost mapped = offsets@.map_values(|n: i32| n as int);
                    offsets.push(n);
                    proof {
                        assert(offsets@.map_values(|n: i32| n as int) =~= mapped.push(n as int));
                        assert(ends.take(row as int + 1) =~= ends.take(row as int).push(n as int));
                        assert(offsets@.map_values(|n: i32| n as int) =~= cuts0 + ends.take(row as int + 1));
                    }
                },
                Err(words) => {
                    proof {
                        lemma_joined_stops(name@, pieces@, at as int + 1);
                    }
                    return Err(Untaken::Words(words));
                },
            }
            row += 1;
        }
        proof {
            assert(ends.take(row as int) =~= ends);
        }
        at += 1;
    }
    proof {
        assert(pieces@.take(at as int) =~= pieces@);
    }
    let data_len: usize = data.len();
    // The characters first, and the offsets after them.
    let ghost before = *held;
    let place: Place = held.own(Bytes::One(data));
    let ghost between = *held;
    let offsets: Place = held.own(Bytes::Offsets(offsets));
    proof {
        lemma_more_extends(before, between, Seq::empty(), 1);
        lemma_more_extends(between, *held, Seq::empty(), 1);
        lemma_extends_twice(before, between, *held);
        lemma_extends_keeps(between, *held);
        assert(held.has(place));
    }
    Ok(Layout::Str { offsets, wide: false, data: place, data_len })
}

proof fn lemma_joined_stops(name: Seq<char>, pieces: Seq<Piece<'_>>, k: int)
    requires
        0 <= k <= pieces.len(),
        joined_strings(name, pieces.take(k)) is Err,
    ensures
        joined_strings(name, pieces) == joined_strings(name, pieces.take(k)),
    decreases pieces.len(),
{
    if k == pieces.len() {
        assert(pieces.take(k) =~= pieces);
    } else {
        assert(pieces.drop_last().take(k) =~= pieces.take(k));
        lemma_joined_stops(name, pieces.drop_last(), k);
    }
}

fn one_string(
    name: &str,
    wide: bool,
    one: &Piece<'_>,
    Ghost(pieces): Ghost<Seq<Piece<'_>>>,
    held: &mut Held,
) -> (r: Result<Layout, Untaken>)
    requires
        pieces.len() == 1,
        pieces[0] == *one,
    ensures
        final(held).extends(*old(held)),
        match strings_refused(name@, pieces) {
            Some(denied) => r is Err && r->Err_0@ == denied,
            None => r is Ok && strings_at(r->Ok_0, *final(held), name@, wide, pieces),
        },
{
    proof {
        lemma_extends_itself(*held);
    }
    let (from, to): (usize, usize) = match span(name, one) {
        Ok(both) => both,
        Err(words) => return Err(Untaken::Words(words)),
    };
    let cuts: Cuts<'_> = match one.cuts {
        Some(cuts) => cuts,
        None => return Err(Untaken::Broken),
    };
    let ghost before = *held;
    if from == 0 {
        let data: Place = held.lend(&one.values);
        let ghost between = *held;
        let offsets: Place = held.keep(cuts.id);
        proof {
            lemma_more_extends(before, between, seq![one.values.id], 0);
            lemma_more_extends(between, *held, seq![cuts.id], 0);
            lemma_extends_twice(before, between, *held);
            lemma_extends_keeps(between, *held);
            assert(between.keeps(seq![one.values.id][0]));
            assert(held.keeps(one.values.id));
            assert(held.keeps(seq![cuts.id][0]));
        }
        return Ok(Layout::Str { offsets, wide, data, data_len: to });
    }
    // What is rebuilt is the `rows + 1` numbers that cut the characters up, which is four bytes
    // a row against however many characters a row holds.
    let ghost all = rebased(*one, (one.rows + 1) as nat);
    let mut made: Vec<i32> = Vec::new();
    let last: u128 = one.rows as u128;
    let mut row: u128 = 0;
    proof {
        assert(made@.map_values(|n: i32| n as int) =~= all.take(0));
    }
    while row <= last
        invariant
            *held == before,
            before == *old(held),
            held.extends(*old(held)),
            pieces.len() == 1,
            pieces[0] == *one,
            span_of(name@, *one) == Ok::<_, Seq<char>>((from, to)),
            from == cut(*one, 0),
            from != 0,
            one.cuts == Some(cuts),
            all == rebased(*one, (one.rows + 1) as nat),
            last == one.rows,
            row <= last + 1,
            made@.map_values(|n: i32| n as int) == all.take(row as int),
            row == 0 || miscut(name@, *one, 0, 1) == miscut(name@, *one, 0, row as int),
        decreases last + 1 - row,
    {
        let raw: usize = match cuts.offset(row as usize) {
            Some(offset) => offset as usize,
            None => 0,
        };
        proof {
            assert(raw == cut(*one, row as int));
            assert(all[row as int] == raw - from);
        }
        if raw < from {
            return Err(Untaken::Broken);
        }
        match narrow(name, (raw - from) as u128) {
            Ok(n) => {
                let ghost mapped = made@.map_values(|n: i32| n as int);
                made.push(n);
                proof {
                    assert(made@.map_values(|n: i32| n as int) =~= mapped.push(n as int));
                    assert(all.take(row as int + 1) =~= all.take(row as int).push(n as int));
                }
            },
            Err(words) => return Err(Untaken::Words(words)),
        }
        row += 1;
    }
    proof {
        assert(all.take(row as int) =~= all);
        lemma_well_cut(name@, *one, 0, 1);
    }
    let _ = held.lend(&one.values);
    let ghost between = *held;
    let offsets: Place = held.own(Bytes::Offsets(made));
    proof {
        lemma_more_extends(before, between, seq![one.values.id], 0);
        lemma_more_extends(between, *held, Seq::empty(), 1);
        lemma_extends_twice(before, between, *held);
        lemma_extends_keeps(between, *held);
        assert(between.keeps(seq![one.values.id][0]));
        assert(held.keeps(one.values.id));
    }
    Ok(
        Layout::Str {
            offsets,
            wide: false,
            data: Place::Lent { id: one.values.id, at: from },
            data_len: to - from,
        },
    )
}

impl Held {
    /// Whether everything another one holds is held here too, where it was.
    pub open spec fn extends(&self, before: Held) -> bool {
        &&& before.lent@.len() <= self.lent@.len()
        &&& self.lent@.take(before.lent@.len() as int) == before.lent@
        &&& before.owned@.len() <= self.owned@.len()
        &&& self.owned@.take(before.owned@.len() as int) == before.owned@
    }

    /// Whether one of the caller's arrays is kept.
    pub open spec fn keeps(&self, id: usize) -> bool {
        self.lent@.contains(id)
    }

    /// Whether a place is the start of a buffer of this client's own that is there.
    pub open spec fn has(&self, place: Place) -> bool {
        place matches Place::Owned { index, at } && at == 0 && index < self.owned@.len()
    }

    /// The buffer a place is the start of.
    pub open spec fn at(&self, place: Place) -> Bytes {
        self.owned@[place->Owned_index as int]
    }
}

/// Whether these are the words of a fixed width column: where they lie for one chunk, and in one
/// run for several.
pub open spec fn words_at(place: Place, held: Held, width: nat, pieces: Seq<Piece<'_>>) -> bool {
    if pieces.len() == 1 {
        place == (Place::Lent { id: pieces[0].values.id, at: 0 }) && held.keeps(pieces[0].values.id)
    } else {
        held.has(place) && (held.at(place) matches Bytes::Run { width: w, bytes } && w == width && bytes@ == joined_words(
            width,
            pieces,
        ))
    }
}

/// Whether these are the bits of a boolean column: where they lie when they start at a byte, and
/// in a bitmap of their own when they do not.
pub open spec fn bits_at(place: Place, held: Held, pieces: Seq<Piece<'_>>) -> bool {
    if aligned(pieces) {
        place == (Place::Lent { id: pieces[0].values.id, at: pieces[0].at / 8 }) && held.keeps(pieces[0].values.id)
    } else {
        held.has(place) && (held.at(place) matches Bytes::One(bytes) && is_bitmap(bytes@, joined_bits(pieces)))
    }
}

/// Whether these are offsets of this client's own.
pub open spec fn offsets_at(place: Place, held: Held, cuts: Seq<int>) -> bool {
    held.has(place) && (held.at(place) matches Bytes::Offsets(made) && made@.map_values(|n: i32| n as int) == cuts)
}

/// Whether these are the strings of a column: where they lie for one chunk, with the offsets
/// counted again when they do not start at zero, and in one run for several.
pub open spec fn strings_at(layout: Layout, held: Held, name: Seq<char>, wide: bool, pieces: Seq<Piece<'_>>) -> bool {
    if pieces.len() == 1 {
        let one = pieces[0];
        let from = cut(one, 0);
        let to = cut(one, one.rows as int);
        if from == 0 {
            layout == (Layout::Str {
                offsets: Place::Lent { id: one.cuts->Some_0.id, at: 0 },
                wide,
                data: Place::Lent { id: one.values.id, at: 0 },
                data_len: to,
            }) && held.keeps(one.values.id) && held.keeps(one.cuts->Some_0.id)
        } else {
            layout matches Layout::Str { offsets, wide: false, data, data_len } && data == (Place::Lent {
                id: one.values.id,
                at: from,
            }) && data_len == to - from && held.keeps(one.values.id) && offsets_at(
                offsets,
                held,
                rebased(one, (one.rows + 1) as nat),
            )
        }
    } else {
        layout matches Layout::Str { offsets, wide: false, data, data_len } && joined_strings(name, pieces) matches Ok(
            (chars, cuts),
        ) && data_len == chars.len() && held.has(data) && (held.at(data) matches Bytes::One(made) && made@ == chars)
            && offsets_at(offsets, held, cuts)
    }
}

/// Why the strings of a column cannot be laid out, when they cannot.
pub open spec fn strings_refused(name: Seq<char>, pieces: Seq<Piece<'_>>) -> Option<Denied> {
    if pieces.len() == 1 {
        match span_of(name, pieces[0]) {
            Err(words) => Some(Denied::Words(words)),
            Ok((from, to)) => if from == 0 { None } else { miscut(name, pieces[0], 0, 1) },
        }
    } else {
        match joined_strings(name, pieces) {
            Err(denied) => Some(denied),
            Ok(_) => None,
        }
    }
}

/// Whether this is how a column is laid out. One with no rows is laid out in empty buffers,
/// because no row is ever read out of it and what a layout still needs is somewhere to point.
pub open spec fn laid_out(layout: Layout, held: Held, name: Seq<char>, elem: Elem, pieces: Seq<Piece<'_>>) -> bool {
    if total_rows(pieces) == 0 {
        match elem {
            Elem::Str { .. } => layout matches Layout::Str { offsets, wide: false, data, data_len: 0 } && offsets_at(
                offsets,
                held,
                Seq::empty(),
            ) && held.has(data) && (held.at(data) matches Bytes::One(made) && made@.len() == 0),
            _ => exists|place: Place|
                layout == plain_at(elem, place) && #[trigger] held.has(place) && is_empty(held.at(place), elem),
        }
    } else {
        match elem {
            Elem::Str { wide } => strings_at(layout, held, name, wide, pieces),
            Elem::Bool => layout matches Layout::Bool { place } && bits_at(place, held, pieces),
            _ => exists|place: Place|
                layout == plain_at(elem, place) && #[trigger] words_at(place, held, elem.spec_width(), pieces),
        }
    }
}

/// Why a column cannot be laid out, when it cannot.
pub open spec fn unlaid(name: Seq<char>, elem: Elem, pieces: Seq<Piece<'_>>) -> Option<Denied> {
    if total_rows(pieces) == 0 {
        None
    } else {
        match elem {
            Elem::Str { .. } => strings_refused(name, pieces),
            Elem::Bool => if aligned(pieces) || bits_there(pieces) { None } else { Some(Denied::Broken) },
            _ => if pieces.len() == 1 || words_there(elem.spec_width(), pieces) {
                None
            } else {
                Some(Denied::Broken)
            },
        }
    }
}

proof fn lemma_more_extends(before: Held, after: Held, lent: Seq<usize>, owned: nat)
    requires
        after.more(before, lent, owned),
    ensures
        after.extends(before),
        forall|i: int| 0 <= i < lent.len() ==> after.keeps(#[trigger] lent[i]),
{
    assert(after.lent@.take(before.lent@.len() as int) =~= before.lent@);
    assert forall|i: int| 0 <= i < lent.len() implies after.keeps(#[trigger] lent[i]) by {
        assert(after.lent@[before.lent@.len() + i] == lent[i]);
    }
}

proof fn lemma_extends_keeps(before: Held, after: Held)
    requires
        after.extends(before),
    ensures
        forall|id: usize| before.keeps(id) ==> #[trigger] after.keeps(id),
        forall|place: Place| before.has(place) ==> #[trigger] after.has(place) && after.at(place) == before.at(place),
{
    assert forall|id: usize| before.keeps(id) implies #[trigger] after.keeps(id) by {
        let i = choose|i: int| 0 <= i < before.lent@.len() && before.lent@[i] == id;
        assert(after.lent@.take(before.lent@.len() as int)[i] == id);
        assert(after.lent@[i] == id);
    }
    assert forall|place: Place| before.has(place) implies #[trigger] after.has(place) && after.at(place) == before.at(
        place,
    ) by {
        let i = place->Owned_index as int;
        assert(after.owned@.take(before.owned@.len() as int)[i] == before.owned@[i]);
    }
}

/// A column stays laid out whatever more is kept.
proof fn lemma_stays_laid(
    layout: Layout,
    before: Held,
    after: Held,
    name: Seq<char>,
    elem: Elem,
    pieces: Seq<Piece<'_>>,
)
    requires
        after.extends(before),
        laid_out(layout, before, name, elem, pieces),
    ensures
        laid_out(layout, after, name, elem, pieces),
{
    lemma_extends_keeps(before, after);
    if total_rows(pieces) == 0 {
        match elem {
            Elem::Str { .. } => {},
            _ => {
                let place = choose|place: Place|
                    layout == plain_at(elem, place) && #[trigger] before.has(place) && is_empty(before.at(place), elem);
                assert(after.has(place));
            },
        }
    } else {
        match elem {
            Elem::Str { .. } => {},
            Elem::Bool => {},
            _ => {
                let place = choose|place: Place|
                    layout == plain_at(elem, place) && #[trigger] words_at(place, before, elem.spec_width(), pieces);
                assert(words_at(place, after, elem.spec_width(), pieces));
            },
        }
    }
}

/// Where a column's bytes are, once it is known whether they are the caller's or this client's.
///
/// One chunk is described where it lies, which is the whole point of registering a frame.
/// Several are put together first, into a buffer of this client's own.
fn laid(name: &str, elem: Elem, pieces: &Vec<Piece<'_>>, rows: usize, held: &mut Held) -> (r: Result<
    Layout,
    Untaken,
>)
    requires
        rows == total_rows(pieces@),
    ensures
        final(held).extends(*old(held)),
        match unlaid(name@, elem, pieces@) {
            Some(denied) => r is Err && r->Err_0@ == denied,
            None => r is Ok && laid_out(r->Ok_0, *final(held), name@, elem, pieces@),
        },
{
    let ghost before = *held;
    if rows == 0 {
        if let Elem::Str { .. } = elem {
            let offsets: Place = held.own(Bytes::Offsets(Vec::new()));
            let ghost between = *held;
            let data: Place = held.own(Bytes::One(Vec::new()));
            proof {
                lemma_more_extends(before, between, Seq::empty(), 1);
                lemma_more_extends(between, *held, Seq::empty(), 1);
                lemma_extends_keeps(between, *held);
                lemma_extends_twice(before, between, *held);
                assert(held.has(offsets));
                let made = held.at(offsets)->Offsets_0@;
                assert(made.map_values(|n: i32| n as int) =~= Seq::<int>::empty());
            }
            return Ok(Layout::Str { offsets, wide: false, data, data_len: 0 });
        }
        let place: Place = held.own(empty(&elem));
        proof {
            lemma_more_extends(before, *held, Seq::empty(), 1);
        }
        return Ok(plain(elem, place));
    }
    match elem {
        Elem::Str { wide } => strings(name, wide, pieces, held),
        Elem::Bool => {
            if !has_bits(pieces) {
                proof {
                    lemma_extends_itself(*held);
                }
                return Err(Untaken::Broken);
            }
            Ok(Layout::Bool { place: bits(pieces, rows, held) })
        },
        _ => {
            if !has_words(&elem, pieces) {
                proof {
                    lemma_extends_itself(*held);
                }
                return Err(Untaken::Broken);
            }
            Ok(plain(elem, words(elem, pieces, held)))
        },
    }
}

proof fn lemma_extends_itself(a: Held)
    ensures
        a.extends(a),
{
    assert(a.lent@.take(a.lent@.len() as int) =~= a.lent@);
    assert(a.owned@.take(a.owned@.len() as int) =~= a.owned@);
}

proof fn lemma_extends_twice(a: Held, b: Held, c: Held)
    requires
        b.extends(a),
        c.extends(b),
    ensures
        c.extends(a),
{
    assert(c.lent@.take(a.lent@.len() as int) =~= b.lent@.take(a.lent@.len() as int));
    assert(c.owned@.take(a.owned@.len() as int) =~= b.owned@.take(a.owned@.len() as int));
}

/// One column of an Arrow table, by what its fields read as.
pub struct ArrowColumn<'a> {
    pub name: Result<String, String>,
    /// The vector the table hands back for it, when it hands one back.
    pub vector: Result<Option<ArrowVector<'a>>, String>,
}

/// The vector of an Arrow column.
pub struct ArrowVector<'a> {
    pub ty: Result<ArrowType, String>,
    pub chunks: Result<Vec<Chunk<'a>>, String>,
    /// How many nulls it counts, by the bits of the double that is.
    pub nulls: Result<u64, String>,
}

/// Why a frame was not taken.
pub enum Untaken {
    /// The sentence to refuse the call with.
    Words(String),
    /// A column says it holds what the arrays under it do not.
    Broken,
}

/// What an [`Untaken`] says.
pub enum Denied {
    Words(Seq<char>),
    Broken,
}

impl View for Untaken {
    type V = Denied;

    open spec fn view(&self) -> Denied {
        match self {
            Untaken::Words(words) => Denied::Words(words@),
            Untaken::Broken => Denied::Broken,
        }
    }
}

/// What a column with a gap in it is told, by the row that is empty, because the caller's next
/// move is to go and look at that cell.
pub open spec fn gap(name: Seq<char>, row: int) -> Seq<char> {
    "column '"@ + name + "' has no value at row "@ + decimal(row) + ", and every column of a row holds one"@
}

/// The first `n` chunks of a column, read, or why one could not be. A column of more rows than
/// there are numbers for is not one.
pub open spec fn pieces_of<'a>(name: Seq<char>, elem: Elem, nulls: u64, chunks: Seq<Chunk<'a>>, n: nat) -> Result<
    Seq<Piece<'a>>,
    Denied,
>
    decreases n,
{
    if n == 0 {
        Ok(Seq::empty())
    } else {
        match pieces_of(name, elem, nulls, chunks, (n - 1) as nat) {
            Err(denied) => Err(denied),
            Ok(before) => {
                let chunk = chunks[n - 1];
                let empty = if zero(nulls) { Ok::<Option<int>, Seq<char>>(None) } else { hole_of(chunk) };
                match empty {
                    Err(words) => Err(Denied::Words(words)),
                    Ok(Some(row)) => if total_rows(before) + row > usize::MAX {
                        Err(Denied::Broken)
                    } else {
                        Err(Denied::Words(gap(name, total_rows(before) + row)))
                    },
                    Ok(None) => match piece_of(name, elem, chunk) {
                        Err(words) => Err(Denied::Words(words)),
                        Ok(piece) => if total_rows(before) + piece.rows > usize::MAX {
                            Err(Denied::Broken)
                        } else {
                            Ok(before.push(piece))
                        },
                    },
                }
            },
        }
    }
}

proof fn lemma_pieces_stop(name: Seq<char>, elem: Elem, nulls: u64, chunks: Seq<Chunk<'_>>, k: nat, n: nat)
    requires
        k <= n,
        pieces_of(name, elem, nulls, chunks, k) is Err,
    ensures
        pieces_of(name, elem, nulls, chunks, n) == pieces_of(name, elem, nulls, chunks, k),
    decreases n,
{
    if k < n {
        lemma_pieces_stop(name, elem, nulls, chunks, k, (n - 1) as nat);
    }
}

/// The chunks of a column, read, or why one could not be.
pub open spec fn column_pieces<'a>(name: Seq<char>, elem: Elem, vector: ArrowVector<'a>) -> Result<
    Seq<Piece<'a>>,
    Denied,
> {
    match vector.chunks {
        Err(reason) => Err(Denied::Words(reason@)),
        Ok(chunks) => match vector.nulls {
            Err(reason) => Err(Denied::Words(reason@)),
            Ok(nulls) => pieces_of(name, elem, nulls, chunks@, chunks@.len()),
        },
    }
}

fn read_pieces<'a>(name: &str, elem: &Elem, vector: &ArrowVector<'a>) -> (r: Result<(Vec<Piece<'a>>, usize), Untaken>)
    ensures
        match r {
            Ok((pieces, rows)) => column_pieces(name@, *elem, *vector) == Ok::<_, Denied>(pieces@) && rows == total_rows(
                pieces@,
            ),
            Err(why) => column_pieces(name@, *elem, *vector) == Err::<Seq<Piece<'a>>, _>(why@),
        },
{
    let chunks: &Vec<Chunk<'a>> = match &vector.chunks {
        Ok(chunks) => chunks,
        Err(reason) => return Err(Untaken::Words(reason.clone())),
    };
    let nulls: u64 = match &vector.nulls {
        Ok(nulls) => *nulls,
        Err(reason) => return Err(Untaken::Words(reason.clone())),
    };
    let mut pieces: Vec<Piece<'a>> = Vec::new();
    let mut row: usize = 0;
    let mut at: usize = 0;
    while at < chunks.len()
        invariant
            vector.chunks == Ok::<_, String>(*chunks),
            vector.nulls == Ok::<_, String>(nulls),
            at <= chunks@.len(),
            pieces@.len() == at,
            row == total_rows(pieces@),
            pieces_of(name@, *elem, nulls, chunks@, at as nat) == Ok::<_, Denied>(pieces@),
        decreases chunks@.len() - at,
    {
        let chunk: &Chunk<'a> = &chunks[at];
        proof {
            if pieces_of(name@, *elem, nulls, chunks@, (at + 1) as nat) is Err {
                lemma_pieces_stop(name@, *elem, nulls, chunks@, (at + 1) as nat, chunks@.len());
            }
        }
        if !is_zero(nulls) {
            match hole(chunk) {
                Err(words) => return Err(Untaken::Words(words)),
                Ok(Some(empty)) => {
                    return match row.checked_add(empty) {
                        None => Err(Untaken::Broken),
                        Some(gap) => Err(
                            Untaken::Words(
                                "column '".to_owned().concat(name).concat("' has no value at row ").concat(
                                    text::counted(gap as u128).as_str(),
                                ).concat(", and every column of a row holds one"),
                            ),
                        ),
                    };
                },
                Ok(None) => {},
            }
        }
        match piece(name, elem, chunk) {
            Err(words) => return Err(Untaken::Words(words)),
            Ok(piece) => {
                let ghost before = pieces@;
                row = match row.checked_add(piece.rows) {
                    None => return Err(Untaken::Broken),
                    Some(rows) => rows,
                };
                pieces.push(piece);
                proof {
                    assert(pieces@.drop_last() =~= before);
                }
            },
        }
        at += 1;
    }
    Ok((pieces, row))
}

/// Whether a boolean column is read where it lies, or its chunks hold the bits they say.
fn has_bits(pieces: &Vec<Piece<'_>>) -> (r: bool)
    ensures
        r == (aligned(pieces@) || bits_there(pieces@)),
{
    if pieces.len() == 1 && pieces[0].at % 8 == 0 {
        return true;
    }
    let mut at: usize = 0;
    while at < pieces.len()
        invariant
            !aligned(pieces@),
            at <= pieces@.len(),
            forall|i: int|
                0 <= i < at ==> (#[trigger] pieces@[i]).rows == 0 || (pieces@[i].at + pieces@[i].rows - 1) / 8
                    < pieces@[i].values.raw@.len(),
        decreases pieces@.len() - at,
    {
        let piece: Piece<'_> = pieces[at];
        if piece.rows != 0 && (piece.at as u128 + piece.rows as u128 - 1) / 8 >= piece.values.raw.len() as u128 {
            proof {
                assert(!bits_there(pieces@)) by {
                    assert(pieces@[at as int] == piece);
                }
            }
            return false;
        }
        at += 1;
    }
    true
}

/// Whether a fixed width column is one chunk, or its chunks hold the values they say.
fn has_words(elem: &Elem, pieces: &Vec<Piece<'_>>) -> (r: bool)
    ensures
        r == (pieces@.len() == 1 || words_there(elem.spec_width(), pieces@)),
{
    if pieces.len() == 1 {
        return true;
    }
    let width: usize = elem.width();
    let mut at: usize = 0;
    while at < pieces.len()
        invariant
            width == elem.spec_width(),
            width <= 32,
            pieces@.len() != 1,
            at <= pieces@.len(),
            forall|i: int| 0 <= i < at ==> (#[trigger] pieces@[i]).rows * width <= pieces@[i].values.raw@.len(),
        decreases pieces@.len() - at,
    {
        let piece: Piece<'_> = pieces[at];
        proof {
            assert(piece.rows * width <= usize::MAX * 32) by (nonlinear_arith)
                requires
                    piece.rows <= usize::MAX,
                    width <= 32,
            ;
        }
        if piece.rows as u128 * width as u128 > piece.values.raw.len() as u128 {
            proof {
                assert(!words_there(width as nat, pieces@)) by {
                    assert(pieces@[at as int] == piece);
                }
            }
            return false;
        }
        at += 1;
    }
    true
}

/// One column as the engine is about to be told about it.
pub struct Described {
    pub name: String,
    pub ty: LogicalType,
    pub layout: Layout,
}

/// A frame as the engine is about to be told about it: the columns, how many rows they hold, and
/// what has to be kept for them to be read.
pub struct Frame {
    pub columns: Vec<Described>,
    pub rows: u64,
    pub held: Held,
}

/// What a table that names a column it does not have is told.
pub open spec fn no_vector(name: Seq<char>) -> Seq<char> {
    "this table names a column '"@ + name + "' and then has no column there"@
}

/// What a column of another length than the one before it is told.
pub open spec fn uneven(name: Seq<char>, rows: int, had: int) -> Seq<char> {
    "column '"@ + name + "' holds "@ + decimal(rows) + " values and the column before it holds "@ + decimal(had)
        + ", and a table is as wide as it is long"@
}

/// What is known of an Arrow column once it has been read.
pub struct Known<'a> {
    pub name: Seq<char>,
    pub ty: LogicalType,
    pub elem: Elem,
    pub pieces: Seq<Piece<'a>>,
}

/// An Arrow column, read, or why it is not taken.
pub open spec fn known<'a>(column: ArrowColumn<'a>) -> Result<Known<'a>, Denied> {
    match column.name {
        Err(reason) => Err(Denied::Words(reason@)),
        Ok(name) => match column.vector {
            Err(reason) => Err(Denied::Words(reason@)),
            Ok(None) => Err(Denied::Words(no_vector(name@))),
            Ok(Some(vector)) => match vector.ty {
                Err(reason) => Err(Denied::Words(reason@)),
                Ok(ty) => match meaning_of(name@, ty) {
                    Err(words) => Err(Denied::Words(words)),
                    Ok((ty, elem)) => match column_pieces(name@, elem, vector) {
                        Err(denied) => Err(denied),
                        Ok(pieces) => match unlaid(name@, elem, pieces) {
                            Some(denied) => Err(denied),
                            None => Ok(Known { name: name@, ty, elem, pieces }),
                        },
                    },
                },
            },
        },
    }
}

/// Whether this is an Arrow column, described where it lies.
pub open spec fn describes(made: Described, held: Held, column: ArrowColumn<'_>) -> bool {
    known(column) matches Ok(known) && made.name@ == known.name && made.ty == known.ty && laid_out(
        made.layout,
        held,
        known.name,
        known.elem,
        known.pieces,
    )
}

/// Why the first `n` columns of an Arrow table are not taken, when they are not.
pub open spec fn table_denied(columns: Seq<ArrowColumn<'_>>, n: nat) -> Option<Denied>
    decreases n,
{
    if n == 0 {
        None
    } else {
        match table_denied(columns, (n - 1) as nat) {
            Some(denied) => Some(denied),
            None => match known(columns[n - 1]) {
                Err(denied) => Some(denied),
                Ok(here) => if n >= 2 && total_rows(here.pieces) != arrow_rows(columns[n - 2]) {
                    Some(
                        Denied::Words(
                            uneven(here.name, total_rows(here.pieces) as int, arrow_rows(columns[n - 2]) as int),
                        ),
                    )
                } else {
                    None
                },
            },
        }
    }
}

/// How many rows an Arrow column that is taken holds.
pub open spec fn arrow_rows(column: ArrowColumn<'_>) -> nat {
    total_rows(known(column)->Ok_0.pieces)
}

fn uneven_words(name: &str, rows: u64, had: u64) -> (r: String)
    ensures
        r@ == uneven(name@, rows as int, had as int),
{
    "column '".to_owned().concat(name).concat("' holds ").concat(text::counted(rows as u128).as_str()).concat(
        " values and the column before it holds ",
    ).concat(text::counted(had as u128).as_str()).concat(", and a table is as wide as it is long")
}

/// One Arrow column, described where it lies, and how many rows it holds.
///
/// A vector is chunks, and a column of a table is one run of bytes, so a vector of one chunk is
/// described where it lies and a vector of several is concatenated first.
fn column(given: &ArrowColumn<'_>, held: &mut Held) -> (r: Result<(u64, Described), Untaken>)
    ensures
        final(held).extends(*old(held)),
        match r {
            Ok(made) => describes(made.1, *final(held), *given) && made.0 == arrow_rows(*given),
            Err(why) => known(*given) matches Err(denied) && denied == why@,
        },
{
    proof {
        lemma_extends_itself(*held);
    }
    let name: &String = match &given.name {
        Ok(name) => name,
        Err(reason) => return Err(Untaken::Words(reason.clone())),
    };
    let vector: &ArrowVector<'_> = match &given.vector {
        Err(reason) => return Err(Untaken::Words(reason.clone())),
        Ok(None) => {
            return Err(
                Untaken::Words(
                    "this table names a column '".to_owned().concat(name.as_str()).concat(
                        "' and then has no column there",
                    ),
                ),
            );
        },
        Ok(Some(vector)) => vector,
    };
    let ty: &ArrowType = match &vector.ty {
        Ok(ty) => ty,
        Err(reason) => return Err(Untaken::Words(reason.clone())),
    };
    let (ty, elem): (LogicalType, Elem) = match meaning(name.as_str(), ty) {
        Ok(both) => both,
        Err(words) => return Err(Untaken::Words(words)),
    };
    let (pieces, rows): (Vec<Piece<'_>>, usize) = read_pieces(name.as_str(), &elem, vector)?;
    let layout: Layout = laid(name.as_str(), elem, &pieces, rows, held)?;
    Ok((rows as u64, Described { name: name.clone(), ty, layout }))
}

proof fn lemma_denied_stops(columns: Seq<ArrowColumn<'_>>, k: nat, n: nat)
    requires
        k <= n,
        table_denied(columns, k) is Some,
    ensures
        table_denied(columns, n) == table_denied(columns, k),
    decreases n,
{
    if k < n {
        lemma_denied_stops(columns, k, (n - 1) as nat);
    }
}

/// Reads an Arrow table where it lies.
///
/// A column is read off the vector the table hands back rather than off the table's own insides,
/// because a vector is the part of that library that has stayed the same.
pub fn from_arrow(columns: &Vec<ArrowColumn<'_>>) -> (r: Result<Frame, Untaken>)
    ensures
        match r {
            Ok(frame) => {
                &&& table_denied(columns@, columns@.len()) is None
                &&& frame.columns@.len() == columns@.len()
                &&& forall|i: int|
                    0 <= i < columns@.len() ==> describes(#[trigger] frame.columns@[i], frame.held, columns@[i])
                &&& forall|i: int| 0 <= i < columns@.len() ==> arrow_rows(#[trigger] columns@[i]) == frame.rows
                &&& columns@.len() == 0 ==> frame.rows == 0
            },
            Err(why) => table_denied(columns@, columns@.len()) == Some(why@),
        },
{
    let mut held: Held = Held::new();
    let mut made: Vec<Described> = Vec::new();
    let mut rows: Option<u64> = None;
    let mut at: usize = 0;
    while at < columns.len()
        invariant
            at <= columns@.len(),
            made@.len() == at,
            table_denied(columns@, at as nat) is None,
            forall|i: int| 0 <= i < at ==> describes(#[trigger] made@[i], held, columns@[i]),
            rows is None <==> at == 0,
            forall|i: int| 0 <= i < at ==> arrow_rows(#[trigger] columns@[i]) == rows->Some_0,
        decreases columns@.len() - at,
    {
        let ghost before = held;
        match column(&columns[at], &mut held) {
            Err(why) => {
                proof {
                    lemma_denied_stops(columns@, (at + 1) as nat, columns@.len());
                }
                return Err(why);
            },
            Ok(both) => {
                let (rows_here, described): (u64, Described) = both;
                if let Some(had) = rows {
                    if had != rows_here {
                        proof {
                            assert(arrow_rows(columns@[at - 1]) == had);
                            lemma_denied_stops(columns@, (at + 1) as nat, columns@.len());
                        }
                        return Err(Untaken::Words(uneven_words(described.name.as_str(), rows_here, had)));
                    }
                }
                rows = Some(rows_here);
                proof {
                    assert forall|i: int| 0 <= i < at implies describes(#[trigger] made@[i], held, columns@[i]) by {
                        let known = known(columns@[i])->Ok_0;
                        lemma_stays_laid(made@[i].layout, before, held, known.name, known.elem, known.pieces);
                    }
                    assert(at > 0 ==> arrow_rows(columns@[at - 1]) == rows_here);
                }
                made.push(described);
            },
        }
        at += 1;
    }
    let rows: u64 = match rows {
        Some(rows) => rows,
        None => 0,
    };
    Ok(Frame { columns: made, rows, held })
}

/// The eight-byte lane an INT64 is read through.
pub open spec fn word_elem() -> Elem {
    Elem::Int { bits: IntBits::B64, signed: true, scale: 1 }
}

/// The four-byte lane a date is read through.
pub open spec fn day_elem() -> Elem {
    Elem::Int { bits: IntBits::B32, signed: true, scale: 1 }
}

/// What a column of JavaScript values means to the engine.
pub open spec fn lane_type(lane: Lane) -> LogicalType {
    match lane {
        Lane::Int => LogicalType::Int { signed: true, bits: IntBits::B64, precision: None },
        Lane::Float => LogicalType::Float { bits: FloatBits::B64, precision: None },
        Lane::Bool => LogicalType::Bool,
        Lane::Str => characters(),
        Lane::Bytes => LogicalType::Other,
        Lane::Date => LogicalType::Date,
        Lane::LocalTime => LogicalType::LocalTime,
        Lane::LocalDatetime => LogicalType::LocalDatetime,
        Lane::Duration(kind) => LogicalType::Duration(kind),
    }
}

/// The bytes of these strings, end to end.
pub open spec fn joined_bytes(strings: Seq<String>) -> Seq<u8>
    decreases strings.len(),
{
    if strings.len() == 0 {
        Seq::empty()
    } else {
        joined_bytes(strings.drop_last()) + encode_utf8(strings.last()@)
    }
}

/// Where these strings are cut: at zero, and at the end of each of them.
pub open spec fn string_cuts(strings: Seq<String>) -> Seq<int> {
    Seq::new(strings.len() + 1, |i: int| joined_bytes(strings.take(i)).len() as int)
}

/// What a column of byte strings is told.
pub open spec fn no_bytes(name: Seq<char>) -> Seq<char> {
    "column '"@ + name
        + "' holds byte strings, and no statement can read a column of \
                     bytes back yet"@
}

/// Why a column of JavaScript values is not taken, when it is not.
pub open spec fn unpacked(name: Seq<char>, column: Column) -> Option<Seq<char>> {
    match column {
        Column::Bytes(_) => Some(no_bytes(name)),
        Column::Str(v) => if narrows(string_cuts(v@)) { None } else { Some(too_long(name)) },
        _ => None,
    }
}

/// Whether this buffer of eight-byte words holds these integers, bit for bit.
pub open spec fn holds_words(place: Place, held: Held, ints: Seq<i64>) -> bool {
    held.has(place) && (held.at(place) matches Bytes::Eight(v) && v@ == ints.map_values(|n: i64| n as u64))
}

/// Whether this is a column of JavaScript values, as the bytes a frame reads.
pub open spec fn is_packed(layout: Layout, held: Held, column: Column) -> bool {
    match column {
        Column::Int(ints) => exists|place: Place|
            layout == plain_at(word_elem(), place) && #[trigger] holds_words(place, held, ints@),
        Column::Float(doubles) => exists|place: Place|
            layout == plain_at(Elem::Float(FloatBits::B64), place) && #[trigger] held.has(place) && (held.at(
                place,
            ) matches Bytes::Eight(v) && v@ == doubles@),
        Column::Bool(bools) => layout matches Layout::Bool { place } && held.has(place) && (held.at(
            place,
        ) matches Bytes::One(bytes) && is_bitmap(bytes@, bools@)),
        Column::Str(strings) => layout matches Layout::Str { offsets, wide: false, data, data_len } && held.has(data)
            && (held.at(data) matches Bytes::One(bytes) && bytes@ == joined_bytes(strings@)) && data_len
            == joined_bytes(strings@).len() && offsets_at(offsets, held, string_cuts(strings@)),
        Column::Bytes(_) => false,
        Column::Date(days) => exists|place: Place|
            layout == plain_at(day_elem(), place) && #[trigger] held.has(place) && (held.at(place) matches Bytes::Four(
                v,
            ) && v@ == days@.map_values(|n: i32| n as u32)),
        Column::LocalTime(counts) => exists|place: Place|
            layout == plain_at(word_elem(), place) && #[trigger] holds_words(place, held, counts@),
        Column::LocalDatetime(counts) => exists|place: Place|
            layout == plain_at(word_elem(), place) && #[trigger] holds_words(place, held, counts@),
        Column::Duration(_, counts) => exists|place: Place|
            layout == plain_at(word_elem(), place) && #[trigger] holds_words(place, held, counts@),
    }
}

fn same_days(days: &Vec<i32>) -> (r: Vec<u32>)
    ensures
        r@ == days@.map_values(|n: i32| n as u32),
{
    let mut made: Vec<u32> = Vec::new();
    let mut at: usize = 0;
    while at < days.len()
        invariant
            at <= days@.len(),
            made@ == days@.take(at as int).map_values(|n: i32| n as u32),
        decreases days@.len() - at,
    {
        made.push(days[at] as u32);
        at += 1;
        proof {
            assert(made@ =~= days@.take(at as int).map_values(|n: i32| n as u32));
        }
    }
    proof {
        assert(days@.take(at as int) =~= days@);
    }
    made
}

fn bitmap(bools: &Vec<bool>) -> (r: Vec<u8>)
    ensures
        is_bitmap(r@, bools@),
{
    let mut built: Vec<u8> = cleared(bools.len());
    let mut row: usize = 0;
    while row < bools.len()
        invariant
            row <= bools@.len(),
            built@.len() == bytes_for(bools@.len()),
            forall|i: int| 0 <= i ==> #[trigger] bit_set(built@, i) == (i < row && bools@[i]),
        decreases bools@.len() - row,
    {
        if bools[row] {
            set(&mut built, row);
        }
        row += 1;
    }
    built
}

proof fn lemma_bytes_grow(strings: Seq<String>, n: int)
    requires
        0 <= n < strings.len(),
    ensures
        joined_bytes(strings.take(n + 1)) == joined_bytes(strings.take(n)) + encode_utf8(strings[n]@),
{
    assert(strings.take(n + 1).drop_last() =~= strings.take(n));
}

/// A column of strings as one run of bytes and the offsets that cut it up.
fn cut_up(name: &str, strings: &Vec<String>) -> (r: Result<(Vec<u8>, Vec<i32>), String>)
    ensures
        match r {
            Ok(both) => narrows(string_cuts(strings@)) && both.0@ == joined_bytes(strings@) && both.1@.map_values(
                |n: i32| n as int,
            ) == string_cuts(strings@),
            Err(words) => !narrows(string_cuts(strings@)) && words@ == too_long(name@),
        },
{
    let mut data: Vec<u8> = Vec::new();
    let mut offsets: Vec<i32> = Vec::new();
    offsets.push(0);
    let ghost all = string_cuts(strings@);
    let mut at: usize = 0;
    proof {
        assert(strings@.take(0) =~= Seq::<String>::empty());
        assert(offsets@.map_values(|n: i32| n as int) =~= all.take(1));
    }
    while at < strings.len()
        invariant
            at <= strings@.len(),
            all == string_cuts(strings@),
            data@ == joined_bytes(strings@.take(at as int)),
            offsets@.map_values(|n: i32| n as int) == all.take(at as int + 1),
            narrows(all.take(at as int + 1)),
        decreases strings@.len() - at,
    {
        append(&mut data, strings[at].as_str().as_bytes());
        proof {
            lemma_bytes_grow(strings@, at as int);
            assert(all[at as int + 1] == data@.len());
        }
        match narrow(name, data.len() as u128) {
            Ok(n) => {
                let ghost mapped = offsets@.map_values(|n: i32| n as int);
                offsets.push(n);
                proof {
                    assert(offsets@.map_values(|n: i32| n as int) =~= mapped.push(n as int));
                    assert(all.take(at as int + 2) =~= all.take(at as int + 1).push(n as int));
                }
            },
            Err(words) => {
                proof {
                    assert(all[at as int + 1] > i32::MAX);
                }
                return Err(words);
            },
        }
        at += 1;
    }
    proof {
        assert(strings@.take(at as int) =~= strings@);
        assert(all.take(at as int + 1) =~= all);
    }
    Ok((data, offsets))
}

/// One column of JavaScript values, as the bytes a frame reads and what they mean.
///
/// The temporal buffers count in `i64` and both of them are the eight-byte lane the engine reads
/// through, so the cast is the identity on the bytes and the logical type beside them is what
/// says how to read them.
fn packed(name: &str, column: &Column, held: &mut Held) -> (r: Result<(LogicalType, Layout), String>)
    ensures
        final(held).extends(*old(held)),
        match r {
            Ok(both) => unpacked(name@, *column) is None && both.0 == lane_type(column.lane()) && is_packed(
                both.1,
                *final(held),
                *column,
            ),
            Err(words) => unpacked(name@, *column) == Some(words@),
        },
{
    proof {
        lemma_extends_itself(*held);
    }
    let ghost before = *held;
    let word: Elem = Elem::Int { bits: IntBits::B64, signed: true, scale: 1 };
    match column {
        Column::Int(v) => {
            let place: Place = held.own(Bytes::Eight(load::words(v)));
            proof {
                lemma_more_extends(before, *held, Seq::empty(), 1);
                assert(holds_words(place, *held, v@));
            }
            Ok((LogicalType::Int { signed: true, bits: IntBits::B64, precision: None }, plain(word, place)))
        },
        Column::Float(v) => {
            let mut doubles: Vec<u64> = v.clone();
            proof {
                assert(doubles@ =~= v@);
            }
            let place: Place = held.own(Bytes::Eight(doubles));
            proof {
                lemma_more_extends(before, *held, Seq::empty(), 1);
            }
            Ok(
                (
                    LogicalType::Float { bits: FloatBits::B64, precision: None },
                    plain(Elem::Float(FloatBits::B64), place),
                ),
            )
        },
        Column::Bool(v) => {
            let place: Place = held.own(Bytes::One(bitmap(v)));
            proof {
                lemma_more_extends(before, *held, Seq::empty(), 1);
            }
            Ok((LogicalType::Bool, Layout::Bool { place }))
        },
        Column::Str(v) => {
            let (data, offsets): (Vec<u8>, Vec<i32>) = cut_up(name, v)?;
            let data_len: usize = data.len();
            let data: Place = held.own(Bytes::One(data));
            let ghost between = *held;
            let offsets: Place = held.own(Bytes::Offsets(offsets));
            proof {
                lemma_more_extends(before, between, Seq::empty(), 1);
                lemma_more_extends(between, *held, Seq::empty(), 1);
                lemma_extends_twice(before, between, *held);
                lemma_extends_keeps(between, *held);
                assert(held.has(data));
            }
            Ok(
                (
                    LogicalType::Str { min: None, max: None, fixed: false },
                    Layout::Str { offsets, wide: false, data, data_len },
                ),
            )
        },
        Column::Bytes(_) => Err(
            "column '".to_owned().concat(name).concat(
                "' holds byte strings, and no statement can read a column of \
                     bytes back yet",
            ),
        ),
        Column::Date(v) => {
            let place: Place = held.own(Bytes::Four(same_days(v)));
            proof {
                lemma_more_extends(before, *held, Seq::empty(), 1);
            }
            Ok((LogicalType::Date, plain(Elem::Int { bits: IntBits::B32, signed: true, scale: 1 }, place)))
        },
        Column::LocalTime(v) => {
            let place: Place = held.own(Bytes::Eight(load::words(v)));
            proof {
                lemma_more_extends(before, *held, Seq::empty(), 1);
                assert(holds_words(place, *held, v@));
            }
            Ok((LogicalType::LocalTime, plain(word, place)))
        },
        Column::LocalDatetime(v) => {
            let place: Place = held.own(Bytes::Eight(load::words(v)));
            proof {
                lemma_more_extends(before, *held, Seq::empty(), 1);
                assert(holds_words(place, *held, v@));
            }
            Ok((LogicalType::LocalDatetime, plain(word, place)))
        },
        Column::Duration(kind, v) => {
            let place: Place = held.own(Bytes::Eight(load::words(v)));
            proof {
                lemma_more_extends(before, *held, Seq::empty(), 1);
                assert(holds_words(place, *held, v@));
            }
            Ok((LogicalType::Duration(*kind), plain(word, place)))
        },
    }
}

/// One column of an object of columns: a typed array, or any other value.
pub enum Given<'a> {
    Lent(Lent<'a>),
    Value(Js),
}

/// What a typed array of an element means to the engine.
pub open spec fn elem_type(elem: Elem) -> LogicalType {
    match elem {
        Elem::Float(bits) => LogicalType::Float { bits, precision: None },
        Elem::Int { bits, signed, .. } => LogicalType::Int { signed, bits, precision: None },
        _ => LogicalType::Other,
    }
}

/// What a column that is no column is told.
pub open spec fn not_a_column(name: Seq<char>, value: Js) -> Seq<char> {
    "column '"@ + name + "' is "@ + named_as(value) + ", and a column is an array of values or a typed array"@
}

/// Why a value is not a column of JavaScript values, when it is not.
pub open spec fn no_column(name: Seq<char>, value: Js) -> Option<Seq<char>> {
    match value {
        Js::Unread(reason) => Some(reason@),
        Js::Object(thing) if thing.items is Some => {
            let items = thing.items->Some_0@;
            if items.len() == 0 {
                Some(no_values(name))
            } else {
                rows_refused(name, items, items.len(), "a column"@)
            }
        },
        _ => Some(not_a_column(name, value)),
    }
}

/// One column, read out of an array of JavaScript values.
///
/// The first value settles what the column is and every value after it has to agree. What it
/// adds is the widening: a column that started as whole numbers and meets a fractional one
/// becomes a column of floats.
pub fn values(name: &str, value: &Js) -> (r: Result<Column, String>)
    ensures
        match r {
            Ok(column) => no_column(name@, *value) is None && (*value matches Js::Object(thing) && thing.items matches Some(
                items,
            ) && is_column(column, items@, items@.len())),
            Err(words) => no_column(name@, *value) == Some(words@),
        },
{
    match value {
        Js::Unread(reason) => return Err(reason.clone()),
        Js::Object(thing) => {
            if let Some(items) = &thing.items {
                return gathered(name, items, "a column");
            }
        },
        _ => {},
    }
    Err(
        "column '".to_owned().concat(name).concat("' is ").concat(named(value).as_str()).concat(
            ", and a column is an array of values or a typed array",
        ),
    )
}

/// How many rows a column of an object of columns holds, or why it is not taken.
pub open spec fn given_rows(name: Seq<char>, given: Result<Given<'_>, String>) -> Result<int, Seq<char>> {
    match given {
        Err(reason) => Err(reason@),
        Ok(Given::Lent(array)) => Ok((array.raw@.len() / elem_of(array.kind).spec_width()) as int),
        Ok(Given::Value(value)) => match no_column(name, value) {
            Some(words) => Err(words),
            None => {
                let items = value->Object_0.items->Some_0@;
                let lane = lane_after(items, items.len());
                if lane == Lane::Bytes {
                    Err(no_bytes(name))
                } else if lane == Lane::Str && !narrows(item_cuts(items)) {
                    Err(too_long(name))
                } else {
                    Ok(items.len() as int)
                }
            },
        },
    }
}

/// Where an array of strings is cut.
pub open spec fn item_cuts(items: Seq<Js>) -> Seq<int> {
    Seq::new(items.len() + 1, |i: int| item_bytes(items, i as nat) as int)
}

/// How many bytes the first `n` of an array of strings take.
pub open spec fn item_bytes(items: Seq<Js>, n: nat) -> nat
    decreases n,
{
    if n == 0 {
        0
    } else {
        item_bytes(items, (n - 1) as nat) + encode_utf8(items[n - 1]->Text_0@).len()
    }
}

/// Whether this is a column of an object of columns, described: a typed array where it lies, and
/// any other array in buffers of this client's own. A typed array of no elements is laid out in
/// an empty buffer.
pub open spec fn given_describes(made: Described, held: Held, name: Seq<char>, given: Result<Given<'_>, String>) -> bool {
    &&& made.name@ == name
    &&& match given {
        Err(_) => false,
        Ok(Given::Lent(array)) => {
            let elem = elem_of(array.kind);
            &&& made.ty == elem_type(elem)
            &&& if array.raw@.len() / elem.spec_width() == 0 {
                exists|place: Place|
                    made.layout == plain_at(elem, place) && #[trigger] held.has(place) && is_empty(held.at(place), elem)
            } else {
                made.layout == plain_at(elem, Place::Lent { id: array.id, at: 0 }) && held.keeps(array.id)
            }
        },
        Ok(Given::Value(value)) => value matches Js::Object(thing) && thing.items matches Some(items) && exists|
            column: Column,
        |
            #![trigger is_column(column, items@, items@.len())]
            is_column(column, items@, items@.len()) && made.ty == lane_type(column.lane()) && is_packed(
                made.layout,
                held,
                column,
            ),
    }
}

proof fn lemma_stays_given(made: Described, before: Held, after: Held, name: Seq<char>, given: Result<Given<'_>, String>)
    requires
        after.extends(before),
        given_describes(made, before, name, given),
    ensures
        given_describes(made, after, name, given),
{
    lemma_extends_keeps(before, after);
    match given {
        Err(_) => {},
        Ok(Given::Lent(array)) => {
            let elem = elem_of(array.kind);
            if array.raw@.len() / elem.spec_width() == 0 {
                let place = choose|place: Place|
                    made.layout == plain_at(elem, place) && #[trigger] before.has(place) && is_empty(
                        before.at(place),
                        elem,
                    );
                assert(after.has(place));
            }
        },
        Ok(Given::Value(value)) => {
            let items = value->Object_0.items->Some_0;
            let column = choose|column: Column|
                #![trigger is_column(column, items@, items@.len())]
                is_column(column, items@, items@.len()) && made.ty == lane_type(column.lane()) && is_packed(
                    made.layout,
                    before,
                    column,
                );
            lemma_stays_packed(made.layout, before, after, column);
        },
    }
}

proof fn lemma_stays_packed(layout: Layout, before: Held, after: Held, column: Column)
    requires
        after.extends(before),
        is_packed(layout, before, column),
    ensures
        is_packed(layout, after, column),
{
    lemma_extends_keeps(before, after);
    match column {
        Column::Int(v) => {
            lemma_stays_words(layout, before, after, v@);
        },
        Column::LocalTime(v) => {
            lemma_stays_words(layout, before, after, v@);
        },
        Column::LocalDatetime(v) => {
            lemma_stays_words(layout, before, after, v@);
        },
        Column::Duration(_, v) => {
            lemma_stays_words(layout, before, after, v@);
        },
        Column::Float(v) => {
            let place = choose|place: Place|
                layout == plain_at(Elem::Float(FloatBits::B64), place) && #[trigger] before.has(place) && (before.at(
                    place,
                ) matches Bytes::Eight(w) && w@ == v@);
            assert(after.has(place));
        },
        Column::Date(v) => {
            let place = choose|place: Place|
                layout == plain_at(day_elem(), place) && #[trigger] before.has(place) && (before.at(
                    place,
                ) matches Bytes::Four(w) && w@ == v@.map_values(|n: i32| n as u32));
            assert(after.has(place));
        },
        _ => {},
    }
}

proof fn lemma_stays_words(layout: Layout, before: Held, after: Held, ints: Seq<i64>)
    requires
        after.extends(before),
        exists|place: Place| layout == plain_at(word_elem(), place) && #[trigger] holds_words(place, before, ints),
    ensures
        exists|place: Place| layout == plain_at(word_elem(), place) && #[trigger] holds_words(place, after, ints),
{
    lemma_extends_keeps(before, after);
    let place = choose|place: Place|
        layout == plain_at(word_elem(), place) && #[trigger] holds_words(place, before, ints);
    assert(after.has(place));
    assert(holds_words(place, after, ints));
}

/// The bytes of a column of strings are the bytes of the strings it was read from.
proof fn lemma_item_bytes(column: Column, items: Seq<Js>, n: nat)
    requires
        is_column(column, items, items.len()),
        column matches Column::Str(_),
        n <= items.len(),
    ensures
        joined_bytes(column->Str_0@.take(n as int)).len() == item_bytes(items, n),
    decreases n,
{
    let strings = column->Str_0@;
    assert(strings.len() == column.cells().len());
    if n == 0 {
        assert(strings.take(0) =~= Seq::<String>::empty());
    } else {
        lemma_item_bytes(column, items, (n - 1) as nat);
        lemma_bytes_grow(strings, n - 1);
        assert(became(column.cells()[n - 1], items, n - 1, column.lane()));
        assert(column.cells()[n - 1] == Cell::Str(strings[n - 1]@));
    }
}

/// One column of an object of columns, described, and how many rows it holds.
fn given_column(name: &String, given: &Result<Given<'_>, String>, held: &mut Held) -> (r: Result<(u64, Described), String>)
    ensures
        final(held).extends(*old(held)),
        match r {
            Ok(made) => given_describes(made.1, *final(held), name@, *given) && given_rows(name@, *given)
                == Ok::<_, Seq<char>>(made.0 as int),
            Err(words) => given_rows(name@, *given) == Err::<int, _>(words@),
        },
{
    proof {
        lemma_extends_itself(*held);
    }
    let ghost before = *held;
    match given {
        Err(reason) => Err(reason.clone()),
        Ok(Given::Lent(array)) => {
            let elem: Elem = array.elem();
            let ty: LogicalType = match elem {
                Elem::Float(bits) => LogicalType::Float { bits, precision: None },
                Elem::Int { bits, signed, .. } => LogicalType::Int { signed, bits, precision: None },
                _ => LogicalType::Other,
            };
            let rows: usize = array.len();
            if rows == 0 {
                let place: Place = held.own(empty(&elem));
                proof {
                    lemma_more_extends(before, *held, Seq::empty(), 1);
                    assert(held.has(place));
                }
                Ok((0, Described { name: name.clone(), ty, layout: plain(elem, place) }))
            } else {
                let place: Place = held.lend(array);
                proof {
                    lemma_more_extends(before, *held, seq![array.id], 0);
                    assert(held.keeps(seq![array.id][0]));
                }
                Ok((rows as u64, Described { name: name.clone(), ty, layout: plain(elem, place) }))
            }
        },
        Ok(Given::Value(value)) => {
            let built: Column = values(name.as_str(), value)?;
            let ghost items = value->Object_0.items->Some_0@;
            proof {
                if built.lane() == Lane::Str {
                    let strings = built->Str_0@;
                    assert(strings.len() == built.cells().len());
                    assert forall|i: int| 0 <= i <= items.len() implies #[trigger] string_cuts(strings)[i] == item_cuts(
                        items,
                    )[i] by {
                        lemma_item_bytes(built, items, i as nat);
                    }
                    assert(string_cuts(strings) =~= item_cuts(items));
                }
            }
            let rows: usize = built.len();
            let (ty, layout): (LogicalType, Layout) = packed(name.as_str(), &built, held)?;
            proof {
                assert(is_column(built, items, items.len()));
            }
            Ok((rows as u64, Described { name: name.clone(), ty, layout }))
        },
    }
}

/// Why the first `n` columns of an object of columns are not taken, when they are not.
pub open spec fn object_denied(columns: Seq<(String, Result<Given<'_>, String>)>, n: nat) -> Option<Seq<char>>
    decreases n,
{
    if n == 0 {
        None
    } else {
        match object_denied(columns, (n - 1) as nat) {
            Some(words) => Some(words),
            None => match given_rows(columns[n - 1].0@, columns[n - 1].1) {
                Err(words) => Some(words),
                Ok(rows) => {
                    let had = given_rows(columns[n - 2].0@, columns[n - 2].1)->Ok_0;
                    if n >= 2 && rows != had { Some(uneven(columns[n - 1].0@, rows, had)) } else { None }
                },
            },
        }
    }
}

proof fn lemma_object_stops(columns: Seq<(String, Result<Given<'_>, String>)>, k: nat, n: nat)
    requires
        k <= n,
        object_denied(columns, k) is Some,
    ensures
        object_denied(columns, n) == object_denied(columns, k),
    decreases n,
{
    if k < n {
        lemma_object_stops(columns, k, (n - 1) as nat);
    }
}

/// Reads an object of column name to values.
///
/// A typed array is a column already and is described where it lies, and a plain array is read
/// into a buffer of this client's own, because an array of JavaScript values is a column of
/// objects and a column of a table is a run of numbers.
pub fn from_object(columns: &Vec<(String, Result<Given<'_>, String>)>) -> (r: Result<Frame, String>)
    ensures
        match r {
            Ok(frame) => {
                &&& object_denied(columns@, columns@.len()) is None
                &&& frame.columns@.len() == columns@.len()
                &&& forall|i: int|
                    0 <= i < columns@.len() ==> given_describes(
                        #[trigger] frame.columns@[i],
                        frame.held,
                        columns@[i].0@,
                        columns@[i].1,
                    )
                &&& forall|i: int|
                    0 <= i < columns@.len() ==> given_rows((#[trigger] columns@[i]).0@, columns@[i].1) == Ok::<
                        _,
                        Seq<char>,
                    >(frame.rows as int)
                &&& columns@.len() == 0 ==> frame.rows == 0
            },
            Err(words) => object_denied(columns@, columns@.len()) == Some(words@),
        },
{
    let mut held: Held = Held::new();
    let mut made: Vec<Described> = Vec::new();
    let mut rows: Option<u64> = None;
    let mut at: usize = 0;
    while at < columns.len()
        invariant
            at <= columns@.len(),
            made@.len() == at,
            object_denied(columns@, at as nat) is None,
            forall|i: int|
                0 <= i < at ==> given_describes(#[trigger] made@[i], held, columns@[i].0@, columns@[i].1),
            rows is None <==> at == 0,
            forall|i: int|
                0 <= i < at ==> given_rows((#[trigger] columns@[i]).0@, columns@[i].1) == Ok::<_, Seq<char>>(
                    rows->Some_0 as int,
                ),
        decreases columns@.len() - at,
    {
        let ghost before = held;
        match given_column(&columns[at].0, &columns[at].1, &mut held) {
            Err(words) => {
                proof {
                    lemma_object_stops(columns@, (at + 1) as nat, columns@.len());
                }
                return Err(words);
            },
            Ok(both) => {
                let (rows_here, described): (u64, Described) = both;
                if let Some(had) = rows {
                    if had != rows_here {
                        proof {
                            assert(given_rows(columns@[at - 1].0@, columns@[at - 1].1) == Ok::<_, Seq<char>>(
                                had as int,
                            ));
                            lemma_object_stops(columns@, (at + 1) as nat, columns@.len());
                        }
                        return Err(uneven_words(columns[at].0.as_str(), rows_here, had));
                    }
                }
                rows = Some(rows_here);
                proof {
                    assert forall|i: int| 0 <= i < at implies given_describes(
                        #[trigger] made@[i],
                        held,
                        columns@[i].0@,
                        columns@[i].1,
                    ) by {
                        lemma_stays_given(made@[i], before, held, columns@[i].0@, columns@[i].1);
                    }
                    assert(at > 0 ==> given_rows(columns@[at - 1].0@, columns@[at - 1].1) == Ok::<_, Seq<char>>(
                        rows_here as int,
                    ));
                }
                made.push(described);
            },
        }
        at += 1;
    }
    let rows: u64 = match rows {
        Some(rows) => rows,
        None => 0,
    };
    Ok(Frame { columns: made, rows, held })
}

/// What an object has of what every Arrow table in this ecosystem has, each property by what
/// reading it found.
pub struct Looks {
    /// What kind of value `schema` is.
    pub schema: Result<Kind, String>,
    /// What kind of value the schema's `fields` is, and whether it is an array.
    pub fields: Result<(Kind, bool), String>,
    /// What kind of value `getChildAt` is.
    pub child: Result<Kind, String>,
}

/// Whether these are the looks of an Arrow table, or why that could not be told.
pub open spec fn looks_arrow(looks: Looks) -> Result<bool, Seq<char>> {
    match looks.schema {
        Err(reason) => Err(reason@),
        Ok(schema) => if schema != Kind::Object {
            Ok(false)
        } else {
            match looks.fields {
                Err(reason) => Err(reason@),
                Ok((fields, array)) => if fields != Kind::Object || !array {
                    Ok(false)
                } else {
                    match looks.child {
                        Err(reason) => Err(reason@),
                        Ok(child) => Ok(child == Kind::Function),
                    }
                },
            }
        },
    }
}

/// Whether this looks like an Arrow table or record batch.
///
/// What is recognized is the shape every Arrow table has, a schema listing its fields and a call
/// that hands a column back by position, so a caller's `apache-arrow` and this client's are never
/// two copies of one library disagreeing about `instanceof`.
pub fn arrowish(looks: &Looks) -> (r: Result<bool, String>)
    ensures
        said(r) == looks_arrow(*looks),
{
    match &looks.schema {
        Err(reason) => return Err(reason.clone()),
        Ok(schema) => {
            if *schema != Kind::Object {
                return Ok(false);
            }
        },
    }
    match &looks.fields {
        Err(reason) => return Err(reason.clone()),
        Ok(fields) => {
            if fields.0 != Kind::Object || !fields.1 {
                return Ok(false);
            }
        },
    }
    match &looks.child {
        Err(reason) => Err(reason.clone()),
        Ok(child) => Ok(*child == Kind::Function),
    }
}

/// Which of the two shapes a frame is written in.
#[derive(Clone, Copy, PartialEq, Eq, Structural)]
pub enum Written {
    /// An Arrow table, whose columns [`from_arrow`] takes.
    Arrow,
    /// An object of column name to values, which [`from_object`] takes.
    Columns,
}

/// What a value that is no frame is told.
pub open spec fn not_a_frame(data: Js) -> Seq<char> {
    "a frame is an Arrow table, which is what `apache-arrow` and everything built on it \
             hands out, or an object of column name to values, and this is "@ + named_as(data)
}

/// Which shape a frame is written in, or what it is refused with.
pub open spec fn written_as(data: Js, looks: Looks) -> Result<Written, Seq<char>> {
    match data {
        Js::Unread(reason) => Err(reason@),
        Js::Object(thing) => match looks_arrow(looks) {
            Err(reason) => Err(reason),
            Ok(true) => Ok(Written::Arrow),
            Ok(false) => if thing.items is Some || thing.typed is Some {
                Err(not_a_frame(data))
            } else {
                Ok(Written::Columns)
            },
        },
        _ => Err(not_a_frame(data)),
    }
}

/// Tells which of the two shapes a frame is written in.
///
/// An array and a typed array are objects too, and neither of them names its columns.
pub fn read(data: &Js, looks: &Looks) -> (r: Result<Written, String>)
    ensures
        said(r) == written_as(*data, *looks),
{
    match data {
        Js::Unread(reason) => return Err(reason.clone()),
        Js::Object(thing) => {
            if arrowish(looks)? {
                return Ok(Written::Arrow);
            }
            if thing.items.is_none() && thing.typed.is_none() {
                return Ok(Written::Columns);
            }
        },
        _ => {},
    }
    Err(
        "a frame is an Arrow table, which is what `apache-arrow` and everything built on it \
             hands out, or an object of column name to values, and this is ".to_owned().concat(
            named(data).as_str(),
        ),
    )
}

/// The bytes of a column of strings, cut where it says they are cut, are the strings: what lies
/// between one cut and the next is one string, whole and in its place.
pub proof fn law_strings_read_back(strings: Seq<String>, i: int)
    requires
        0 <= i < strings.len(),
    ensures
        0 <= string_cuts(strings)[i] <= string_cuts(strings)[i + 1] <= joined_bytes(strings).len(),
        joined_bytes(strings).subrange(string_cuts(strings)[i], string_cuts(strings)[i + 1]) == encode_utf8(
            strings[i]@,
        ),
        string_cuts(strings)[0] == 0,
        string_cuts(strings)[strings.len() as int] == joined_bytes(strings).len(),
    decreases strings.len(),
{
    assert(strings.take(0) =~= Seq::<String>::empty());
    assert(strings.take(strings.len() as int) =~= strings);
    let rest = strings.drop_last();
    if i < rest.len() {
        law_strings_read_back(rest, i);
        assert(rest.take(i) =~= strings.take(i));
        assert(rest.take(i + 1) =~= strings.take(i + 1));
        assert(joined_bytes(strings).subrange(string_cuts(strings)[i], string_cuts(strings)[i + 1]) =~= joined_bytes(
            rest,
        ).subrange(string_cuts(rest)[i], string_cuts(rest)[i + 1]));
    } else {
        assert(strings.take(i) =~= rest);
        assert(joined_bytes(strings).subrange(string_cuts(strings)[i], string_cuts(strings)[i + 1]) =~= encode_utf8(
            strings[i]@,
        ));
    }
}

/// A string column put together out of several chunks holds the strings of the chunks: what lies
/// between two cuts of the whole is what lay between the two cuts of the chunk the row came from,
/// for every row of a chunk whose own cuts go forward and stay within its characters.
pub proof fn law_chunks_read_back(name: Seq<char>, pieces: Seq<Piece<'_>>, k: int, row: int)
    requires
        joined_strings(name, pieces) is Ok,
        0 <= k < pieces.len(),
        0 <= row < pieces[k].rows,
        cut(pieces[k], row) <= cut(pieces[k], row + 1) <= cut(pieces[k], pieces[k].rows as int),
    ensures
        ({
            let (data, cuts) = joined_strings(name, pieces)->Ok_0;
            let at = total_rows(pieces.take(k)) + row;
            &&& cuts.len() == total_rows(pieces) + 1
            &&& 0 <= at < cuts.len() - 1
            &&& 0 <= cuts[at] <= cuts[at + 1] <= data.len()
            &&& data.subrange(cuts[at], cuts[at + 1]) == pieces[k].values.raw@.subrange(
                cut(pieces[k], row) as int,
                cut(pieces[k], row + 1) as int,
            )
        }),
    decreases pieces.len(),
{
    let rest = pieces.drop_last();
    let last = pieces.last();
    let (before, ends_before) = joined_strings(name, rest)->Ok_0;
    let (data, cuts) = joined_strings(name, pieces)->Ok_0;
    let ends = ends_of(last, before.len());
    lemma_cut_count(name, rest);
    lemma_cut_count(name, pieces);
    lemma_well_cut(name, last, before.len(), 1);
    let (from, to) = span_of(name, last)->Ok_0;
    assert(from == cut(last, 0) && to == cut(last, last.rows as int));
    if k < rest.len() {
        law_chunks_read_back(name, rest, k, row);
        assert(rest.take(k) =~= pieces.take(k));
        let at = total_rows(pieces.take(k)) + row;
        assert(cuts[at] == ends_before[at] && cuts[at + 1] == ends_before[at + 1]);
        assert(data.subrange(cuts[at], cuts[at + 1]) =~= before.subrange(ends_before[at], ends_before[at + 1]));
    } else {
        assert(pieces.take(k) =~= rest);
        let at = total_rows(rest) + row;
        assert(from <= cut(last, row) && from <= cut(last, row + 1));
        assert(cuts[at + 1] == ends[row]);
        if row > 0 {
            assert(cuts[at] == ends[row - 1]);
        }
        assert(cuts[at] == cut(last, row) - from + before.len());
        assert(data.subrange(cuts[at], cuts[at + 1]) =~= last.values.raw@.subrange(
            cut(last, row) as int,
            cut(last, row + 1) as int,
        ));
    }
}

/// A string column has one cut more than rows, and its last cut is the end of its characters.
proof fn lemma_cut_count(name: Seq<char>, pieces: Seq<Piece<'_>>)
    requires
        joined_strings(name, pieces) is Ok,
    ensures
        ({
            let (data, cuts) = joined_strings(name, pieces)->Ok_0;
            cuts.len() == total_rows(pieces) + 1 && cuts.last() == data.len()
        }),
    decreases pieces.len(),
{
    if pieces.len() > 0 {
        let rest = pieces.drop_last();
        let last = pieces.last();
        lemma_cut_count(name, rest);
        let (before, ends_before) = joined_strings(name, rest)->Ok_0;
        let (data, cuts) = joined_strings(name, pieces)->Ok_0;
        let ends = ends_of(last, before.len());
        assert(cuts == ends_before + ends);
        assert(span_of(name, last)->Ok_0 == (cut(last, 0), cut(last, last.rows as int)));
        if last.rows > 0 {
            assert(cuts.last() == ends[last.rows - 1]);
        } else {
            assert(cuts.last() == ends_before.last());
        }
    }
}

/// A bitmap holds the booleans it was made of, one bit a row from the lowest, and no two columns
/// of booleans of one length have the same bitmap.
pub proof fn law_bitmap_is_one_column(bytes: Seq<u8>, one: Seq<bool>, other: Seq<bool>)
    requires
        is_bitmap(bytes, one),
        is_bitmap(bytes, other),
        one.len() == other.len(),
    ensures
        one == other,
{
    assert forall|i: int| 0 <= i < one.len() implies one[i] == other[i] by {
        assert(bit_set(bytes, i) == one[i]);
        assert(bit_set(bytes, i) == other[i]);
    }
    assert(one =~= other);
}

/// Every Arrow time, timestamp and duration counts nanoseconds once it is scaled: what one count is
/// multiplied by, times how many of its unit a second has, is the nanoseconds of a second.
pub proof fn law_units_meet_at_nanoseconds(name: Seq<char>, ty: ArrowType, means: LogicalType, elem: Elem, unit: u64)
    requires
        meaning_of(name, ty) == Ok::<_, Seq<char>>((means, elem)),
        ty.id matches Ok(id) && (id == 9 || id == 10 || id == 18),
        ty.unit == Ok::<_, String>(unit),
    ensures
        elem matches Elem::Int { bits, signed, scale } && signed && (cast_i64(unit) == 0 ==> scale * 1 == 1_000_000_000)
            && (cast_i64(unit) == 1 ==> scale * 1_000 == 1_000_000_000) && (cast_i64(unit) == 2 ==> scale * 1_000_000
            == 1_000_000_000) && (cast_i64(unit) == 3 ==> scale * 1_000_000_000 == 1_000_000_000) && int_width(bits) == (
        if ty.id == Ok::<i32, String>(9) && (cast_i64(unit) == 0 || cast_i64(unit) == 1) { 4nat } else { 8nat }),
        ty.id == Ok::<i32, String>(9) ==> means == LogicalType::LocalTime,
        ty.id == Ok::<i32, String>(10) ==> means == LogicalType::LocalDatetime && ty.timezone == Ok::<
            Option<String>,
            String,
        >(None),
        ty.id == Ok::<i32, String>(18) ==> means == LogicalType::Duration(DurationKind::DayTime),
{
}

/// A count in one unit and a thousand times the count in the next finer one are the same
/// nanoseconds, whichever of the Arrow types counts them.
pub proof fn law_a_finer_unit_counts_the_same(
    name: Seq<char>,
    one: ArrowType,
    other: ArrowType,
    coarse: Elem,
    fine: Elem,
    means: LogicalType,
    meant: LogicalType,
    unit: u64,
    finer: u64,
    count: int,
)
    requires
        meaning_of(name, one) == Ok::<_, Seq<char>>((means, coarse)),
        meaning_of(name, other) == Ok::<_, Seq<char>>((meant, fine)),
        one.id matches Ok(id) && (id == 9 || id == 10 || id == 18),
        other.id matches Ok(id) && (id == 9 || id == 10 || id == 18),
        one.unit == Ok::<_, String>(unit),
        other.unit == Ok::<_, String>(finer),
        0 <= cast_i64(unit) < 3,
        cast_i64(finer) == cast_i64(unit) + 1,
    ensures
        coarse is Int && fine is Int && count * coarse->scale == (count * 1_000) * fine->scale,
{
    law_units_meet_at_nanoseconds(name, one, means, coarse, unit);
    law_units_meet_at_nanoseconds(name, other, meant, fine, finer);
    let by = fine->scale as int;
    assert(coarse->scale == 1_000 * by);
    assert(count * (1_000 * by) == (count * 1_000) * by) by (nonlinear_arith);
}

/// Every other Arrow type is read as wide as it is: an integer by its own bits and with its own
/// sign, a float by its precision, a boolean by the bit, a string by the width of its offsets, a
/// date by the day and a year-month interval by the month, none of them scaled.
pub proof fn law_arrow_types_keep_their_width(name: Seq<char>, ty: ArrowType, means: LogicalType, elem: Elem)
    requires
        meaning_of(name, ty) == Ok::<_, Seq<char>>((means, elem)),
    ensures
        ty.id == Ok::<i32, String>(2) ==> (elem matches Elem::Int { bits, signed, scale } && scale == 1 && (
        ty.bit_width matches Ok(width) && int_width(bits) * 8 == cast_i64(width)) && ty.is_signed == Ok::<_, String>(signed)
            && means == (LogicalType::Int { signed, bits, precision: None })),
        ty.id == Ok::<i32, String>(3) ==> (elem matches Elem::Float(bits) && (ty.precision matches Ok(precision)
            && float_width(bits) == 4 * cast_i64(precision)) && means == (LogicalType::Float { bits, precision: None })),
        ty.id == Ok::<i32, String>(6) ==> elem is Bool && means is Bool,
        ty.id == Ok::<i32, String>(5) ==> elem == (Elem::Str { wide: false }) && elem.spec_width() == 4,
        ty.id == Ok::<i32, String>(20) ==> elem == (Elem::Str { wide: true }) && elem.spec_width() == 8,
        elem is Str ==> means == (LogicalType::Str { min: None, max: None, fixed: false }),
        ty.id == Ok::<i32, String>(8) ==> means is Date && (elem matches Elem::Int { bits, signed, scale } && signed
            && int_width(bits) == 4 && scale == 1),
        ty.id == Ok::<i32, String>(11) ==> means == LogicalType::Duration(DurationKind::YearMonth) && (
        elem matches Elem::Int { bits, signed, scale } && signed && int_width(bits) == 4 && scale == 1),
{
}

/// An Arrow column is taken exactly when this engine has a type for it: integers of 8, 16, 32 and 64
/// bits, floats of 32 and 64, booleans, strings, dates by the day, times, timestamps in no zone,
/// durations, and intervals of months.
pub proof fn law_these_arrow_types_are_taken(name: Seq<char>, ty: ArrowType, id: i32, width: u64, precision: u64, unit: u64)
    requires
        ty.id == Ok::<_, String>(id),
        ty.bit_width == Ok::<_, String>(width),
        ty.is_signed is Ok,
        ty.precision == Ok::<_, String>(precision),
        ty.unit == Ok::<_, String>(unit),
        ty.timezone is Ok,
    ensures
        meaning_of(name, ty) is Ok <==> match id {
            2 => cast_i64(width) == 8 || cast_i64(width) == 16 || cast_i64(width) == 32 || cast_i64(width) == 64,
            3 => cast_i64(precision) == 1 || cast_i64(precision) == 2,
            5 | 6 | 9 | 18 | 20 => true,
            8 | 11 => cast_i64(unit) == 0,
            10 => ty.timezone == Ok::<Option<String>, String>(None),
            _ => false,
        },
        meaning_of(name, ty) matches Err(words) ==> words.len() > name.len() && words.subrange(
            8,
            8 + name.len() as int,
        ) == name,
{
    reveal_strlit("column '");
    assert("column '"@.len() == 8);
    if let Err(words) = meaning_of(name, ty) {
        assert(words.subrange(8, 8 + name.len() as int) =~= name);
    }
}

/// A layout reads a column as what its element is: the same width, sign and scale, at the place it
/// was put.
pub proof fn law_a_layout_is_its_element(elem: Elem, place: Place)
    requires
        !(elem is Str),
    ensures
        match plain_at(elem, place) {
            Layout::Int { place: at, bits, signed, scale } => at == place && elem == (Elem::Int { bits, signed, scale }),
            Layout::Float { place: at, bits } => at == place && elem == Elem::Float(bits),
            Layout::Bool { place: at } => at == place && elem is Bool,
            Layout::Str { .. } => false,
        },
{
}

/// Rows add up: a column of the chunks of two columns has the rows of both.
pub proof fn law_rows_add_up(one: Seq<Piece<'_>>, other: Seq<Piece<'_>>, piece: Piece<'_>)
    ensures
        total_rows(one + other) == total_rows(one) + total_rows(other),
        total_rows(seq![piece]) == piece.rows,
        total_rows(Seq::<Piece<'_>>::empty()) == 0,
    decreases other.len(),
{
    reveal_with_fuel(total_rows, 2);
    assert(seq![piece].drop_last() =~= Seq::<Piece<'_>>::empty());
    if other.len() > 0 {
        law_rows_add_up(one, other.drop_last(), piece);
        assert((one + other).drop_last() =~= one + other.drop_last());
        assert((one + other).last() == other.last());
    } else {
        assert(one + other =~= one);
    }
}

proof fn lemma_words_length(width: nat, pieces: Seq<Piece<'_>>)
    requires
        words_there(width, pieces),
    ensures
        joined_words(width, pieces).len() == total_rows(pieces) * width,
    decreases pieces.len(),
{
    if pieces.len() > 0 {
        let rest = pieces.drop_last();
        assert forall|i: int| 0 <= i < rest.len() implies (#[trigger] rest[i]).rows * width <= rest[i].values.raw@.len() by {
            assert(rest[i] == pieces[i]);
        }
        lemma_words_length(width, rest);
        let last = pieces[pieces.len() - 1];
        assert(last.rows * width >= 0) by (nonlinear_arith)
            requires
                last.rows >= 0,
                width >= 0,
        ;
        assert((total_rows(rest) + last.rows) * width == total_rows(rest) * width + last.rows * width)
            by (nonlinear_arith);
    } else {
        assert(0 * width == 0) by (nonlinear_arith);
    }
}

/// A column of several chunks is read back row by row: the bytes of a row of the whole are the bytes
/// of the row of the chunk it came from. A column of one chunk is read where it lies.
pub proof fn law_words_read_back(
    place: Place,
    held: Held,
    width: nat,
    pieces: Seq<Piece<'_>>,
    k: int,
    row: int,
    byte: int,
)
    requires
        words_at(place, held, width, pieces),
        pieces.len() != 1 ==> words_there(width, pieces),
        0 <= k < pieces.len(),
        0 <= row < pieces[k].rows,
        0 <= byte < width,
    ensures
        pieces.len() == 1 ==> place == (Place::Lent { id: pieces[0].values.id, at: 0 }) && held.lent@.contains(
            pieces[0].values.id,
        ),
        pieces.len() != 1 ==> (place matches Place::Owned { index, at } && at == 0 && index < held.owned@.len() && (
        held.owned@[index as int] matches Bytes::Run { width: w, bytes } && w == width && bytes@.len() == total_rows(pieces)
            * width && 0 <= (total_rows(pieces.take(k)) + row) * width + byte < bytes@.len() && bytes@[(total_rows(
            pieces.take(k),
        ) + row) * width + byte] == pieces[k].values.raw@[row * width + byte])),
{
    if pieces.len() != 1 {
        lemma_words_length(width, pieces);
        lemma_row_bytes(width, pieces, k, row, byte);
    }
}

proof fn lemma_row_bytes(width: nat, pieces: Seq<Piece<'_>>, k: int, row: int, byte: int)
    requires
        words_there(width, pieces),
        0 <= k < pieces.len(),
        0 <= row < pieces[k].rows,
        0 <= byte < width,
    ensures
        ({
            let at = (total_rows(pieces.take(k)) + row) * width + byte;
            0 <= at < joined_words(width, pieces).len() && joined_words(width, pieces)[at] == pieces[k].values.raw@[row
                * width + byte]
        }),
    decreases pieces.len(),
{
    let rest = pieces.drop_last();
    let last = pieces[pieces.len() - 1];
    assert forall|i: int| 0 <= i < rest.len() implies (#[trigger] rest[i]).rows * width <= rest[i].values.raw@.len() by {
        assert(rest[i] == pieces[i]);
    }
    lemma_words_length(width, rest);
    let at = (total_rows(pieces.take(k)) + row) * width + byte;
    assert(last.rows * width >= 0) by (nonlinear_arith)
        requires
            last.rows >= 0,
            width >= 0,
    ;
    if k < rest.len() {
        lemma_row_bytes(width, rest, k, row, byte);
        assert(rest.take(k) =~= pieces.take(k));
    } else {
        assert(pieces.take(k) =~= rest);
        let rows = pieces[k].rows as int;
        assert((total_rows(rest) + row) * width == total_rows(rest) * width + row * width) by (nonlinear_arith);
        assert(row * width + byte < rows * width && row * width >= 0) by (nonlinear_arith)
            requires
                0 <= row < rows,
                0 <= byte < width,
        ;
        let taken = last.values.raw@.take((last.rows * width) as int);
        assert(taken.len() == last.rows * width);
        assert(joined_words(width, pieces)[at] == taken[row * width + byte]);
    }
}

/// A byte is its bits, each counting twice what the one before it counts, the lowest of them one.
pub proof fn law_a_byte_is_its_bits(byte: u8)
    ensures
        byte == (if bit(byte, 0) { 1int } else { 0 }) + (if bit(byte, 1) { 2int } else { 0 }) + (if bit(byte, 2) {
            4int
        } else {
            0
        }) + (if bit(byte, 3) { 8int } else { 0 }) + (if bit(byte, 4) { 16int } else { 0 }) + (if bit(byte, 5) {
            32int
        } else {
            0
        }) + (if bit(byte, 6) { 64int } else { 0 }) + (if bit(byte, 7) { 128int } else { 0 }),
{
    assert(byte == ((byte >> 0u8) & 1) + 2 * ((byte >> 1u8) & 1) + 4 * ((byte >> 2u8) & 1) + 8 * ((byte >> 3u8) & 1)
        + 16 * ((byte >> 4u8) & 1) + 32 * ((byte >> 5u8) & 1) + 64 * ((byte >> 6u8) & 1) + 128 * ((byte >> 7u8) & 1))
        by (bit_vector);
    assert(((byte >> 0u8) & 1) <= 1 && ((byte >> 1u8) & 1) <= 1 && ((byte >> 2u8) & 1) <= 1 && ((byte >> 3u8) & 1) <= 1
        && ((byte >> 4u8) & 1) <= 1 && ((byte >> 5u8) & 1) <= 1 && ((byte >> 6u8) & 1) <= 1 && ((byte >> 7u8) & 1) <= 1)
        by (bit_vector);
}

/// A column of booleans is read back bit by bit: the bit of a row is the bit of the row of the chunk
/// it came from, whether the chunks were put together or the one there is was left where it lies.
pub proof fn law_bits_read_back(place: Place, held: Held, pieces: Seq<Piece<'_>>, k: int, row: int)
    requires
        bits_at(place, held, pieces),
        0 <= k < pieces.len(),
        0 <= row < pieces[k].rows,
    ensures
        match place {
            Place::Lent { id, at } => pieces.len() == 1 && id == pieces[0].values.id && held.lent@.contains(id) && at * 8
                == pieces[0].at,
            Place::Owned { index, at } => at == 0 && index < held.owned@.len() && (held.owned@[index as int] matches Bytes::One(
                bytes,
            ) && bit_set(bytes@, total_rows(pieces.take(k)) + row) == bit_set(
                pieces[k].values.raw@,
                pieces[k].at + row,
            )),
        },
{
    if !aligned(pieces) {
        lemma_joined_bits(pieces);
        lemma_row_bit(pieces, k, row);
        let bytes = held.at(place)->One_0@;
        let i = total_rows(pieces.take(k)) + row;
        assert(i < 8 * bytes.len());
        assert(bit_set(bytes, i) == joined_bits(pieces)[i]);
    }
}

proof fn lemma_row_bit(pieces: Seq<Piece<'_>>, k: int, row: int)
    requires
        0 <= k < pieces.len(),
        0 <= row < pieces[k].rows,
    ensures
        0 <= total_rows(pieces.take(k)) + row < joined_bits(pieces).len(),
        joined_bits(pieces)[total_rows(pieces.take(k)) + row] == bit_set(pieces[k].values.raw@, pieces[k].at + row),
    decreases pieces.len(),
{
    let rest = pieces.drop_last();
    lemma_joined_bits(rest);
    if k < rest.len() {
        lemma_row_bit(rest, k, row);
        assert(rest.take(k) =~= pieces.take(k));
    } else {
        assert(pieces.take(k) =~= rest);
    }
}

/// A string column of one chunk is the chunk: its characters are pointed at where the first of them
/// is, and its offsets, where they had to be counted again, cut them where the chunk's own did.
pub proof fn law_one_chunk_is_cut_where_it_was(
    layout: Layout,
    held: Held,
    name: Seq<char>,
    wide: bool,
    piece: Piece<'_>,
    row: int,
)
    requires
        strings_at(layout, held, name, wide, seq![piece]),
        piece.cuts is Some,
        0 <= row <= piece.rows,
    ensures
        layout matches Layout::Str { offsets, wide: w, data, data_len } && (data matches Place::Lent { id, at } && id
            == piece.values.id && at == cut(piece, 0)) && data_len == cut(piece, piece.rows as int) - cut(piece, 0)
            && match offsets {
            Place::Lent { id, at } => cut(piece, 0) == 0 && at == 0 && id == piece.cuts->Some_0.id && w == wide,
            Place::Owned { index, at } => at == 0 && !w && index < held.owned@.len() && (held.owned@[index as int]
                matches Bytes::Offsets(made) && made@.len() == piece.rows + 1 && cut(piece, 0) + made@[row] == cut(piece, row)),
        },
{
    let one = seq![piece][0];
    assert(one == piece);
    if let Layout::Str { offsets, .. } = layout {
        if cut(piece, 0) != 0 {
            let made = held.at(offsets)->Offsets_0;
            let counted = rebased(piece, (piece.rows + 1) as nat);
            assert(made@.map_values(|n: i32| n as int)[row] == counted[row]);
            assert(made@.map_values(|n: i32| n as int).len() == counted.len());
        }
    }
}

/// The row with no value that is told of is the first there is, and there is none exactly when every
/// row's bit is set.
pub proof fn law_the_first_hole_is_told(raw: Seq<u8>, at: int, row: int, rows: int)
    requires
        row <= rows,
    ensures
        match clear_from(raw, at, row, rows) {
            None => forall|i: int| row <= i < rows ==> #[trigger] bit_set(raw, at + i),
            Some(found) => row <= found < rows && !bit_set(raw, at + found) && forall|i: int|
                row <= i < found ==> #[trigger] bit_set(raw, at + i),
        },
    decreases rows - row,
{
    if row < rows {
        law_the_first_hole_is_told(raw, at, row + 1, rows);
    }
}

/// The chunks of a column are read one for one, each with the rows, the start and the values it says,
/// and none of them has a row without a value where the column counts any.
pub proof fn law_chunks_are_read_as_they_are<'a>(
    name: Seq<char>,
    elem: Elem,
    nulls: u64,
    chunks: Seq<Chunk<'a>>,
    n: nat,
    k: int,
)
    requires
        n <= chunks.len(),
        pieces_of(name, elem, nulls, chunks, n) is Ok,
        0 <= k < n,
    ensures
        ({
            let pieces = pieces_of(name, elem, nulls, chunks, n)->Ok_0;
            &&& pieces.len() == n
            &&& chunks[k].length matches Ok(rows) && pieces[k].rows == cast_usize(rows)
            &&& chunks[k].offset matches Ok(at) && pieces[k].at == cast_usize(at)
            &&& chunks[k].values == Ok::<_, String>(Some(pieces[k].values))
            &&& elem is Str ==> chunks[k].cuts == Ok::<_, String>(pieces[k].cuts) && pieces[k].cuts is Some
            &&& !zero(nulls) ==> hole_of(chunks[k]) == Ok::<Option<int>, Seq<char>>(None)
        }),
    decreases n,
{
    if k < n - 1 {
        law_chunks_are_read_as_they_are(name, elem, nulls, chunks, (n - 1) as nat, k);
    } else if n > 1 {
        law_chunks_are_read_as_they_are(name, elem, nulls, chunks, (n - 1) as nat, 0);
    }
}

/// A table that is taken is as long in every column as in every other, and each column of it was
/// taken for itself.
pub proof fn law_a_table_is_of_one_length(columns: Seq<ArrowColumn<'_>>, i: int, j: int)
    requires
        table_denied(columns, columns.len()) is None,
        0 <= i <= j < columns.len(),
    ensures
        known(columns[i]) is Ok,
        known(columns[j]) is Ok,
        arrow_rows(columns[i]) == arrow_rows(columns[j]),
{
    lemma_one_length(columns, columns.len(), i, j);
}

proof fn lemma_one_length(columns: Seq<ArrowColumn<'_>>, n: nat, i: int, j: int)
    requires
        n <= columns.len(),
        table_denied(columns, n) is None,
        0 <= i <= j < n,
    ensures
        known(columns[i]) is Ok,
        known(columns[j]) is Ok,
        arrow_rows(columns[i]) == arrow_rows(columns[j]),
    decreases n,
{
    if j < n - 1 {
        lemma_one_length(columns, (n - 1) as nat, i, j);
    } else if i < j {
        lemma_one_length(columns, (n - 1) as nat, i, j - 1);
    }
}

/// An object of columns that is taken is as long in every column as in every other.
pub proof fn law_an_object_is_of_one_length(columns: Seq<(String, Result<Given<'_>, String>)>, i: int, j: int)
    requires
        object_denied(columns, columns.len()) is None,
        0 <= i <= j < columns.len(),
    ensures
        given_rows(columns[i].0@, columns[i].1) is Ok,
        given_rows(columns[i].0@, columns[i].1) == given_rows(columns[j].0@, columns[j].1),
{
    lemma_one_object(columns, columns.len(), i, j);
}

proof fn lemma_one_object(columns: Seq<(String, Result<Given<'_>, String>)>, n: nat, i: int, j: int)
    requires
        n <= columns.len(),
        object_denied(columns, n) is None,
        0 <= i <= j < n,
    ensures
        given_rows(columns[i].0@, columns[i].1) is Ok,
        given_rows(columns[i].0@, columns[i].1) == given_rows(columns[j].0@, columns[j].1),
    decreases n,
{
    if j < n - 1 {
        lemma_one_object(columns, (n - 1) as nat, i, j);
    } else if i < j {
        lemma_one_object(columns, (n - 1) as nat, i, j - 1);
    }
}

/// A typed array is read as what it is: elements of its own width, signed where they are signed,
/// counting in ones, as many as its bytes hold, and where they lie.
pub proof fn law_a_typed_array_is_read_as_it_is(made: Described, held: Held, name: Seq<char>, array: Lent<'_>)
    requires
        given_describes(made, held, name, Ok(Given::Lent(array))),
    ensures
        ({
            let width = match array.kind {
                Elements::I8 | Elements::U8 => 1nat,
                Elements::I16 | Elements::U16 => 2nat,
                Elements::I32 | Elements::U32 | Elements::F32 => 4nat,
                Elements::I64 | Elements::U64 | Elements::F64 => 8nat,
            };
            let unsigned = array.kind is U8 || array.kind is U16 || array.kind is U32 || array.kind is U64;
            &&& made.name@ == name
            &&& given_rows(name, Ok(Given::Lent(array))) matches Ok(rows) && rows * width <= array.raw@.len() < (rows + 1)
                * width
            &&& array.kind is F32 || array.kind is F64 <==> made.layout is Float
            &&& made.layout is Int || made.layout is Float
            &&& made.layout matches Layout::Int { place, bits, signed, scale } ==> int_width(bits) == width && signed
                == !unsigned && scale == 1 && made.ty == (LogicalType::Int { signed, bits, precision: None }) && (
            array.raw@.len() >= width ==> place == (Place::Lent { id: array.id, at: 0 }) && held.lent@.contains(array.id))
            &&& made.layout matches Layout::Float { place, bits } ==> float_width(bits) == width && made.ty == (
            LogicalType::Float { bits, precision: None }) && (array.raw@.len() >= width ==> place == (Place::Lent {
                id: array.id,
                at: 0,
            }) && held.lent@.contains(array.id))
        }),
{
    let size = array.raw@.len();
    let width = elem_of(array.kind).spec_width();
    let rows = size / width;
    assert(width == 1 || width == 2 || width == 4 || width == 8);
    vstd::arithmetic::div_mod::lemma_fundamental_div_mod(size as int, width as int);
    vstd::arithmetic::div_mod::lemma_mod_bound(size as int, width as int);
    assert(rows * width <= size < (rows + 1) * width) by (nonlinear_arith)
        requires
            size == width * rows + size % width,
            0 <= size % width < width,
    ;
    if size >= width {
        assert(rows >= 1) by (nonlinear_arith)
            requires
                size >= width,
                size < (rows + 1) * width,
                width > 0,
        ;
    }
}

/// A column of JavaScript values is packed as the values it holds: integers, times, datetimes and
/// durations by their 64 bits, dates by their 32, floats by the bits of their doubles, booleans by
/// the bit, one for one and in order, each read signed and unscaled.
pub proof fn law_a_packed_column_reads_back(layout: Layout, held: Held, column: Column, row: int)
    requires
        is_packed(layout, held, column),
        0 <= row < column.cells().len(),
    ensures
        match layout {
            Layout::Int { place, bits, signed, scale } => signed && scale == 1 && (place matches Place::Owned { index, at }
                && at == 0 && index < held.owned@.len() && match held.owned@[index as int] {
                Bytes::Eight(v) => int_width(bits) == 8 && v@.len() == column.cells().len() && match column {
                    Column::Int(w) => v@[row] as i64 == w@[row],
                    Column::LocalTime(w) => v@[row] as i64 == w@[row],
                    Column::LocalDatetime(w) => v@[row] as i64 == w@[row],
                    Column::Duration(_, w) => v@[row] as i64 == w@[row],
                    _ => false,
                },
                Bytes::Four(v) => int_width(bits) == 4 && v@.len() == column.cells().len() && (column matches Column::Date(w)
                    && v@[row] as i32 == w@[row]),
                _ => false,
            }),
            Layout::Float { place, bits } => float_width(bits) == 8 && (place matches Place::Owned { index, at } && at == 0
                && index < held.owned@.len() && (held.owned@[index as int] matches Bytes::Eight(v)
                && (column matches Column::Float(w) && v@ == w@))),
            Layout::Bool { place } => place matches Place::Owned { index, at } && at == 0 && index < held.owned@.len() && (
            held.owned@[index as int] matches Bytes::One(bytes) && (column matches Column::Bool(w) && bit_set(bytes@, row)
                == w@[row])),
            Layout::Str { offsets, wide, data, data_len } => !wide && (column matches Column::Str(w) && held.has(offsets)
                && held.has(data) && (held.at(offsets) matches Bytes::Offsets(cuts) && (held.at(data) matches Bytes::One(
                bytes,
            ) && data_len == bytes@.len() && cuts@.len() == w@.len() + 1 && 0 <= cuts@[row] <= cuts@[row + 1]
                <= bytes@.len() && bytes@.subrange(cuts@[row] as int, cuts@[row + 1] as int) == encode_utf8(w@[row]@)))),
        },
{
    match column {
        Column::Int(w) => lemma_same_word(w@[row]),
        Column::LocalTime(w) => lemma_same_word(w@[row]),
        Column::LocalDatetime(w) => lemma_same_word(w@[row]),
        Column::Duration(_, w) => lemma_same_word(w@[row]),
        Column::Date(w) => {
            let n = w@[row];
            assert((n as u32) as i32 == n) by (bit_vector);
        },
        Column::Bool(w) => {
            let bytes = held.at(layout->Bool_place)->One_0@;
            assert(row < 8 * bytes.len());
            assert(bit_set(bytes, row) == w@[row]);
        },
        Column::Str(w) => {
            law_strings_read_back(w@, row);
            let cuts = held.at(layout->Str_offsets)->Offsets_0@;
            let counted = cuts.map_values(|n: i32| n as int);
            assert(counted == string_cuts(w@));
            assert(cuts.len() == counted.len());
            assert(cuts[row] == counted[row] && cuts[row + 1] == counted[row + 1]);
        },
        _ => {},
    }
}

proof fn lemma_same_word(n: i64)
    ensures
        (n as u64) as i64 == n,
{
    assert((n as u64) as i64 == n) by (bit_vector);
}

/// A column of values is registered as the type a column of that lane is declared as, so what is
/// appended to a table and what is registered beside it are of one type.
pub proof fn law_a_lane_is_registered_as_its_type(lane: Lane)
    requires
        lane != Lane::Bytes,
    ensures
        lane_for(lane_type(lane)) == Some(lane),
{
}

/// An object is an Arrow table exactly when it has a schema that lists its fields in an array and a
/// call that hands a column back; any other object that is no array is a frame by its columns, and
/// an array and what is no object are no frame.
pub proof fn law_two_shapes_are_frames(data: Js, looks: Looks, schema: Kind, fields: Kind, array: bool, child: Kind)
    requires
        looks.schema == Ok::<_, String>(schema),
        looks.fields == Ok::<_, String>((fields, array)),
        looks.child == Ok::<_, String>(child),
    ensures
        ({
            let arrow = schema is Object && fields is Object && array && child is Function;
            &&& looks_arrow(looks) == Ok::<_, Seq<char>>(arrow)
            &&& written_as(data, looks) == Ok::<_, Seq<char>>(Written::Arrow) <==> data is Object && arrow
            &&& written_as(data, looks) == Ok::<_, Seq<char>>(Written::Columns) <==> !arrow && (data matches Js::Object(thing)
                && thing.items is None && thing.typed is None)
        }),
{
}

/// An offset is the element of the array at its place, whichever of the two widths it is, and there
/// is none past the end or in an array of anything else.
pub proof fn law_an_offset_is_read_as_it_is(cuts: Cuts<'_>, at: int)
    ensures
        match cuts.held {
            Offsets::I32(v) => (cuts.spec_offset(at) is Some <==> 0 <= at < v@.len()) && (cuts.spec_offset(at) matches Some(n)
                ==> n == v@[at]),
            Offsets::I64(v) => (cuts.spec_offset(at) is Some <==> 0 <= at < v@.len()) && (cuts.spec_offset(at) matches Some(n)
                ==> n == v@[at]),
            Offsets::Other => cuts.spec_offset(at) is None,
        },
{
}

/// The offsets of a chunk are counted again when none of them goes back before the first and none
/// reaches further than 32 bits, and are refused by the first that does.
pub proof fn law_offsets_are_counted_forward(name: Seq<char>, piece: Piece<'_>, base: nat, row: int)
    requires
        0 <= row,
    ensures
        miscut(name, piece, base, row) is None <==> forall|k: int|
            row <= k <= piece.rows ==> cut(piece, 0) <= #[trigger] cut(piece, k) && cut(piece, k) - cut(piece, 0) + base
                <= 0x7fff_ffff,
        miscut(name, piece, base, row) matches Some(denied) ==> exists|k: int|
            row <= k <= piece.rows && (denied is Broken <==> #[trigger] cut(piece, k) < cut(piece, 0)) && (denied is Words
                ==> cut(piece, k) - cut(piece, 0) + base > 0x7fff_ffff) && forall|j: int|
                row <= j < k ==> cut(piece, 0) <= #[trigger] cut(piece, j) && cut(piece, j) - cut(piece, 0) + base
                    <= 0x7fff_ffff,
    decreases piece.rows + 1 - row,
{
    if row <= piece.rows {
        law_offsets_are_counted_forward(name, piece, base, row + 1);
        let here = cut(piece, row);
        if here >= cut(piece, 0) && here - cut(piece, 0) + base <= 0x7fff_ffff {
            if let Some(denied) = miscut(name, piece, base, row + 1) {
                let k = choose|k: int|
                    row + 1 <= k <= piece.rows && (denied is Broken <==> #[trigger] cut(piece, k) < cut(piece, 0)) && (denied
                        is Words ==> cut(piece, k) - cut(piece, 0) + base > 0x7fff_ffff) && forall|j: int|
                        row + 1 <= j < k ==> cut(piece, 0) <= #[trigger] cut(piece, j) && cut(piece, j) - cut(piece, 0)
                            + base <= 0x7fff_ffff;
                assert forall|j: int| row <= j < k implies cut(piece, 0) <= #[trigger] cut(piece, j) && cut(piece, j) - cut(
                    piece,
                    0,
                ) + base <= 0x7fff_ffff by {
                    if j == row {
                    }
                }
                assert(row <= k <= piece.rows && (denied is Broken <==> cut(piece, k) < cut(piece, 0)));
            }
        }
    }
}

/// An Arrow column is described as what it is: under its own name, as the type it means, and, where
/// it has rows, read as what its element is from where its words, its bits or its strings are.
pub proof fn law_an_arrow_column_is_described_as_it_is(made: Described, held: Held, column: ArrowColumn<'_>)
    requires
        describes(made, held, column),
    ensures
        column.name matches Ok(name) && made.name@ == name@ && (column.vector matches Ok(Some(vector)) && (
        vector.ty matches Ok(ty) && (meaning_of(name@, ty) matches Ok(both) && made.ty == both.0 && match made.layout {
            Layout::Int { place, bits, signed, scale } => both.1 == (Elem::Int { bits, signed, scale }) && (arrow_rows(column)
                > 0 ==> words_at(place, held, both.1.spec_width(), known(column)->Ok_0.pieces)),
            Layout::Float { place, bits } => both.1 == Elem::Float(bits) && (arrow_rows(column) > 0 ==> words_at(
                place,
                held,
                both.1.spec_width(),
                known(column)->Ok_0.pieces,
            )),
            Layout::Bool { place } => both.1 is Bool && (arrow_rows(column) > 0 ==> bits_at(
                place,
                held,
                known(column)->Ok_0.pieces,
            )),
            Layout::Str { .. } => both.1 is Str,
        } && column_pieces(name@, both.1, vector) == Ok::<_, Denied>(known(column)->Ok_0.pieces)))),
{
}

/// A column of an object of columns is described under its own name, and one of values holds as many
/// rows as there are values, as the type of the lane they make.
pub proof fn law_a_given_column_is_described_as_it_is(
    made: Described,
    held: Held,
    name: Seq<char>,
    thing: Thing,
    items: Vec<Js>,
)
    requires
        thing.items == Some(items),
        given_describes(made, held, name, Ok(Given::Value(Js::Object(thing)))),
        given_rows(name, Ok(Given::Value(Js::Object(thing)))) is Ok,
    ensures
        made.name@ == name,
        given_rows(name, Ok(Given::Value(Js::Object(thing)))) == Ok::<_, Seq<char>>(items@.len() as int),
        made.ty == lane_type(lane_after(items@, items@.len())),
        lane_for(made.ty) == Some(lane_after(items@, items@.len())),
        items@.len() > 0,
        rows_refused(name, items@, items@.len(), "a column"@) is None,
{
    let column = choose|column: Column|
        #![trigger is_column(column, items@, items@.len())]
        is_column(column, items@, items@.len()) && made.ty == lane_type(column.lane()) && is_packed(
            made.layout,
            held,
            column,
        );
    assert(column.lane() == lane_after(items@, items@.len()));
}

/// A name nobody could read, a column that is not there and a type that is not taken leave a column
/// out.
pub proof fn law_a_column_that_is_not_read_is_not_taken(column: ArrowColumn<'_>)
    ensures
        column.name is Err ==> known(column) is Err,
        column.vector is Err ==> known(column) is Err,
        column.vector matches Ok(None) ==> known(column) is Err,
        column.vector matches Ok(Some(vector)) ==> (vector.ty is Err || vector.chunks is Err || vector.nulls is Err
            ==> known(column) is Err),
{
}

/// A row with no value is told of by its place in the whole column, which is its place in its chunk
/// after the rows of the chunks before it.
pub proof fn law_a_gap_is_told_by_its_row(name: Seq<char>, elem: Elem, nulls: u64, chunks: Seq<Chunk<'_>>, n: nat, row: int)
    requires
        n > 0,
        pieces_of(name, elem, nulls, chunks, (n - 1) as nat) is Ok,
        !zero(nulls),
        hole_of(chunks[n - 1]) == Ok::<_, Seq<char>>(Some(row)),
    ensures
        ({
            let place = total_rows(pieces_of(name, elem, nulls, chunks, (n - 1) as nat)->Ok_0) + row;
            place <= usize::MAX ==> (pieces_of(name, elem, nulls, chunks, n) matches Err(Denied::Words(words)) && text::opens(
                words,
                "column '"@ + name + "' has no value at row "@ + decimal(place),
            ))
        }),
{
    let place = total_rows(pieces_of(name, elem, nulls, chunks, (n - 1) as nat)->Ok_0) + row;
    let start = "column '"@ + name + "' has no value at row "@ + decimal(place);
    assert(gap(name, place).take(start.len() as int) =~= start);
}

/// A column that is not as long as the one before it is told of by its name, its own length and the
/// length of that one, in a table and in an object of columns alike.
pub proof fn law_an_uneven_column_is_told_by_both_lengths(
    columns: Seq<ArrowColumn<'_>>,
    given: Seq<(String, Result<Given<'_>, String>)>,
    n: nat,
    rows: int,
    had: int,
)
    requires
        n >= 2,
        rows != had,
    ensures
        table_denied(columns, (n - 1) as nat) is None && (known(columns[n - 1]) matches Ok(here) && total_rows(here.pieces)
            == rows) && arrow_rows(columns[n - 2]) == had ==> (table_denied(columns, n) matches Some(Denied::Words(words))
            && text::opens(
            words,
            "column '"@ + known(columns[n - 1])->Ok_0.name + "' holds "@ + decimal(rows)
                + " values and the column before it holds "@ + decimal(had),
        )),
        object_denied(given, (n - 1) as nat) is None && given_rows(given[n - 1].0@, given[n - 1].1) == Ok::<_, Seq<char>>(rows)
            && given_rows(given[n - 2].0@, given[n - 2].1) == Ok::<_, Seq<char>>(had) ==> (object_denied(given, n) matches Some(
            words,
        ) && text::opens(
            words,
            "column '"@ + given[n - 1].0@ + "' holds "@ + decimal(rows) + " values and the column before it holds "@ + decimal(
                had,
            ),
        )),
{
    let name = known(columns[n - 1])->Ok_0.name;
    let start = "column '"@ + name + "' holds "@ + decimal(rows) + " values and the column before it holds "@ + decimal(had);
    assert(uneven(name, rows, had).take(start.len() as int) =~= start);
    let name = given[n - 1].0@;
    let start = "column '"@ + name + "' holds "@ + decimal(rows) + " values and the column before it holds "@ + decimal(had);
    assert(uneven(name, rows, had).take(start.len() as int) =~= start);
}

/// A type is told by what it says of itself, so one that could not say what its meaning rests on is
/// not taken, for the reason it could not.
pub proof fn law_an_unread_type_is_not_taken(name: Seq<char>, ty: ArrowType, id: i32, reason: String)
    requires
        ty.id == Ok::<_, String>(id),
    ensures
        meaning_of(name, (ArrowType { id: Err(reason), ..ty })) == Err::<(LogicalType, Elem), _>(reason@),
        id == 2 ==> meaning_of(name, (ArrowType { bit_width: Err(reason), ..ty })) == Err::<(LogicalType, Elem), _>(reason@),
        id == 2 && ty.bit_width is Ok ==> meaning_of(name, (ArrowType { is_signed: Err(reason), ..ty })) == Err::<
            (LogicalType, Elem),
            _,
        >(reason@),
        id == 3 ==> meaning_of(name, (ArrowType { precision: Err(reason), ..ty })) == Err::<(LogicalType, Elem), _>(reason@),
        id == 8 || id == 9 || id == 11 || id == 18 ==> meaning_of(name, (ArrowType { unit: Err(reason), ..ty })) == Err::<
            (LogicalType, Elem),
            _,
        >(reason@),
        id == 10 ==> meaning_of(name, (ArrowType { timezone: Err(reason), ..ty })) == Err::<(LogicalType, Elem), _>(reason@),
        id == 10 && ty.timezone == Ok::<Option<String>, String>(None) ==> meaning_of(
            name,
            (ArrowType { unit: Err(reason), ..ty }),
        ) == Err::<(LogicalType, Elem), _>(reason@),
{
}

/// A chunk whose length, start, values or, for strings, offsets could not be read is not read, and
/// neither is one that has no values; and one whose bitmap is missing or empty has a value at every
/// row.
pub proof fn law_an_unread_chunk_is_not_read(name: Seq<char>, elem: Elem, chunk: Chunk<'_>)
    ensures
        piece_of(name, elem, chunk) is Ok <==> chunk.length is Ok && chunk.offset is Ok && (chunk.values matches Ok(values)
            && values is Some) && (elem is Str ==> (chunk.cuts matches Ok(cuts) && cuts is Some)),
        chunk.bitmap is Err ==> hole_of(chunk) is Err,
        chunk.bitmap matches Ok(None) ==> hole_of(chunk) == Ok::<Option<int>, Seq<char>>(None),
        chunk.bitmap matches Ok(Some(raw)) ==> (raw@.len() == 0 ==> hole_of(chunk) == Ok::<Option<int>, Seq<char>>(None)) && (
        raw@.len() > 0 && chunk.length is Ok && chunk.offset is Ok ==> (hole_of(chunk) matches Ok(hole) && (hole is None
            <==> forall|i: int|
            0 <= i < cast_usize(chunk.length->Ok_0) ==> #[trigger] bit_set(raw@, cast_usize(chunk.offset->Ok_0) + i)))),
{
    if let Ok(Some(raw)) = chunk.bitmap {
        if raw@.len() > 0 && chunk.length is Ok && chunk.offset is Ok {
            law_the_first_hole_is_told(raw@, cast_usize(chunk.offset->Ok_0), 0, cast_usize(chunk.length->Ok_0));
        }
    }
}

} // verus!
