//! Values, both ways across the boundary.
//!
//! A row that arrives as JavaScript objects is the slow path and the one every first
//! program uses, so it is the one that has to be obvious: null is `null`, a string is
//! a string, and a graph value is a class with named fields.
//!
//! INT64 is `bigint` by default. A JavaScript number is an IEEE double and stops being
//! exact at 2^53, and zu's integers go to 2^63. A caller may ask for numbers anyway,
//! and then an integer outside what a double holds exactly is refused rather than
//! rounded. See [`Ints`].
//!
//! Going the other way a `number` that is a whole number binds as INT64 and one that
//! is not binds as FLOAT. A `bigint` always binds as INT64, which is the way to be
//! sure.

use std::collections::HashMap;

use vstd::prelude::*;

use crate::js::{kind_name, spelled, told, Big, Class, Fault, Fields, Js, Kind, Thing, Trouble};
use crate::number::{self, integral, whole, PAST};
use crate::temporal::{self, builds, moment_of, Build, DurationKind, Temporal};
use crate::text::{self, decimal, same};

verus! {

broadcast use vstd::std_specs::hash::group_hash_axioms;

/// How an INT64 is spelled on the way out.
///
/// `bigint` is the default and the only one that is always right. The other exists
/// because a program that already knows its integers are small spends a conversion
/// on every one of them otherwise, and because a `bigint` has no JSON spelling.
#[derive(Clone, Copy, PartialEq, Eq, Structural)]
pub enum Ints {
    BigInt,
    Number,
}

impl Default for Ints {
    fn default() -> (r: Ints)
        ensures
            r == Ints::BigInt,
    {
        Ints::BigInt
    }
}

/// What `bigIntMode` names, or what is wrong with what it named.
pub open spec fn mode_of(mode: Seq<char>) -> Result<Ints, Seq<char>> {
    if mode == "bigint"@ {
        Ok(Ints::BigInt)
    } else if mode == "number"@ {
        Ok(Ints::Number)
    } else {
        Err("bigIntMode is \""@ + mode + "\", and the modes are \"bigint\" and \"number\""@)
    }
}

impl Ints {
    /// The mode `bigIntMode` names, or what is wrong with what it named.
    pub fn named(mode: &str) -> (r: Result<Ints, String>)
        ensures
            crate::js::said(r) == mode_of(mode@),
    {
        if same(mode, "bigint") {
            Ok(Ints::BigInt)
        } else if same(mode, "number") {
            Ok(Ints::Number)
        } else {
            Err(
                "bigIntMode is \"".to_owned().concat(mode).concat(
                    "\", and the modes are \"bigint\" and \"number\"",
                ),
            )
        }
    }
}

/// How a statement spells the values it gives back.
#[derive(Clone, Copy)]
pub struct Spelling {
    /// How an INT64 comes back.
    pub ints: Ints,
    /// Whether a temporal value comes back as a `Temporal` one rather than as one of
    /// this client's four classes.
    pub temporal: bool,
}

impl Default for Spelling {
    fn default() -> (r: Spelling)
        ensures
            r == (Spelling { ints: Ints::BigInt, temporal: false }),
    {
        Spelling { ints: Ints::BigInt, temporal: false }
    }
}

/// Tables by their ids, the later of two with one id standing for it.
pub open spec fn collected(tables: Seq<(u32, String)>) -> Map<u32, String>
    decreases tables.len(),
{
    if tables.len() == 0 {
        Map::empty()
    } else {
        collected(tables.drop_last()).insert(tables.last().0, tables.last().1)
    }
}

/// What a table is called, or its id written out for a table nothing names.
pub open spec fn called(tables: Map<u32, String>, id: u32) -> Seq<char> {
    if tables.contains_key(id) { tables[id]@ } else { "#"@ + decimal(id as int) }
}

/// What the tables in a result are called.
///
/// A node value carries the id of the table it came from and nothing else. A person
/// reading a result wants the name, so the names are taken off the catalog once when
/// a statement runs and carried with the rows.
pub struct Names {
    nodes: HashMap<u32, String>,
    rels: HashMap<u32, String>,
}

impl Names {
    /// The names of the node tables.
    pub closed spec fn spec_nodes(&self) -> Map<u32, String> {
        self.nodes@
    }

    /// The names of the rel tables.
    pub closed spec fn spec_rels(&self) -> Map<u32, String> {
        self.rels@
    }

    /// The names a catalog gives its tables, each by the table's id.
    pub fn of(nodes: &[(u32, String)], rels: &[(u32, String)]) -> (r: Names)
        ensures
            forall|id: u32| called(r.spec_nodes(), id) == called(collected(nodes@), id),
            forall|id: u32| called(r.spec_rels(), id) == called(collected(rels@), id),
    {
        Names { nodes: gathered(nodes), rels: gathered(rels) }
    }

    /// The table's name, or its id written out for a table the catalog no longer has.
    pub fn node(&self, id: u32) -> (r: String)
        ensures
            r@ == called(self.spec_nodes(), id),
    {
        looked_up(&self.nodes, id)
    }

    /// The same for a rel table.
    pub fn rel(&self, id: u32) -> (r: String)
        ensures
            r@ == called(self.spec_rels(), id),
    {
        looked_up(&self.rels, id)
    }
}

fn gathered(tables: &[(u32, String)]) -> (r: HashMap<u32, String>)
    ensures
        forall|id: u32| called(r@, id) == called(collected(tables@), id),
{
    let mut made: HashMap<u32, String> = HashMap::new();
    let mut at: usize = 0;
    while at < tables.len()
        invariant
            at <= tables@.len(),
            made@.dom() == collected(tables@.take(at as int)).dom(),
            forall|id: u32| called(made@, id) == called(collected(tables@.take(at as int)), id),
        decreases tables@.len() - at,
    {
        let ghost before = made@;
        made.insert(tables[at].0, tables[at].1.clone());
        proof {
            let more = tables@.take(at as int + 1);
            assert(more.drop_last() =~= tables@.take(at as int));
            let old_map = collected(tables@.take(at as int));
            assert forall|id: u32| called(made@, id) == called(collected(more), id) by {
                if id != tables@[at as int].0 {
                    assert(called(before, id) == called(old_map, id));
                }
            }
        }
        at += 1;
    }
    proof {
        assert(tables@.take(at as int) =~= tables@);
    }
    made
}

fn looked_up(tables: &HashMap<u32, String>, id: u32) -> (r: String)
    ensures
        r@ == called(tables@, id),
{
    match tables.get(&id) {
        Some(name) => name.clone(),
        None => "#".to_owned().concat(text::counted(id as u128).as_str()),
    }
}

/// What a result needs on the way out: the names of its tables and the spelling of
/// its values, settled once and then read by every value of every row.
pub struct Shape {
    pub names: Names,
    pub spelling: Spelling,
}

impl Shape {
    /// The shape of a result, from the tables of its catalog.
    pub fn of(nodes: &[(u32, String)], rels: &[(u32, String)], spelling: Spelling) -> (r: Shape)
        ensures
            r.spelling == spelling,
            forall|id: u32| called(r.names.spec_nodes(), id) == called(collected(nodes@), id),
            forall|id: u32| called(r.names.spec_rels(), id) == called(collected(rels@), id),
    {
        Shape { names: Names::of(nodes, rels), spelling }
    }

    /// What the tables are called.
    pub fn names(&self) -> (r: &Names)
        ensures
            *r == self.names,
    {
        &self.names
    }
}

/// One node of the graph: the table it is in, by the name written in the schema, and
/// the row it sits at.
pub struct ZuNode {
    pub table: String,
    pub offset: u64,
}

/// One edge of the graph.
///
/// `ord` is where the edge's properties sit, which is its place in the order the table
/// was loaded in. That is what names an edge: the same pair of endpoints may run more
/// than once.
pub struct ZuRel {
    pub table: String,
    pub src: u64,
    pub dst: u64,
    pub ord: u64,
}

/// A date, as days from 1970-01-01.
pub struct ZuDate {
    pub days: i32,
}

/// A time of day, as nanoseconds from midnight, with the offset from UTC in minutes for
/// a zoned one and none for a local one.
pub struct ZuTime {
    pub nanos: i64,
    pub offset: Option<i32>,
}

/// A date and a time together, as nanoseconds from the epoch, with the offset from UTC
/// in minutes for a zoned one and none for a local one.
pub struct ZuTimestamp {
    pub nanos: i64,
    pub offset: Option<i32>,
}

/// A duration, which is a count of months or a count of nanoseconds and never both.
/// `kind` says which one this is, and the other count is zero.
pub struct ZuDuration {
    pub kind: DurationKind,
    pub months: i64,
    pub nanos: i64,
}

/// A JavaScript value about to be made.
pub enum Made {
    Null,
    Boolean(bool),
    /// A number, from an integer a double holds exactly.
    Whole(i64),
    /// A number, from the bits of the double it is.
    Double(u64),
    /// A number, from a count.
    Count(u64),
    /// A `bigint`.
    BigInt(i64),
    /// A `bigint`, from an unsigned count.
    BigUint(u64),
    Text(String),
    List(Vec<Made>),
    /// An object, by its properties in order.
    Object(Vec<(String, Made)>),
    Node(ZuNode),
    Rel(ZuRel),
    Date(ZuDate),
    Time(ZuTime),
    Timestamp(ZuTimestamp),
    Duration(ZuDuration),
    /// A value of the runtime's own `Temporal`.
    Temporal(Build),
    /// `{ nodes, rels }`.
    Path { nodes: Vec<ZuNode>, rels: Vec<ZuRel> },
    /// A `Uint8Array`.
    Bytes(Vec<u8>),
    /// An `Int32Array`.
    Words(Vec<i32>),
    /// A `BigInt64Array`.
    Longs(Vec<i64>),
    /// A `Float64Array`, by the bits of its doubles.
    Doubles(Vec<u64>),
}

/// Whether this is an object of one property after another.
pub open spec fn holds(made: Made, at: int, key: Seq<char>) -> bool {
    made matches Made::Object(fields) && 0 <= at < fields@.len() && fields@[at].0@ == key
}

impl ZuNode {
    /// The table the node is in.
    pub fn table(&self) -> (r: &str)
        ensures
            r@ == self.table@,
    {
        self.table.as_str()
    }

    /// The row it sits at.
    pub fn offset(&self) -> (r: u64)
        ensures
            r == self.offset,
    {
        self.offset
    }

    /// The same thing as a plain object.
    pub fn to_json(&self) -> (r: Made)
        ensures
            r matches Made::Object(fields) && fields@.len() == 2 && holds(r, 0, "table"@)
                && (fields@[0].1 matches Made::Text(t) && t@ == self.table@) && holds(r, 1, "offset"@) && fields@[1].1
                == Made::BigUint(self.offset),
    {
        let mut fields: Vec<(String, Made)> = Vec::new();
        fields.push(("table".to_owned(), Made::Text(self.table.clone())));
        fields.push(("offset".to_owned(), Made::BigUint(self.offset)));
        Made::Object(fields)
    }
}

impl ZuRel {
    /// The table the edge is in.
    pub fn table(&self) -> (r: &str)
        ensures
            r@ == self.table@,
    {
        self.table.as_str()
    }

    /// The row it runs from.
    pub fn src(&self) -> (r: u64)
        ensures
            r == self.src,
    {
        self.src
    }

    /// The row it runs to.
    pub fn dst(&self) -> (r: u64)
        ensures
            r == self.dst,
    {
        self.dst
    }

    /// Its place in the order the table was loaded in.
    pub fn ord(&self) -> (r: u64)
        ensures
            r == self.ord,
    {
        self.ord
    }

    /// The same thing as a plain object.
    pub fn to_json(&self) -> (r: Made)
        ensures
            r matches Made::Object(fields) && fields@.len() == 4 && holds(r, 0, "table"@)
                && (fields@[0].1 matches Made::Text(t) && t@ == self.table@) && holds(r, 1, "src"@) && fields@[1].1
                == Made::BigUint(self.src) && holds(r, 2, "dst"@) && fields@[2].1 == Made::BigUint(self.dst) && holds(
                r,
                3,
                "ord"@,
            ) && fields@[3].1 == Made::BigUint(self.ord),
    {
        let mut fields: Vec<(String, Made)> = Vec::new();
        fields.push(("table".to_owned(), Made::Text(self.table.clone())));
        fields.push(("src".to_owned(), Made::BigUint(self.src)));
        fields.push(("dst".to_owned(), Made::BigUint(self.dst)));
        fields.push(("ord".to_owned(), Made::BigUint(self.ord)));
        Made::Object(fields)
    }
}

/// Whether this is what `toTemporal()` answers for a value: the `Temporal` value, or
/// the reason there is not one.
pub open spec fn converts(present: bool, value: Temporal, made: Result<Build, String>) -> bool {
    if !present {
        made is Err && made->Err_0@ == temporal::MISSING@
    } else if value is ZonedTime {
        made is Err && made->Err_0@ == temporal::NO_ZONED_TIME@
    } else {
        made is Ok && builds(value, Some(made->Ok_0))
    }
}

fn converted(present: bool, value: Temporal) -> (r: Result<Build, String>)
    ensures
        converts(present, value, r),
{
    match temporal::to_temporal(present, value)? {
        Some(made) => Ok(made),
        None => Err(temporal::NO_ZONED_TIME.to_owned()),
    }
}

/// A count that is null where there is none.
pub open spec fn nullable(made: Made, held: Option<i32>) -> bool {
    match held {
        Some(n) => made == Made::Whole(n as i64),
        None => made == Made::Null,
    }
}

fn optional(held: Option<i32>) -> (r: Made)
    ensures
        nullable(r, held),
{
    match held {
        Some(n) => Made::Whole(n as i64),
        None => Made::Null,
    }
}

impl ZuDate {
    /// The date so many days from 1970-01-01.
    pub fn new(days: i32) -> (r: ZuDate)
        ensures
            r == (ZuDate { days }),
    {
        ZuDate { days }
    }

    /// The same day as a `Temporal.PlainDate`, on a runtime that has one.
    pub fn to_temporal(&self, present: bool) -> (r: Result<Build, String>)
        ensures
            converts(present, Temporal::Date(self.days), r),
    {
        converted(present, Temporal::Date(self.days))
    }

    /// The same thing as a plain object.
    pub fn to_json(&self) -> (r: Made)
        ensures
            r matches Made::Object(fields) && fields@.len() == 1 && holds(r, 0, "days"@) && fields@[0].1 == Made::Whole(
                self.days as i64,
            ),
    {
        let mut fields: Vec<(String, Made)> = Vec::new();
        fields.push(("days".to_owned(), Made::Whole(self.days as i64)));
        Made::Object(fields)
    }
}

/// The time a count and an offset are, a time with no offset being a local one.
pub open spec fn time_of(nanos: i64, offset: Option<i16>) -> Temporal {
    match offset {
        Some(offset) => Temporal::ZonedTime { nanos, offset },
        None => Temporal::LocalTime(nanos),
    }
}

/// The timestamp a count and an offset are, one with no offset being a local one.
pub open spec fn timestamp_of(nanos: i64, offset: Option<i16>) -> Temporal {
    match offset {
        Some(offset) => Temporal::ZonedDatetime { nanos, offset },
        None => Temporal::LocalDatetime(nanos),
    }
}

/// An offset in the width the engine keeps one.
pub open spec fn narrowed(offset: Option<i32>) -> Option<i16> {
    match offset {
        Some(minutes) => Some(minutes as i16),
        None => None,
    }
}

fn narrow(offset: Option<i32>) -> (r: Option<i16>)
    ensures
        r == narrowed(offset),
{
    match offset {
        Some(minutes) => Some(minutes as i16),
        None => None,
    }
}

impl ZuTime {
    /// The time so many nanoseconds from midnight, local when it has no offset.
    pub fn new(nanos: Big, offset: Option<i32>) -> (r: ZuTime)
        ensures
            r.nanos == nanos.kept(),
            r.offset == offset,
    {
        ZuTime { nanos: nanos.get_i64().0, offset }
    }

    /// The nanoseconds from midnight.
    pub fn nanos(&self) -> (r: i64)
        ensures
            r == self.nanos,
    {
        self.nanos
    }

    /// The same time as a `Temporal.PlainTime`, for a local one on a runtime that has
    /// one. A time with an offset has no `Temporal` type.
    pub fn to_temporal(&self, present: bool) -> (r: Result<Build, String>)
        ensures
            converts(present, time_of(self.nanos, narrowed(self.offset)), r),
    {
        match self.offset {
            Some(offset) => converted(present, Temporal::ZonedTime { nanos: self.nanos, offset: offset as i16 }),
            None => converted(present, Temporal::LocalTime(self.nanos)),
        }
    }

    /// The same thing as a plain object.
    pub fn to_json(&self) -> (r: Made)
        ensures
            r matches Made::Object(fields) && fields@.len() == 2 && holds(r, 0, "nanos"@) && fields@[0].1
                == Made::BigInt(self.nanos) && holds(r, 1, "offset"@) && nullable(fields@[1].1, self.offset),
    {
        let mut fields: Vec<(String, Made)> = Vec::new();
        fields.push(("nanos".to_owned(), Made::BigInt(self.nanos)));
        fields.push(("offset".to_owned(), optional(self.offset)));
        Made::Object(fields)
    }
}

impl ZuTimestamp {
    /// The timestamp so many nanoseconds from the epoch, local when it has no offset.
    pub fn new(nanos: Big, offset: Option<i32>) -> (r: ZuTimestamp)
        ensures
            r.nanos == nanos.kept(),
            r.offset == offset,
    {
        ZuTimestamp { nanos: nanos.get_i64().0, offset }
    }

    /// The nanoseconds from the epoch.
    pub fn nanos(&self) -> (r: i64)
        ensures
            r == self.nanos,
    {
        self.nanos
    }

    /// The same instant as a `Temporal.PlainDateTime` for a local one and a
    /// `Temporal.ZonedDateTime` for a zoned one, on a runtime that has them.
    pub fn to_temporal(&self, present: bool) -> (r: Result<Build, String>)
        ensures
            converts(present, timestamp_of(self.nanos, narrowed(self.offset)), r),
    {
        match self.offset {
            Some(offset) => converted(present, Temporal::ZonedDatetime { nanos: self.nanos, offset: offset as i16 }),
            None => converted(present, Temporal::LocalDatetime(self.nanos)),
        }
    }

    /// The same thing as a plain object.
    pub fn to_json(&self) -> (r: Made)
        ensures
            r matches Made::Object(fields) && fields@.len() == 2 && holds(r, 0, "nanos"@) && fields@[0].1
                == Made::BigInt(self.nanos) && holds(r, 1, "offset"@) && nullable(fields@[1].1, self.offset),
    {
        let mut fields: Vec<(String, Made)> = Vec::new();
        fields.push(("nanos".to_owned(), Made::BigInt(self.nanos)));
        fields.push(("offset".to_owned(), optional(self.offset)));
        Made::Object(fields)
    }
}

/// What a kind of duration is called.
pub open spec fn kind_of(kind: DurationKind) -> Seq<char> {
    match kind {
        DurationKind::YearMonth => "yearMonth"@,
        DurationKind::DayTime => "dayTime"@,
    }
}

impl ZuDuration {
    /// Whether the count of the other kind is zero.
    pub open spec fn one_kind(&self) -> bool {
        match self.kind {
            DurationKind::YearMonth => self.nanos == 0,
            DurationKind::DayTime => self.months == 0,
        }
    }

    /// The duration this is.
    pub open spec fn spec_temporal(&self) -> Temporal {
        match self.kind {
            DurationKind::YearMonth => Temporal::Duration(DurationKind::YearMonth, self.months),
            DurationKind::DayTime => Temporal::Duration(DurationKind::DayTime, self.nanos),
        }
    }

    /// A duration of `months` months, which is the year-month kind.
    pub fn of_months(months: Big) -> (r: ZuDuration)
        ensures
            r.one_kind(),
            r.kind == DurationKind::YearMonth,
            r.months == months.kept(),
    {
        year_month(months.get_i64().0)
    }

    /// A duration of `nanos` nanoseconds, which is the day-time kind.
    pub fn of_nanos(nanos: Big) -> (r: ZuDuration)
        ensures
            r.one_kind(),
            r.kind == DurationKind::DayTime,
            r.nanos == nanos.kept(),
    {
        day_time(nanos.get_i64().0)
    }

    /// Which of the two kinds this is: `yearMonth` or `dayTime`.
    pub fn kind(&self) -> (r: &'static str)
        ensures
            r@ == kind_of(self.kind),
    {
        match self.kind {
            DurationKind::YearMonth => "yearMonth",
            DurationKind::DayTime => "dayTime",
        }
    }

    /// The months, which is zero for a day-time duration.
    pub fn months(&self) -> (r: i64)
        ensures
            r == self.months,
    {
        self.months
    }

    /// The nanoseconds, which is zero for a year-month duration.
    pub fn nanos(&self) -> (r: i64)
        ensures
            r == self.nanos,
    {
        self.nanos
    }

    /// The same length as a `Temporal.Duration`, on a runtime that has one.
    pub fn to_temporal(&self, present: bool) -> (r: Result<Build, String>)
        ensures
            converts(present, self.spec_temporal(), r),
    {
        match self.kind {
            DurationKind::YearMonth => converted(present, Temporal::Duration(DurationKind::YearMonth, self.months)),
            DurationKind::DayTime => converted(present, Temporal::Duration(DurationKind::DayTime, self.nanos)),
        }
    }

    /// The same thing as a plain object.
    pub fn to_json(&self) -> (r: Made)
        ensures
            r matches Made::Object(fields) && fields@.len() == 3 && holds(r, 0, "kind"@)
                && (fields@[0].1 matches Made::Text(t) && t@ == kind_of(self.kind)) && holds(r, 1, "months"@)
                && fields@[1].1 == Made::BigInt(self.months) && holds(r, 2, "nanos"@) && fields@[2].1 == Made::BigInt(
                self.nanos,
            ),
    {
        let mut fields: Vec<(String, Made)> = Vec::new();
        fields.push(("kind".to_owned(), Made::Text(self.kind().to_owned())));
        fields.push(("months".to_owned(), Made::BigInt(self.months)));
        fields.push(("nanos".to_owned(), Made::BigInt(self.nanos)));
        Made::Object(fields)
    }
}

fn year_month(months: i64) -> (r: ZuDuration)
    ensures
        r == (ZuDuration { kind: DurationKind::YearMonth, months, nanos: 0 }),
{
    ZuDuration { kind: DurationKind::YearMonth, months, nanos: 0 }
}

fn day_time(nanos: i64) -> (r: ZuDuration)
    ensures
        r == (ZuDuration { kind: DurationKind::DayTime, months: 0, nanos }),
{
    ZuDuration { kind: DurationKind::DayTime, months: 0, nanos }
}

/// A value of a statement, as the engine holds it.
pub enum Value {
    Null,
    Bool(bool),
    Int(i64),
    /// A float, by the bits of the double it is.
    Float(u64),
    Str(String),
    Node { table: u32, offset: u64 },
    Rel { table: u32, src: u64, dst: u64, ord: u64 },
    List(Vec<Value>),
    /// Fields by name, in the order they were written.
    Record(Vec<(String, Value)>),
    Temporal(Temporal),
    /// A walk: nodes and edges, alternating, a node at each end.
    Path(Vec<Value>),
    /// A chain of edges the executor has not settled into a list.
    Chain,
    /// A handle to a graph.
    Graph,
    /// A handle to a binding table.
    BindingTable,
}

/// The largest integer a JavaScript number holds exactly, which is 2^53 - 1, and the
/// smallest is its negation.
///
/// Past it the doubles run out of significand and start standing for two integers at
/// once: 2^53 and 2^53 + 1 are the same double.
pub const EXACT: i64 = 9_007_199_254_740_991;

/// Whether an integer is one a JavaScript number tells from every other.
pub open spec fn exact(n: i64) -> bool {
    -EXACT <= n <= EXACT
}

/// What an integer the asked-for spelling does not hold is refused with.
pub open spec fn inexact(column: Seq<char>, n: i64) -> Seq<char> {
    "column "@ + column + " holds "@ + decimal(n as int)
        + ", which a JavaScript number cannot tell from \
                 its neighbours, and this statement asked for bigIntMode: \"number\""@
}

/// Why a value cannot be spelled as it was asked to be, when it cannot: the first
/// integer in it that a number would not hold, or a `Temporal` value asked of a runtime
/// without one.
pub open spec fn unspellable(column: Seq<char>, value: Value, spelling: Spelling, present: bool) -> Option<Seq<char>>
    decreases value, 0nat,
{
    match value {
        Value::Int(n) => if spelling.ints == Ints::Number && !exact(n) { Some(inexact(column, n)) } else { None },
        Value::Temporal(_) => if spelling.temporal && !present { Some(temporal::MISSING@) } else { None },
        Value::List(items) => unspellable_items(column, items@, spelling, present, items@.len()),
        Value::Record(fields) => unspellable_fields(column, fields@, spelling, present, fields@.len()),
        _ => None,
    }
}

/// The first refusal among the last `n` values of a list.
pub open spec fn unspellable_items(
    column: Seq<char>,
    items: Seq<Value>,
    spelling: Spelling,
    present: bool,
    n: nat,
) -> Option<Seq<char>>
    decreases items, n,
{
    if n == 0 || n > items.len() {
        None
    } else {
        match unspellable(column, items[items.len() - n], spelling, present) {
            Some(words) => Some(words),
            None => unspellable_items(column, items, spelling, present, (n - 1) as nat),
        }
    }
}

/// The first refusal among the last `n` fields of a record.
pub open spec fn unspellable_fields(
    column: Seq<char>,
    fields: Seq<(String, Value)>,
    spelling: Spelling,
    present: bool,
    n: nat,
) -> Option<Seq<char>>
    decreases fields, n,
{
    if n == 0 || n > fields.len() {
        None
    } else {
        match unspellable(column, fields[fields.len() - n].1, spelling, present) {
            Some(words) => Some(words),
            None => unspellable_fields(column, fields, spelling, present, (n - 1) as nat),
        }
    }
}

/// Whether this is a node of the graph, by the name of its table.
pub open spec fn is_node(made: ZuNode, value: Value, names: Names) -> bool {
    value matches Value::Node { table, offset } && made.table@ == called(names.spec_nodes(), table) && made.offset
        == offset
}

/// Whether this is an edge of the graph, by the name of its table.
pub open spec fn is_rel(made: ZuRel, value: Value, names: Names) -> bool {
    value matches Value::Rel { table, src, dst, ord } && made.table@ == called(names.spec_rels(), table) && made.src
        == src && made.dst == dst && made.ord == ord
}

/// The nodes of a walk, in order.
pub open spec fn walk_nodes(walk: Seq<Value>) -> Seq<Value> {
    walk.filter(|step: Value| step is Node)
}

/// The edges of a walk, in order.
pub open spec fn walk_rels(walk: Seq<Value>) -> Seq<Value> {
    walk.filter(|step: Value| step is Rel)
}

/// Whether these are the nodes and the edges of a walk, each in the order of the walk.
pub open spec fn is_path(nodes: Seq<ZuNode>, rels: Seq<ZuRel>, walk: Seq<Value>, names: Names) -> bool {
    &&& nodes.len() == walk_nodes(walk).len()
    &&& forall|i: int| 0 <= i < nodes.len() ==> is_node(#[trigger] nodes[i], walk_nodes(walk)[i], names)
    &&& rels.len() == walk_rels(walk).len()
    &&& forall|i: int| 0 <= i < rels.len() ==> is_rel(#[trigger] rels[i], walk_rels(walk)[i], names)
}

/// An offset in the width a JavaScript caller reads one.
pub open spec fn widened(offset: i16) -> Option<i32> {
    Some(offset as i32)
}

/// Whether this is the value's own class.
pub open spec fn is_class(made: Made, value: Temporal) -> bool {
    match value {
        Temporal::Date(days) => made == Made::Date(ZuDate { days }),
        Temporal::LocalTime(nanos) => made == Made::Time(ZuTime { nanos, offset: None }),
        Temporal::ZonedTime { nanos, offset } => made == Made::Time(ZuTime { nanos, offset: widened(offset) }),
        Temporal::LocalDatetime(nanos) => made == Made::Timestamp(ZuTimestamp { nanos, offset: None }),
        Temporal::ZonedDatetime { nanos, offset } => made == Made::Timestamp(
            ZuTimestamp { nanos, offset: widened(offset) },
        ),
        Temporal::Duration(DurationKind::YearMonth, months) => made == Made::Duration(
            ZuDuration { kind: DurationKind::YearMonth, months, nanos: 0 },
        ),
        Temporal::Duration(DurationKind::DayTime, nanos) => made == Made::Duration(
            ZuDuration { kind: DurationKind::DayTime, months: 0, nanos },
        ),
    }
}

/// Whether this is a temporal value in the spelling that was asked for. One that has no
/// `Temporal` type keeps its class.
pub open spec fn is_moment(made: Made, value: Temporal, wanted: bool) -> bool {
    if wanted && !(value is ZonedTime) {
        made matches Made::Temporal(build) && builds(value, Some(build))
    } else {
        is_class(made, value)
    }
}

/// Whether this is the JavaScript value an engine value is, in the spelling that was
/// asked for.
pub open spec fn spells(made: Made, value: Value, shape: Shape) -> bool
    decreases value,
{
    match value {
        Value::Null | Value::Chain | Value::Graph | Value::BindingTable => made == Made::Null,
        Value::Bool(b) => made == Made::Boolean(b),
        Value::Int(n) => match shape.spelling.ints {
            Ints::BigInt => made == Made::BigInt(n),
            Ints::Number => made == Made::Whole(n) && exact(n),
        },
        Value::Float(bits) => made == Made::Double(bits),
        Value::Str(s) => made matches Made::Text(t) && t@ == s@,
        Value::Node { .. } => made matches Made::Node(node) && is_node(node, value, shape.names),
        Value::Rel { .. } => made matches Made::Rel(rel) && is_rel(rel, value, shape.names),
        Value::List(items) => made matches Made::List(list) && list@.len() == items@.len() && forall|i: int|
            0 <= i < items@.len() ==> spells(#[trigger] list@[i], items@[i], shape),
        Value::Record(fields) => made matches Made::Object(list) && list@.len() == fields@.len() && forall|i: int|
            0 <= i < fields@.len() ==> (#[trigger] list@[i]).0@ == fields@[i].0@ && spells(
                list@[i].1,
                fields@[i].1,
                shape,
            ),
        Value::Temporal(t) => is_moment(made, t, shape.spelling.temporal),
        Value::Path(walk) => made matches Made::Path { nodes, rels } && is_path(nodes@, rels@, walk@, shape.names),
    }
}

/// An INT64, spelled the way this statement was asked to spell them.
///
/// The refusal names the column and the value, because nothing is wrong with the value:
/// the program asked for a container that does not hold it.
fn integer(column: &str, n: i64, ints: Ints) -> (r: Result<Made, String>)
    ensures
        match r {
            Ok(made) => match ints {
                Ints::BigInt => made == Made::BigInt(n),
                Ints::Number => made == Made::Whole(n) && exact(n),
            },
            Err(words) => ints == Ints::Number && !exact(n) && words@ == inexact(column@, n),
        },
{
    match ints {
        Ints::BigInt => Ok(Made::BigInt(n)),
        Ints::Number => if n < -EXACT || n > EXACT {
            Err(
                "column ".to_owned().concat(column).concat(" holds ").concat(text::integer(n as i128).as_str()).concat(
                    ", which a JavaScript number cannot tell from \
                 its neighbours, and this statement asked for bigIntMode: \"number\"",
                ),
            )
        } else {
            Ok(Made::Whole(n))
        },
    }
}

fn node(table: u32, offset: u64, names: &Names) -> (r: ZuNode)
    ensures
        is_node(r, Value::Node { table, offset }, *names),
{
    ZuNode { table: names.node(table), offset }
}

fn rel(table: u32, src: u64, dst: u64, ord: u64, names: &Names) -> (r: ZuRel)
    ensures
        is_rel(r, Value::Rel { table, src, dst, ord }, *names),
{
    ZuRel { table: names.rel(table), src, dst, ord }
}

/// A walk through the graph, given back as its nodes and its edges.
///
/// The two lists are kept apart rather than interleaved, because the question a caller
/// asks is almost always about one of them.
fn path(walk: &Vec<Value>, names: &Names) -> (r: Made)
    ensures
        r matches Made::Path { nodes, rels } && is_path(nodes@, rels@, walk@, *names),
{
    let mut nodes: Vec<ZuNode> = Vec::new();
    let mut rels: Vec<ZuRel> = Vec::new();
    let mut at: usize = 0;
    proof {
        reveal(Seq::filter);
    }
    while at < walk.len()
        invariant
            at <= walk@.len(),
            is_path(nodes@, rels@, walk@.take(at as int), *names),
        decreases walk@.len() - at,
    {
        proof {
            reveal(Seq::filter);
            assert(walk@.take(at as int + 1).drop_last() =~= walk@.take(at as int));
        }
        match &walk[at] {
            Value::Node { table, offset } => nodes.push(node(*table, *offset, names)),
            Value::Rel { table, src, dst, ord } => rels.push(rel(*table, *src, *dst, *ord, names)),
            _ => {},
        }
        at += 1;
    }
    proof {
        assert(walk@.take(at as int) =~= walk@);
    }
    Made::Path { nodes, rels }
}

/// The value's own class.
fn as_class(value: Temporal) -> (r: Made)
    ensures
        is_class(r, value),
{
    match value {
        Temporal::Date(days) => Made::Date(ZuDate { days }),
        Temporal::LocalTime(nanos) => Made::Time(ZuTime { nanos, offset: None }),
        Temporal::ZonedTime { nanos, offset } => Made::Time(ZuTime { nanos, offset: Some(offset as i32) }),
        Temporal::LocalDatetime(nanos) => Made::Timestamp(ZuTimestamp { nanos, offset: None }),
        Temporal::ZonedDatetime { nanos, offset } => Made::Timestamp(
            ZuTimestamp { nanos, offset: Some(offset as i32) },
        ),
        Temporal::Duration(DurationKind::YearMonth, months) => Made::Duration(year_month(months)),
        Temporal::Duration(DurationKind::DayTime, nanos) => Made::Duration(day_time(nanos)),
    }
}

/// A temporal value, spelled the way this statement was asked to spell them.
fn moment(present: bool, value: Temporal, wanted: bool) -> (r: Result<Made, String>)
    ensures
        match r {
            Ok(made) => (wanted ==> present) && is_moment(made, value, wanted),
            Err(words) => wanted && !present && words@ == temporal::MISSING@,
        },
{
    if wanted {
        if let Some(made) = temporal::to_temporal(present, value)? {
            return Ok(Made::Temporal(made));
        }
    }
    Ok(as_class(value))
}

/// Turns an engine value into the JavaScript value it is.
///
/// `column` is the name the value arrived under, carried the whole way down, because a
/// caller told which column held the integer that did not fit can act on it.
pub fn to_js(column: &str, value: &Value, shape: &Shape, present: bool) -> (r: Result<Made, String>)
    ensures
        match r {
            Ok(made) => unspellable(column@, *value, shape.spelling, present) is None && spells(made, *value, *shape),
            Err(words) => unspellable(column@, *value, shape.spelling, present) == Some(words@),
        },
    decreases value,
{
    match value {
        Value::Null => Ok(Made::Null),
        Value::Bool(b) => Ok(Made::Boolean(*b)),
        Value::Int(n) => integer(column, *n, shape.spelling.ints),
        Value::Float(bits) => Ok(Made::Double(*bits)),
        Value::Str(s) => Ok(Made::Text(s.clone())),
        Value::Node { table, offset } => Ok(Made::Node(node(*table, *offset, &shape.names))),
        Value::Rel { table, src, dst, ord } => Ok(Made::Rel(rel(*table, *src, *dst, *ord, &shape.names))),
        Value::List(items) => Ok(Made::List(list(column, items, shape, present)?)),
        Value::Record(fields) => Ok(Made::Object(record(column, fields, shape, present)?)),
        Value::Temporal(t) => moment(present, *t, shape.spelling.temporal),
        Value::Path(walk) => Ok(path(walk, &shape.names)),
        Value::Chain | Value::Graph | Value::BindingTable => Ok(Made::Null),
    }
}

pub(crate) fn list(column: &str, items: &Vec<Value>, shape: &Shape, present: bool) -> (r: Result<Vec<Made>, String>)
    ensures
        match r {
            Ok(made) => unspellable_items(column@, items@, shape.spelling, present, items@.len()) is None && made@.len()
                == items@.len() && forall|i: int|
                0 <= i < items@.len() ==> spells(#[trigger] made@[i], items@[i], *shape),
            Err(words) => unspellable_items(column@, items@, shape.spelling, present, items@.len()) == Some(words@),
        },
    decreases items,
{
    let mut made: Vec<Made> = Vec::new();
    let mut at: usize = 0;
    while at < items.len()
        invariant
            at <= items@.len(),
            made@.len() == at,
            forall|i: int| 0 <= i < at ==> spells(#[trigger] made@[i], items@[i], *shape),
            unspellable_items(column@, items@, shape.spelling, present, items@.len()) == unspellable_items(
                column@,
                items@,
                shape.spelling,
                present,
                (items@.len() - at) as nat,
            ),
        decreases items@.len() - at,
    {
        proof {
            assert(decreases_to!(items => items@[at as int]));
        }
        made.push(to_js(column, &items[at], shape, present)?);
        at += 1;
    }
    Ok(made)
}

fn record(column: &str, fields: &Vec<(String, Value)>, shape: &Shape, present: bool) -> (r: Result<
    Vec<(String, Made)>,
    String,
>)
    ensures
        match r {
            Ok(made) => unspellable_fields(column@, fields@, shape.spelling, present, fields@.len()) is None
                && made@.len() == fields@.len() && forall|i: int|
                0 <= i < fields@.len() ==> (#[trigger] made@[i]).0@ == fields@[i].0@ && spells(
                    made@[i].1,
                    fields@[i].1,
                    *shape,
                ),
            Err(words) => unspellable_fields(column@, fields@, shape.spelling, present, fields@.len()) == Some(words@),
        },
    decreases fields,
{
    let mut made: Vec<(String, Made)> = Vec::new();
    let mut at: usize = 0;
    while at < fields.len()
        invariant
            at <= fields@.len(),
            made@.len() == at,
            forall|i: int|
                0 <= i < at ==> (#[trigger] made@[i]).0@ == fields@[i].0@ && spells(made@[i].1, fields@[i].1, *shape),
            unspellable_fields(column@, fields@, shape.spelling, present, fields@.len()) == unspellable_fields(
                column@,
                fields@,
                shape.spelling,
                present,
                (fields@.len() - at) as nat,
            ),
        decreases fields@.len() - at,
    {
        proof {
            assert(decreases_to!(fields => fields@[at as int]));
            assert(decreases_to!(fields@[at as int] => fields@[at as int].1));
        }
        let value: Made = to_js(column, &fields[at].1, shape, present)?;
        made.push((fields[at].0.clone(), value));
        at += 1;
    }
    Ok(made)
}

/// How deep a parameter may nest before this stops reading it.
///
/// A list of lists of records is a value somebody meant to send, and a value that
/// contains itself is a call that would otherwise walk until the stack ran out. There is
/// no depth between the two that anybody writes on purpose.
pub const DEEP: usize = 64;

/// What a value that nests too deep is refused with.
pub open spec fn too_deep(name: Seq<char>) -> Seq<char> {
    "parameter "@ + name + " nests deeper than "@ + decimal(DEEP as int)
        + ", which is what a value that contains \
                 itself looks like"@
}

/// What a `bigint` no INT64 holds is refused with.
pub open spec fn too_big(name: Seq<char>) -> Seq<char> {
    "parameter "@ + name
        + " is a bigint outside what INT64 holds, \
                         which is -2^63 up to 2^63 - 1"@
}

/// What a value of a kind no statement holds is refused with.
pub open spec fn unholdable(name: Seq<char>, kind: Kind) -> Seq<char> {
    "parameter "@ + name + " is a "@ + kind_name(kind) + ", which is not a value a statement can hold"@
}

/// The count and the offset a time or a timestamp carries, as its fields read.
pub open spec fn parts_of(nanos: Result<Big, String>, offset: Result<Option<i32>, String>) -> Result<
    (i64, Option<i16>),
    Trouble,
> {
    match nanos {
        Err(reason) => Err(Trouble::Boundary(reason@)),
        Ok(nanos) => match offset {
            Err(reason) => Err(Trouble::Boundary(reason@)),
            Ok(offset) => Ok((nanos.kept() as i64, narrowed(offset))),
        },
    }
}

fn parts(nanos: &Result<Big, String>, offset: &Result<Option<i32>, String>) -> (r: Result<(i64, Option<i16>), Fault>)
    ensures
        told(r) == parts_of(*nanos, *offset),
{
    match nanos {
        Err(reason) => Err(Fault::Boundary(reason.clone())),
        Ok(nanos) => match offset {
            Err(reason) => Err(Fault::Boundary(reason.clone())),
            Ok(offset) => Ok((nanos.get_i64().0, narrow(*offset))),
        },
    }
}

/// The temporal value an instance of one of the four classes is.
pub open spec fn instance_of(class: Class) -> Result<Temporal, Trouble> {
    match class {
        Class::Date(Ok(days)) => Ok(Temporal::Date(days)),
        Class::Date(Err(reason)) => Err(Trouble::Boundary(reason@)),
        Class::Time { nanos, offset } => match parts_of(nanos, offset) {
            Ok((nanos, offset)) => Ok(time_of(nanos, offset)),
            Err(trouble) => Err(trouble),
        },
        Class::Timestamp { nanos, offset } => match parts_of(nanos, offset) {
            Ok((nanos, offset)) => Ok(timestamp_of(nanos, offset)),
            Err(trouble) => Err(trouble),
        },
        Class::Duration { kind, months, nanos } => match kind {
            Err(reason) => Err(Trouble::Boundary(reason@)),
            Ok(kind) => if kind@ == "yearMonth"@ {
                match months {
                    Err(reason) => Err(Trouble::Boundary(reason@)),
                    Ok(months) => Ok(Temporal::Duration(DurationKind::YearMonth, months.kept() as i64)),
                }
            } else {
                match nanos {
                    Err(reason) => Err(Trouble::Boundary(reason@)),
                    Ok(nanos) => Ok(Temporal::Duration(DurationKind::DayTime, nanos.kept() as i64)),
                }
            },
        },
    }
}

/// The temporal value an object of one of the four classes is, or nothing for any other
/// object.
pub open spec fn classed(class: Result<Option<Class>, String>) -> Result<Option<Temporal>, Trouble> {
    match class {
        Err(reason) => Err(Trouble::Boundary(reason@)),
        Ok(None) => Ok(None),
        Ok(Some(class)) => match instance_of(class) {
            Ok(t) => Ok(Some(t)),
            Err(trouble) => Err(trouble),
        },
    }
}

/// The four value classes, recognized as instances of their own classes rather than by
/// a tag on the object. A plain object shaped like a date is a record, and only an
/// instance is a date.
pub fn temporal_from(class: &Result<Option<Class>, String>) -> (r: Result<Option<Temporal>, Fault>)
    ensures
        told(r) == classed(*class),
{
    let class = match class {
        Err(reason) => return Err(Fault::Boundary(reason.clone())),
        Ok(None) => return Ok(None),
        Ok(Some(class)) => class,
    };
    Ok(
        Some(
            match class {
                Class::Date(Ok(days)) => Temporal::Date(*days),
                Class::Date(Err(reason)) => return Err(Fault::Boundary(reason.clone())),
                Class::Time { nanos, offset } => match parts(nanos, offset)? {
                    (nanos, Some(offset)) => Temporal::ZonedTime { nanos, offset },
                    (nanos, None) => Temporal::LocalTime(nanos),
                },
                Class::Timestamp { nanos, offset } => match parts(nanos, offset)? {
                    (nanos, Some(offset)) => Temporal::ZonedDatetime { nanos, offset },
                    (nanos, None) => Temporal::LocalDatetime(nanos),
                },
                Class::Duration { kind, months, nanos } => match kind {
                    Err(reason) => return Err(Fault::Boundary(reason.clone())),
                    Ok(kind) => if same(kind.as_str(), "yearMonth") {
                        match months {
                            Err(reason) => return Err(Fault::Boundary(reason.clone())),
                            Ok(months) => Temporal::Duration(DurationKind::YearMonth, months.get_i64().0),
                        }
                    } else {
                        match nanos {
                            Err(reason) => return Err(Fault::Boundary(reason.clone())),
                            Ok(nanos) => Temporal::Duration(DurationKind::DayTime, nanos.get_i64().0),
                        }
                    },
                },
            },
        ),
    )
}

/// Whether a number binds as an integer: it is a whole one, and a double can still be
/// told from its neighbours there.
pub open spec fn countable(bits: u64) -> bool {
    whole(bits) && -(PAST as int) <= integral(bits) <= PAST
}

/// Why a value cannot be bound, when it cannot.
pub open spec fn unbindable(name: Seq<char>, value: Js, depth: nat) -> Option<Trouble>
    decreases 66 - depth, 0nat,
{
    if depth > DEEP {
        Some(Trouble::Refused(too_deep(name)))
    } else {
        match value {
            Js::Null | Js::Undefined | Js::Boolean(_) | Js::Text(_) | Js::Number { .. } => None,
            Js::BigInt(big) => if big.fits() { None } else { Some(Trouble::Refused(too_big(name))) },
            Js::Object(thing) => match classed(thing.class) {
                Err(trouble) => Some(trouble),
                Ok(Some(_)) => None,
                Ok(None) => match thing.items {
                    Some(items) => unbindable_items(name, items@, depth + 1, items@.len()),
                    None => match moment_of(name, thing.tag, thing.fields) {
                        Err(trouble) => Some(trouble),
                        Ok(Some(_)) => None,
                        Ok(None) => match thing.keys {
                            Err(reason) => Some(Trouble::Boundary(reason@)),
                            Ok(keys) => unbindable_fields(name, keys@, depth + 1, keys@.len()),
                        },
                    },
                },
            },
            Js::Unread(reason) => Some(Trouble::Boundary(reason@)),
            _ => Some(Trouble::Refused(unholdable(name, value.spec_kind()))),
        }
    }
}

/// The first refusal among the last `n` elements of an array.
pub open spec fn unbindable_items(name: Seq<char>, items: Seq<Js>, depth: nat, n: nat) -> Option<Trouble>
    decreases 66 - depth, n + 1,
{
    if n == 0 || n > items.len() {
        None
    } else {
        match unbindable(name, items[items.len() - n], depth) {
            Some(trouble) => Some(trouble),
            None => unbindable_items(name, items, depth, (n - 1) as nat),
        }
    }
}

/// The first refusal among the last `n` properties of an object.
pub open spec fn unbindable_fields(name: Seq<char>, fields: Seq<(String, Js)>, depth: nat, n: nat) -> Option<Trouble>
    decreases 66 - depth, n + 1,
{
    if n == 0 || n > fields.len() {
        None
    } else {
        match unbindable(name, fields[fields.len() - n].1, depth) {
            Some(trouble) => Some(trouble),
            None => unbindable_fields(name, fields, depth, (n - 1) as nat),
        }
    }
}

/// Whether this is the value a JavaScript value binds as.
pub open spec fn binds(bound: Value, name: Seq<char>, value: Js) -> bool
    decreases bound,
{
    match value {
        Js::Null | Js::Undefined => bound == Value::Null,
        Js::Boolean(b) => bound == Value::Bool(b),
        Js::Text(s) => bound matches Value::Str(t) && t@ == s@,
        Js::BigInt(big) => big.fits() && bound == Value::Int(big.signed() as i64),
        Js::Number { bits, .. } => if countable(bits) {
            bound == Value::Int(integral(bits) as i64)
        } else {
            bound == Value::Float(bits)
        },
        Js::Object(thing) => match classed(thing.class) {
            Err(_) => false,
            Ok(Some(t)) => bound == Value::Temporal(t),
            Ok(None) => match thing.items {
                Some(items) => bound matches Value::List(list) && list@.len() == items@.len() && forall|i: int|
                    0 <= i < list@.len() ==> binds(#[trigger] list@[i], name, items@[i]),
                None => match moment_of(name, thing.tag, thing.fields) {
                    Err(_) => false,
                    Ok(Some(t)) => bound == Value::Temporal(t),
                    Ok(None) => match thing.keys {
                        Err(_) => false,
                        Ok(keys) => bound matches Value::Record(list) && list@.len() == keys@.len() && forall|i: int|
                            0 <= i < list@.len() ==> (#[trigger] list@[i]).0@ == keys@[i].0@ && binds(
                                list@[i].1,
                                name,
                                keys@[i].1,
                            ),
                    },
                },
            },
        },
        _ => false,
    }
}

/// Turns a JavaScript value into the engine value it binds as.
///
/// The refusals are the point of this function. A parameter that cannot be bound is told
/// so by name and by type, on the call that passed it, rather than becoming a null the
/// statement then compares against and answers nothing for.
pub fn from_js(name: &str, value: &Js) -> (r: Result<Value, Fault>)
    ensures
        match r {
            Ok(bound) => unbindable(name@, *value, 0) is None && binds(bound, name@, *value),
            Err(fault) => unbindable(name@, *value, 0) == Some(fault@),
        },
{
    nested(name, value, 0)
}

fn nested(name: &str, value: &Js, depth: usize) -> (r: Result<Value, Fault>)
    requires
        depth <= DEEP + 1,
    ensures
        match r {
            Ok(bound) => unbindable(name@, *value, depth as nat) is None && binds(bound, name@, *value),
            Err(fault) => unbindable(name@, *value, depth as nat) == Some(fault@),
        },
    decreases 66 - depth, 0nat,
{
    if depth > DEEP {
        return Err(
            Fault::Refused(
                "parameter ".to_owned().concat(name).concat(" nests deeper than ").concat(
                    text::counted(DEEP as u128).as_str(),
                ).concat(
                    ", which is what a value that contains \
                 itself looks like",
                ),
            ),
        );
    }
    match value {
        Js::Null | Js::Undefined => Ok(Value::Null),
        Js::Boolean(b) => Ok(Value::Bool(*b)),
        Js::Text(s) => Ok(Value::Str(s.clone())),
        Js::BigInt(big) => {
            let (n, lossless): (i64, bool) = big.get_i64();
            if !lossless {
                return Err(
                    Fault::Refused(
                        "parameter ".to_owned().concat(name).concat(
                            " is a bigint outside what INT64 holds, \
                         which is -2^63 up to 2^63 - 1",
                        ),
                    ),
                );
            }
            Ok(Value::Int(n))
        },
        Js::Number { bits, .. } => {
            let (whole, n): (bool, i128) = number::read(*bits);
            if whole && -PAST <= n && n <= PAST {
                Ok(Value::Int(n as i64))
            } else {
                Ok(Value::Float(*bits))
            }
        },
        Js::Object(thing) => from_object(name, thing, depth),
        Js::Unread(reason) => Err(Fault::Boundary(reason.clone())),
        other => Err(
            Fault::Refused(
                "parameter ".to_owned().concat(name).concat(" is a ").concat(spelled(other.kind()).as_str()).concat(
                    ", which is not a value a statement can hold",
                ),
            ),
        ),
    }
}

fn from_object(name: &str, thing: &Thing, depth: usize) -> (r: Result<Value, Fault>)
    requires
        depth <= DEEP,
    ensures
        match r {
            Ok(bound) => unbindable(name@, Js::Object(*thing), depth as nat) is None && binds(
                bound,
                name@,
                Js::Object(*thing),
            ),
            Err(fault) => unbindable(name@, Js::Object(*thing), depth as nat) == Some(fault@),
        },
    decreases 65 - depth, 2nat,
{
    if let Some(temporal) = temporal_from(&thing.class)? {
        return Ok(Value::Temporal(temporal));
    }
    if let Some(items) = &thing.items {
        return Ok(Value::List(from_items(name, items, depth + 1)?));
    }
    // After the array and before the record, because a `Temporal` value has no own
    // enumerable properties at all: read as a record it would bind as an empty one.
    if let Some(moment) = temporal::from_temporal(name, &thing.tag, &thing.fields)? {
        return Ok(Value::Temporal(moment));
    }
    match &thing.keys {
        Err(reason) => Err(Fault::Boundary(reason.clone())),
        Ok(keys) => Ok(Value::Record(from_fields(name, keys, depth + 1)?)),
    }
}

fn from_items(name: &str, items: &Vec<Js>, depth: usize) -> (r: Result<Vec<Value>, Fault>)
    requires
        depth <= DEEP + 1,
    ensures
        match r {
            Ok(list) => unbindable_items(name@, items@, depth as nat, items@.len()) is None && list@.len()
                == items@.len() && forall|i: int| 0 <= i < list@.len() ==> binds(#[trigger] list@[i], name@, items@[i]),
            Err(fault) => unbindable_items(name@, items@, depth as nat, items@.len()) == Some(fault@),
        },
    decreases 66 - depth, 1nat,
{
    let mut list: Vec<Value> = Vec::new();
    let mut at: usize = 0;
    while at < items.len()
        invariant
            at <= items@.len(),
            list@.len() == at,
            depth <= DEEP + 1,
            forall|i: int| 0 <= i < at ==> binds(#[trigger] list@[i], name@, items@[i]),
            unbindable_items(name@, items@, depth as nat, items@.len()) == unbindable_items(
                name@,
                items@,
                depth as nat,
                (items@.len() - at) as nat,
            ),
        decreases items@.len() - at,
    {
        list.push(nested(name, &items[at], depth)?);
        at += 1;
    }
    Ok(list)
}

fn from_fields(name: &str, fields: &Vec<(String, Js)>, depth: usize) -> (r: Result<Vec<(String, Value)>, Fault>)
    requires
        depth <= DEEP + 1,
    ensures
        match r {
            Ok(list) => unbindable_fields(name@, fields@, depth as nat, fields@.len()) is None && list@.len()
                == fields@.len() && forall|i: int|
                0 <= i < list@.len() ==> (#[trigger] list@[i]).0@ == fields@[i].0@ && binds(
                    list@[i].1,
                    name@,
                    fields@[i].1,
                ),
            Err(fault) => unbindable_fields(name@, fields@, depth as nat, fields@.len()) == Some(fault@),
        },
    decreases 66 - depth, 1nat,
{
    let mut list: Vec<(String, Value)> = Vec::new();
    let mut at: usize = 0;
    while at < fields.len()
        invariant
            at <= fields@.len(),
            list@.len() == at,
            depth <= DEEP + 1,
            forall|i: int|
                0 <= i < at ==> (#[trigger] list@[i]).0@ == fields@[i].0@ && binds(
                    list@[i].1,
                    name@,
                    fields@[i].1,
                ),
            unbindable_fields(name@, fields@, depth as nat, fields@.len()) == unbindable_fields(
                name@,
                fields@,
                depth as nat,
                (fields@.len() - at) as nat,
            ),
        decreases fields@.len() - at,
    {
        let value: Value = nested(name, &fields[at].1, depth)?;
        list.push((fields[at].0.clone(), value));
        at += 1;
    }
    Ok(list)
}

/// What a JavaScript value about to be made is to be, down to the values in it.
pub enum Shown {
    Null,
    Flag(bool),
    /// A number, from an integer a double holds exactly.
    Whole(i64),
    /// A number, from a count.
    Count(u64),
    /// A number, from the bits of the double it is.
    Double(u64),
    Text(Seq<char>),
    List(Seq<Shown>),
    /// An object, by its properties in order.
    Object(Seq<(Seq<char>, Shown)>),
    /// A `Uint8Array`.
    Bytes(Seq<u8>),
    /// An `Int32Array`.
    Words(Seq<i32>),
    /// A `BigInt64Array`.
    Longs(Seq<i64>),
    /// A `Float64Array`, by the bits of its doubles.
    Doubles(Seq<u64>),
    /// An engine value, in a spelling.
    Spelled(Value, Shape),
}

/// Whether a JavaScript value about to be made is what it is to be.
pub open spec fn shows(made: Made, shown: Shown) -> bool
    decreases made,
{
    match shown {
        Shown::Null => made == Made::Null,
        Shown::Flag(b) => made == Made::Boolean(b),
        Shown::Whole(n) => made == Made::Whole(n),
        Shown::Count(n) => made == Made::Count(n),
        Shown::Double(bits) => made == Made::Double(bits),
        Shown::Text(s) => made matches Made::Text(t) && t@ == s,
        Shown::List(items) => made matches Made::List(list) && list@.len() == items.len() && forall|i: int|
            0 <= i < list@.len() ==> shows(#[trigger] list@[i], items[i]),
        Shown::Object(fields) => made matches Made::Object(list) && list@.len() == fields.len() && forall|i: int|
            0 <= i < list@.len() ==> (#[trigger] list@[i]).0@ == fields[i].0 && shows(list@[i].1, fields[i].1),
        Shown::Bytes(bytes) => made matches Made::Bytes(v) && v@ == bytes,
        Shown::Words(words) => made matches Made::Words(v) && v@ == words,
        Shown::Longs(longs) => made matches Made::Longs(v) && v@ == longs,
        Shown::Doubles(doubles) => made matches Made::Doubles(v) && v@ == doubles,
        Shown::Spelled(value, shape) => spells(made, value, shape),
    }
}

/// Strings as the list a caller reads.
pub open spec fn texts(strings: Seq<String>) -> Shown {
    Shown::List(strings.map_values(|s: String| Shown::Text(s@)))
}

/// Strings as the list a caller reads.
pub fn strings(held: &Vec<String>) -> (r: Made)
    ensures
        shows(r, texts(held@)),
{
    let mut made: Vec<Made> = Vec::new();
    let mut at: usize = 0;
    while at < held.len()
        invariant
            at <= held@.len(),
            made@.len() == at,
            forall|i: int| 0 <= i < at ==> shows(#[trigger] made@[i], Shown::Text(held@[i]@)),
        decreases held@.len() - at,
    {
        made.push(Made::Text(held[at].clone()));
        at += 1;
    }
    proof {
        assert(elements(made@, held@.map_values(|s: String| Shown::Text(s@))));
    }
    listing(made)
}

/// Properties in order, by what each of them is to be.
pub open spec fn properties(fields: Seq<(String, Made)>, shown: Seq<(Seq<char>, Shown)>) -> bool {
    &&& fields.len() == shown.len()
    &&& forall|i: int|
        0 <= i < fields.len() ==> (#[trigger] fields[i]).0@ == shown[i].0 && shows(fields[i].1, shown[i].1)
}

/// Puts one more property on an object being made.
pub fn property(fields: &mut Vec<(String, Made)>, key: &str, value: Made)
    ensures
        final(fields)@.len() == old(fields)@.len() + 1,
        forall|i: int| 0 <= i < old(fields)@.len() ==> final(fields)@[i] == old(fields)@[i],
        final(fields)@.last().0@ == key@,
        final(fields)@.last().1 == value,
        forall|shown: Seq<(Seq<char>, Shown)>, one: Shown|
            properties(old(fields)@, shown) && shows(value, one) ==> #[trigger] properties(
                final(fields)@,
                shown.push((key@, one)),
            ),
{
    fields.push((key.to_owned(), value));
}

/// An object of these properties.
pub fn object(fields: Vec<(String, Made)>) -> (r: Made)
    ensures
        forall|shown: Seq<(Seq<char>, Shown)>|
            properties(fields@, shown) ==> #[trigger] shows(r, Shown::Object(shown)),
{
    let made: Made = Made::Object(fields);
    proof {
        assert forall|shown: Seq<(Seq<char>, Shown)>| properties(fields@, shown) implies #[trigger] shows(
            made,
            Shown::Object(shown),
        ) by {
            assert(made->Object_0@ == fields@);
        }
    }
    made
}

/// Values in order, by what each of them is to be.
pub open spec fn elements(items: Seq<Made>, shown: Seq<Shown>) -> bool {
    &&& items.len() == shown.len()
    &&& forall|i: int| 0 <= i < items.len() ==> shows(#[trigger] items[i], shown[i])
}

/// A list of these values.
pub fn listing(items: Vec<Made>) -> (r: Made)
    ensures
        forall|shown: Seq<Shown>| elements(items@, shown) ==> #[trigger] shows(r, Shown::List(shown)),
{
    let made: Made = Made::List(items);
    proof {
        assert forall|shown: Seq<Shown>| elements(items@, shown) implies #[trigger] shows(made, Shown::List(shown)) by {
            assert(made->List_0@ == items@);
        }
    }
    made
}

/// Whether reading a JavaScript value that was made finds this.
pub open spec fn comes_back(made: Made, value: Js) -> bool
    decreases made,
{
    match made {
        Made::Null => value == Js::Null,
        Made::Boolean(b) => value == Js::Boolean(b),
        Made::Whole(n) => value matches Js::Number { bits, .. } && whole(bits) && integral(bits) == n,
        Made::Double(double) => value matches Js::Number { bits, .. } && bits == double,
        Made::BigInt(n) => value matches Js::BigInt(big) && big.fits() && big.signed() == n,
        Made::Text(s) => value matches Js::Text(t) && t@ == s@,
        Made::List(list) => value matches Js::Object(thing) && thing.class == Ok::<Option<Class>, String>(None) && (
        thing.items matches Some(items) && items@.len() == list@.len() && forall|i: int|
            0 <= i < list@.len() ==> comes_back(#[trigger] list@[i], items@[i])),
        Made::Object(list) => value matches Js::Object(thing) && thing.class == Ok::<Option<Class>, String>(None)
            && thing.items is None && thing.tag == Ok::<Option<String>, String>(None) && (thing.keys matches Ok(keys)
            && keys@.len() == list@.len() && forall|i: int|
            0 <= i < list@.len() ==> keys@[i].0@ == (#[trigger] list@[i]).0@ && comes_back(list@[i].1, keys@[i].1)),
        Made::Date(date) => value matches Js::Object(thing) && (thing.class matches Ok(Some(Class::Date(Ok(days))))
            && days == date.days),
        Made::Time(time) => value matches Js::Object(thing) && (thing.class matches Ok(
            Some(Class::Time { nanos: Ok(nanos), offset }),
        ) && nanos.fits() && nanos.signed() == time.nanos && offset == Ok::<_, String>(time.offset)),
        Made::Timestamp(time) => value matches Js::Object(thing) && (thing.class matches Ok(
            Some(Class::Timestamp { nanos: Ok(nanos), offset }),
        ) && nanos.fits() && nanos.signed() == time.nanos && offset == Ok::<_, String>(time.offset)),
        Made::Duration(span) => value matches Js::Object(thing) && (thing.class matches Ok(
            Some(Class::Duration { kind: Ok(kind), months: Ok(months), nanos: Ok(nanos) }),
        ) && kind@ == kind_of(span.kind) && months.fits() && months.signed() == span.months && nanos.fits()
            && nanos.signed() == span.nanos),
        Made::Temporal(build) => value matches Js::Object(thing) && thing.class == Ok::<Option<Class>, String>(None)
            && thing.items is None && temporal::reads_back(build, thing.tag, thing.fields),
        _ => false,
    }
}

/// Whether two engine values are the same value, strings by what they say.
pub open spec fn same_value(one: Value, other: Value) -> bool
    decreases one,
{
    match one {
        Value::Str(s) => other matches Value::Str(t) && s@ == t@,
        Value::List(items) => other matches Value::List(list) && items@.len() == list@.len() && forall|i: int|
            0 <= i < items@.len() ==> same_value(#[trigger] items@[i], list@[i]),
        Value::Record(fields) => other matches Value::Record(list) && fields@.len() == list@.len() && forall|i: int|
            0 <= i < fields@.len() ==> (#[trigger] fields@[i]).0@ == list@[i].0@ && same_value(
                fields@[i].1,
                list@[i].1,
            ),
        _ => one == other,
    }
}

/// Whether a value is one a parameter can be: not a node, an edge or a walk, nested no deeper
/// than a parameter may be, and without the values two of which are written alike. Those are a
/// float that is a whole number a double tells from its neighbours, which is read as an
/// integer, and, as a `Temporal` value, a duration of no months.
pub open spec fn passable(value: Value, spelling: Spelling, depth: nat) -> bool
    decreases value,
{
    &&& depth <= DEEP
    &&& match value {
        Value::Null | Value::Bool(_) | Value::Int(_) | Value::Str(_) => true,
        Value::Float(bits) => !countable(bits),
        Value::Temporal(t) => spelling.temporal ==> t != Temporal::Duration(DurationKind::YearMonth, 0),
        Value::List(items) => forall|i: int|
            0 <= i < items@.len() ==> passable(#[trigger] items@[i], spelling, depth + 1),
        Value::Record(fields) => forall|i: int|
            0 <= i < fields@.len() ==> passable((#[trigger] fields@[i]).1, spelling, depth + 1),
        _ => false,
    }
}

proof fn lemma_items_return(
    name: Seq<char>,
    values: Seq<Value>,
    list: Seq<Made>,
    items: Seq<Js>,
    shape: Shape,
    depth: nat,
    n: nat,
)
    requires
        n <= values.len(),
        values.len() == list.len() == items.len(),
        depth <= DEEP + 1,
        forall|i: int| 0 <= i < values.len() ==> passable(#[trigger] values[i], shape.spelling, depth),
        forall|i: int| 0 <= i < values.len() ==> spells(#[trigger] list[i], values[i], shape),
        forall|i: int| 0 <= i < values.len() ==> comes_back(#[trigger] list[i], items[i]),
    ensures
        unbindable_items(name, items, depth, n) is None,
        forall|i: int, bound: Value|
            values.len() - n <= i < values.len() && #[trigger] binds(bound, name, items[i]) ==> same_value(
                bound,
                values[i],
            ),
    decreases values, n,
{
    if n > 0 {
        let at = values.len() - n;
        assert(decreases_to!(values => values[at]));
        assert(passable(values[at], shape.spelling, depth));
        law_values_come_back(name, values[at], list[at], items[at], shape, depth);
        lemma_items_return(name, values, list, items, shape, depth, (n - 1) as nat);
    }
}

proof fn lemma_fields_return(
    name: Seq<char>,
    values: Seq<(String, Value)>,
    list: Seq<(String, Made)>,
    fields: Seq<(String, Js)>,
    shape: Shape,
    depth: nat,
    n: nat,
)
    requires
        n <= values.len(),
        values.len() == list.len() == fields.len(),
        depth <= DEEP + 1,
        forall|i: int| 0 <= i < values.len() ==> passable((#[trigger] values[i]).1, shape.spelling, depth),
        forall|i: int| 0 <= i < values.len() ==> spells((#[trigger] list[i]).1, values[i].1, shape),
        forall|i: int| 0 <= i < values.len() ==> comes_back((#[trigger] list[i]).1, fields[i].1),
    ensures
        unbindable_fields(name, fields, depth, n) is None,
        forall|i: int, bound: Value|
            values.len() - n <= i < values.len() && #[trigger] binds(bound, name, fields[i].1) ==> same_value(
                bound,
                values[i].1,
            ),
    decreases values, n,
{
    if n > 0 {
        let at = values.len() - n;
        assert(decreases_to!(values => values[at]));
        assert(decreases_to!(values[at] => values[at].1));
        assert(passable(values[at].1, shape.spelling, depth));
        law_values_come_back(name, values[at].1, list[at].1, fields[at].1, shape, depth);
        lemma_fields_return(name, values, list, fields, shape, depth, (n - 1) as nat);
    }
}

/// What a statement gives back and a caller passes on binds as the value it was, in every
/// spelling: integers of either mode, strings, dates and times as classes or as `Temporal`
/// values, and lists and records of all of them, however nested.
pub proof fn law_values_come_back(name: Seq<char>, value: Value, made: Made, back: Js, shape: Shape, depth: nat)
    requires
        passable(value, shape.spelling, depth),
        spells(made, value, shape),
        comes_back(made, back),
    ensures
        unbindable(name, back, depth) is None,
        forall|bound: Value| #[trigger] binds(bound, name, back) ==> same_value(bound, value),
    decreases value, 0nat,
{
    match value {
        Value::List(values) => {
            assert(decreases_to!(value => values@));
            let list = made->List_0;
            let items = back->Object_0.items->Some_0;
            lemma_items_return(name, values@, list@, items@, shape, depth + 1, values@.len());
            assert forall|bound: Value| #[trigger] binds(bound, name, back) implies same_value(bound, value) by {
                let found = bound->List_0;
                assert forall|i: int| 0 <= i < found@.len() implies same_value(#[trigger] found@[i], values@[i]) by {
                    assert(binds(found@[i], name, items@[i]));
                }
            }
        },
        Value::Record(values) => {
            assert(decreases_to!(value => values@));
            let list = made->Object_0;
            let keys = back->Object_0.keys->Ok_0;
            lemma_fields_return(name, values@, list@, keys@, shape, depth + 1, values@.len());
            assert forall|bound: Value| #[trigger] binds(bound, name, back) implies same_value(bound, value) by {
                let found = bound->Record_0;
                assert forall|i: int| 0 <= i < found@.len() implies (#[trigger] found@[i]).0@ == values@[i].0@
                    && same_value(found@[i].1, values@[i].1) by {
                    assert(binds(found@[i].1, name, keys@[i].1));
                    assert(list@[i].0@ == values@[i].0@);
                }
            }
        },
        Value::Temporal(t) => {
            lemma_moment_returns(name, t, made, back, shape.spelling.temporal);
        },
        _ => {},
    }
}

proof fn lemma_moment_returns(name: Seq<char>, value: Temporal, made: Made, back: Js, wanted: bool)
    requires
        is_moment(made, value, wanted),
        comes_back(made, back),
        wanted ==> value != Temporal::Duration(DurationKind::YearMonth, 0),
    ensures
        back matches Js::Object(thing) && (classed(thing.class) == Ok::<_, Trouble>(Some(value)) || (classed(thing.class)
            == Ok::<Option<Temporal>, Trouble>(None) && thing.items is None && moment_of(name, thing.tag, thing.fields)
            == Ok::<_, Trouble>(Some(value)))),
{
    reveal_strlit("yearMonth");
    reveal_strlit("dayTime");
    assert("yearMonth"@.len() != "dayTime"@.len());
    if made is Temporal {
        let thing = back->Object_0;
        temporal::law_temporal_round_trip(name, value, made->Temporal_0, thing.tag, thing.fields);
    }
}

proof fn lemma_steps_alternate(walk: Seq<Value>, n: int)
    requires
        0 <= n <= walk.len(),
        forall|i: int|
            0 <= i < walk.len() ==> if i % 2 == 0 { (#[trigger] walk[i]) is Node } else { walk[i] is Rel },
    ensures
        walk_nodes(walk.take(n)).len() == (n + 1) / 2,
        walk_rels(walk.take(n)).len() == n / 2,
        forall|i: int| 0 <= i < (n + 1) / 2 ==> #[trigger] walk_nodes(walk.take(n))[i] == walk[2 * i],
        forall|i: int| 0 <= i < n / 2 ==> #[trigger] walk_rels(walk.take(n))[i] == walk[2 * i + 1],
    decreases n,
{
    reveal(Seq::filter);
    if n > 0 {
        lemma_steps_alternate(walk, n - 1);
        let shorter = walk.take(n - 1);
        assert(walk.take(n).drop_last() =~= shorter);
        assert(walk.take(n).last() == walk[n - 1]);
        let nodes = walk_nodes(walk.take(n));
        let rels = walk_rels(walk.take(n));
        if (n - 1) % 2 == 0 {
            assert(nodes == walk_nodes(shorter).push(walk[n - 1]));
            assert(rels == walk_rels(shorter));
        } else {
            assert(nodes == walk_nodes(shorter));
            assert(rels == walk_rels(shorter).push(walk[n - 1]));
        }
    }
}

/// A walk comes out as its nodes and its edges, each at its place in the walk: the nodes are the
/// steps at even places and the edges the ones between them, and each of them has the offset, the
/// ends and the order it had, and its table by the name of that kind of table.
pub proof fn law_a_walk_keeps_its_steps(walk: Vec<Value>, made: Made, shape: Shape)
    requires
        walk@.len() % 2 == 1,
        forall|i: int|
            0 <= i < walk@.len() ==> if i % 2 == 0 { (#[trigger] walk@[i]) is Node } else { walk@[i] is Rel },
        spells(made, Value::Path(walk), shape),
    ensures
        made matches Made::Path { nodes, rels } && nodes@.len() == rels@.len() + 1 && nodes@.len() + rels@.len()
            == walk@.len() && (forall|i: int|
            0 <= i < nodes@.len() ==> (#[trigger] nodes@[i]).offset == walk@[2 * i]->Node_offset && nodes@[i].table@ == called(
                shape.names.spec_nodes(),
                walk@[2 * i]->Node_table,
            )) && (forall|i: int|
            0 <= i < rels@.len() ==> (#[trigger] rels@[i]).src == walk@[2 * i + 1]->src && rels@[i].dst == walk@[2 * i
                + 1]->dst && rels@[i].ord == walk@[2 * i + 1]->ord && rels@[i].table@ == called(
                shape.names.spec_rels(),
                walk@[2 * i + 1]->Rel_table,
            )),
{
    let n = walk@.len() as int;
    lemma_steps_alternate(walk@, n);
    assert(walk@.take(n) =~= walk@);
    let nodes = made->nodes;
    let rels = made->rels;
    assert forall|i: int| 0 <= i < nodes@.len() implies (#[trigger] nodes@[i]).offset == walk@[2 * i]->Node_offset
        && nodes@[i].table@ == called(shape.names.spec_nodes(), walk@[2 * i]->Node_table) by {
        assert(walk_nodes(walk@.take(n))[i] == walk@[2 * i]);
        assert(is_node(nodes@[i], walk@[2 * i], shape.names));
    }
    assert forall|i: int| 0 <= i < rels@.len() implies (#[trigger] rels@[i]).src == walk@[2 * i + 1]->src
        && rels@[i].dst == walk@[2 * i + 1]->dst && rels@[i].ord == walk@[2 * i + 1]->ord && rels@[i].table@ == called(
        shape.names.spec_rels(),
        walk@[2 * i + 1]->Rel_table,
    ) by {
        assert(walk_rels(walk@.take(n))[i] == walk@[2 * i + 1]);
        assert(is_rel(rels@[i], walk@[2 * i + 1], shape.names));
    }
}

/// An edge runs the way it ran: alone it has the row it runs from, the row it runs to, its order
/// and the name of its table, and it is field for field the edge of the walk of one step along
/// it, whose first node is at the row it runs from and whose last is at the row it runs to.
pub proof fn law_an_edge_keeps_its_ends(
    table: u32,
    src: u64,
    dst: u64,
    ord: u64,
    from: u32,
    to: u32,
    walk: Vec<Value>,
    alone: Made,
    along: Made,
    shape: Shape,
)
    requires
        walk@ == seq![
            Value::Node { table: from, offset: src },
            Value::Rel { table, src, dst, ord },
            Value::Node { table: to, offset: dst },
        ],
        spells(alone, Value::Rel { table, src, dst, ord }, shape),
        spells(along, Value::Path(walk), shape),
    ensures
        alone matches Made::Rel(edge) && edge.src == src && edge.dst == dst && edge.ord == ord && edge.table@ == called(
            shape.names.spec_rels(),
            table,
        ) && (along matches Made::Path { nodes, rels } && nodes@.len() == 2 && rels@.len() == 1 && rels@[0].src
            == edge.src && rels@[0].dst == edge.dst && rels@[0].ord == edge.ord && rels@[0].table@ == edge.table@
            && nodes@[0].offset == edge.src && nodes@[1].offset == edge.dst),
{
    assert forall|i: int| 0 <= i < walk@.len() implies if i % 2 == 0 {
        (#[trigger] walk@[i]) is Node
    } else {
        walk@[i] is Rel
    } by {
        assert(i == 0 || i == 1 || i == 2);
    }
    law_a_walk_keeps_its_steps(walk, along, shape);
    assert(walk@[0] == Value::Node { table: from, offset: src });
    assert(walk@[1] == Value::Rel { table, src, dst, ord });
    assert(walk@[2] == Value::Node { table: to, offset: dst });
    let nodes = along->nodes;
    assert(nodes@[0].offset == walk@[0]->Node_offset);
    assert(nodes@[1].offset == walk@[2]->Node_offset);
}

/// A node comes out at the offset it is at, in the table it is in, and is no edge; and it is the
/// node of the walk that goes nowhere from it.
pub proof fn law_a_node_keeps_its_place(table: u32, offset: u64, walk: Vec<Value>, alone: Made, along: Made, shape: Shape)
    requires
        walk@ == seq![Value::Node { table, offset }],
        spells(alone, Value::Node { table, offset }, shape),
        spells(along, Value::Path(walk), shape),
    ensures
        alone matches Made::Node(node) && node.offset == offset && node.table@ == called(
            shape.names.spec_nodes(),
            table,
        ) && (along matches Made::Path { nodes, rels } && nodes@.len() == 1 && rels@.len() == 0 && nodes@[0].offset
            == node.offset && nodes@[0].table@ == node.table@),
{
    law_a_walk_keeps_its_steps(walk, along, shape);
    let nodes = along->nodes;
    assert(nodes@[0].offset == walk@[0]->Node_offset);
}

proof fn lemma_last_entry(tables: Seq<(u32, String)>, at: int)
    requires
        0 <= at < tables.len(),
        forall|i: int| at < i < tables.len() ==> (#[trigger] tables[i]).0 != tables[at].0,
    ensures
        collected(tables).contains_key(tables[at].0),
        collected(tables)[tables[at].0] == tables[at].1,
    decreases tables.len(),
{
    if at < tables.len() - 1 {
        let shorter = tables.drop_last();
        assert forall|i: int| at < i < shorter.len() implies (#[trigger] shorter[i]).0 != shorter[at].0 by {
            assert(shorter[i] == tables[i]);
        }
        lemma_last_entry(shorter, at);
        assert(tables[tables.len() - 1].0 != tables[at].0);
    }
}

proof fn lemma_no_entry(tables: Seq<(u32, String)>, id: u32)
    requires
        forall|i: int| 0 <= i < tables.len() ==> (#[trigger] tables[i]).0 != id,
    ensures
        !collected(tables).contains_key(id),
    decreases tables.len(),
{
    if tables.len() > 0 {
        let shorter = tables.drop_last();
        assert forall|i: int| 0 <= i < shorter.len() implies (#[trigger] shorter[i]).0 != id by {
            assert(shorter[i] == tables[i]);
        }
        lemma_no_entry(shorter, id);
        assert(tables[tables.len() - 1].0 != id);
    }
}

/// A table is called by the name the catalog gives its id, the last one where it gives several.
/// A table the catalog gives no name to is called by a `#` and its id, so no two such tables are
/// called alike.
pub proof fn law_a_table_has_its_own_name(tables: Seq<(u32, String)>, at: int, id: u32, other: u32)
    ensures
        0 <= at < tables.len() && (forall|i: int| at < i < tables.len() ==> (#[trigger] tables[i]).0 != tables[at].0)
            ==> called(collected(tables), tables[at].0) == tables[at].1@,
        (forall|i: int| 0 <= i < tables.len() ==> (#[trigger] tables[i]).0 != id) ==> called(collected(tables), id)[0] == '#'
            && called(collected(tables), id).skip(1) == text::digits(id as nat),
        (forall|i: int| 0 <= i < tables.len() ==> (#[trigger] tables[i]).0 != id && tables[i].0 != other) && called(
            collected(tables),
            id,
        ) == called(collected(tables), other) ==> id == other,
{
    reveal_strlit("#");
    if 0 <= at < tables.len() && (forall|i: int| at < i < tables.len() ==> (#[trigger] tables[i]).0 != tables[at].0) {
        lemma_last_entry(tables, at);
    }
    if forall|i: int| 0 <= i < tables.len() ==> (#[trigger] tables[i]).0 != id {
        lemma_no_entry(tables, id);
        assert(called(collected(tables), id).skip(1) =~= decimal(id as int));
        if forall|i: int| 0 <= i < tables.len() ==> (#[trigger] tables[i]).0 != id && tables[i].0 != other {
            lemma_no_entry(tables, other);
            assert(called(collected(tables), other).skip(1) =~= decimal(other as int));
            if called(collected(tables), id) == called(collected(tables), other) {
                text::lemma_digits_differ(id as nat, other as nat);
            }
        }
    }
}

/// A value comes out as what it is: a truth value, a float and a string are themselves, an integer
/// is a `bigint` unless numbers were asked for and then is a number no further than 2^53 - 1 from
/// nothing, and only what has no JavaScript spelling is `null`.
pub proof fn law_plain_values_come_out_as_they_are(value: Value, made: Made, shape: Shape)
    requires
        spells(made, value, shape),
    ensures
        value is Null || value is Chain || value is Graph || value is BindingTable <==> made is Null,
        made matches Made::Boolean(b) ==> value == Value::Bool(b),
        made matches Made::BigInt(n) ==> value == Value::Int(n) && shape.spelling.ints is BigInt,
        made matches Made::Whole(n) ==> value == Value::Int(n) && shape.spelling.ints is Number
            && -9_007_199_254_740_991 <= n <= 9_007_199_254_740_991,
        made matches Made::Double(bits) ==> value == Value::Float(bits),
        made matches Made::Text(s) ==> (value matches Value::Str(t) && s@ == t@),
        made is List <==> value is List,
        made is Object <==> value is Record,
        made is Node <==> value is Node,
        made is Rel <==> value is Rel,
        made is Path <==> value is Path,
        made is Boolean <==> value is Bool,
        made is Double <==> value is Float,
        made is Text <==> value is Str,
        made is BigInt || made is Whole <==> value is Int,
        made matches Made::List(list) ==> list@.len() == value->List_0@.len() && forall|i: int|
            0 <= i < list@.len() ==> spells(#[trigger] list@[i], value->List_0@[i], shape),
        made matches Made::Object(list) ==> list@.len() == value->Record_0@.len() && forall|i: int|
            0 <= i < list@.len() ==> (#[trigger] list@[i]).0@ == value->Record_0@[i].0@ && spells(
                list@[i].1,
                value->Record_0@[i].1,
                shape,
            ),
{
}

/// A temporal value comes out as an instance of its own class with its own count and its own
/// offset, or, where `Temporal` was asked for and has a type for it, as the `Temporal` value that
/// counts the same.
pub proof fn law_temporal_values_come_out_as_they_are(value: Temporal, made: Made, shape: Shape)
    requires
        spells(made, Value::Temporal(value), shape),
    ensures
        made is Temporal <==> shape.spelling.temporal && !(value is ZonedTime),
        made matches Made::Temporal(build) ==> builds(value, Some(build)),
        made matches Made::Date(date) ==> value == Temporal::Date(date.days),
        made matches Made::Time(time) ==> match time.offset {
            None => value == Temporal::LocalTime(time.nanos),
            Some(minutes) => value matches Temporal::ZonedTime { nanos, offset } && nanos == time.nanos && offset
                == minutes,
        },
        made matches Made::Timestamp(time) ==> match time.offset {
            None => value == Temporal::LocalDatetime(time.nanos),
            Some(minutes) => value matches Temporal::ZonedDatetime { nanos, offset } && nanos == time.nanos && offset
                == minutes,
        },
        made matches Made::Duration(span) ==> value == Temporal::Duration(
            span.kind,
            (if span.kind is YearMonth { span.months } else { span.nanos }),
        ) && (span.kind is YearMonth ==> span.nanos == 0) && (span.kind is DayTime ==> span.months == 0),
        made is Temporal || made is Date || made is Time || made is Timestamp || made is Duration,
{
}

proof fn lemma_items_unspelled(column: Seq<char>, items: Seq<Value>, spelling: Spelling, present: bool, n: nat)
    requires
        n <= items.len(),
    ensures
        match unspellable_items(column, items, spelling, present, n) {
            None => forall|i: int|
                items.len() - n <= i < items.len() ==> unspellable(column, #[trigger] items[i], spelling, present) is None,
            Some(words) => exists|i: int|
                items.len() - n <= i < items.len() && unspellable(column, #[trigger] items[i], spelling, present) == Some(
                    words,
                ) && forall|j: int|
                    items.len() - n <= j < i ==> unspellable(column, #[trigger] items[j], spelling, present) is None,
        },
    decreases n,
{
    if n > 0 {
        let at = items.len() - n;
        lemma_items_unspelled(column, items, spelling, present, (n - 1) as nat);
        if unspellable(column, items[at], spelling, present) is None {
            if let Some(words) = unspellable_items(column, items, spelling, present, (n - 1) as nat) {
                let i = choose|i: int|
                    items.len() - (n - 1) <= i < items.len() && unspellable(column, #[trigger] items[i], spelling, present)
                        == Some(words) && forall|j: int|
                        items.len() - (n - 1) <= j < i ==> unspellable(column, #[trigger] items[j], spelling, present) is None;
                assert forall|j: int| items.len() - n <= j < i implies unspellable(
                    column,
                    #[trigger] items[j],
                    spelling,
                    present,
                ) is None by {
                    if j == at {
                    }
                }
                assert(unspellable(column, items[i], spelling, present) == Some(words));
            }
        } else {
            assert(unspellable(column, items[at], spelling, present) is Some);
        }
    }
}

proof fn lemma_fields_unspelled(column: Seq<char>, fields: Seq<(String, Value)>, spelling: Spelling, present: bool, n: nat)
    requires
        n <= fields.len(),
    ensures
        match unspellable_fields(column, fields, spelling, present, n) {
            None => forall|i: int|
                fields.len() - n <= i < fields.len() ==> unspellable(column, (#[trigger] fields[i]).1, spelling, present)
                    is None,
            Some(words) => exists|i: int|
                fields.len() - n <= i < fields.len() && unspellable(column, (#[trigger] fields[i]).1, spelling, present)
                    == Some(words) && forall|j: int|
                    fields.len() - n <= j < i ==> unspellable(column, (#[trigger] fields[j]).1, spelling, present) is None,
        },
    decreases n,
{
    if n > 0 {
        let at = fields.len() - n;
        lemma_fields_unspelled(column, fields, spelling, present, (n - 1) as nat);
        if unspellable(column, fields[at].1, spelling, present) is None {
            if let Some(words) = unspellable_fields(column, fields, spelling, present, (n - 1) as nat) {
                let i = choose|i: int|
                    fields.len() - (n - 1) <= i < fields.len() && unspellable(
                        column,
                        (#[trigger] fields[i]).1,
                        spelling,
                        present,
                    ) == Some(words) && forall|j: int|
                        fields.len() - (n - 1) <= j < i ==> unspellable(column, (#[trigger] fields[j]).1, spelling, present)
                            is None;
                assert forall|j: int| fields.len() - n <= j < i implies unspellable(
                    column,
                    (#[trigger] fields[j]).1,
                    spelling,
                    present,
                ) is None by {
                    if j == at {
                    }
                }
                assert(unspellable(column, fields[i].1, spelling, present) == Some(words));
            }
        } else {
            assert(unspellable(column, fields[at].1, spelling, present) is Some);
        }
    }
}

/// What comes out is refused for two reasons and no other: an integer further than 2^53 - 1 from
/// nothing where numbers were asked for, and a temporal value where `Temporal` was asked for on a
/// runtime without one. A list or a record is refused when something in it is, and with the words
/// of the first that is.
pub proof fn law_only_these_are_not_spelled(column: Seq<char>, value: Value, spelling: Spelling, present: bool)
    ensures
        match value {
            Value::Int(n) => unspellable(column, value, spelling, present) is Some <==> spelling.ints is Number && (n
                < -9_007_199_254_740_991 || n > 9_007_199_254_740_991),
            Value::Temporal(_) => unspellable(column, value, spelling, present) is Some <==> spelling.temporal
                && !present,
            Value::List(items) => match unspellable(column, value, spelling, present) {
                None => forall|i: int|
                    0 <= i < items@.len() ==> unspellable(column, #[trigger] items@[i], spelling, present) is None,
                Some(words) => exists|i: int|
                    0 <= i < items@.len() && unspellable(column, #[trigger] items@[i], spelling, present) == Some(words)
                        && forall|j: int| 0 <= j < i ==> unspellable(column, #[trigger] items@[j], spelling, present) is None,
            },
            Value::Record(fields) => match unspellable(column, value, spelling, present) {
                None => forall|i: int|
                    0 <= i < fields@.len() ==> unspellable(column, (#[trigger] fields@[i]).1, spelling, present) is None,
                Some(words) => exists|i: int|
                    0 <= i < fields@.len() && unspellable(column, (#[trigger] fields@[i]).1, spelling, present) == Some(
                        words,
                    ) && forall|j: int|
                        0 <= j < i ==> unspellable(column, (#[trigger] fields@[j]).1, spelling, present) is None,
            },
            _ => unspellable(column, value, spelling, present) is None,
        },
{
    match value {
        Value::List(items) => lemma_items_unspelled(column, items@, spelling, present, items@.len()),
        Value::Record(fields) => lemma_fields_unspelled(column, fields@, spelling, present, fields@.len()),
        _ => {},
    }
}

/// A plain value binds as what it is. A `bigint` binds as the integer it is and is refused exactly
/// when 64 signed bits do not hold it. A number binds as the integer it is exactly when it is a
/// whole one no further than 2^53 from nothing, and as the float it is otherwise. A missing value
/// is null, and a function, a symbol and what the runtime would not name are refused.
pub proof fn law_plain_values_bind_as_they_are(name: Seq<char>, value: Js, bound: Value, depth: nat)
    requires
        depth <= 64,
    ensures
        value is Null || value is Undefined || value is Boolean || value is Text || value is Number ==> unbindable(
            name,
            value,
            depth,
        ) is None,
        value is Symbol || value is Function || value is External || value is Unknown ==> (unbindable(name, value, depth)
            matches Some(trouble) && trouble is Refused),
        value matches Js::Unread(reason) ==> unbindable(name, value, depth) == Some(Trouble::Boundary(reason@)),
        value matches Js::BigInt(big) ==> (unbindable(name, value, depth) is None <==> big.high@.len() == 0 && (
        if big.negative { big.low <= 0x8000_0000_0000_0000 } else { big.low < 0x8000_0000_0000_0000 })),
        binds(bound, name, value) ==> match value {
            Js::Null | Js::Undefined => bound is Null,
            Js::Boolean(b) => bound == Value::Bool(b),
            Js::Text(s) => bound matches Value::Str(t) && t@ == s@,
            Js::BigInt(big) => bound matches Value::Int(n) && n == (if big.negative {
                -(big.low as int)
            } else {
                big.low as int
            }),
            Js::Number { bits, .. } => if whole(bits) && -9_007_199_254_740_992 <= integral(bits)
                <= 9_007_199_254_740_992 {
                bound matches Value::Int(n) && n == integral(bits)
            } else {
                bound == Value::Float(bits)
            },
            Js::Object(_) => bound is Temporal || bound is List || bound is Record,
            _ => false,
        },
{
}

/// An instance of one of the four classes binds as what its fields say: a date as its days, a time
/// and a timestamp as their nanoseconds, local without an offset and zoned with one, and a
/// duration as the count its kind names.
pub proof fn law_instances_bind_as_their_fields(
    days: i32,
    nanos: Big,
    offset: Option<i32>,
    kind: String,
    months: Big,
    reason: String,
)
    requires
        nanos.fits(),
        months.fits(),
        offset matches Some(minutes) ==> -0x8000 <= minutes < 0x8000,
    ensures
        classed(Ok(None)) == Ok::<Option<Temporal>, Trouble>(None),
        classed(Err(reason)) == Err::<Option<Temporal>, _>(Trouble::Boundary(reason@)),
        classed(Ok(Some(Class::Date(Ok(days))))) == Ok::<_, Trouble>(Some(Temporal::Date(days))),
        classed(Ok(Some(Class::Date(Err(reason))))) == Err::<Option<Temporal>, _>(Trouble::Boundary(reason@)),
        classed(Ok(Some(Class::Time { nanos: Ok(nanos), offset: Ok(offset) }))) matches Ok(Some(time)) && match offset {
            None => time matches Temporal::LocalTime(n) && n == nanos.signed(),
            Some(minutes) => time matches Temporal::ZonedTime { nanos: n, offset: m } && n == nanos.signed() && m
                == minutes,
        },
        classed(Ok(Some(Class::Timestamp { nanos: Ok(nanos), offset: Ok(offset) }))) matches Ok(Some(time))
            && match offset {
            None => time matches Temporal::LocalDatetime(n) && n == nanos.signed(),
            Some(minutes) => time matches Temporal::ZonedDatetime { nanos: n, offset: m } && n == nanos.signed() && m
                == minutes,
        },
        classed(Ok(Some(Class::Time { nanos: Err(reason), offset: Ok(offset) }))) is Err,
        classed(Ok(Some(Class::Time { nanos: Ok(nanos), offset: Err(reason) }))) is Err,
        classed(Ok(Some(Class::Timestamp { nanos: Err(reason), offset: Ok(offset) }))) is Err,
        classed(Ok(Some(Class::Timestamp { nanos: Ok(nanos), offset: Err(reason) }))) is Err,
        kind@ == "yearMonth"@ ==> (classed(
            Ok(Some(Class::Duration { kind: Ok(kind), months: Ok(months), nanos: Ok(nanos) })),
        ) matches Ok(Some(span)) && (span matches Temporal::Duration(counts, n) && counts is YearMonth && n
            == months.signed())),
        kind@ == "dayTime"@ ==> (classed(
            Ok(Some(Class::Duration { kind: Ok(kind), months: Ok(months), nanos: Ok(nanos) })),
        ) matches Ok(Some(span)) && (span matches Temporal::Duration(counts, n) && counts is DayTime && n
            == nanos.signed())),
        classed(Ok(Some(Class::Duration { kind: Err(reason), months: Ok(months), nanos: Ok(nanos) }))) is Err,
        nanos.signed() == (if nanos.negative { -(nanos.low as int) } else { nanos.low as int }),
{
    reveal_strlit("yearMonth");
    reveal_strlit("dayTime");
    assert("yearMonth"@.len() != "dayTime"@.len());
}

proof fn lemma_items_unbound(name: Seq<char>, items: Seq<Js>, depth: nat, n: nat)
    requires
        n <= items.len(),
    ensures
        match unbindable_items(name, items, depth, n) {
            None => forall|i: int| items.len() - n <= i < items.len() ==> unbindable(name, #[trigger] items[i], depth) is None,
            Some(trouble) => exists|i: int|
                items.len() - n <= i < items.len() && unbindable(name, #[trigger] items[i], depth) == Some(trouble)
                    && forall|j: int| items.len() - n <= j < i ==> unbindable(name, #[trigger] items[j], depth) is None,
        },
    decreases n,
{
    if n > 0 {
        let at = items.len() - n;
        lemma_items_unbound(name, items, depth, (n - 1) as nat);
        if unbindable(name, items[at], depth) is None {
            if let Some(trouble) = unbindable_items(name, items, depth, (n - 1) as nat) {
                let i = choose|i: int|
                    items.len() - (n - 1) <= i < items.len() && unbindable(name, #[trigger] items[i], depth) == Some(trouble)
                        && forall|j: int|
                        items.len() - (n - 1) <= j < i ==> unbindable(name, #[trigger] items[j], depth) is None;
                assert forall|j: int| items.len() - n <= j < i implies unbindable(name, #[trigger] items[j], depth) is None by {
                    if j == at {
                    }
                }
                assert(unbindable(name, items[i], depth) == Some(trouble));
            }
        } else {
            assert(unbindable(name, items[at], depth) is Some);
        }
    }
}

proof fn lemma_fields_unbound(name: Seq<char>, fields: Seq<(String, Js)>, depth: nat, n: nat)
    requires
        n <= fields.len(),
    ensures
        match unbindable_fields(name, fields, depth, n) {
            None => forall|i: int|
                fields.len() - n <= i < fields.len() ==> unbindable(name, (#[trigger] fields[i]).1, depth) is None,
            Some(trouble) => exists|i: int|
                fields.len() - n <= i < fields.len() && unbindable(name, (#[trigger] fields[i]).1, depth) == Some(trouble)
                    && forall|j: int|
                    fields.len() - n <= j < i ==> unbindable(name, (#[trigger] fields[j]).1, depth) is None,
        },
    decreases n,
{
    if n > 0 {
        let at = fields.len() - n;
        lemma_fields_unbound(name, fields, depth, (n - 1) as nat);
        if unbindable(name, fields[at].1, depth) is None {
            if let Some(trouble) = unbindable_fields(name, fields, depth, (n - 1) as nat) {
                let i = choose|i: int|
                    fields.len() - (n - 1) <= i < fields.len() && unbindable(name, (#[trigger] fields[i]).1, depth)
                        == Some(trouble) && forall|j: int|
                        fields.len() - (n - 1) <= j < i ==> unbindable(name, (#[trigger] fields[j]).1, depth) is None;
                assert forall|j: int| fields.len() - n <= j < i implies unbindable(name, (#[trigger] fields[j]).1, depth)
                    is None by {
                    if j == at {
                    }
                }
                assert(unbindable(name, fields[i].1, depth) == Some(trouble));
            }
        } else {
            assert(unbindable(name, fields[at].1, depth) is Some);
        }
    }
}

/// A value further down than sixty-four levels is refused, whatever it is. An array and a plain
/// object no deeper than that are refused when something in them is, one level down, and with the
/// words of the first that is; otherwise they bind as the list of what their elements bind as, and
/// as the record of what their properties bind as under the names they have, in the order they
/// are in.
pub proof fn law_arrays_and_objects_bind_by_what_is_in_them(name: Seq<char>, thing: Thing, bound: Value, depth: nat)
    requires
        thing.class == Ok::<Option<Class>, String>(None),
        thing.items is None ==> thing.tag == Ok::<Option<String>, String>(None),
    ensures
        depth > 64 ==> (unbindable(name, Js::Object(thing), depth) matches Some(trouble) && trouble is Refused),
        thing.items matches Some(items) ==> (depth <= 64 ==> match unbindable(name, Js::Object(thing), depth) {
            None => forall|i: int| 0 <= i < items@.len() ==> unbindable(name, #[trigger] items@[i], depth + 1) is None,
            Some(trouble) => exists|i: int|
                0 <= i < items@.len() && unbindable(name, #[trigger] items@[i], depth + 1) == Some(trouble) && forall|j: int|
                    0 <= j < i ==> unbindable(name, #[trigger] items@[j], depth + 1) is None,
        }) && (binds(bound, name, Js::Object(thing)) ==> (bound matches Value::List(list) && list@.len() == items@.len()
            && forall|i: int| 0 <= i < items@.len() ==> binds(#[trigger] list@[i], name, items@[i]))),
        thing.items is None ==> (thing.keys matches Ok(keys) ==> (depth <= 64 ==> match unbindable(
            name,
            Js::Object(thing),
            depth,
        ) {
            None => forall|i: int| 0 <= i < keys@.len() ==> unbindable(name, (#[trigger] keys@[i]).1, depth + 1) is None,
            Some(trouble) => exists|i: int|
                0 <= i < keys@.len() && unbindable(name, (#[trigger] keys@[i]).1, depth + 1) == Some(trouble) && forall|j: int|
                    0 <= j < i ==> unbindable(name, (#[trigger] keys@[j]).1, depth + 1) is None,
        }) && (binds(bound, name, Js::Object(thing)) ==> (bound matches Value::Record(list) && list@.len() == keys@.len()
            && forall|i: int|
            0 <= i < keys@.len() ==> (#[trigger] list@[i]).0@ == keys@[i].0@ && binds(list@[i].1, name, keys@[i].1)))),
        thing.items is None ==> (thing.keys matches Err(reason) ==> depth <= 64 ==> unbindable(
            name,
            Js::Object(thing),
            depth,
        ) == Some(Trouble::Boundary(reason@))),
{
    if let Some(items) = thing.items {
        lemma_items_unbound(name, items@, depth + 1, items@.len());
    } else if let Ok(keys) = thing.keys {
        lemma_fields_unbound(name, keys@, depth + 1, keys@.len());
    }
}

/// What a `Temporal` value binds as does not depend on what it was passed for.
pub proof fn lemma_moment_is_one(one: Seq<char>, other: Seq<char>, tag: Result<Option<String>, String>, fields: Fields)
    ensures
        moment_of(one, tag, fields) is Ok <==> moment_of(other, tag, fields) is Ok,
        moment_of(one, tag, fields) is Ok ==> moment_of(one, tag, fields) == moment_of(other, tag, fields),
{
}

/// A value binds in one way, whichever parameter it is bound to: two engine values one JavaScript
/// value binds as are the same value.
pub proof fn law_a_value_binds_in_one_way(one: Value, other: Value, name: Seq<char>, under: Seq<char>, value: Js)
    requires
        binds(one, name, value),
        binds(other, under, value),
    ensures
        same_value(one, other),
    decreases one,
{
    if let Js::Object(thing) = value {
        if classed(thing.class) == Ok::<Option<Temporal>, Trouble>(None) {
            lemma_moment_is_one(name, under, thing.tag, thing.fields);
            if let Some(items) = thing.items {
                let a = one->List_0;
                let b = other->List_0;
                assert forall|i: int| 0 <= i < a@.len() implies same_value(#[trigger] a@[i], b@[i]) by {
                    assert(decreases_to!(one => a@));
                    assert(decreases_to!(a@ => a@[i]));
                    assert(binds(a@[i], name, items@[i]));
                    assert(binds(b@[i], under, items@[i]));
                    law_a_value_binds_in_one_way(a@[i], b@[i], name, under, items@[i]);
                }
            } else if moment_of(name, thing.tag, thing.fields) == Ok::<Option<Temporal>, Trouble>(None) {
                let keys = thing.keys->Ok_0;
                let a = one->Record_0;
                let b = other->Record_0;
                assert forall|i: int| 0 <= i < a@.len() implies (#[trigger] a@[i]).0@ == b@[i].0@ && same_value(
                    a@[i].1,
                    b@[i].1,
                ) by {
                    assert(decreases_to!(one => a@));
                    assert(decreases_to!(a@ => a@[i]));
                    assert(decreases_to!(a@[i] => a@[i].1));
                    assert(a@[i].0@ == keys@[i].0@ && b@[i].0@ == keys@[i].0@);
                    law_a_value_binds_in_one_way(a@[i].1, b@[i].1, name, under, keys@[i].1);
                }
            }
        }
    }
}

/// The temporal classes convert to the `Temporal` value that counts what they hold, on a runtime
/// that has one, and a time with an offset to none.
pub proof fn law_classes_convert_to_what_they_hold(
    present: bool,
    value: Temporal,
    made: Result<Build, String>,
    nanos: i64,
    minutes: i16,
)
    requires
        converts(present, value, made),
    ensures
        made is Ok <==> present && !(value is ZonedTime),
        made matches Ok(build) ==> builds(value, Some(build)),
        time_of(nanos, narrowed(None)) == Temporal::LocalTime(nanos),
        time_of(nanos, narrowed(Some(minutes as i32))) == (Temporal::ZonedTime { nanos, offset: minutes }),
        timestamp_of(nanos, narrowed(None)) == Temporal::LocalDatetime(nanos),
        timestamp_of(nanos, narrowed(Some(minutes as i32))) == (Temporal::ZonedDatetime { nanos, offset: minutes }),
        (ZuDuration { kind: DurationKind::YearMonth, months: nanos, nanos: 0 }).spec_temporal() == Temporal::Duration(
            DurationKind::YearMonth,
            nanos,
        ),
        (ZuDuration { kind: DurationKind::DayTime, months: 0, nanos }).spec_temporal() == Temporal::Duration(
            DurationKind::DayTime,
            nanos,
        ),
        kind_of(DurationKind::YearMonth) == "yearMonth"@,
        kind_of(DurationKind::DayTime) == "dayTime"@,
{
}

/// There are two modes, each under its own name, and any other name is refused.
pub proof fn law_two_modes_have_names(mode: Seq<char>)
    ensures
        mode_of("bigint"@) == Ok::<_, Seq<char>>(Ints::BigInt),
        mode_of("number"@) == Ok::<_, Seq<char>>(Ints::Number),
        mode_of(mode) is Ok <==> mode == "bigint"@ || mode == "number"@,
{
    reveal_strlit("bigint");
    reveal_strlit("number");
    assert("bigint"@[0] != "number"@[0]);
}

proof fn lemma_named_items(name: Seq<char>, items: Seq<Js>, depth: nat, n: nat)
    requires
        depth <= DEEP + 1,
    ensures
        unbindable_items(name, items, depth, n) matches Some(trouble) ==> (trouble matches Trouble::Refused(words)
            ==> text::opens(words, "parameter "@ + name)),
    decreases 66 - depth, n + 1,
{
    if n > 0 && n <= items.len() {
        law_a_refused_value_is_named(name, items[items.len() - n], depth);
        lemma_named_items(name, items, depth, (n - 1) as nat);
    }
}

proof fn lemma_named_fields(name: Seq<char>, fields: Seq<(String, Js)>, depth: nat, n: nat)
    requires
        depth <= DEEP + 1,
    ensures
        unbindable_fields(name, fields, depth, n) matches Some(trouble) ==> (trouble matches Trouble::Refused(words)
            ==> text::opens(words, "parameter "@ + name)),
    decreases 66 - depth, n + 1,
{
    if n > 0 && n <= fields.len() {
        law_a_refused_value_is_named(name, fields[fields.len() - n].1, depth);
        lemma_named_fields(name, fields, depth, (n - 1) as nat);
    }
}

/// A value that is refused is refused by the name of the parameter it was passed for, however deep
/// in it what was refused stood.
pub proof fn law_a_refused_value_is_named(name: Seq<char>, value: Js, depth: nat)
    ensures
        unbindable(name, value, depth) matches Some(trouble) ==> (trouble matches Trouble::Refused(words) ==> text::opens(
            words,
            "parameter "@ + name,
        )),
    decreases 66 - depth, 0nat,
{
    let start = "parameter "@ + name;
    assert(too_deep(name).take(start.len() as int) =~= start);
    assert(too_big(name).take(start.len() as int) =~= start);
    assert(unholdable(name, value.spec_kind()).take(start.len() as int) =~= start);
    if depth <= DEEP {
        if let Js::Object(thing) = value {
            temporal::law_a_refused_moment_is_named(name, thing.tag, thing.fields);
            if let Some(items) = thing.items {
                lemma_named_items(name, items@, depth + 1, items@.len());
            }
            if let Ok(keys) = thing.keys {
                lemma_named_fields(name, keys@, depth + 1, keys@.len());
            }
        }
    }
}

/// Strings are listed one for one and in order.
pub proof fn law_strings_are_listed_in_order(held: Seq<String>, made: Made, at: int)
    requires
        shows(made, texts(held)),
    ensures
        made matches Made::List(list) && list@.len() == held.len() && (0 <= at < held.len() ==> (list@[at] matches Made::Text(
            t,
        ) && t@ == held[at]@)),
{
    let list = made->List_0;
    let each = held.map_values(|s: String| Shown::Text(s@));
    assert(texts(held) == Shown::List(each));
    if 0 <= at < held.len() {
        assert(shows(list@[at], each[at]));
    }
}

/// An integer that is refused is told of by the column it is in and by the integer it is.
pub proof fn law_a_refused_integer_is_told(column: Seq<char>, n: i64, present: bool)
    requires
        n < -9_007_199_254_740_991 || n > 9_007_199_254_740_991,
    ensures
        unspellable(column, Value::Int(n), (Spelling { ints: Ints::Number, temporal: present }), present) matches Some(words)
            && text::opens(words, "column "@ + column + " holds "@ + decimal(n as int)),
{
    let start = "column "@ + column + " holds "@ + decimal(n as int);
    assert(inexact(column, n).take(start.len() as int) =~= start);
}

} // verus!
