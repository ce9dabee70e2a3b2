//! Appending rows to a table that already exists.
//!
//! `INSERT` is the wrong shape for loading data: every row is parsed, bound, planned and
//! committed. An appender is the right shape: rows go into per-column buffers in memory,
//! and a flush turns the whole buffer into one commit.
//!
//! A row is every column of the table, in the order the table declares them, and a column
//! is a position rather than a name.
//!
//! What is buffered is a table of cells, one column vector each, and every operation here
//! keeps the columns level: a row goes in whole or not at all, a flush that was written
//! empties every column and counts what it wrote, and a flush that failed leaves every row
//! where it was.

use vstd::prelude::*;

use crate::buffer::{cell_of, lane_for, named, named_as, Cell, Column, Complaint, Field, Lane, LogicalType, Mismatch};
use crate::conn::CLOSED;
use crate::js::{Fault, Js, Thing, Trouble};
use crate::text::{self, decimal};

verus! {

/// What an appender that has already been closed says.
pub const FINISHED: &'static str = "this appender is closed, and a closed appender has already written \
     everything it was given";

/// What an appender says while a flush of its own is still running.
///
/// A flush holds the buffers for as long as the commit takes. Waiting for it here would
/// stop the event loop for the length of a write to disk, so the call is refused.
pub const BUSY: &'static str = "a flush of this appender has not finished, and its rows are not yours to \
     add to until it has: await the flush";

/// One column of the table, and what has been buffered for it.
pub struct Buffer {
    pub name: String,
    pub values: Column,
    /// The node table whose rows this column names, for the two columns of a rel table and
    /// for nothing else.
    pub ends: Option<u32>,
}

/// A column of a table, as far as what goes in it is decided by it.
pub struct Slot {
    pub name: Seq<char>,
    pub lane: Lane,
    pub ends: Option<u32>,
}

/// A row that did not go in, and why.
pub enum Refused {
    /// A sentence, which can have another one put in front of it.
    Row(String),
    /// The value could not be had, which is not this side's to word.
    Boundary(Fault),
}

/// What a [`Refused`] says.
pub enum Turned {
    Row(Seq<char>),
    Boundary(Trouble),
}

impl View for Refused {
    type V = Turned;

    open spec fn view(&self) -> Turned {
        match self {
            Refused::Row(words) => Turned::Row(words@),
            Refused::Boundary(fault) => Turned::Boundary(fault@),
        }
    }
}

/// A refusal with a sentence in front of it, for one being reported from further out than
/// it was made.
pub open spec fn opened(opening: Seq<char>, why: Turned) -> Turned {
    match why {
        Turned::Row(reason) => Turned::Row(opening + reason),
        Turned::Boundary(trouble) => Turned::Boundary(trouble),
    }
}

/// The refusal, with a sentence in front of it.
fn raised(why: Refused, opening: &str) -> (r: Refused)
    ensures
        r@ == opened(opening@, why@),
{
    match why {
        Refused::Row(reason) => Refused::Row(opening.to_owned().concat(reason.as_str())),
        Refused::Boundary(fault) => Refused::Boundary(fault),
    }
}

impl Buffer {
    /// What goes in this column is decided by its name, what it holds, and which table it
    /// names rows of.
    pub open spec fn slot(&self) -> Slot {
        Slot { name: self.name@, lane: self.values.lane(), ends: self.ends }
    }
}

/// What a value of the wrong kind is told.
pub open spec fn misfit(at: nat, named: Seq<char>, name: Seq<char>, table: Seq<char>, holds: Seq<char>) -> Seq<char> {
    "value "@ + decimal(at as int) + " of this row is "@ + named + " and column '"@ + name + "' of '"@ + table
        + "' holds "@ + holds
}

/// What a value that is wrong in itself is told.
pub open spec fn unfit(at: nat, name: Seq<char>, table: Seq<char>, reason: Seq<char>) -> Seq<char> {
    "value "@ + decimal(at as int) + " of this row does not go in column '"@ + name + "' of '"@ + table + "': "@
        + reason
}

/// What an offset below zero is told.
pub open spec fn below_zero(at: nat, offset: i64, name: Seq<char>, table: Seq<char>) -> Seq<char> {
    "value "@ + decimal(at as int) + " of this row is "@ + decimal(offset as int) + ", and column '"@ + name
        + "' of '"@ + table
        + "' holds row \
                 offsets, which count from zero"@
}

/// What a value becomes in a column of a table, or why it does not go there.
pub open spec fn taken(slot: Slot, value: Js, table: Seq<char>, at: nat) -> Result<Cell, Turned> {
    match cell_of(slot.lane, value) {
        Err(Complaint::Wanted(holds)) => Err(Turned::Row(misfit(at, named_as(value), slot.name, table, holds))),
        Err(Complaint::Says(reason)) => Err(Turned::Row(unfit(at, slot.name, table, reason))),
        Err(Complaint::Boundary(trouble)) => Err(Turned::Boundary(trouble)),
        Ok(cell) => if slot.ends is Some && (cell matches Cell::Int(offset) && offset < 0) {
            Err(Turned::Row(below_zero(at, cell->Int_0, slot.name, table)))
        } else {
            Ok(cell)
        },
    }
}

impl Buffer {
    /// One value into this column, or the reason it does not go there.
    ///
    /// The column's own name is in the message, and its position too, because a row is
    /// written by position and read by name.
    pub fn take(&mut self, value: &Js, table: &str, at: usize) -> (r: Result<(), Refused>)
        ensures
            final(self).slot() == old(self).slot(),
            match r {
                Ok(()) => taken(old(self).slot(), *value, table@, at as nat) is Ok && final(self).values.cells() == old(
                    self
                ).values.cells().push(taken(old(self).slot(), *value, table@, at as nat)->Ok_0),
                Err(why) => taken(old(self).slot(), *value, table@, at as nat) == Err::<Cell, _>(why@) && final(
                    self
                ).values.cells() == old(self).values.cells(),
            },
    {
        if let Err(why) = self.values.push(value) {
            return Err(
                match why {
                    Mismatch::Wanted(holds) => Refused::Row(
                        "value ".to_owned().concat(text::counted(at as u128).as_str()).concat(" of this row is ").concat(
                            named(value).as_str(),
                        ).concat(" and column '").concat(self.name.as_str()).concat("' of '").concat(table).concat(
                            "' holds ",
                        ).concat(holds),
                    ),
                    Mismatch::Says(reason) => Refused::Row(
                        "value ".to_owned().concat(text::counted(at as u128).as_str()).concat(
                            " of this row does not go in column '",
                        ).concat(self.name.as_str()).concat("' of '").concat(table).concat("': ").concat(
                            reason.as_str(),
                        ),
                    ),
                    Mismatch::Boundary(fault) => Refused::Boundary(fault),
                },
            );
        }
        let ghost cell = cell_of(old(self).values.lane(), *value)->Ok_0;
        proof {
            assert(self.values.cells().last() == cell);
            assert(cell is Int <==> old(self).values.lane() == Lane::Int);
        }
        // Checked after the value is read rather than before, because a `bigint` and a
        // `number` are two different ways of arriving at the same offset.
        if self.ends.is_some() {
            if let Column::Int(offsets) = &self.values {
                proof {
                    assert(self.values.cells().last() == Cell::Int(offsets@.last()));
                }
                let offset: i64 = offsets[offsets.len() - 1];
                if offset < 0 {
                    self.values.pop();
                    proof {
                        assert(self.values.cells() =~= old(self).values.cells());
                    }
                    return Err(
                        Refused::Row(
                            "value ".to_owned().concat(text::counted(at as u128).as_str()).concat(
                                " of this row is ",
                            ).concat(text::integer(offset as i128).as_str()).concat(", and column '").concat(
                                self.name.as_str(),
                            ).concat("' of '").concat(table).concat(
                                "' holds row \
                 offsets, which count from zero",
                            ),
                        ),
                    );
                }
            }
        }
        Ok(())
    }
}

/// Rows on their way into a table, buffered until they are flushed.
///
/// What is buffered is columnar and typed from the table's own columns, so a value that
/// does not belong in a column is refused by the call that appended it rather than at the
/// flush that would have carried it.
pub struct Appender {
    /// The table these rows are going into.
    pub table: String,
    /// One buffer per column of the table, in the order the table declares them.
    pub cols: Vec<Buffer>,
    /// Rows buffered and not yet written, kept beside the columns so that a table with no
    /// columns can still answer for itself.
    pub buffered: u64,
    /// Rows this appender has committed, across every flush.
    pub committed: u64,
    /// Whether it has not been closed.
    pub open: bool,
}

/// The columns of a table, as far as what goes in them is decided by them.
pub open spec fn slots(cols: Seq<Buffer>) -> Seq<Slot> {
    cols.map_values(|column: Buffer| column.slot())
}

/// Names with commas between them.
pub open spec fn joined(names: Seq<Seq<char>>) -> Seq<char>
    decreases names.len(),
{
    if names.len() == 0 {
        ""@
    } else if names.len() == 1 {
        names[0]
    } else {
        joined(names.drop_last()) + ", "@ + names.last()
    }
}

/// The names of the columns.
pub open spec fn column_names(slots: Seq<Slot>) -> Seq<Seq<char>> {
    slots.map_values(|slot: Slot| slot.name)
}

/// The columns of the table, named, for a message about a row that is the wrong shape. A
/// caller who miscounted wants to see what the count was supposed to be made of.
fn names(cols: &Vec<Buffer>) -> (r: String)
    ensures
        r@ == joined(column_names(slots(cols@))),
{
    let mut made = String::new();
    proof {
        reveal_strlit("");
        assert(made@ =~= ""@);
    }
    let mut at: usize = 0;
    while at < cols.len()
        invariant
            at <= cols@.len(),
            made@ == joined(column_names(slots(cols@)).take(at as int)),
        decreases cols@.len() - at,
    {
        let ghost all = column_names(slots(cols@));
        if at == 0 {
            made = cols[at].name.clone();
            proof {
                assert(all.take(1) =~= seq![all[0]]);
            }
        } else {
            made = made.concat(", ").concat(cols[at].name.as_str());
            proof {
                assert(all.take(at as int + 1).drop_last() =~= all.take(at as int));
            }
        }
        at += 1;
    }
    proof {
        let all = column_names(slots(cols@));
        assert(all.take(at as int) =~= all);
    }
    made
}

/// What something that is not a row is told.
pub open spec fn not_a_row(named: Seq<char>, table: Seq<char>, slots: Seq<Slot>) -> Seq<char> {
    "this row is "@ + named + ", and a row is an array of one value per column of '"@ + table + "': "@ + joined(
        column_names(slots),
    )
}

/// What a row of the wrong width is told.
pub open spec fn wrong_width(len: nat, table: Seq<char>, slots: Seq<Slot>) -> Seq<char> {
    "this row carries "@ + decimal(len as int) + " value"@ + (if len == 1 { ""@ } else { "s"@ }) + " and '"@ + table
        + "' takes "@ + decimal(slots.len() as int) + ": "@ + joined(column_names(slots))
}

/// What the first `n` values of a row become, or why the first of them that does not go in
/// does not.
pub open spec fn row_cells(slots: Seq<Slot>, table: Seq<char>, items: Seq<Js>, n: nat) -> Result<Seq<Cell>, Turned>
    decreases n,
{
    if n == 0 {
        Ok(Seq::empty())
    } else {
        match row_cells(slots, table, items, (n - 1) as nat) {
            Err(why) => Err(why),
            Ok(before) => match taken(slots[n - 1], items[n - 1], table, (n - 1) as nat) {
                Err(why) => Err(why),
                Ok(cell) => Ok(before.push(cell)),
            },
        }
    }
}

/// What a row becomes, which is one cell per column, or why it does not go in.
pub open spec fn row_of(slots: Seq<Slot>, table: Seq<char>, row: Js) -> Result<Seq<Cell>, Turned> {
    match row {
        Js::Unread(reason) => Err(Turned::Boundary(Trouble::Boundary(reason@))),
        Js::Object(thing) if thing.items is Some => {
            let items = thing.items->Some_0@;
            if items.len() != slots.len() {
                Err(Turned::Row(wrong_width(items.len(), table, slots)))
            } else {
                row_cells(slots, table, items, items.len())
            }
        },
        _ => Err(Turned::Row(not_a_row(named_as(row), table, slots))),
    }
}

/// One row across the columns.
pub open spec fn row_at(cols: Seq<Buffer>, at: int) -> Seq<Cell> {
    Seq::new(cols.len(), |c: int| cols[c].values.cells()[at])
}

impl Appender {
    /// Every column holds as many values as there are rows, so there is a row of one value
    /// per column for each of them.
    pub open spec fn wf(&self) -> bool {
        forall|c: int| 0 <= c < self.cols@.len() ==> (#[trigger] self.cols@[c]).values.cells().len() == self.buffered
    }

    /// The buffered rows, in the order they were appended.
    pub open spec fn rows(&self) -> Seq<Seq<Cell>> {
        Seq::new(self.buffered as nat, |at: int| row_at(self.cols@, at))
    }

    /// What the columns hold.
    pub open spec fn slots(&self) -> Seq<Slot> {
        slots(self.cols@)
    }

    /// An appender with nothing in it.
    pub fn new(table: String, cols: Vec<Buffer>) -> (r: Appender)
        requires
            forall|c: int| 0 <= c < cols@.len() ==> (#[trigger] cols@[c]).values.cells().len() == 0,
        ensures
            r.wf(),
            r.table@ == table@,
            r.slots() == slots(cols@),
            r.rows() == Seq::<Seq<Cell>>::empty(),
            r.committed == 0,
            r.open,
    {
        let made = Appender { table, cols, buffered: 0, committed: 0, open: true };
        proof {
            assert(made.rows() =~= Seq::<Seq<Cell>>::empty());
        }
        made
    }

    /// Takes back the values a refused row managed to write, so that a refused row is a row
    /// that never happened rather than half of one nobody can find.
    fn refuse(&mut self, written: usize, Ghost(was): Ghost<Appender>)
        requires
            was.wf(),
            old(self).table@ == was.table@,
            old(self).buffered == was.buffered,
            old(self).committed == was.committed,
            old(self).open == was.open,
            written <= old(self).cols@.len(),
            old(self).cols@.len() == was.cols@.len(),
            forall|c: int|
                0 <= c < was.cols@.len() ==> (#[trigger] old(self).cols@[c]).slot() == was.cols@[c].slot(),
            forall|c: int|
                0 <= c < written ==> (#[trigger] old(self).cols@[c]).values.cells().len() > 0 && old(
                    self
                ).cols@[c].values.cells().drop_last() == was.cols@[c].values.cells(),
            forall|c: int|
                written <= c < was.cols@.len() ==> (#[trigger] old(self).cols@[c]).values.cells()
                    == was.cols@[c].values.cells(),
        ensures
            final(self).wf(),
            final(self).table@ == was.table@,
            final(self).rows() == was.rows(),
            final(self).slots() == was.slots(),
            final(self).buffered == was.buffered,
            final(self).committed == was.committed,
            final(self).open == was.open,
    {
        let mut at: usize = 0;
        while at < written
            invariant
                was.wf(),
                self.table@ == was.table@,
                self.buffered == was.buffered,
                self.committed == was.committed,
                self.open == was.open,
                at <= written <= self.cols@.len(),
                self.cols@.len() == was.cols@.len(),
                forall|c: int| 0 <= c < was.cols@.len() ==> (#[trigger] self.cols@[c]).slot() == was.cols@[c].slot(),
                forall|c: int|
                    at <= c < written ==> (#[trigger] self.cols@[c]).values.cells().len() > 0
                        && self.cols@[c].values.cells().drop_last() == was.cols@[c].values.cells(),
                forall|c: int|
                    (0 <= c < at || written <= c < was.cols@.len()) ==> (#[trigger] self.cols@[c]).values.cells()
                        == was.cols@[c].values.cells(),
            decreases written - at,
        {
            self.cols[at].values.pop();
            at += 1;
        }
        proof {
            assert(self.slots() =~= was.slots());
            assert forall|i: int| 0 <= i < was.buffered implies self.rows()[i] == was.rows()[i] by {
                assert(row_at(self.cols@, i) =~= row_at(was.cols@, i));
            }
            assert(self.rows() =~= was.rows());
        }
    }

    /// One row into the buffers, or nothing at all.
    pub fn append(&mut self, row: &Js) -> (r: Result<(), Refused>)
        requires
            old(self).wf(),
            old(self).buffered < u64::MAX,
        ensures
            final(self).wf(),
            final(self).table@ == old(self).table@,
            final(self).slots() == old(self).slots(),
            final(self).committed == old(self).committed,
            final(self).open == old(self).open,
            match r {
                Ok(()) => row_of(old(self).slots(), old(self).table@, *row) is Ok && final(self).rows() == old(
                    self
                ).rows().push(row_of(old(self).slots(), old(self).table@, *row)->Ok_0),
                Err(why) => row_of(old(self).slots(), old(self).table@, *row) == Err::<Seq<Cell>, _>(why@) && final(
                    self
                ).rows() == old(self).rows(),
            },
    {
        let items = match row {
            Js::Unread(reason) => return Err(Refused::Boundary(Fault::Boundary(reason.clone()))),
            Js::Object(thing) => match &thing.items {
                Some(items) => Some(items),
                None => None,
            },
            _ => None,
        };
        let items: &Vec<Js> = match items {
            Some(items) => items,
            None => {
                return Err(
                    Refused::Row(
                        "this row is ".to_owned().concat(named(row).as_str()).concat(
                            ", and a row is an array of one value per column of '",
                        ).concat(self.table.as_str()).concat("': ").concat(names(&self.cols).as_str()),
                    ),
                );
            },
        };
        let len: usize = items.len();
        if len != self.cols.len() {
            return Err(
                Refused::Row(
                    "this row carries ".to_owned().concat(text::counted(len as u128).as_str()).concat(" value").concat(
                        if len == 1 { "" } else { "s" },
                    ).concat(" and '").concat(self.table.as_str()).concat("' takes ").concat(
                        text::counted(self.cols.len() as u128).as_str(),
                    ).concat(": ").concat(names(&self.cols).as_str()),
                ),
            );
        }
        let ghost was = *old(self);
        let ghost mut cells: Seq<Cell> = Seq::empty();
        let mut at: usize = 0;
        while at < len
            invariant
                was.wf(),
                was.buffered < u64::MAX,
                was == *old(self),
                *row matches Js::Object(thing) && thing.items == Some(*items),
                self.table@ == was.table@,
                self.buffered == was.buffered,
                self.committed == was.committed,
                self.open == was.open,
                at <= len,
                len == items@.len(),
                len == self.cols@.len(),
                len == was.cols@.len(),
                cells.len() == at,
                row_cells(was.slots(), was.table@, items@, at as nat) == Ok::<_, Turned>(cells),
                forall|c: int| 0 <= c < len ==> (#[trigger] self.cols@[c]).slot() == was.cols@[c].slot(),
                forall|c: int|
                    0 <= c < at ==> (#[trigger] self.cols@[c]).values.cells() == was.cols@[c].values.cells().push(
                        cells[c],
                    ),
                forall|c: int|
                    at <= c < len ==> (#[trigger] self.cols@[c]).values.cells() == was.cols@[c].values.cells(),
            decreases len - at,
        {
            let ghost slot = self.cols@[at as int].slot();
            proof {
                assert(was.slots()[at as int] == slot);
            }
            if let Err(why) = self.cols[at].take(&items[at], self.table.as_str(), at) {
                proof {
                    assert(row_cells(was.slots(), was.table@, items@, (at + 1) as nat) == Err::<Seq<Cell>, _>(why@));
                    lemma_row_stops(was.slots(), was.table@, items@, (at + 1) as nat, len as nat);
                    assert forall|c: int| 0 <= c < at implies (#[trigger] self.cols@[c]).values.cells().len() > 0
                        && self.cols@[c].values.cells().drop_last() == was.cols@[c].values.cells() by {
                        assert(self.cols@[c].values.cells().drop_last() =~= was.cols@[c].values.cells());
                    }
                }
                self.refuse(at, Ghost(was));
                return Err(why);
            }
            proof {
                cells = cells.push(taken(slot, items@[at as int], was.table@, at as nat)->Ok_0);
            }
            at += 1;
        }
        self.buffered = self.buffered + 1;
        proof {
            assert(self.slots() =~= was.slots());
            let more = was.rows().push(cells);
            assert forall|i: int| 0 <= i < self.buffered implies self.rows()[i] == more[i] by {
                assert(row_at(self.cols@, i) =~= more[i]);
            }
            assert(self.rows() =~= more);
        }
        Ok(())
    }
}

/// A row that was refused at one value is refused whatever the values after it are.
proof fn lemma_row_stops(slots: Seq<Slot>, table: Seq<char>, items: Seq<Js>, k: nat, n: nat)
    requires
        k <= n,
        row_cells(slots, table, items, k) is Err,
    ensures
        row_cells(slots, table, items, n) == row_cells(slots, table, items, k),
    decreases n,
{
    if k < n {
        lemma_row_stops(slots, table, items, k, (n - 1) as nat);
    }
}

/// Why the buffers are not to be written to, when they are not: a flush holds them, the
/// appender is closed, or the connection under it is.
///
/// The connection is checked as well as the appender, because a row appended through a
/// closed connection has nowhere to go and the buffer is the only thing that would take it.
pub open spec fn unwritable(busy: bool, open: bool, alive: bool) -> Option<Seq<char>> {
    if busy {
        Some(BUSY@)
    } else if !open {
        Some(FINISHED@)
    } else if !alive {
        Some(CLOSED@)
    } else {
        None
    }
}

/// How many of these rows go in before one is refused, out of the first `n`.
pub open spec fn good_rows(slots: Seq<Slot>, table: Seq<char>, rows: Seq<Js>, n: nat) -> nat
    decreases n,
{
    if n == 0 {
        0
    } else {
        let before = good_rows(slots, table, rows, (n - 1) as nat);
        if before == n - 1 && row_of(slots, table, rows[n - 1]) is Ok { n } else { before }
    }
}

/// What the first `n` of these rows become.
pub open spec fn rows_of(slots: Seq<Slot>, table: Seq<char>, rows: Seq<Js>, n: nat) -> Seq<Seq<Cell>> {
    Seq::new(n, |i: int| row_of(slots, table, rows[i])->Ok_0)
}

/// What a refusal of one row of a batch opens with.
pub open spec fn row_opening(at: nat) -> Seq<char> {
    "row "@ + decimal(at as int) + " of these: "@
}

/// What something that is not a batch of rows is told.
pub open spec fn not_rows(named: Seq<char>) -> Seq<char> {
    "the rows are "@ + named + ", and rows are an array of arrays, one value per column"@
}

proof fn lemma_good_stops(slots: Seq<Slot>, table: Seq<char>, rows: Seq<Js>, k: nat, n: nat)
    requires
        k < n,
        good_rows(slots, table, rows, k) == k,
        row_of(slots, table, rows[k as int]) is Err,
    ensures
        good_rows(slots, table, rows, n) == k,
    decreases n,
{
    if k + 1 < n {
        lemma_good_stops(slots, table, rows, k, (n - 1) as nat);
    }
}

impl Appender {
    /// Says why the buffers are not to be written to, when they are not.
    fn writable(&self, busy: bool, alive: bool) -> (r: Result<(), Refused>)
        ensures
            match r {
                Ok(()) => unwritable(busy, self.open, alive) is None,
                Err(why) => unwritable(busy, self.open, alive) is Some && why@ == Turned::Row(
                    unwritable(busy, self.open, alive)->Some_0,
                ),
            },
    {
        if busy {
            Err(Refused::Row(BUSY.to_owned()))
        } else if !self.open {
            Err(Refused::Row(FINISHED.to_owned()))
        } else if !alive {
            Err(Refused::Row(CLOSED.to_owned()))
        } else {
            Ok(())
        }
    }

    /// Appends one row, which is one value per column of the table, in the order the table
    /// declares them.
    ///
    /// A row of the wrong width, or with a value that does not fit the column, is refused
    /// with nothing of it kept, so the appender is still usable once the caller has fixed
    /// the row.
    pub fn append_row(&mut self, busy: bool, alive: bool, row: &Js) -> (r: Result<(), Refused>)
        requires
            old(self).wf(),
            old(self).buffered < u64::MAX,
        ensures
            final(self).wf(),
            final(self).table@ == old(self).table@,
            final(self).slots() == old(self).slots(),
            final(self).committed == old(self).committed,
            final(self).open == old(self).open,
            match unwritable(busy, old(self).open, alive) {
                Some(words) => r is Err && r->Err_0@ == Turned::Row(words) && final(self).rows() == old(self).rows(),
                None => match row_of(old(self).slots(), old(self).table@, *row) {
                    Ok(cells) => r is Ok && final(self).rows() == old(self).rows().push(cells),
                    Err(why) => r is Err && r->Err_0@ == opened(""@, why) && final(self).rows() == old(self).rows(),
                },
            },
    {
        self.writable(busy, alive)?;
        match self.append(row) {
            Ok(()) => Ok(()),
            Err(why) => Err(raised(why, "")),
        }
    }

    /// Appends every row of an array of rows, and answers how many went in.
    ///
    /// A row that is refused stops the call where it was refused and the rows before it stay
    /// buffered: nothing here is a transaction until the flush, and throwing away work the
    /// caller can keep would not make it one.
    pub fn append_rows(&mut self, busy: bool, alive: bool, rows: &Js) -> (r: Result<u64, Refused>)
        requires
            old(self).wf(),
            *rows matches Js::Object(thing) ==> (thing.items matches Some(items) ==> old(self).buffered + items@.len()
                <= u64::MAX),
        ensures
            final(self).wf(),
            final(self).table@ == old(self).table@,
            final(self).slots() == old(self).slots(),
            final(self).committed == old(self).committed,
            final(self).open == old(self).open,
            match unwritable(busy, old(self).open, alive) {
                Some(words) => r is Err && r->Err_0@ == Turned::Row(words) && final(self).rows() == old(self).rows(),
                None => match *rows {
                    Js::Unread(reason) => r is Err && r->Err_0@ == Turned::Boundary(Trouble::Boundary(reason@))
                        && final(self).rows() == old(self).rows(),
                    Js::Object(thing) if thing.items is Some => {
                        let items = thing.items->Some_0@;
                        let good = good_rows(old(self).slots(), old(self).table@, items, items.len());
                        &&& final(self).rows() == old(self).rows() + rows_of(
                            old(self).slots(),
                            old(self).table@,
                            items,
                            good,
                        )
                        &&& good == items.len() ==> r == Ok::<u64, Refused>(items.len() as u64)
                        &&& good < items.len() ==> r is Err && r->Err_0@ == opened(
                            row_opening(good),
                            row_of(old(self).slots(), old(self).table@, items[good as int])->Err_0,
                        )
                    },
                    _ => r is Err && r->Err_0@ == Turned::Row(not_rows(named_as(*rows))) && final(self).rows() == old(
                        self
                    ).rows(),
                },
            },
    {
        self.writable(busy, alive)?;
        let items = match rows {
            Js::Unread(reason) => return Err(Refused::Boundary(Fault::Boundary(reason.clone()))),
            Js::Object(thing) => match &thing.items {
                Some(items) => Some(items),
                None => None,
            },
            _ => None,
        };
        let items: &Vec<Js> = match items {
            Some(items) => items,
            None => {
                return Err(
                    Refused::Row(
                        "the rows are ".to_owned().concat(named(rows).as_str()).concat(
                            ", and rows are an array of arrays, one value per column",
                        ),
                    ),
                );
            },
        };
        let ghost was = *old(self);
        proof {
            assert(self.rows() =~= was.rows() + rows_of(was.slots(), was.table@, items@, 0));
        }
        let mut at: usize = 0;
        while at < items.len()
            invariant
                was == *old(self),
                was.wf(),
                was.buffered + items@.len() <= u64::MAX,
                *rows matches Js::Object(thing) && thing.items == Some(*items),
                unwritable(busy, was.open, alive) is None,
                at <= items@.len(),
                self.wf(),
                self.table@ == was.table@,
                self.slots() == was.slots(),
                self.committed == was.committed,
                self.open == was.open,
                self.buffered == was.buffered + at,
                good_rows(was.slots(), was.table@, items@, at as nat) == at,
                self.rows() == was.rows() + rows_of(was.slots(), was.table@, items@, at as nat),
            decreases items@.len() - at,
        {
            let ghost before = self.rows();
            if let Err(why) = self.append(&items[at]) {
                proof {
                    lemma_good_stops(was.slots(), was.table@, items@, at as nat, items@.len());
                }
                // The index is what a caller needs and the only thing this call knows that
                // the row itself does not.
                return Err(
                    raised(
                        why,
                        "row ".to_owned().concat(text::counted(at as u128).as_str()).concat(" of these: ").as_str(),
                    ),
                );
            }
            proof {
                assert(self.rows().len() == before.len() + 1);
                assert(self.rows() =~= was.rows() + rows_of(was.slots(), was.table@, items@, (at + 1) as nat));
            }
            at += 1;
        }
        Ok(items.len() as u64)
    }

    /// Empties the buffers and answers how many rows were dropped.
    fn empty(&mut self) -> (r: u64)
        requires
            old(self).wf(),
        ensures
            final(self).wf(),
            final(self).table@ == old(self).table@,
            final(self).slots() == old(self).slots(),
            final(self).rows() == Seq::<Seq<Cell>>::empty(),
            final(self).committed == old(self).committed,
            final(self).open == old(self).open,
            r == old(self).buffered,
    {
        let ghost was = *old(self);
        let mut at: usize = 0;
        while at < self.cols.len()
            invariant
                at <= self.cols@.len(),
                self.cols@.len() == was.cols@.len(),
                self.table@ == was.table@,
                self.buffered == was.buffered,
                self.committed == was.committed,
                self.open == was.open,
                forall|c: int| 0 <= c < was.cols@.len() ==> (#[trigger] self.cols@[c]).slot() == was.cols@[c].slot(),
                forall|c: int| 0 <= c < at ==> (#[trigger] self.cols@[c]).values.cells().len() == 0,
            decreases self.cols@.len() - at,
        {
            self.cols[at].values.clear();
            at += 1;
        }
        let dropped: u64 = self.buffered;
        self.buffered = 0;
        proof {
            assert(self.slots() =~= was.slots());
            assert(self.rows() =~= Seq::<Seq<Cell>>::empty());
        }
        dropped
    }

    /// Throws away what is buffered and answers how many rows that was.
    ///
    /// Rows an earlier flush committed are committed, and this does not reach them.
    pub fn discard(&mut self, busy: bool, alive: bool) -> (r: Result<u64, Refused>)
        requires
            old(self).wf(),
        ensures
            final(self).wf(),
            final(self).table@ == old(self).table@,
            final(self).slots() == old(self).slots(),
            final(self).committed == old(self).committed,
            final(self).open == old(self).open,
            match unwritable(busy, old(self).open, alive) {
                Some(words) => r is Err && r->Err_0@ == Turned::Row(words) && final(self).rows() == old(self).rows(),
                None => r == Ok::<u64, Refused>(old(self).rows().len() as u64) && final(self).rows() == Seq::<
                    Seq<Cell>,
                >::empty(),
            },
    {
        self.writable(busy, alive)?;
        Ok(self.empty())
    }
}

/// What a flush does next.
pub enum Flush {
    /// There is nothing to write, and this is how many rows have been committed in all.
    Answered(u64),
    /// There is nowhere to write.
    Refused(String),
    /// This many rows are to be written, as one commit.
    Write(u64),
}

/// The claim a flush takes on the appender, or why it is not given one.
///
/// A second flush issued before the first has answered is refused rather than queued behind
/// it: two commits of the same buffer would be two writes whose order nobody chose. Only the
/// task that took the claim gives it back.
pub fn claim(busy: bool) -> (r: Result<(), String>)
    ensures
        r is Err <==> busy,
        r matches Err(words) ==> words@ == BUSY@,
{
    if busy {
        Err(BUSY.to_owned())
    } else {
        Ok(())
    }
}

impl Appender {
    /// What flushing what is buffered takes, and closing when this is the last flush.
    ///
    /// A close of a closed appender writes nothing and says nothing, which is what makes an
    /// early close and an `await using` work together. A flush is a caller asking for a
    /// write and is owed the answer that there is nowhere to write it. A flush with nothing
    /// buffered touches no file.
    pub fn flush(&mut self, closing: bool) -> (r: Flush)
        requires
            old(self).wf(),
        ensures
            final(self).wf(),
            final(self).table@ == old(self).table@,
            final(self).slots() == old(self).slots(),
            final(self).rows() == old(self).rows(),
            final(self).committed == old(self).committed,
            final(self).open == (old(self).open && !(closing && old(self).rows().len() == 0)),
            if !old(self).open {
                if closing {
                    r == Flush::Answered(old(self).committed)
                } else {
                    r matches Flush::Refused(words) && words@ == FINISHED@
                }
            } else if old(self).rows().len() == 0 {
                r == Flush::Answered(old(self).committed)
            } else {
                r == Flush::Write(old(self).rows().len() as u64)
            },
    {
        if !self.open {
            return if closing {
                Flush::Answered(self.committed)
            } else {
                Flush::Refused(FINISHED.to_owned())
            };
        }
        if self.buffered == 0 {
            if closing {
                self.open = false;
            }
            return Flush::Answered(self.committed);
        }
        Flush::Write(self.buffered)
    }

    /// The rows were written, so they are no longer buffered and they are counted, and the
    /// appender is closed when this was the last flush. Answers how many rows have been
    /// committed in all.
    ///
    /// A flush that was not written is not followed by this, so its rows stay where they
    /// are to be looked at and tried again.
    pub fn flushed(&mut self, closing: bool) -> (r: u64)
        requires
            old(self).wf(),
            old(self).committed + old(self).rows().len() <= u64::MAX,
        ensures
            final(self).wf(),
            final(self).table@ == old(self).table@,
            final(self).slots() == old(self).slots(),
            final(self).rows() == Seq::<Seq<Cell>>::empty(),
            final(self).committed == old(self).committed + old(self).rows().len(),
            final(self).open == (old(self).open && !closing),
            r == final(self).committed,
    {
        let rows: u64 = self.empty();
        self.committed = self.committed + rows;
        if closing {
            self.open = false;
        }
        self.committed
    }

    /// One buffered row, a field per column, as the engine's appender takes it.
    pub fn row(&self, at: usize) -> (r: Vec<Field<'_>>)
        requires
            self.wf(),
            at < self.rows().len(),
        ensures
            r@.map_values(|field: Field<'_>| field.cell()) == self.rows()[at as int],
    {
        let mut made: Vec<Field<'_>> = Vec::new();
        let mut c: usize = 0;
        while c < self.cols.len()
            invariant
                self.wf(),
                at < self.rows().len(),
                c <= self.cols@.len(),
                made@.len() == c,
                forall|i: int| 0 <= i < c ==> (#[trigger] made@[i]).cell() == self.cols@[i].values.cells()[at as int],
            decreases self.cols@.len() - c,
        {
            made.push(self.cols[c].values.field(at));
            c += 1;
        }
        proof {
            assert(made@.map_values(|field: Field<'_>| field.cell()) =~= self.rows()[at as int]);
        }
        made
    }

    /// Rows buffered and not yet written.
    pub fn buffered(&self) -> (r: u64)
        ensures
            r == self.rows().len(),
    {
        self.buffered
    }

    /// Rows this appender has committed, across every flush.
    pub fn committed(&self) -> (r: u64)
        ensures
            r == self.committed,
    {
        self.committed
    }

    /// Whether this appender has been closed.
    pub fn closed(&self) -> (r: bool)
        ensures
            r == !self.open,
    {
        !self.open
    }

    /// The table these rows are going into.
    pub fn table(&self) -> (r: String)
        ensures
            r@ == self.table@,
    {
        self.table.clone()
    }
}

/// What a row the engine refused is reported as, which is with the part only this side
/// knows: which row of the batch it was.
pub open spec fn batch_row(at: nat, reason: Seq<char>) -> Seq<char> {
    "row "@ + decimal(at as int) + " of this batch: "@ + reason
}

/// Puts which row of the batch it was in front of what the engine said of it.
pub fn in_batch(at: usize, reason: &str) -> (r: String)
    ensures
        r@ == batch_row(at as nat, reason@),
{
    "row ".to_owned().concat(text::counted(at as u128).as_str()).concat(" of this batch: ").concat(reason)
}

/// A node table of the catalog, and how many rows it has.
pub struct NodeTable {
    pub id: u32,
    pub name: String,
    pub count: u64,
}

/// Where the first table with this id is, among the tables from `at` on.
pub open spec fn table_from(nodes: Seq<NodeTable>, id: u32, at: int) -> Option<int>
    decreases nodes.len() - at,
{
    if at < 0 || at >= nodes.len() {
        None
    } else if nodes[at].id == id {
        Some(at)
    } else {
        table_from(nodes, id, at + 1)
    }
}

fn find(nodes: &Vec<NodeTable>, id: u32) -> (r: Option<usize>)
    ensures
        match r {
            Some(at) => at < nodes@.len() && table_from(nodes@, id, 0) == Some(at as int),
            None => table_from(nodes@, id, 0) is None,
        },
{
    let mut at: usize = 0;
    while at < nodes.len()
        invariant
            at <= nodes@.len(),
            table_from(nodes@, id, 0) == table_from(nodes@, id, at as int),
        decreases nodes@.len() - at,
    {
        if nodes[at].id == id {
            return Some(at);
        }
        at += 1;
    }
    None
}

/// Whether the edge at a row joins a row that is not there, in one of the columns.
pub open spec fn stray(cols: Seq<Buffer>, nodes: Seq<NodeTable>, c: int, at: int) -> bool {
    &&& cols[c].ends matches Some(end)
    &&& table_from(nodes, end, 0) matches Some(k)
    &&& cols[c].values.cells()[at] matches Cell::Int(offset)
    &&& offset as u64 >= nodes[k].count
}

/// What an edge to a row that is not there is told.
pub open spec fn strays(cols: Seq<Buffer>, nodes: Seq<NodeTable>, c: int, at: int) -> Seq<char> {
    let node = nodes[table_from(nodes, cols[c].ends->Some_0, 0)->Some_0];
    "row "@ + decimal(at) + " of this batch joins row "@ + decimal(cols[c].values.cells()[at]->Int_0 as int) + " of '"@
        + node.name@ + "', which has "@ + decimal(node.count as int)
        + " rows \
                         in it, so the rows an edge joins have to be written before the edge is"@
}

/// Whether one place in the columns comes before another, going down one column after
/// another.
pub open spec fn earlier(c1: int, at1: int, c2: int, at2: int) -> bool {
    c1 < c2 || (c1 == c2 && at1 < at2)
}

impl Appender {
    /// Whether these columns name rows of other tables, which is whether the row counts of
    /// those tables have to be had before a flush.
    pub fn joins(&self) -> (r: bool)
        ensures
            r == exists|c: int| 0 <= c < self.cols@.len() && (#[trigger] self.cols@[c]).ends is Some,
    {
        let mut c: usize = 0;
        while c < self.cols.len()
            invariant
                c <= self.cols@.len(),
                forall|i: int| 0 <= i < c ==> (#[trigger] self.cols@[i]).ends is None,
            decreases self.cols@.len() - c,
        {
            if self.cols[c].ends.is_some() {
                return true;
            }
            c += 1;
        }
        false
    }

    /// Every edge joins two rows that are there, checked against the row counts as they
    /// stand at the flush.
    ///
    /// This is the flush's own check and not the engine's, because the engine's comes after
    /// the write is durable. Caught here, the batch is refused and the file is untouched.
    pub fn reachable(&self, nodes: &Vec<NodeTable>) -> (r: Result<(), String>)
        requires
            self.wf(),
        ensures
            match r {
                Ok(()) => forall|c: int, at: int|
                    0 <= c < self.cols@.len() && 0 <= at < self.rows().len() ==> !#[trigger] stray(
                        self.cols@,
                        nodes@,
                        c,
                        at,
                    ),
                Err(words) => exists|c: int, at: int|
                    0 <= c < self.cols@.len() && 0 <= at < self.rows().len() && #[trigger] stray(
                        self.cols@,
                        nodes@,
                        c,
                        at,
                    ) && words@ == strays(self.cols@, nodes@, c, at) && forall|c1: int, at1: int|
                        0 <= c1 < self.cols@.len() && 0 <= at1 < self.rows().len() && earlier(c1, at1, c, at)
                            ==> !#[trigger] stray(self.cols@, nodes@, c1, at1),
            },
    {
        let mut c: usize = 0;
        while c < self.cols.len()
            invariant
                self.wf(),
                c <= self.cols@.len(),
                forall|c1: int, at1: int|
                    0 <= c1 < c && 0 <= at1 < self.buffered ==> !#[trigger] stray(self.cols@, nodes@, c1, at1),
            decreases self.cols@.len() - c,
        {
            let column: &Buffer = &self.cols[c];
            if let Some(end) = column.ends {
                if let Some(k) = find(nodes, end) {
                    let len: usize = column.values.len();
                    let mut at: usize = 0;
                    while at < len
                        invariant
                            self.wf(),
                            c < self.cols@.len(),
                            *column == self.cols@[c as int],
                            column.ends == Some(end),
                            k < nodes@.len(),
                            table_from(nodes@, end, 0) == Some(k as int),
                            at <= len,
                            len == self.buffered,
                            forall|c1: int, at1: int|
                                0 <= c1 < c && 0 <= at1 < self.buffered ==> !#[trigger] stray(
                                    self.cols@,
                                    nodes@,
                                    c1,
                                    at1,
                                ),
                            forall|at1: int| 0 <= at1 < at ==> !#[trigger] stray(self.cols@, nodes@, c as int, at1),
                        decreases len - at,
                    {
                        if let Field::Int(offset) = column.values.field(at) {
                            if offset as u64 >= nodes[k].count {
                                proof {
                                    assert(stray(self.cols@, nodes@, c as int, at as int));
                                }
                                return Err(
                                    "row ".to_owned().concat(text::counted(at as u128).as_str()).concat(
                                        " of this batch joins row ",
                                    ).concat(text::integer(offset as i128).as_str()).concat(" of '").concat(
                                        nodes[k].name.as_str(),
                                    ).concat("', which has ").concat(
                                        text::counted(nodes[k].count as u128).as_str(),
                                    ).concat(
                                        " rows \
                         in it, so the rows an edge joins have to be written before the edge is",
                                    ),
                                );
                            }
                        }
                        at += 1;
                    }
                }
            }
            c += 1;
        }
        Ok(())
    }
}

/// A column of a node table, as its property store declares it.
pub struct Declared {
    pub name: String,
    pub ty: LogicalType,
    /// What the type is called.
    pub printed: String,
}

/// What a table nothing declares is told.
pub open spec fn no_table(table: Seq<char>) -> Seq<char> {
    "there is no table '"@ + table
        + "' in this database, and an appender writes into a \
                 table that is already there"@
}

/// What a table with nothing in it is told.
pub open spec fn no_properties(table: Seq<char>) -> Seq<char> {
    "'"@ + table + "' stores no properties, so it has no columns to append to"@
}

/// What a column of a type the ingest cannot carry is told.
pub open spec fn no_lane(table: Seq<char>, column: Declared) -> Seq<char> {
    "column '"@ + column.name@ + "' of '"@ + table + "' holds "@ + column.printed@
        + ", which this client cannot yet \
                         append to"@
}

/// What an end of an edge is called: after the table it runs to, or after nothing when the
/// catalog has no such table.
pub open spec fn end_name(opening: Seq<char>, nodes: Seq<NodeTable>, id: u32, fallback: Seq<char>) -> Seq<char> {
    opening + match table_from(nodes, id, 0) {
        Some(at) => nodes[at].name@,
        None => fallback,
    }
}

/// What the first `n` columns a store declares hold, or the first of them nothing here can
/// append to.
pub open spec fn declared_slots(table: Seq<char>, columns: Seq<Declared>, n: nat) -> Result<Seq<Slot>, Seq<char>>
    decreases n,
{
    if n == 0 {
        Ok(Seq::empty())
    } else {
        match declared_slots(table, columns, (n - 1) as nat) {
            Err(words) => Err(words),
            Ok(before) => match lane_for(columns[n - 1].ty) {
                None => Err(no_lane(table, columns[n - 1])),
                Some(lane) => Ok(before.push(Slot { name: columns[n - 1].name@, lane, ends: None })),
            },
        }
    }
}

/// The columns of a table, in the order it declares them, or why it has none to append to.
///
/// A node table's columns are the ones the property store holds. A rel table has no property
/// columns: a row of one is the two ends of an edge, as offsets into the tables it runs
/// between, so those are the two columns and they are named for what they are.
pub open spec fn shape_of(
    table: Seq<char>,
    rel: Option<(u32, u32)>,
    nodes: Seq<NodeTable>,
    node: Option<Option<Vec<Declared>>>,
) -> Result<Seq<Slot>, Seq<char>> {
    match rel {
        Some((from, to)) => Ok(
            seq![
                Slot { name: end_name("from "@, nodes, from, "the source table"@), lane: Lane::Int, ends: Some(from) },
                Slot { name: end_name("to "@, nodes, to, "the destination table"@), lane: Lane::Int, ends: Some(to) },
            ],
        ),
        None => match node {
            None => Err(no_table(table)),
            Some(None) => Err(no_properties(table)),
            Some(Some(columns)) => declared_slots(table, columns@, columns@.len()),
        },
    }
}

fn end(opening: &str, nodes: &Vec<NodeTable>, id: u32, fallback: &str) -> (r: Buffer)
    ensures
        r.slot() == (Slot {
            name: end_name(opening@, nodes@, id, fallback@),
            lane: Lane::Int,
            ends: Some(id),
        }),
        r.values.cells().len() == 0,
{
    let name = match find(nodes, id) {
        Some(at) => opening.to_owned().concat(nodes[at].name.as_str()),
        None => opening.to_owned().concat(fallback),
    };
    Buffer { name, values: Column::empty(Lane::Int), ends: Some(id) }
}

proof fn lemma_declared_stops(table: Seq<char>, columns: Seq<Declared>, k: nat, n: nat)
    requires
        k <= n,
        declared_slots(table, columns, k) is Err,
    ensures
        declared_slots(table, columns, n) == declared_slots(table, columns, k),
    decreases n,
{
    if k < n {
        lemma_declared_stops(table, columns, k, (n - 1) as nat);
    }
}

/// The columns of the table an appender was opened on, in the order it declares them.
///
/// `rel` is the two tables a rel table of this name runs between, `nodes` is every node table
/// there is, and `node` is what a node table of this name stores, when there is one. A rel
/// table of the name is the one that is meant when there are both.
pub fn shape(
    table: &str,
    rel: Option<(u32, u32)>,
    nodes: &Vec<NodeTable>,
    node: &Option<Option<Vec<Declared>>>,
) -> (r: Result<Vec<Buffer>, String>)
    ensures
        match shape_of(table@, rel, nodes@, *node) {
            Ok(found) => r is Ok && slots(r->Ok_0@) == found && forall|c: int|
                0 <= c < r->Ok_0@.len() ==> (#[trigger] r->Ok_0@[c]).values.cells().len() == 0,
            Err(words) => r is Err && r->Err_0@ == words,
        },
{
    if let Some((from, to)) = rel {
        let mut made: Vec<Buffer> = Vec::new();
        made.push(end("from ", nodes, from, "the source table"));
        made.push(end("to ", nodes, to, "the destination table"));
        proof {
            assert(slots(made@) =~= shape_of(table@, rel, nodes@, *node)->Ok_0);
        }
        return Ok(made);
    }
    let columns: &Vec<Declared> = match node {
        None => {
            return Err(
                "there is no table '".to_owned().concat(table).concat(
                    "' in this database, and an appender writes into a \
                 table that is already there",
                ),
            );
        },
        Some(None) => {
            return Err(
                "'".to_owned().concat(table).concat("' stores no properties, so it has no columns to append to"),
            );
        },
        Some(Some(columns)) => columns,
    };
    let mut made: Vec<Buffer> = Vec::new();
    let mut at: usize = 0;
    proof {
        assert(slots(made@) =~= Seq::<Slot>::empty());
    }
    while at < columns.len()
        invariant
            rel is None,
            *node == Some(Some(*columns)),
            at <= columns@.len(),
            made@.len() == at,
            declared_slots(table@, columns@, at as nat) == Ok::<_, Seq<char>>(slots(made@)),
            forall|c: int| 0 <= c < made@.len() ==> (#[trigger] made@[c]).values.cells().len() == 0,
        decreases columns@.len() - at,
    {
        let ghost before = slots(made@);
        match Column::for_type(&columns[at].ty) {
            Some(values) => {
                made.push(Buffer { name: columns[at].name.clone(), values, ends: None });
                proof {
                    assert(slots(made@) =~= before.push(
                        Slot { name: columns@[at as int].name@, lane: values.lane(), ends: None },
                    ));
                }
            },
            None => {
                proof {
                    lemma_declared_stops(table@, columns@, (at + 1) as nat, columns@.len());
                }
                return Err(
                    "column '".to_owned().concat(columns[at].name.as_str()).concat("' of '").concat(table).concat(
                        "' holds ",
                    ).concat(columns[at].printed.as_str()).concat(
                        ", which this client cannot yet \
                         append to",
                    ),
                );
            },
        }
        at += 1;
    }
    Ok(made)
}

proof fn lemma_row_each(slots: Seq<Slot>, table: Seq<char>, items: Seq<Js>, n: nat)
    requires
        n <= items.len(),
        n <= slots.len(),
    ensures
        match row_cells(slots, table, items, n) {
            Ok(cells) => cells.len() == n && forall|c: int|
                0 <= c < n ==> taken(slots[c], items[c], table, c as nat) == Ok::<_, Turned>(#[trigger] cells[c]),
            Err(why) => exists|c: int|
                0 <= c < n && #[trigger] taken(slots[c], items[c], table, c as nat) == Err::<Cell, _>(why) && forall|b: int|
                    0 <= b < c ==> #[trigger] taken(slots[b], items[b], table, b as nat) is Ok,
        },
    decreases n,
{
    if n > 0 {
        lemma_row_each(slots, table, items, (n - 1) as nat);
        if let Ok(before) = row_cells(slots, table, items, (n - 1) as nat) {
            let last = taken(slots[n - 1], items[n - 1], table, (n - 1) as nat);
            assert forall|b: int| 0 <= b < n - 1 implies #[trigger] taken(slots[b], items[b], table, b as nat) is Ok by {
                assert(taken(slots[b], items[b], table, b as nat) == Ok::<_, Turned>(before[b]));
            }
            if let Err(why) = last {
                assert(taken(slots[n - 1], items[n - 1], table, (n - 1) as nat) == Err::<Cell, _>(why));
            }
        }
    }
}

/// A row goes in as the values it is of, one per column and each in its own: the cell of a column is
/// what that column makes of the value at its place. A row goes in exactly when it is as wide as
/// the table, every column takes its value and no end of an edge is below zero.
pub proof fn law_a_row_is_its_values(slots: Seq<Slot>, table: Seq<char>, thing: Thing, items: Seq<Js>)
    requires
        thing.items matches Some(held) && held@ == items,
    ensures
        row_of(slots, table, Js::Object(thing)) is Ok <==> items.len() == slots.len() && forall|c: int|
            0 <= c < items.len() ==> (cell_of(slots[c].lane, #[trigger] items[c]) matches Ok(cell) && (slots[c].ends is Some
                ==> (cell matches Cell::Int(offset) ==> offset >= 0))),
        row_of(slots, table, Js::Object(thing)) matches Ok(cells) ==> cells.len() == slots.len() && forall|c: int|
            0 <= c < cells.len() ==> cell_of(slots[c].lane, items[c]) == Ok::<_, Complaint>(#[trigger] cells[c]),
{
    if items.len() == slots.len() {
        lemma_row_each(slots, table, items, items.len());
        if let Ok(cells) = row_cells(slots, table, items, items.len()) {
            assert forall|c: int| 0 <= c < items.len() implies (cell_of(slots[c].lane, #[trigger] items[c]) matches Ok(cell)
                && (slots[c].ends is Some ==> (cell matches Cell::Int(offset) ==> offset >= 0))) by {
                assert(taken(slots[c], items[c], table, c as nat) == Ok::<_, Turned>(cells[c]));
            }
        } else {
            let why = row_cells(slots, table, items, items.len())->Err_0;
            let c = choose|c: int|
                0 <= c < items.len() && #[trigger] taken(slots[c], items[c], table, c as nat) == Err::<Cell, _>(why)
                    && forall|b: int| 0 <= b < c ==> #[trigger] taken(slots[b], items[b], table, b as nat) is Ok;
            assert(taken(slots[c], items[c], table, c as nat) is Err);
        }
    }
}

/// What is not an array is no row.
pub proof fn law_a_row_is_an_array(slots: Seq<Slot>, table: Seq<char>, row: Js)
    ensures
        row_of(slots, table, row) is Ok ==> (row matches Js::Object(thing) && thing.items is Some),
{
}

/// The buffered rows are the columns read across: the value of a row at a column is the value of the
/// column at the row.
pub proof fn law_rows_are_the_columns_across(appender: Appender, at: int, c: int)
    requires
        0 <= at < appender.rows().len(),
        0 <= c < appender.cols@.len(),
    ensures
        appender.rows().len() == appender.buffered,
        appender.rows()[at].len() == appender.cols@.len(),
        appender.rows()[at][c] == appender.cols@[c].values.cells()[at],
        appender.slots().len() == appender.cols@.len(),
        appender.slots()[c].name == appender.cols@[c].name@,
        appender.slots()[c].lane == appender.cols@[c].values.lane(),
        appender.slots()[c].ends == appender.cols@[c].ends,
{
}

/// Of a batch, the rows before the first that does not go in are the ones that do, each as it would
/// go in alone, and all of them go in when there is none.
pub proof fn law_a_batch_goes_in_up_to_the_first_bad_row(slots: Seq<Slot>, table: Seq<char>, rows: Seq<Js>, n: nat)
    requires
        n <= rows.len(),
    ensures
        good_rows(slots, table, rows, n) <= n,
        forall|i: int| 0 <= i < good_rows(slots, table, rows, n) ==> row_of(slots, table, #[trigger] rows[i]) is Ok,
        good_rows(slots, table, rows, n) < n ==> row_of(slots, table, rows[good_rows(slots, table, rows, n) as int]) is Err,
        rows_of(slots, table, rows, good_rows(slots, table, rows, n)).len() == good_rows(slots, table, rows, n),
        forall|i: int|
            0 <= i < good_rows(slots, table, rows, n) ==> row_of(slots, table, rows[i]) == Ok::<_, Turned>(
                #[trigger] rows_of(slots, table, rows, good_rows(slots, table, rows, n))[i],
            ),
    decreases n,
{
    if n > 0 {
        law_a_batch_goes_in_up_to_the_first_bad_row(slots, table, rows, (n - 1) as nat);
    }
}

/// The buffers are written to exactly when no flush is running, the appender is open and so is the
/// connection.
pub proof fn law_buffers_are_written_while_open(busy: bool, open: bool, alive: bool)
    ensures
        unwritable(busy, open, alive) is None <==> !busy && open && alive,
{
}

proof fn lemma_first_table(nodes: Seq<NodeTable>, id: u32, at: int)
    requires
        0 <= at <= nodes.len(),
    ensures
        match table_from(nodes, id, at) {
            Some(k) => at <= k < nodes.len() && nodes[k].id == id && forall|i: int| at <= i < k ==> (#[trigger] nodes[i]).id != id,
            None => forall|i: int| at <= i < nodes.len() ==> (#[trigger] nodes[i]).id != id,
        },
    decreases nodes.len() - at,
{
    if at < nodes.len() {
        lemma_first_table(nodes, id, at + 1);
    }
}

/// An edge is astray exactly when an end of it that a table is known for is not one of the rows of
/// that table.
pub proof fn law_an_edge_is_astray_off_its_table(cols: Seq<Buffer>, nodes: Seq<NodeTable>, c: int, at: int, k: int, offset: i64)
    requires
        0 <= k < nodes.len(),
        cols[c].ends == Some(nodes[k].id),
        forall|i: int| 0 <= i < k ==> (#[trigger] nodes[i]).id != nodes[k].id,
        cols[c].values.cells()[at] == Cell::Int(offset),
        offset >= 0,
    ensures
        stray(cols, nodes, c, at) <==> offset >= nodes[k].count,
{
    lemma_first_table(nodes, nodes[k].id, 0);
}

/// An edge table has two columns, of row offsets: the first names rows of the table the edges run
/// from and the second rows of the table they run to, each by that table's own name.
pub proof fn law_an_edge_table_has_two_ends(
    table: Seq<char>,
    from: u32,
    to: u32,
    nodes: Seq<NodeTable>,
    node: Option<Option<Vec<Declared>>>,
    source: int,
    target: int,
)
    requires
        0 <= source < nodes.len(),
        nodes[source].id == from,
        forall|i: int| 0 <= i < source ==> (#[trigger] nodes[i]).id != from,
        0 <= target < nodes.len(),
        nodes[target].id == to,
        forall|i: int| 0 <= i < target ==> (#[trigger] nodes[i]).id != to,
    ensures
        shape_of(table, Some((from, to)), nodes, node) matches Ok(slots) && slots.len() == 2 && slots[0].ends == Some(from)
            && slots[1].ends == Some(to) && slots[0].lane is Int && slots[1].lane is Int && slots[0].name == "from "@
            + nodes[source].name@ && slots[1].name == "to "@ + nodes[target].name@,
{
    lemma_first_table(nodes, from, 0);
    lemma_first_table(nodes, to, 0);
}

proof fn lemma_declared_each(table: Seq<char>, columns: Seq<Declared>, n: nat)
    requires
        n <= columns.len(),
    ensures
        declared_slots(table, columns, n) is Ok <==> forall|i: int|
            0 <= i < n ==> lane_for((#[trigger] columns[i]).ty) is Some,
        declared_slots(table, columns, n) matches Ok(slots) ==> slots.len() == n && forall|i: int|
            0 <= i < n ==> (#[trigger] slots[i]).name == columns[i].name@ && lane_for(columns[i].ty) == Some(slots[i].lane)
                && slots[i].ends is None,
    decreases n,
{
    if n > 0 {
        lemma_declared_each(table, columns, (n - 1) as nat);
    }
}

/// A node table has the columns it declares, in the order it declares them, each under its own name
/// and of the lane of its own type; and it has none to append to exactly when it stores nothing or
/// one of them is of a type no lane is for.
pub proof fn law_a_node_table_has_its_columns(
    table: Seq<char>,
    nodes: Seq<NodeTable>,
    columns: Vec<Declared>,
    at: int,
)
    requires
        0 <= at < columns@.len(),
    ensures
        shape_of(table, None, nodes, None) is Err,
        shape_of(table, None, nodes, Some(None)) is Err,
        shape_of(table, None, nodes, Some(Some(columns))) is Ok <==> forall|i: int|
            0 <= i < columns@.len() ==> lane_for((#[trigger] columns@[i]).ty) is Some,
        shape_of(table, None, nodes, Some(Some(columns))) matches Ok(slots) ==> slots.len() == columns@.len() && slots[at].name
            == columns@[at].name@ && lane_for(columns@[at].ty) == Some(slots[at].lane) && slots[at].ends is None,
{
    lemma_declared_each(table, columns@, columns@.len());
}

/// A value that is refused is told of by its place in the row, and by the column and the table it was
/// for; a sentence put in front of a refusal leaves it as it was after it.
pub proof fn law_a_refused_value_is_told_of(
    at: nat,
    named: Seq<char>,
    name: Seq<char>,
    table: Seq<char>,
    holds: Seq<char>,
    offset: i64,
    opening: Seq<char>,
    reason: Seq<char>,
)
    ensures
        text::opens(misfit(at, named, name, table, holds), "value "@ + decimal(at as int) + " of this row is "@ + named),
        text::opens(unfit(at, name, table, reason), "value "@ + decimal(at as int)),
        text::opens(
            below_zero(at, offset, name, table),
            "value "@ + decimal(at as int) + " of this row is "@ + decimal(offset as int),
        ),
        opened(opening, Turned::Row(reason)) == Turned::Row(opening + reason),
{
    let start = "value "@ + decimal(at as int) + " of this row is "@ + named;
    assert(misfit(at, named, name, table, holds).take(start.len() as int) =~= start);
    let start = "value "@ + decimal(at as int);
    assert(unfit(at, name, table, reason).take(start.len() as int) =~= start);
    let start = "value "@ + decimal(at as int) + " of this row is "@ + decimal(offset as int);
    assert(below_zero(at, offset, name, table).take(start.len() as int) =~= start);
}

/// Places in the columns are in one order, down one column and then the next: of two places one
/// comes first unless they are one place.
pub proof fn law_places_have_one_order(c1: int, at1: int, c2: int, at2: int)
    ensures
        earlier(c1, at1, c2, at2) || earlier(c2, at2, c1, at1) || (c1 == c2 && at1 == at2),
        !(earlier(c1, at1, c2, at2) && earlier(c2, at2, c1, at1)),
        c1 < c2 ==> earlier(c1, at1, c2, at2),
        c1 == c2 && at1 < at2 ==> earlier(c1, at1, c2, at2),
{
}

/// A row of another width is told of by how many values it carries and how many the table takes, a
/// row of a batch by its place in it, and an edge that is astray by its row, the row it names and
/// how many rows there are.
pub proof fn law_a_refused_row_is_told_of(
    len: nat,
    table: Seq<char>,
    slots: Seq<Slot>,
    at: nat,
    reason: Seq<char>,
    cols: Seq<Buffer>,
    nodes: Seq<NodeTable>,
    c: int,
    row: int,
)
    ensures
        text::opens(wrong_width(len, table, slots), "this row carries "@ + decimal(len as int) + " value"@),
        wrong_width(len, table, slots).len() >= joined(column_names(slots)).len() && wrong_width(len, table, slots).skip(
            wrong_width(len, table, slots).len() - joined(column_names(slots)).len(),
        ) == joined(column_names(slots)),
        row_opening(at) == "row "@ + decimal(at as int) + " of these: "@,
        text::opens(batch_row(at, reason), "row "@ + decimal(at as int)),
        batch_row(at, reason).skip(batch_row(at, reason).len() - reason.len()) == reason,
        stray(cols, nodes, c, row) ==> text::opens(
            strays(cols, nodes, c, row),
            "row "@ + decimal(row) + " of this batch joins row "@ + decimal(cols[c].values.cells()[row]->Int_0 as int),
        ),
{
    let start = "this row carries "@ + decimal(len as int) + " value"@;
    let words = wrong_width(len, table, slots);
    assert(words.take(start.len() as int) =~= start);
    let names = joined(column_names(slots));
    assert(words.skip(words.len() - names.len()) =~= names);
    let start = "row "@ + decimal(at as int);
    assert(batch_row(at, reason).take(start.len() as int) =~= start);
    assert(batch_row(at, reason).skip(batch_row(at, reason).len() - reason.len()) =~= reason);
    let start = "row "@ + decimal(row) + " of this batch joins row "@ + decimal(cols[c].values.cells()[row]->Int_0 as int);
    assert(strays(cols, nodes, c, row).take(start.len() as int) =~= start);
}

/// Names are joined in order, a comma and a space between one and the next.
pub proof fn law_names_are_joined_in_order(names: Seq<Seq<char>>, more: Seq<char>)
    ensures
        joined(seq![more]) == more,
        names.len() > 0 ==> joined(names.push(more)) == joined(names) + ", "@ + more,
{
    assert(names.push(more).drop_last() =~= names);
}

} // verus!
