//! A statement compiled once and run many times.
//!
//! What preparing buys is the compile happening at the call that asked for it, and the
//! parameter names coming back in the order the binder assigned them. A prepared statement
//! belongs to the connection that made it and dies with it, and closing one gives its id back
//! to the session.

use vstd::prelude::*;

use crate::conn::{
    all_bound, bind, int_mode, int_mode_of, mode, mode_in, params_of, signal_in, signalled, Options, QueryTask, Source,
    Statement, CLOSED,
};
use crate::js::Js;
use crate::value::{Ints, Spelling, Value};

verus! {

/// What a prepared statement that has already been closed says.
pub const FINISHED: &'static str = "this prepared statement is closed, and a closed one has given its \
     statement back to the connection";

/// A statement the connection has compiled and pinned.
pub struct Prepared {
    pub statement: String,
    /// The names the binder assigned, in the order it assigned them.
    pub params: Vec<String>,
    /// The id the session pinned this under.
    pub id: u64,
    /// How this statement spells the values it gives back, taken from the connection when it
    /// was prepared.
    pub spelling: Spelling,
    /// Whether it is still pinned.
    pub open: bool,
}

/// A run of a prepared statement as a call wrote it, or the first thing wrong with the call.
pub open spec fn run_of(
    prepared: Prepared,
    alive: bool,
    params: Option<&Js>,
    options: Option<Options>,
) -> Result<Statement, Seq<char>> {
    if !prepared.open {
        Err(FINISHED@)
    } else if !alive {
        Err(CLOSED@)
    } else {
        match int_mode_of(mode_in(&options), prepared.spelling.ints) {
            Err(words) => Err(words),
            Ok(ints) => match params_of(params) {
                Err(words) => Err(words),
                Ok(params) => match signal_in(options) {
                    Err(words) => Err(words),
                    Ok(watch) => Ok(
                        Statement {
                            text: prepared.statement@,
                            params,
                            spelling: Spelling { ints, ..prepared.spelling },
                            watch,
                        },
                    ),
                },
            },
        }
    }
}

/// Whether a task runs this prepared statement, or carries what the call was refused with.
pub open spec fn is_run(task: QueryTask, prepared: Prepared, read: Result<Statement, Seq<char>>) -> bool {
    &&& task.source == Source::Prepared(prepared.id)
    &&& match read {
        Ok(statement) => {
            &&& all_bound(task.params@, statement.params)
            &&& task.spelling == statement.spelling
            &&& task.watch == statement.watch
            &&& task.refused is None
        },
        Err(words) => {
            &&& task.refused matches Some(said)
            &&& said@ == words
            &&& task.params@.len() == 0
            &&& task.spelling == prepared.spelling
            &&& !task.watch
        },
    }
}

impl Prepared {
    /// A statement that has just been compiled.
    pub fn new(statement: String, params: Vec<String>, id: u64, spelling: Spelling) -> (r: Prepared)
        ensures
            r == (Prepared { statement, params, id, spelling, open: true }),
    {
        Prepared { statement, params, id, spelling, open: true }
    }

    /// The statement, as it was written.
    pub fn statement(&self) -> (r: String)
        ensures
            r@ == self.statement@,
    {
        self.statement.clone()
    }

    /// The names this statement wants, in the order the binder assigned them, and without the
    /// `$` they are written with.
    pub fn params(&self) -> (r: &Vec<String>)
        ensures
            *r == self.params,
    {
        &self.params
    }

    /// Whether this prepared statement has been closed.
    pub fn closed(&self) -> (r: bool)
        ensures
            r == !self.open,
    {
        !self.open
    }

    fn read(&self, alive: bool, params: Option<&Js>, options: &Option<Options>) -> (r: Result<QueryTask, String>)
        ensures
            match r {
                Ok(task) => run_of(*self, alive, params, *options) is Ok && is_run(
                    task,
                    *self,
                    run_of(*self, alive, params, *options),
                ),
                Err(words) => run_of(*self, alive, params, *options) == Err::<Statement, _>(words@),
            },
    {
        if !self.open {
            return Err(FINISHED.to_owned());
        }
        if !alive {
            return Err(CLOSED.to_owned());
        }
        let ints: Ints = int_mode(mode(options), self.spelling.ints)?;
        let params: Vec<(String, Value)> = bind(params)?;
        let watch: bool = signalled(options)?;
        Ok(
            QueryTask {
                source: Source::Prepared(self.id),
                params,
                spelling: Spelling { ints, temporal: self.spelling.temporal },
                watch,
                refused: None,
            },
        )
    }

    /// The task one run of this statement is, whether or not it is going to work.
    ///
    /// The same task a statement by its text is, carrying an id instead, which is what lets a
    /// prepared statement have every shape of answer without any of them being written twice.
    pub fn task(&self, alive: bool, params: Option<&Js>, options: &Option<Options>) -> (r: QueryTask)
        ensures
            is_run(r, *self, run_of(*self, alive, params, *options)),
    {
        match self.read(alive, params, options) {
            Ok(task) => task,
            Err(words) => QueryTask {
                source: Source::Prepared(self.id),
                params: Vec::new(),
                spelling: self.spelling,
                watch: false,
                refused: Some(words),
            },
        }
    }

    /// Gives the id back to the session. Answers whether there is one to give back: closing
    /// twice does nothing the second time.
    pub fn close(&mut self) -> (r: bool)
        ensures
            r == old(self).open,
            *final(self) == (Prepared { open: false, ..*old(self) }),
    {
        let open: bool = self.open;
        self.open = false;
        open
    }
}

/// A closed statement runs nothing, whatever it is called with, and says that it is closed
/// rather than that its connection is.
pub proof fn law_a_closed_statement_runs_nothing(
    prepared: Prepared,
    alive: bool,
    params: Option<&Js>,
    options: Option<Options>,
)
    requires
        !prepared.open,
    ensures
        run_of(prepared, alive, params, options) == Err::<Statement, _>(FINISHED@),
{
}

/// A prepared statement runs as its call asks: its own id, the parameters of the call, the integers
/// its options name and otherwise those it was prepared with, and the `Temporal` it was prepared
/// with. It runs on an open connection only, and a call that is refused runs with nothing.
pub proof fn law_a_run_is_what_was_asked(
    prepared: Prepared,
    alive: bool,
    params: Option<&Js>,
    options: Option<Options>,
    task: QueryTask,
)
    requires
        is_run(task, prepared, run_of(prepared, alive, params, options)),
    ensures
        task.source == Source::Prepared(prepared.id),
        task.refused is None ==> prepared.open && alive && task.spelling.temporal == prepared.spelling.temporal && (options
            is None ==> task.spelling.ints == prepared.spelling.ints && !task.watch) && (params_of(params) matches Ok(read)
            && all_bound(task.params@, read)) && int_mode_of(mode_in(&options), prepared.spelling.ints) == Ok::<_, Seq<char>>(
            task.spelling.ints,
        ) && signal_in(options) == Ok::<_, Seq<char>>(task.watch),
        prepared.open && !alive ==> (task.refused matches Some(words) && words@ == CLOSED@),
        task.refused is Some ==> task.params@.len() == 0 && task.spelling == prepared.spelling && !task.watch,
{
}

} // verus!
