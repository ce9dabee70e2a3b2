//! The connection and what a statement gives back.
//!
//! A connection runs one statement at a time, and a stream is a statement that ends when
//! its reader says so. A stream takes the connection out of the slot it is kept in, so the
//! next statement finds the slot empty and is told [`STREAMING`] rather than left waiting
//! for the caller who is waiting for it.
//!
//! A call is read whole before any of it runs: what was passed where a statement goes, the
//! parameters, the options. What is wrong with it is carried to where the statement would
//! have run, so a refusal is a rejection of the promise the caller already has.

use vstd::prelude::*;

use crate::cancel::Watch;
use crate::frame::Frame;
use crate::js::{heard, kind_name, said, seen, spelled, Big, Js, Kind, Thing};
use crate::number::{self, integral, whole};
use crate::register::{self, RegisterTask, RegisteredTask, UnregisterTask};
use crate::stream::{self, Started};
use crate::temporal::MISSING;
use crate::text::same;
use crate::txn::StartTask;
use crate::value::{
    binds, elements, from_js, listing, mode_of, object, properties, property, shows, spells, to_js, unbindable, unspellable, Ints, Made, Shape, Shown, Spelling,
    Value,
};

verus! {

/// The name a database in memory is asked for by, and answers to.
pub const MEMORY: &'static str = ":memory:";

/// What a closed connection says, wherever it is noticed.
pub const CLOSED: &'static str = "the connection is closed, so there is nothing left to run a statement on";

/// What a connection says when the thread that last held it panicked.
pub const POISONED: &'static str = "the connection was left in an unknown state by a statement that panicked";

/// What a connection a stream is still reading says to the next statement.
pub const STREAMING: &'static str = "a stream on this connection has not finished, and a connection runs one statement at a time: \
     read the stream to the end, cancel it, or open a second connection";

/// What an abort says when the signal that fired named no reason of its own.
pub const ABORTED: &'static str = "the statement was stopped by the signal it was given";

/// What a statement was told when it could not run.
///
/// The two are told apart because a caller does something different with each: a condition
/// the engine raised may be worth retrying, and a mistake this client caught is a bug in
/// the calling program that no retry fixes.
pub enum Failure<E> {
    /// The engine raised a condition.
    Engine(E),
    /// This client refused the call before the engine saw it.
    Usage(String),
    /// The caller's signal fired, before the statement or during it.
    Aborted,
}

/// Whether this is a refusal in these words.
pub open spec fn refused<T, E>(r: Result<T, Failure<E>>, words: Seq<char>) -> bool {
    r matches Err(Failure::Usage(said)) && said@ == words
}

/// What arrived, in the words a person writing JavaScript uses for it.
pub open spec fn worded_as(kind: Kind) -> Seq<char> {
    match kind {
        Kind::Undefined => "undefined"@,
        Kind::Null => "null"@,
        _ => "a "@ + kind_name(kind),
    }
}

/// What arrived, in the words a person writing JavaScript uses for it.
///
/// `a Undefined` is what the kind's own name gives, and the two values that need this are
/// the two a mistake produces most: a variable that was never set and a lookup that found
/// nothing.
pub fn worded(kind: Kind) -> (r: String)
    ensures
        r@ == worded_as(kind),
{
    match kind {
        Kind::Undefined => "undefined".to_owned(),
        Kind::Null => "null".to_owned(),
        _ => "a ".to_owned().concat(spelled(kind).as_str()),
    }
}

/// An argument that has to be a string, or what arrived instead.
pub open spec fn text_of(value: Js, what: Seq<char>) -> Result<Seq<char>, Seq<char>> {
    match value {
        Js::Unread(reason) => Err(reason@),
        Js::Text(s) => Ok(s@),
        _ => Err("the "@ + what + " is "@ + worded_as(value.spec_kind()) + ", and a "@ + what + " is a string"@),
    }
}

/// Reads an argument that has to be a string, and says what arrived instead.
pub fn text(value: &Js, what: &str) -> (r: Result<String, String>)
    ensures
        heard(r) == text_of(*value, what@),
{
    match value {
        Js::Unread(reason) => Err(reason.clone()),
        Js::Text(s) => Ok(s.clone()),
        _ => Err(
            "the ".to_owned().concat(what).concat(" is ").concat(worded(value.kind()).as_str()).concat(", and a ").concat(
                what,
            ).concat(" is a string"),
        ),
    }
}

/// An option that has to be a boolean, or what arrived instead.
///
/// Absent and `null` are the same as unwritten. Anything else is refused rather than made
/// truthy: a `readOnly: 'false'` that opened a writing transaction would be a string nobody
/// meant read as the opposite of itself.
pub open spec fn flag_of(option: Option<&Js>, name: Seq<char>) -> Result<Option<bool>, Seq<char>> {
    match option {
        None => Ok(None),
        Some(Js::Unread(reason)) => Err(reason@),
        Some(Js::Undefined) | Some(Js::Null) => Ok(None),
        Some(Js::Boolean(b)) => Ok(Some(*b)),
        Some(other) => Err(name + " is "@ + worded_as(other.spec_kind()) + ", and it is either true or false"@),
    }
}

/// Reads an option that has to be a boolean, out of the options when there are any.
pub fn flag(option: Option<&Js>, name: &str) -> (r: Result<Option<bool>, String>)
    ensures
        said(r) == flag_of(option, name@),
{
    match option {
        None => Ok(None),
        Some(value) => match value {
            Js::Unread(reason) => Err(reason.clone()),
            Js::Undefined | Js::Null => Ok(None),
            Js::Boolean(b) => Ok(Some(*b)),
            _ => Err(
                name.to_owned().concat(" is ").concat(worded(value.kind()).as_str()).concat(
                    ", and it is either true or false",
                ),
            ),
        },
    }
}

/// How a statement spells the INT64s it gives back: what `bigIntMode` names, and what the
/// connection spells them as when it names nothing.
pub open spec fn int_mode_of(option: Option<&Js>, connection: Ints) -> Result<Ints, Seq<char>> {
    match option {
        None => Ok(connection),
        Some(Js::Unread(reason)) => Err(reason@),
        Some(Js::Undefined) | Some(Js::Null) => Ok(connection),
        Some(Js::Text(mode)) => mode_of(mode@),
        Some(other) => Err("bigIntMode is a "@ + kind_name(other.spec_kind()) + ", and a mode is named by a string"@),
    }
}

/// Reads `bigIntMode`, out of the options when there are any.
pub fn int_mode(option: Option<&Js>, connection: Ints) -> (r: Result<Ints, String>)
    ensures
        said(r) == int_mode_of(option, connection),
{
    match option {
        None => Ok(connection),
        Some(value) => match value {
            Js::Unread(reason) => Err(reason.clone()),
            Js::Undefined | Js::Null => Ok(connection),
            Js::Text(mode) => Ints::named(mode.as_str()),
            _ => Err(
                "bigIntMode is a ".to_owned().concat(spelled(value.kind()).as_str()).concat(
                    ", and a mode is named by a string",
                ),
            ),
        },
    }
}

/// How many rows a caller wants in a batch, when they said.
///
/// A number is checked rather than converted, because JavaScript's own narrowing to an
/// unsigned integer turns -1 into four billion and 1.5 into 1.
pub open spec fn batch_rows_of(option: Option<&Js>) -> Result<Option<u32>, Seq<char>> {
    match option {
        None => Ok(None),
        Some(Js::Unread(reason)) => Err(reason@),
        Some(Js::Undefined) | Some(Js::Null) => Ok(None),
        Some(Js::Number { bits, shown }) => if whole(*bits) && 1 <= integral(*bits) <= u32::MAX {
            Ok(Some(integral(*bits) as u32))
        } else {
            Err("batchRows is "@ + shown@ + ", and a batch holds a whole number of rows, one at the least"@)
        },
        Some(other) => Err("batchRows is a "@ + kind_name(other.spec_kind()) + ", which is not a number"@),
    }
}

/// Reads `batchRows`, out of the options when there are any.
pub fn batch_rows(option: Option<&Js>) -> (r: Result<Option<u32>, String>)
    ensures
        said(r) == batch_rows_of(option),
{
    match option {
        None => Ok(None),
        Some(value) => match value {
            Js::Unread(reason) => Err(reason.clone()),
            Js::Undefined | Js::Null => Ok(None),
            Js::Number { bits, shown } => {
                let (fits, rows): (bool, i128) = number::read(*bits);
                if fits && 1 <= rows && rows <= u32::MAX as i128 {
                    Ok(Some(rows as u32))
                } else {
                    Err(
                        "batchRows is ".to_owned().concat(shown.as_str()).concat(
                            ", and a batch holds a whole number of rows, one at the least",
                        ),
                    )
                }
            },
            _ => Err(
                "batchRows is a ".to_owned().concat(spelled(value.kind()).as_str()).concat(", which is not a number"),
            ),
        },
    }
}

/// Whether there is a signal to watch, by what `signal` is and what kind of value its
/// `aborted` is.
pub open spec fn watches(signal: Option<&Js>, aborted: Result<Kind, String>) -> Result<bool, Seq<char>> {
    match signal {
        None => Ok(false),
        Some(Js::Unread(reason)) => Err(reason@),
        Some(Js::Undefined) | Some(Js::Null) => Ok(false),
        Some(Js::Object(_)) => match aborted {
            Err(reason) => Err(reason@),
            Ok(kind) => if kind == Kind::Boolean {
                Ok(true)
            } else {
                Err("signal is an object that is not an AbortSignal"@)
            },
        },
        Some(other) => Err("signal is a "@ + kind_name(other.spec_kind()) + ", which is not an AbortSignal"@),
    }
}

/// Whether there is a signal to watch, out of the options when there are any.
///
/// Absent options and an absent signal are the same thing. A `signal` that is not an
/// `AbortSignal` is refused here rather than where the listener fails to be added, because
/// the caller's mistake is the value they passed.
pub fn watch(signal: Option<&Js>, aborted: &Result<Kind, String>) -> (r: Result<bool, String>)
    ensures
        said(r) == watches(signal, *aborted),
{
    match signal {
        None => Ok(false),
        Some(value) => match value {
            Js::Unread(reason) => Err(reason.clone()),
            Js::Undefined | Js::Null => Ok(false),
            Js::Object(_) => match aborted {
                Err(reason) => Err(reason.clone()),
                Ok(kind) => if *kind == Kind::Boolean {
                    Ok(true)
                } else {
                    Err("signal is an object that is not an AbortSignal".to_owned())
                },
            },
            _ => Err(
                "signal is a ".to_owned().concat(spelled(value.kind()).as_str()).concat(
                    ", which is not an AbortSignal",
                ),
            ),
        },
    }
}

/// What parameters that are no object are told.
pub open spec fn not_parameters(kind: Kind) -> Seq<char> {
    "the parameters are "@ + worded_as(kind)
        + ", and parameters are an object keyed by the names the \
                 statement uses, without the $"@
}

/// What parameters written as an array are told.
pub open spec fn numbered() -> Seq<char> {
    "the parameters are an array, and zu names its parameters rather than \
                    numbering them: pass an object keyed by the names the statement uses, without \
                    the $"@
}

/// Why the first `n` of these parameters are not bound, when they are not.
pub open spec fn unbound(fields: Seq<(String, Js)>, n: nat) -> Option<Seq<char>>
    decreases n,
{
    if n == 0 {
        None
    } else {
        match unbound(fields, (n - 1) as nat) {
            Some(words) => Some(words),
            None => match unbindable(fields[n - 1].0@, fields[n - 1].1, 0) {
                Some(trouble) => Some(trouble.words()),
                None => None,
            },
        }
    }
}

/// The parameters by name, or what is wrong with them.
pub open spec fn params_of(params: Option<&Js>) -> Result<Seq<(String, Js)>, Seq<char>> {
    match params {
        None => Ok(Seq::empty()),
        Some(Js::Unread(reason)) => Err(reason@),
        Some(Js::Undefined) | Some(Js::Null) => Ok(Seq::empty()),
        Some(Js::Object(thing)) => if thing.items is Some {
            Err(numbered())
        } else {
            match thing.keys {
                Err(reason) => Err(reason@),
                Ok(fields) => match unbound(fields@, fields@.len()) {
                    Some(words) => Err(words),
                    None => Ok(fields@),
                },
            }
        },
        Some(other) => Err(not_parameters(other.spec_kind())),
    }
}

/// Whether these are those parameters, bound: every one of them, in the order they were
/// written and under the name it was written under.
pub open spec fn all_bound(bound: Seq<(String, Value)>, fields: Seq<(String, Js)>) -> bool {
    &&& bound.len() == fields.len()
    &&& forall|i: int|
        0 <= i < fields.len() ==> (#[trigger] bound[i]).0@ == fields[i].0@ && binds(
            bound[i].1,
            fields[i].0@,
            fields[i].1,
        )
}

proof fn lemma_unbound_stops(fields: Seq<(String, Js)>, k: nat, n: nat)
    requires
        k <= n,
        unbound(fields, k) is Some,
    ensures
        unbound(fields, n) == unbound(fields, k),
    decreases n,
{
    if k < n {
        lemma_unbound_stops(fields, k, (n - 1) as nat);
    }
}

/// Reads the parameter object into the values the engine binds.
///
/// An argument of the wrong shape is refused rather than read for whatever keys it happens
/// to have. An array read as an object binds its parameters as `0` and `1`, a string binds
/// one per character, and both of those are a statement that runs with none of the values
/// the caller passed and answers nothing.
pub fn bind(params: Option<&Js>) -> (r: Result<Vec<(String, Value)>, String>)
    ensures
        match r {
            Ok(bound) => params_of(params) is Ok && all_bound(bound@, params_of(params)->Ok_0),
            Err(words) => params_of(params) == Err::<Seq<(String, Js)>, _>(words@),
        },
{
    let value: &Js = match params {
        None => return Ok(Vec::new()),
        Some(value) => value,
    };
    let thing = match value {
        Js::Unread(reason) => return Err(reason.clone()),
        Js::Undefined | Js::Null => return Ok(Vec::new()),
        Js::Object(thing) => thing,
        _ => {
            return Err(
                "the parameters are ".to_owned().concat(worded(value.kind()).as_str()).concat(
                    ", and parameters are an object keyed by the names the \
                 statement uses, without the $",
                ),
            );
        },
    };
    if thing.items.is_some() {
        return Err(
            "the parameters are an array, and zu names its parameters rather than \
                    numbering them: pass an object keyed by the names the statement uses, without \
                    the $".to_owned(),
        );
    }
    let fields: &Vec<(String, Js)> = match &thing.keys {
        Err(reason) => return Err(reason.clone()),
        Ok(fields) => fields,
    };
    let mut bound: Vec<(String, Value)> = Vec::new();
    let mut at: usize = 0;
    while at < fields.len()
        invariant
            at <= fields@.len(),
            unbound(fields@, at as nat) is None,
            all_bound(bound@, fields@.take(at as int)),
            params == Some(&Js::Object(*thing)),
            thing.items is None,
            thing.keys == Ok::<_, String>(*fields),
        decreases fields@.len() - at,
    {
        let name: &String = &fields[at].0;
        match from_js(name.as_str(), &fields[at].1) {
            Ok(value) => {
                bound.push((name.clone(), value));
            },
            Err(fault) => {
                proof {
                    lemma_unbound_stops(fields@, (at + 1) as nat, fields@.len());
                }
                return Err(fault.reason());
            },
        }
        at += 1;
    }
    proof {
        assert(fields@.take(at as int) =~= fields@);
    }
    Ok(bound)
}

/// What a connection can be opened with.
///
/// Every field is optional and every default is the engine's.
pub struct ConnectOptions {
    /// Opens without creating and refuses every statement that writes.
    pub read_only: Option<bool>,
    /// How much memory the executor may hold, in bytes.
    pub memory_limit: Option<Big>,
    /// How many threads the executor may use.
    pub threads: Option<u32>,
    /// How INT64 comes back, for every statement on this connection.
    pub big_int_mode: Option<String>,
    /// Gives back `Temporal` values rather than this client's four temporal classes.
    pub temporal: Option<bool>,
}

/// Which of the three shapes a connect was written in: a path and options, options alone, or
/// neither. The path is none when the database is in memory, and the words are what the call
/// was refused with.
pub open spec fn arguments_of(
    first: Option<Js>,
    read: Result<ConnectOptions, String>,
    second: Option<ConnectOptions>,
) -> (Option<Seq<char>>, Option<ConnectOptions>, Option<Seq<char>>) {
    match first {
        None => (None, second, None),
        Some(Js::Unread(reason)) => (None, second, Some(reason@)),
        Some(Js::Undefined) | Some(Js::Null) => (None, second, None),
        Some(Js::Object(_)) => match read {
            Ok(options) => (None, Some(options), None),
            Err(reason) => (None, second, Some(reason@)),
        },
        Some(value) => match text_of(value, "path"@) {
            Ok(path) => if path == MEMORY@ { (None, second, None) } else { (Some(path), second, None) },
            Err(words) => (None, second, Some(words)),
        },
    }
}

/// Reads the arguments of a connect.
///
/// `read` is what the first argument reads as when it is read as options, which is what an
/// object standing where the path would is.
pub fn arguments(
    first: &Option<Js>,
    read: Result<ConnectOptions, String>,
    second: Option<ConnectOptions>,
) -> (r: (Option<String>, Option<ConnectOptions>, Option<String>))
    ensures
        (seen(r.0), r.1, seen(r.2)) == arguments_of(*first, read, second),
{
    let value: &Js = match first {
        None => return (None, second, None),
        Some(value) => value,
    };
    match value {
        Js::Unread(reason) => (None, second, Some(reason.clone())),
        Js::Undefined | Js::Null => (None, second, None),
        Js::Object(_) => match read {
            Ok(options) => (None, Some(options), None),
            Err(reason) => (None, second, Some(reason)),
        },
        _ => match text(value, "path") {
            Ok(path) => if same(path.as_str(), MEMORY) {
                (None, second, None)
            } else {
                (Some(path), second, None)
            },
            Err(words) => (None, second, Some(words)),
        },
    }
}

/// A connect that has been read and not yet run.
pub struct ConnectTask {
    /// The path, or the name a database in memory is asked for by.
    pub path: String,
    /// Whether the database is in memory.
    pub memory: bool,
    /// What this client refused the call with, before any of it ran.
    pub refused: Option<String>,
    pub options: Option<ConnectOptions>,
    /// Whether this runtime has `Temporal`.
    pub has_temporal: bool,
}

/// Reads a call to connect.
///
/// With no path, with `null`, or with `':memory:'`, the database is in memory and no file is
/// made anywhere. Options may stand where the path would in that case.
pub fn connect(
    first: &Option<Js>,
    read: Result<ConnectOptions, String>,
    second: Option<ConnectOptions>,
    has_temporal: bool,
) -> (r: ConnectTask)
    ensures
        ({
            let (path, options, refused) = arguments_of(*first, read, second);
            &&& r.memory == (path is None)
            &&& r.path@ == (if path is Some { path->Some_0 } else { MEMORY@ })
            &&& seen(r.refused) == refused
            &&& r.options == options
            &&& r.has_temporal == has_temporal
        }),
{
    let (path, options, refused): (Option<String>, Option<ConnectOptions>, Option<String>) = arguments(
        first,
        read,
        second,
    );
    match path {
        Some(path) => ConnectTask { path, memory: false, refused, options, has_temporal },
        None => ConnectTask { path: MEMORY.to_owned(), memory: true, refused, options, has_temporal },
    }
}

/// What to open, once everything about the call has been settled.
pub struct Opening {
    pub path: String,
    pub memory: bool,
    pub read_only: bool,
    pub spelling: Spelling,
    /// How much memory the executor may hold, when the caller said.
    pub memory_limit: Option<usize>,
    /// How many threads the executor may use, when the caller said.
    pub threads: Option<usize>,
}

/// How the integers of a connection come back: as the options name it, and as `bigint` when
/// they name nothing.
pub open spec fn ints_asked(options: Option<ConnectOptions>) -> Result<Ints, Seq<char>> {
    match options {
        Some(ConnectOptions { big_int_mode: Some(mode), .. }) => mode_of(mode@),
        _ => Ok(Ints::BigInt),
    }
}

/// Whether the options ask for `Temporal` values.
pub open spec fn temporal_asked(options: Option<ConnectOptions>) -> bool {
    options matches Some(options) && options.temporal == Some(true)
}

/// Why a connect is not going to open anything, when it is not.
pub open spec fn connect_refused(task: ConnectTask) -> Option<Seq<char>> {
    match task.refused {
        Some(words) => Some(words@),
        None => match ints_asked(task.options) {
            Err(words) => Some(words),
            Ok(_) => if temporal_asked(task.options) && !task.has_temporal { Some(MISSING@) } else { None },
        },
    }
}

/// Whether this is what a connect opens.
pub open spec fn opens_as(opening: Opening, task: ConnectTask) -> bool {
    &&& opening.path@ == task.path@
    &&& opening.memory == task.memory
    &&& opening.read_only == (task.options matches Some(options) && options.read_only == Some(true))
    &&& ints_asked(task.options) == Ok::<_, Seq<char>>(opening.spelling.ints)
    &&& opening.spelling.temporal == temporal_asked(task.options)
    &&& match task.options {
        None => opening.memory_limit is None && opening.threads is None,
        Some(options) => {
            &&& match options.memory_limit {
                None => opening.memory_limit is None,
                Some(limit) => opening.memory_limit == Some(limit.low as usize),
            }
            &&& match options.threads {
                None => opening.threads is None,
                Some(threads) => opening.threads == Some(threads as usize),
            }
        },
    }
}

fn yes(option: Option<bool>) -> (r: bool)
    ensures
        r == (option == Some(true)),
{
    match option {
        Some(b) => b,
        None => false,
    }
}

impl ConnectTask {
    /// Settles a connect: what it opens, or what it is refused with.
    ///
    /// All of it before anything is opened. A path that is not a path names no file, a mode
    /// nobody can spell is a mistake in the calling program, and a `Temporal` asked of a
    /// runtime without one is a program that is not going to work: a database created on the
    /// way to finding any of that out is a file the caller did not ask for.
    pub fn compute(self) -> (r: Result<Opening, String>)
        ensures
            match r {
                Ok(opening) => connect_refused(self) is None && opens_as(opening, self),
                Err(words) => connect_refused(self) == Some(words@),
            },
    {
        if let Some(words) = self.refused {
            return Err(words);
        }
        let mut read_only: bool = false;
        let mut ints: Ints = Ints::BigInt;
        let mut wants_temporal: bool = false;
        let mut memory_limit: Option<usize> = None;
        let mut threads: Option<usize> = None;
        if let Some(options) = &self.options {
            read_only = yes(options.read_only);
            if let Some(mode) = &options.big_int_mode {
                ints = Ints::named(mode.as_str())?;
            }
            wants_temporal = yes(options.temporal);
            if let Some(limit) = &options.memory_limit {
                memory_limit = Some(limit.get_u64().1 as usize);
            }
            if let Some(n) = options.threads {
                threads = Some(n as usize);
            }
        }
        if wants_temporal && !self.has_temporal {
            return Err(MISSING.to_owned());
        }
        Ok(
            Opening {
                path: self.path,
                memory: self.memory,
                read_only,
                spelling: Spelling { ints, temporal: wants_temporal },
                memory_limit,
                threads,
            },
        )
    }
}

impl Opening {
    /// The connection that has been opened. `stored` is where the database says it lives, and a
    /// database in memory answers to the name it was asked for by.
    pub fn opened(self, stored: String) -> (r: Connection)
        ensures
            r.alive,
            r.slot == Slot::Held,
            !r.in_txn,
            r.rows == 0,
            r.spelling == self.spelling,
            r.path@ == (if self.memory { MEMORY@ } else { stored@ }),
            r.read_only == self.read_only,
            r.memory == self.memory,
    {
        let path: String = if self.memory {
            MEMORY.to_owned()
        } else {
            stored
        };
        Connection::new(self.spelling, path, self.read_only, self.memory)
    }
}

/// Whether a database on disk is opened, rather than created.
///
/// A read-only connection never creates one, so a mistyped path is an error there rather
/// than an empty database.
pub fn opens(read_only: bool, exists: bool) -> (r: bool)
    ensures
        r == (read_only || exists),
{
    read_only || exists
}

/// No path, `undefined`, `null` and `':memory:'` all ask for the one thing: a database in
/// memory, with the options that stand second.
pub proof fn law_memory_has_four_spellings(
    name: String,
    read: Result<ConnectOptions, String>,
    second: Option<ConnectOptions>,
)
    requires
        name@ == MEMORY@,
    ensures
        arguments_of(None, read, second) == (None::<Seq<char>>, second, None::<Seq<char>>),
        arguments_of(Some(Js::Undefined), read, second) == arguments_of(None, read, second),
        arguments_of(Some(Js::Null), read, second) == arguments_of(None, read, second),
        arguments_of(Some(Js::Text(name)), read, second) == arguments_of(None, read, second),
{
}

/// What is in the slot a connection keeps its session in.
#[derive(Clone, Copy, PartialEq, Eq, Structural)]
pub enum Slot {
    /// The session, waiting for a statement.
    Held,
    /// Nothing: the connection is closed, or a stream has taken the session out.
    Empty,
    /// A session the thread that last held it left in a state nothing here can vouch for.
    Poisoned,
}

/// One connection to one database.
///
/// Statements run on it in order, one at a time.
pub struct Connection {
    /// Whether the connection is still open.
    pub alive: bool,
    pub slot: Slot,
    /// Whether an explicit transaction is running, as the session said after the last
    /// statement.
    pub in_txn: bool,
    /// How many rows the statement running now, or the last one to run, has read out of
    /// storage.
    pub rows: u64,
    /// How this connection's statements spell the values they give back, unless one of them
    /// asks for something else.
    pub spelling: Spelling,
    pub path: String,
    pub read_only: bool,
    /// Whether the database behind it is in memory.
    pub memory: bool,
}

/// What a statement that needs the session is told when it cannot have it.
pub open spec fn unreachable_as(slot: Slot, alive: bool) -> Option<Seq<char>> {
    match slot {
        Slot::Held => None,
        Slot::Poisoned => Some(POISONED@),
        Slot::Empty => Some(if alive { STREAMING@ } else { CLOSED@ }),
    }
}

/// Whether the session can be had, by what is in its slot, and what to say when it cannot.
///
/// An empty slot is a connection that was closed between the call and the thread picking it
/// up, or one a stream has not finished with, which is the same slot and a different thing to
/// say about it.
pub fn reach(slot: Slot, alive: bool) -> (r: Result<(), String>)
    ensures
        match r {
            Ok(()) => unreachable_as(slot, alive) is None,
            Err(words) => unreachable_as(slot, alive) == Some(words@),
        },
{
    match slot {
        Slot::Held => Ok(()),
        Slot::Poisoned => Err(POISONED.to_owned()),
        Slot::Empty => Err(if alive { STREAMING.to_owned() } else { CLOSED.to_owned() }),
    }
}

/// The options of one statement, each property by what reading it found.
pub struct Options {
    pub big_int_mode: Js,
    pub batch_rows: Js,
    pub signal: Js,
    /// What kind of value the signal's `aborted` is.
    pub aborted: Result<Kind, String>,
}

/// The integers' mode out of the options, when there are any.
pub open spec fn mode_in(options: &Option<Options>) -> Option<&Js> {
    match options {
        None => None,
        Some(options) => Some(&options.big_int_mode),
    }
}

/// The batch size out of the options, when there are any.
pub open spec fn batch_in(options: &Option<Options>) -> Option<&Js> {
    match options {
        None => None,
        Some(options) => Some(&options.batch_rows),
    }
}

/// The answer about the signal in the options, when there are any.
pub open spec fn signal_in(options: Option<Options>) -> Result<bool, Seq<char>> {
    match options {
        None => Ok(false),
        Some(options) => watches(Some(&options.signal), options.aborted),
    }
}

pub(crate) fn mode(options: &Option<Options>) -> (r: Option<&Js>)
    ensures
        r == mode_in(options),
{
    match options {
        None => None,
        Some(options) => Some(&options.big_int_mode),
    }
}

fn batch(options: &Option<Options>) -> (r: Option<&Js>)
    ensures
        r == batch_in(options),
{
    match options {
        None => None,
        Some(options) => Some(&options.batch_rows),
    }
}

/// Whether the options hold a signal to watch.
pub fn signalled(options: &Option<Options>) -> (r: Result<bool, String>)
    ensures
        said(r) == signal_in(*options),
{
    match options {
        None => Ok(false),
        Some(options) => watch(Some(&options.signal), &options.aborted),
    }
}

/// What a task runs: the text of a statement, or the id a prepared one was pinned under.
pub enum Source {
    Text(String),
    Prepared(u64),
}

/// One statement, ready to run or ready to say why it will not.
///
/// A statement this client refuses is refused where it would have run, so that every call
/// gives back a promise and a caller who wrote `await` has somewhere to catch it.
pub struct QueryTask {
    pub source: Source,
    pub params: Vec<(String, Value)>,
    /// How this statement spells the values it gives back.
    pub spelling: Spelling,
    /// Whether there is a signal to watch.
    pub watch: bool,
    /// Why this statement is not going to run, when it is not.
    pub refused: Option<String>,
}

/// What a call with one string in it was written as, or what it was refused with.
pub struct Named {
    pub name: String,
    pub refused: Option<String>,
}

/// A call with one string in it: the connection has to be open and the string has to be one.
pub open spec fn named_of(alive: bool, value: Js, what: Seq<char>) -> Result<Seq<char>, Seq<char>> {
    if alive { text_of(value, what) } else { Err(CLOSED@) }
}

/// Whether a call was read as this says.
pub open spec fn is_named(call: Named, read: Result<Seq<char>, Seq<char>>) -> bool {
    match read {
        Ok(name) => call.name@ == name && call.refused is None,
        Err(words) => call.name@ == ""@ && (call.refused matches Some(said) && said@ == words),
    }
}

/// What a statement is, once a call has been read whole: its text, its parameters, how it
/// spells what it gives back, and whether there is a signal to watch.
pub struct Statement {
    pub text: Seq<char>,
    pub params: Seq<(String, Js)>,
    pub spelling: Spelling,
    pub watch: bool,
}

/// How a statement spells the values it gives back, which is the connection's own unless the
/// statement said otherwise about the integers.
pub open spec fn spelling_of(own: Spelling, options: Option<Options>) -> Result<Spelling, Seq<char>> {
    match int_mode_of(mode_in(&options), own.ints) {
        Err(words) => Err(words),
        Ok(ints) => Ok(Spelling { ints, ..own }),
    }
}

/// A statement as a call wrote it, or the first thing wrong with the call.
pub open spec fn statement_of(
    alive: bool,
    own: Spelling,
    statement: Js,
    params: Option<&Js>,
    options: Option<Options>,
) -> Result<Statement, Seq<char>> {
    match named_of(alive, statement, "statement"@) {
        Err(words) => Err(words),
        Ok(text) => match spelling_of(own, options) {
            Err(words) => Err(words),
            Ok(spelling) => match params_of(params) {
                Err(words) => Err(words),
                Ok(params) => match signal_in(options) {
                    Err(words) => Err(words),
                    Ok(watch) => Ok(Statement { text, params, spelling, watch }),
                },
            },
        },
    }
}

/// Whether a task runs this statement, or carries what the call was refused with.
pub open spec fn is_task(task: QueryTask, read: Result<Statement, Seq<char>>, own: Spelling) -> bool {
    match read {
        Ok(statement) => {
            &&& task.source matches Source::Text(text)
            &&& text@ == statement.text
            &&& all_bound(task.params@, statement.params)
            &&& task.spelling == statement.spelling
            &&& task.watch == statement.watch
            &&& task.refused is None
        },
        Err(words) => {
            &&& task.refused matches Some(said)
            &&& said@ == words
            &&& task.params@.len() == 0
            &&& task.spelling == own
            &&& !task.watch
        },
    }
}

/// A streamed statement as a call wrote it, or the first thing wrong with the call: the batch
/// size is read between the spelling and the parameters.
pub open spec fn cursor_of(
    alive: bool,
    own: Spelling,
    statement: Js,
    params: Option<&Js>,
    options: Option<Options>,
) -> Result<(Statement, Option<u32>), Seq<char>> {
    match named_of(alive, statement, "statement"@) {
        Err(words) => Err(words),
        Ok(_) => match spelling_of(own, options) {
            Err(words) => Err(words),
            Ok(_) => match batch_rows_of(batch_in(&options)) {
                Err(words) => Err(words),
                Ok(rows) => match statement_of(alive, own, statement, params, options) {
                    Err(words) => Err(words),
                    Ok(statement) => Ok((statement, rows)),
                },
            },
        },
    }
}

/// A profiled statement as a call wrote it, or the first thing wrong with the call. A profile
/// gives back no values, so how they are spelled is not asked.
pub open spec fn profile_of(
    alive: bool,
    own: Spelling,
    statement: Js,
    params: Option<&Js>,
    options: Option<Options>,
) -> Result<Statement, Seq<char>> {
    match named_of(alive, statement, "statement"@) {
        Err(words) => Err(words),
        Ok(text) => match params_of(params) {
            Err(words) => Err(words),
            Ok(params) => match signal_in(options) {
                Err(words) => Err(words),
                Ok(watch) => Ok(Statement { text, params, spelling: own, watch }),
            },
        },
    }
}

fn carried(words: String, own: Spelling) -> (r: QueryTask)
    ensures
        is_task(r, Err(words@), own),
{
    QueryTask {
        source: Source::Text(String::new()),
        params: Vec::new(),
        spelling: own,
        watch: false,
        refused: Some(words),
    }
}

/// What a duplicate is made with: what the connection it comes from was opened with.
pub struct DuplicateTask {
    pub spelling: Spelling,
    pub path: String,
    pub read_only: bool,
    pub memory: bool,
    pub refused: Option<String>,
}

/// What there is to do once a connection has been told to close.
#[derive(Clone, Copy, PartialEq, Eq, Structural)]
pub enum Close {
    /// It was closed already.
    Nothing,
    /// The session is to be let go of.
    Release,
}

impl Connection {
    /// A connection that has just been opened, with its session in the slot.
    pub fn new(spelling: Spelling, path: String, read_only: bool, memory: bool) -> (r: Connection)
        ensures
            r.alive,
            r.slot == Slot::Held,
            !r.in_txn,
            r.rows == 0,
            r.spelling == spelling,
            r.path@ == path@,
            r.read_only == read_only,
            r.memory == memory,
    {
        Connection { alive: true, slot: Slot::Held, in_txn: false, rows: 0, spelling, path, read_only, memory }
    }

    /// Where the database this is connected to lives.
    pub fn path(&self) -> (r: String)
        ensures
            r@ == self.path@,
    {
        self.path.clone()
    }

    /// Whether this connection refuses every statement that writes.
    pub fn read_only(&self) -> (r: bool)
        ensures
            r == self.read_only,
    {
        self.read_only
    }

    /// Whether the database behind it is in memory rather than on disk.
    pub fn memory(&self) -> (r: bool)
        ensures
            r == self.memory,
    {
        self.memory
    }

    /// Whether the connection is still open.
    pub fn open(&self) -> (r: bool)
        ensures
            r == self.alive,
    {
        self.alive
    }

    /// Whether an explicit transaction is running on this connection.
    pub fn in_transaction(&self) -> (r: bool)
        ensures
            r == self.in_txn,
    {
        self.in_txn
    }

    /// How many rows the statement running on this connection has read out of storage, by the
    /// bits of the number a caller is given.
    pub fn rows_read(&self) -> (r: u64)
        ensures
            number::is_double(r, self.rows as int),
    {
        number::double(self.rows as i128)
    }

    /// Reads a call with one string in it.
    pub fn named(&self, value: &Js, what: &str) -> (r: Named)
        ensures
            is_named(r, named_of(self.alive, *value, what@)),
    {
        if !self.alive {
            return Named { name: "".to_owned(), refused: Some(CLOSED.to_owned()) };
        }
        match text(value, what) {
            Ok(name) => Named { name, refused: None },
            Err(words) => Named { name: "".to_owned(), refused: Some(words) },
        }
    }

    /// Reads a call to start a transaction.
    pub fn transaction(&self, option: Option<&Js>) -> (r: StartTask)
        ensures
            match flag_of(option, "readOnly"@) {
                Err(words) => !r.read_only && (r.refused matches Some(said) && said@ == words),
                Ok(flag) => {
                    &&& r.read_only == (flag == Some(true))
                    &&& seen(r.refused) == (if self.alive { None } else { Some(CLOSED@) })
                },
            },
    {
        match flag(option, "readOnly") {
            Err(words) => StartTask { read_only: false, refused: Some(words) },
            Ok(read_only) => StartTask {
                read_only: yes(read_only),
                refused: if self.alive { None } else { Some(CLOSED.to_owned()) },
            },
        }
    }

    /// Reads a call to open an appender on a table.
    pub fn appender(&self, table: &Js) -> (r: Named)
        ensures
            is_named(r, named_of(self.alive, *table, "table"@)),
    {
        self.named(table, "table")
    }

    /// Reads a call to register a frame, which has been read where it lies.
    pub fn register(&self, name: &Js, frame: Result<Frame, String>) -> (r: RegisterTask)
        ensures
            match named_of(self.alive, *name, "name"@) {
                Err(words) => r.name@ == ""@ && r.described is None && seen(r.refused) == Some(words),
                Ok(read) => match register::unreadable(read, frame) {
                    Some(words) => r.name@ == ""@ && r.described is None && seen(r.refused) == Some(words),
                    None => r.name@ == read && r.refused is None && (r.described matches Some(described) && frame == Ok::<
                        _,
                        String,
                    >(described)),
                },
            },
    {
        let call: Named = self.named(name, "name");
        if let Some(words) = call.refused {
            return RegisterTask::new("".to_owned(), None, Some(words));
        }
        match register::read(call.name.as_str(), frame) {
            Ok(read) => RegisterTask::new(call.name, Some(read), None),
            Err(words) => RegisterTask::new("".to_owned(), None, Some(words)),
        }
    }

    /// Reads a call to take a registered name away.
    pub fn unregister(&self, name: &Js) -> (r: UnregisterTask)
        ensures
            is_named((Named { name: r.name, refused: r.refused }), named_of(self.alive, *name, "name"@)),
    {
        let call: Named = self.named(name, "name");
        UnregisterTask::new(call.name, call.refused)
    }

    /// Reads a call for the names frames are registered under.
    pub fn registered(&self) -> (r: RegisteredTask)
        ensures
            seen(r.refused) == (if self.alive { None } else { Some(CLOSED@) }),
    {
        RegisteredTask::new(if self.alive { None } else { Some(register::closed()) })
    }

    /// How this statement spells the values it gives back.
    ///
    /// Only the integers can be said otherwise. `Temporal` is a decision about how a whole
    /// program reads dates, where the integer modes are a trade one query makes.
    pub fn spell(&self, options: &Option<Options>) -> (r: Result<Spelling, String>)
        ensures
            said(r) == spelling_of(self.spelling, *options),
    {
        let ints: Ints = int_mode(mode(options), self.spelling.ints)?;
        Ok(Spelling { ints, temporal: self.spelling.temporal })
    }

    fn read(&self, statement: &Js, params: Option<&Js>, options: &Option<Options>) -> (r: Result<QueryTask, String>)
        ensures
            match r {
                Ok(task) => statement_of(self.alive, self.spelling, *statement, params, *options) is Ok && is_task(
                    task,
                    statement_of(self.alive, self.spelling, *statement, params, *options),
                    self.spelling,
                ),
                Err(words) => statement_of(self.alive, self.spelling, *statement, params, *options) == Err::<
                    Statement,
                    _,
                >(words@),
            },
    {
        if !self.alive {
            return Err(CLOSED.to_owned());
        }
        let text: String = text(statement, "statement")?;
        let spelling: Spelling = self.spell(options)?;
        let params: Vec<(String, Value)> = bind(params)?;
        let watch: bool = signalled(options)?;
        Ok(QueryTask { source: Source::Text(text), params, spelling, watch, refused: None })
    }

    /// The task one statement runs as, whether or not it is going to work.
    pub fn task(&self, statement: &Js, params: Option<&Js>, options: &Option<Options>) -> (r: QueryTask)
        ensures
            is_task(r, statement_of(self.alive, self.spelling, *statement, params, *options), self.spelling),
    {
        match self.read(statement, params, options) {
            Ok(task) => task,
            Err(words) => carried(words, self.spelling),
        }
    }

    /// The task a statement read a batch at a time runs as, whether or not it is going to work.
    pub fn cursor(&self, statement: &Js, params: Option<&Js>, options: &Option<Options>) -> (r: Started)
        ensures
            match cursor_of(self.alive, self.spelling, *statement, params, *options) {
                Ok((statement, rows)) => r.batch_rows == rows && is_task(r.task, Ok(statement), self.spelling),
                Err(words) => r.batch_rows is None && is_task(r.task, Err(words), self.spelling),
            },
    {
        if !self.alive {
            return Started { task: carried(CLOSED.to_owned(), self.spelling), batch_rows: None };
        }
        match text(statement, "statement") {
            Err(words) => return Started { task: carried(words, self.spelling), batch_rows: None },
            Ok(_) => {},
        }
        match self.spell(options) {
            Err(words) => return Started { task: carried(words, self.spelling), batch_rows: None },
            Ok(_) => {},
        }
        match batch_rows(batch(options)) {
            Err(words) => Started { task: carried(words, self.spelling), batch_rows: None },
            Ok(rows) => match self.read(statement, params, options) {
                Ok(task) => Started { task, batch_rows: rows },
                Err(words) => Started { task: carried(words, self.spelling), batch_rows: None },
            },
        }
    }

    /// The task a profile runs as, whether or not it is going to work.
    pub fn profile(&self, statement: &Js, params: Option<&Js>, options: &Option<Options>) -> (r: QueryTask)
        ensures
            is_task(r, profile_of(self.alive, self.spelling, *statement, params, *options), self.spelling),
    {
        let call: Named = self.named(statement, "statement");
        if let Some(words) = call.refused {
            return carried(words, self.spelling);
        }
        match bind(params) {
            Err(words) => carried(words, self.spelling),
            Ok(params) => match signalled(options) {
                Err(words) => carried(words, self.spelling),
                Ok(watch) => QueryTask {
                    source: Source::Text(call.name),
                    params,
                    spelling: self.spelling,
                    watch,
                    refused: None,
                },
            },
        }
    }

    /// Reads a call to prepare a statement.
    pub fn prepare(&self, statement: &Js) -> (r: Named)
        ensures
            is_named(r, named_of(self.alive, *statement, "statement"@)),
    {
        self.named(statement, "statement")
    }

    /// Reads a call for the plan of a statement.
    pub fn explain(&self, statement: &Js) -> (r: Named)
        ensures
            is_named(r, named_of(self.alive, *statement, "statement"@)),
    {
        self.named(statement, "statement")
    }

    /// Reads a call for another connection to the same database. The switches this one was
    /// opened with come across.
    pub fn duplicate(&self) -> (r: DuplicateTask)
        ensures
            r.spelling == self.spelling,
            r.path@ == self.path@,
            r.read_only == self.read_only,
            r.memory == self.memory,
            seen(r.refused) == (if self.alive { None } else { Some(CLOSED@) }),
    {
        DuplicateTask {
            spelling: self.spelling,
            path: self.path.clone(),
            read_only: self.read_only,
            memory: self.memory,
            refused: if self.alive { None } else { Some(CLOSED.to_owned()) },
        }
    }
}

impl DuplicateTask {
    /// The connection a fork becomes, which is outside whatever transaction the connection it
    /// came from is in.
    pub fn made(self) -> (r: Connection)
        ensures
            r.alive,
            r.slot == Slot::Held,
            !r.in_txn,
            r.rows == 0,
            r.spelling == self.spelling,
            r.path@ == self.path@,
            r.read_only == self.read_only,
            r.memory == self.memory,
    {
        Connection::new(self.spelling, self.path, self.read_only, self.memory)
    }
}

/// A connection once it has been told to close: closed, and with nothing in its slot, unless
/// what is there is a session nothing can vouch for.
pub open spec fn closing(conn: Connection) -> Connection {
    if conn.alive {
        Connection {
            alive: false,
            slot: if conn.slot == Slot::Poisoned { Slot::Poisoned } else { Slot::Empty },
            ..conn
        }
    } else {
        conn
    }
}

/// A connection whose session a stream has taken out of the slot.
pub open spec fn lent(conn: Connection) -> Connection {
    Connection { slot: Slot::Empty, ..conn }
}

/// A connection a stream has given its session back to, and what the session said about a
/// transaction. A connection closed meanwhile does not have it back.
pub open spec fn restored(conn: Connection, in_transaction: bool) -> Connection {
    Connection {
        slot: if conn.alive && conn.slot == Slot::Empty { Slot::Held } else { conn.slot },
        in_txn: in_transaction,
        ..conn
    }
}

/// A connection one statement has become the owner of.
pub open spec fn beginning(conn: Connection) -> Connection {
    Connection { rows: 0, ..conn }
}

/// A connection a statement has run on, and what the session said about a transaction.
pub open spec fn answered(conn: Connection, rows: u64, in_transaction: bool) -> Connection {
    Connection { rows, in_txn: in_transaction, ..conn }
}

/// A connection once somebody has looked in its slot.
pub open spec fn reaching(conn: Connection, slot: Slot) -> Connection {
    Connection { slot, ..conn }
}

/// A connection once something that is no statement is done with its session.
pub open spec fn leaving(conn: Connection, in_transaction: bool) -> Connection {
    Connection { in_txn: in_transaction, ..conn }
}

/// What a statement on this connection is told when it cannot have the session.
pub open spec fn told_by(conn: Connection) -> Option<Seq<char>> {
    unreachable_as(conn.slot, conn.alive)
}

impl Connection {
    /// A statement is about to run, and the count it reports its rows through starts again at
    /// zero.
    pub fn began(&mut self)
        ensures
            *final(self) == beginning(*old(self)),
    {
        self.rows = 0;
    }

    /// A statement has run: how many rows it read, and whether the session is inside a
    /// transaction now.
    pub fn ran(&mut self, rows: u64, in_transaction: bool)
        ensures
            *final(self) == answered(*old(self), rows, in_transaction),
    {
        self.rows = rows;
        self.in_txn = in_transaction;
    }

    /// Somebody has the session's lock and found this in the slot. Answers whether they can have
    /// the session, and what they are told when they cannot.
    pub fn reached(&mut self, slot: Slot) -> (r: Result<(), String>)
        ensures
            *final(self) == reaching(*old(self), slot),
            match r {
                Ok(()) => told_by(*final(self)) is None,
                Err(words) => told_by(*final(self)) == Some(words@),
            },
    {
        self.slot = slot;
        reach(slot, self.alive)
    }

    /// Something that is no statement is done with the session, which says whether it is inside
    /// a transaction now. The rows are still the last statement's.
    pub fn left(&mut self, in_transaction: bool)
        ensures
            *final(self) == leaving(*old(self), in_transaction),
    {
        self.in_txn = in_transaction;
    }

    /// A stream is done with the session. Answers whether it goes back in the slot, which it
    /// does unless the connection was closed underneath the stream.
    pub fn restore(&mut self, in_transaction: bool) -> (r: bool)
        ensures
            *final(self) == restored(*old(self), in_transaction),
            r == (old(self).alive && old(self).slot == Slot::Empty),
    {
        self.in_txn = in_transaction;
        if self.alive && self.slot == Slot::Empty {
            self.slot = Slot::Held;
            true
        } else {
            false
        }
    }

    /// Closes the connection and releases the database. Closing twice does nothing the second
    /// time.
    pub fn close(&mut self) -> (r: Close)
        ensures
            *final(self) == closing(*old(self)),
            r == (if old(self).alive && old(self).slot == Slot::Held { Close::Release } else { Close::Nothing }),
    {
        if !self.alive {
            return Close::Nothing;
        }
        self.alive = false;
        match self.slot {
            Slot::Held => {
                self.slot = Slot::Empty;
                Close::Release
            },
            _ => Close::Nothing,
        }
    }
}

/// Closing twice is closing once.
pub proof fn law_closing_twice(conn: Connection)
    ensures
        closing(closing(conn)) == closing(conn),
        !closing(conn).alive,
{
}

/// A closed connection stays closed: no statement has the session again, and a stream that was
/// reading when it closed does not bring it back.
pub proof fn law_closed_stays_closed(conn: Connection, in_transaction: bool)
    requires
        conn.alive,
    ensures
        told_by(closing(conn)) == Some(if conn.slot == Slot::Poisoned { POISONED@ } else { CLOSED@ }),
        told_by(restored(closing(lent(conn)), in_transaction)) == Some(CLOSED@),
{
}

/// While a stream has the session the next statement is told so rather than left waiting, and
/// once the stream is done the next statement has it.
pub proof fn law_a_stream_is_one_statement(conn: Connection, in_transaction: bool)
    requires
        conn.alive,
        told_by(conn) is None,
    ensures
        told_by(lent(conn)) == Some(STREAMING@),
        told_by(restored(lent(conn), in_transaction)) is None,
{
}

/// The rows a statement has read start at nothing when it starts, and what they came to holds
/// until the next one starts, whatever else is done with the connection.
pub proof fn law_rows_are_the_statements(conn: Connection, rows: u64, in_transaction: bool, slot: Slot, later: bool)
    ensures
        beginning(conn).rows == 0,
        answered(beginning(conn), rows, in_transaction).rows == rows,
        closing(answered(beginning(conn), rows, in_transaction)).rows == rows,
        restored(answered(beginning(conn), rows, in_transaction), in_transaction).rows == rows,
        lent(answered(beginning(conn), rows, in_transaction)).rows == rows,
        reaching(answered(beginning(conn), rows, in_transaction), slot).rows == rows,
        leaving(answered(beginning(conn), rows, in_transaction), later).rows == rows,
{
}

/// Why a statement that is about to run does not.
pub enum Bar {
    /// This client refuses it, in these words.
    Words(Seq<char>),
    /// The caller's signal fired first.
    Aborted,
}

/// Whether a signal has fired, when there is one.
pub open spec fn fired(watch: Option<Watch>) -> bool {
    watch matches Some(watch) && watch.shared.asked
}

/// What a stream on this connection is told when it cannot have the session: what any statement
/// is, but for a session nothing can vouch for, of which it speaks as a stream.
pub open spec fn told_a_stream(conn: Connection) -> Option<Seq<char>> {
    if conn.slot == Slot::Poisoned { Some(stream::POISONED@) } else { told_by(conn) }
}

/// Why a statement does not run, when it does not: what the call was refused with, then what
/// the connection says, then the signal.
pub open spec fn barred(task: QueryTask, conn: Connection, watch: Option<Watch>, streams: bool) -> Option<Bar> {
    match task.refused {
        Some(words) => Some(Bar::Words(words@)),
        None => match (if streams { told_a_stream(conn) } else { told_by(conn) }) {
            Some(words) => Some(Bar::Words(words)),
            None => if fired(watch) { Some(Bar::Aborted) } else { None },
        },
    }
}

/// A signal as a statement leaves it, when there is one: whether it fired is as it was, and it
/// finds a statement running or none.
pub open spec fn watched(before: Option<Watch>, after: Option<Watch>, running: bool) -> bool {
    match (before, after) {
        (Some(before), Some(after)) => after.shared.asked == before.shared.asked && after.shared.running == running,
        (None, None) => true,
        _ => false,
    }
}

impl QueryTask {
    /// A statement is about to run: it takes the connection, or is told why it cannot.
    ///
    /// From here the connection is this statement's, so this is where the rows it reads start
    /// being counted and where a signal can start stopping it. A signal that fired first ends
    /// the statement without the engine ever seeing it, which is the whole point of asking. A
    /// stream takes the session out of the slot.
    pub fn begin<E>(&mut self, conn: &mut Connection, watch: &mut Option<Watch>, streams: bool) -> (r: Result<
        (),
        Failure<E>,
    >)
        ensures
            *final(self) == (QueryTask { refused: None, ..*old(self) }),
            match barred(*old(self), *old(conn), *old(watch), streams) {
                Some(Bar::Words(words)) => {
                    &&& refused(r, words)
                    &&& *final(conn) == *old(conn)
                    &&& *final(watch) == *old(watch)
                },
                Some(Bar::Aborted) => {
                    &&& r == Err::<(), Failure<E>>(Failure::Aborted)
                    &&& *final(conn) == beginning(*old(conn))
                    &&& watched(*old(watch), *final(watch), false)
                },
                None => {
                    &&& r is Ok
                    &&& *final(conn) == (if streams { lent(beginning(*old(conn))) } else { beginning(*old(conn)) })
                    &&& watched(*old(watch), *final(watch), true)
                },
            },
    {
        if let Some(words) = self.refused.take() {
            return Err(Failure::Usage(words));
        }
        if streams && conn.slot == Slot::Poisoned {
            return Err(Failure::Usage(stream::POISONED.to_owned()));
        }
        match reach(conn.slot, conn.alive) {
            Ok(()) => {},
            Err(words) => return Err(Failure::Usage(words)),
        }
        conn.began();
        match watch {
            Some(watch) => {
                if !watch.enter() {
                    watch.leave();
                    return Err(Failure::Aborted);
                }
            },
            None => {},
        }
        if streams {
            conn.slot = Slot::Empty;
        }
        Ok(())
    }
}

/// What a statement that has run answers, by whether the caller's signal fired and whether the
/// failure, when it is one, is that the engine was interrupted.
pub open spec fn settled<T, E>(asked: bool, interrupted: bool, result: Result<T, E>) -> Result<T, Failure<E>> {
    match result {
        Ok(t) => Ok(t),
        Err(err) => if asked && interrupted { Err(Failure::Aborted) } else { Err(Failure::Engine(err)) },
    }
}

/// A statement has run: `rows` is how many it read, `in_transaction` is what the session says,
/// and `interrupted` is whether the failure, when it is one, is that the engine was interrupted.
///
/// An interrupt is the engine's answer to somebody having asked, and the only somebody is the
/// caller's signal. It is reported as an abort rather than as the engine's condition, because a
/// caller who wrote `catch` around a timeout wants their own reason back.
pub fn finish<T, E>(
    conn: &mut Connection,
    watch: &mut Option<Watch>,
    rows: u64,
    in_transaction: bool,
    interrupted: bool,
    result: Result<T, E>,
) -> (r: Result<T, Failure<E>>)
    ensures
        r == settled(fired(*old(watch)), interrupted, result),
        *final(conn) == answered(*old(conn), rows, in_transaction),
        watched(*old(watch), *final(watch), false),
{
    conn.ran(rows, in_transaction);
    let mut asked: bool = false;
    match watch {
        Some(watch) => {
            watch.leave();
            asked = watch.asked();
        },
        None => {},
    }
    match result {
        Ok(t) => Ok(t),
        Err(err) => if asked && interrupted {
            Err(Failure::Aborted)
        } else {
            Err(Failure::Engine(err))
        },
    }
}

/// A statement leaves the connection as it found it, however it ended: the next one has it, and
/// what it was opened with is what it was.
pub proof fn law_a_statement_leaves_the_connection(conn: Connection, rows: u64, in_transaction: bool)
    ensures
        told_by(answered(beginning(conn), rows, in_transaction)) == told_by(conn),
        told_by(beginning(conn)) == told_by(conn),
        answered(beginning(conn), rows, in_transaction).spelling == conn.spelling,
        answered(beginning(conn), rows, in_transaction).path == conn.path,
        answered(beginning(conn), rows, in_transaction).read_only == conn.read_only,
        answered(beginning(conn), rows, in_transaction).memory == conn.memory,
{
}

/// What a failed statement rejects the caller's promise with.
pub enum Thrown<E> {
    /// The exception for a condition the engine raised.
    Condition(E),
    /// The exception for a mistake, in these words.
    Mistake(String),
    /// The signal's own reason.
    Reason,
    /// The exception for an abort, in these words.
    Abort(&'static str),
}

/// The exception a failed statement rejects the caller's promise with, by whether there is a
/// signal with a reason.
///
/// An abort rejects with the signal's own reason, which is what `fetch` does: a caller who
/// wrote `AbortSignal.timeout(50)` gets back the `TimeoutError` that signal carries.
pub fn failed<E>(failure: Failure<E>, reason: bool) -> (r: Thrown<E>)
    ensures
        match failure {
            Failure::Engine(err) => r == Thrown::<E>::Condition(err),
            Failure::Usage(words) => r matches Thrown::Mistake(said) && said@ == words@,
            Failure::Aborted => if reason {
                r == Thrown::<E>::Reason
            } else {
                r matches Thrown::Abort(said) && said@ == ABORTED@
            },
        },
{
    match failure {
        Failure::Engine(err) => Thrown::Condition(err),
        Failure::Usage(words) => Thrown::Mistake(words),
        Failure::Aborted => if reason {
            Thrown::Reason
        } else {
            Thrown::Abort(ABORTED)
        },
    }
}

/// How many of a row's values have a column to go under.
pub open spec fn width(columns: Seq<String>, row: Seq<Value>) -> nat {
    if columns.len() < row.len() { columns.len() } else { row.len() }
}

/// Why the first `n` values of a row cannot be spelled as asked, when they cannot.
pub open spec fn row_unspellable(
    columns: Seq<String>,
    row: Seq<Value>,
    spelling: Spelling,
    present: bool,
    n: nat,
) -> Option<Seq<char>>
    decreases n,
{
    if n == 0 {
        None
    } else {
        match row_unspellable(columns, row, spelling, present, (n - 1) as nat) {
            Some(words) => Some(words),
            None => unspellable(columns[n - 1]@, row[n - 1], spelling, present),
        }
    }
}

/// Why the first `n` rows cannot be spelled as asked, when they cannot.
pub open spec fn rows_unspellable(
    columns: Seq<String>,
    rows: Seq<Vec<Value>>,
    spelling: Spelling,
    present: bool,
    n: nat,
) -> Option<Seq<char>>
    decreases n,
{
    if n == 0 {
        None
    } else {
        match rows_unspellable(columns, rows, spelling, present, (n - 1) as nat) {
            Some(words) => Some(words),
            None => row_unspellable(columns, rows[n - 1]@, spelling, present, width(columns, rows[n - 1]@)),
        }
    }
}

/// Whether this is a row, as the object keyed by column name.
pub open spec fn is_row(made: Made, columns: Seq<String>, row: Seq<Value>, shape: Shape) -> bool {
    &&& made matches Made::Object(fields)
    &&& fields@.len() == width(columns, row)
    &&& forall|i: int|
        0 <= i < fields@.len() ==> (#[trigger] fields@[i]).0@ == columns[i]@ && spells(fields@[i].1, row[i], shape)
}

proof fn lemma_row_stops(columns: Seq<String>, row: Seq<Value>, spelling: Spelling, present: bool, k: nat, n: nat)
    requires
        k <= n,
        row_unspellable(columns, row, spelling, present, k) is Some,
    ensures
        row_unspellable(columns, row, spelling, present, n) == row_unspellable(columns, row, spelling, present, k),
    decreases n,
{
    if k < n {
        lemma_row_stops(columns, row, spelling, present, k, (n - 1) as nat);
    }
}

proof fn lemma_rows_stop(
    columns: Seq<String>,
    rows: Seq<Vec<Value>>,
    spelling: Spelling,
    present: bool,
    k: nat,
    n: nat,
)
    requires
        k <= n,
        rows_unspellable(columns, rows, spelling, present, k) is Some,
    ensures
        rows_unspellable(columns, rows, spelling, present, n) == rows_unspellable(columns, rows, spelling, present, k),
    decreases n,
{
    if k < n {
        lemma_rows_stop(columns, rows, spelling, present, k, (n - 1) as nat);
    }
}

fn one_row(columns: &Vec<String>, row: &Vec<Value>, shape: &Shape, present: bool) -> (r: Result<Made, String>)
    ensures
        match r {
            Ok(made) => row_unspellable(columns@, row@, shape.spelling, present, width(columns@, row@)) is None && is_row(
                made,
                columns@,
                row@,
                *shape,
            ),
            Err(words) => row_unspellable(columns@, row@, shape.spelling, present, width(columns@, row@)) == Some(
                words@,
            ),
        },
{
    let mut fields: Vec<(String, Made)> = Vec::new();
    let mut at: usize = 0;
    while at < columns.len() && at < row.len()
        invariant
            at <= width(columns@, row@),
            fields@.len() == at,
            row_unspellable(columns@, row@, shape.spelling, present, at as nat) is None,
            forall|i: int|
                0 <= i < at ==> (#[trigger] fields@[i]).0@ == columns@[i]@ && spells(fields@[i].1, row@[i], *shape),
        decreases columns@.len() - at,
    {
        match to_js(columns[at].as_str(), &row[at], shape, present) {
            Ok(made) => fields.push((columns[at].clone(), made)),
            Err(words) => {
                proof {
                    lemma_row_stops(columns@, row@, shape.spelling, present, (at + 1) as nat, width(columns@, row@));
                }
                return Err(words);
            },
        }
        at += 1;
    }
    Ok(Made::Object(fields))
}

/// The rows of a result, as objects keyed by column name, in order.
///
/// What a wrapper would have carried rides beside the array they go in: the columns, the
/// status and the notices are there for the caller that wants them, and not enumerable, so
/// that the array spreads, stringifies and compares as the plain array of rows it is.
pub fn rows(columns: &Vec<String>, given: &Vec<Vec<Value>>, shape: &Shape, present: bool) -> (r: Result<
    Vec<Made>,
    String,
>)
    ensures
        match r {
            Ok(made) => {
                &&& rows_unspellable(columns@, given@, shape.spelling, present, given@.len()) is None
                &&& made@.len() == given@.len()
                &&& forall|i: int| 0 <= i < given@.len() ==> is_row(#[trigger] made@[i], columns@, given@[i]@, *shape)
            },
            Err(words) => rows_unspellable(columns@, given@, shape.spelling, present, given@.len()) == Some(words@),
        },
{
    let mut made: Vec<Made> = Vec::new();
    let mut at: usize = 0;
    while at < given.len()
        invariant
            at <= given@.len(),
            made@.len() == at,
            rows_unspellable(columns@, given@, shape.spelling, present, at as nat) is None,
            forall|i: int| 0 <= i < at ==> is_row(#[trigger] made@[i], columns@, given@[i]@, *shape),
        decreases given@.len() - at,
    {
        match one_row(columns, &given[at], shape, present) {
            Ok(one) => made.push(one),
            Err(words) => {
                proof {
                    lemma_rows_stop(columns@, given@, shape.spelling, present, (at + 1) as nat, given@.len());
                }
                return Err(words);
            },
        }
        at += 1;
    }
    Ok(made)
}

/// What the engine wanted to say about a statement that ran anyway.
pub struct Notice {
    pub code: String,
    pub condition: String,
    pub message: String,
    pub doc_url: String,
}

/// A notice as the object a caller reads.
pub open spec fn notice_as(notice: Notice) -> Shown {
    Shown::Object(notice_fields(notice))
}

/// The properties of a notice.
pub open spec fn notice_fields(notice: Notice) -> Seq<(Seq<char>, Shown)> {
    Seq::empty().push(("code"@, Shown::Text(notice.code@))).push(
            ("condition"@, Shown::Text(notice.condition@)),
        ).push(("message"@, Shown::Text(notice.message@))).push(("docUrl"@, Shown::Text(notice.doc_url@)))
}

/// The notices of a statement as the list a caller reads.
pub open spec fn notices_as(raised: Seq<Notice>) -> Shown {
    Shown::List(raised.map_values(|notice: Notice| notice_as(notice)))
}

fn noticed(notice: &Notice) -> (r: Made)
    ensures
        shows(r, notice_as(*notice)),
{
    let mut fields: Vec<(String, Made)> = Vec::new();
    property(&mut fields, "code", Made::Text(notice.code.clone()));
    property(&mut fields, "condition", Made::Text(notice.condition.clone()));
    property(&mut fields, "message", Made::Text(notice.message.clone()));
    property(&mut fields, "docUrl", Made::Text(notice.doc_url.clone()));
    proof {
        assert(properties(fields@, notice_fields(*notice)));
    }
    object(fields)
}

/// The notices of a statement.
///
/// The same four fields wherever they are read from, because a notice off a stream and a
/// notice off a result are the same thing.
pub fn notices(raised: &Vec<Notice>) -> (r: Made)
    ensures
        shows(r, notices_as(raised@)),
{
    let mut made: Vec<Made> = Vec::new();
    let mut at: usize = 0;
    while at < raised.len()
        invariant
            at <= raised@.len(),
            made@.len() == at,
            forall|i: int| 0 <= i < at ==> shows(#[trigger] made@[i], notice_as(raised@[i])),
        decreases raised@.len() - at,
    {
        made.push(noticed(&raised[at]));
        at += 1;
    }
    proof {
        assert(elements(made@, raised@.map_values(|notice: Notice| notice_as(notice))));
    }
    listing(made)
}

proof fn lemma_first_unbound(fields: Seq<(String, Js)>, n: nat)
    requires
        n <= fields.len(),
    ensures
        unbound(fields, n) is None <==> forall|i: int|
            0 <= i < n ==> unbindable((#[trigger] fields[i]).0@, fields[i].1, 0) is None,
        unbound(fields, n) matches Some(words) ==> exists|i: int|
            0 <= i < n && (unbindable((#[trigger] fields[i]).0@, fields[i].1, 0) matches Some(trouble) && trouble.words()
                == words) && forall|j: int| 0 <= j < i ==> unbindable((#[trigger] fields[j]).0@, fields[j].1, 0) is None,
    decreases n,
{
    if n > 0 {
        lemma_first_unbound(fields, (n - 1) as nat);
        if unbound(fields, (n - 1) as nat) is None {
            assert(fields[n - 1] == fields[n - 1]);
            if let Some(trouble) = unbindable(fields[n - 1].0@, fields[n - 1].1, 0) {
                assert(0 <= n - 1 < n && unbindable(fields[n - 1].0@, fields[n - 1].1, 0) is Some);
            }
        }
    }
}

/// Parameters are bound one for one: each under the name it was written under, to what its own value
/// binds as, in the order they were written. They are taken exactly when every one of them binds,
/// and otherwise refused in the words of the first that does not.
pub proof fn law_parameters_keep_their_names(thing: Thing, fields: Vec<(String, Js)>, bound: Seq<(String, Value)>, at: int)
    requires
        thing.items is None,
        thing.keys == Ok::<_, String>(fields),
    ensures
        params_of(Some(&Js::Object(thing))) is Ok <==> forall|i: int|
            0 <= i < fields@.len() ==> unbindable((#[trigger] fields@[i]).0@, fields@[i].1, 0) is None,
        params_of(Some(&Js::Object(thing))) matches Err(words) ==> exists|i: int|
            0 <= i < fields@.len() && (unbindable((#[trigger] fields@[i]).0@, fields@[i].1, 0) matches Some(trouble)
                && trouble.words() == words) && forall|j: int|
                0 <= j < i ==> unbindable((#[trigger] fields@[j]).0@, fields@[j].1, 0) is None,
        params_of(Some(&Js::Object(thing))) matches Ok(read) ==> (all_bound(bound, read) && 0 <= at < fields@.len()
            ==> bound.len() == fields@.len() && bound[at].0@ == fields@[at].0@ && binds(
            bound[at].1,
            fields@[at].0@,
            fields@[at].1,
        )),
{
    lemma_first_unbound(fields@, fields@.len());
}

/// No parameters, `undefined` and `null` bind nothing; an array and what is no object are refused.
pub proof fn law_parameters_are_an_object(thing: Thing, value: Js, bound: Seq<(String, Value)>)
    ensures
        params_of(None) matches Ok(read) && (all_bound(bound, read) ==> bound.len() == 0),
        params_of(Some(&Js::Null)) == params_of(None),
        params_of(Some(&Js::Undefined)) == params_of(None),
        thing.items is Some ==> params_of(Some(&Js::Object(thing))) is Err,
        !(value is Null) && !(value is Undefined) && !(value is Object) ==> params_of(Some(&value)) is Err,
{
}

/// A statement runs as it was asked to: its own text, its own parameters, the integers its options
/// name and otherwise the connection's, the connection's choice of `Temporal`, and watching a
/// signal exactly when one was given. A closed connection reads none.
pub proof fn law_a_statement_is_what_was_asked(
    alive: bool,
    own: Spelling,
    statement: Js,
    params: Option<&Js>,
    options: Option<Options>,
    task: QueryTask,
)
    requires
        is_task(task, statement_of(alive, own, statement, params, options), own),
    ensures
        !alive ==> (task.refused matches Some(words) && words@ == CLOSED@),
        task.refused is None ==> alive && (statement matches Js::Text(text) && (task.source matches Source::Text(said)
            && said@ == text@)) && task.spelling.temporal == own.temporal && (options is None ==> task.spelling.ints
            == own.ints && !task.watch) && (options matches Some(given) ==> (match given.big_int_mode {
            Js::Null | Js::Undefined => task.spelling.ints == own.ints,
            Js::Text(mode) => (mode@ == "bigint"@ ==> task.spelling.ints is BigInt) && (mode@ == "number"@
                ==> task.spelling.ints is Number) && (mode@ == "bigint"@ || mode@ == "number"@),
            _ => false,
        }) && (match given.signal {
            Js::Null | Js::Undefined => !task.watch,
            Js::Object(_) => task.watch,
            _ => false,
        })) && (params_of(params) matches Ok(read) && all_bound(task.params@, read)),
        task.refused is Some ==> task.params@.len() == 0 && task.spelling == own && !task.watch,
{
    reveal_strlit("bigint");
    reveal_strlit("number");
    assert("bigint"@[0] != "number"@[0]);
}

/// A cursor and a profile read the statement a query does: the same text and the same parameters,
/// the cursor with the batch it was asked for, the profile with the connection's own spelling.
pub proof fn law_a_cursor_reads_the_same_statement(
    alive: bool,
    own: Spelling,
    statement: Js,
    params: Option<&Js>,
    options: Option<Options>,
)
    ensures
        cursor_of(alive, own, statement, params, options) matches Ok(both) ==> statement_of(
            alive,
            own,
            statement,
            params,
            options,
        ) == Ok::<_, Seq<char>>(both.0) && batch_rows_of(batch_in(&options)) == Ok::<_, Seq<char>>(both.1),
        cursor_of(alive, own, statement, params, options) is Ok <==> statement_of(alive, own, statement, params, options)
            is Ok && batch_rows_of(batch_in(&options)) is Ok,
        statement_of(alive, own, statement, params, options) matches Ok(read) ==> (profile_of(
            alive,
            own,
            statement,
            params,
            options,
        ) matches Ok(profiled) && profiled.text == read.text && profiled.params == read.params && profiled.watch
            == read.watch && profiled.spelling == own),
{
}

/// Options are read as what they are and never made into what they are not: a flag is a boolean, a
/// batch is a whole number of rows from one to 2^32 - 1, a mode is one of the two, a signal is an
/// object that says whether it was aborted, and what is absent asks for nothing.
pub proof fn law_options_are_read_as_they_are(value: Js, name: Seq<char>, connection: Ints, aborted: Kind)
    ensures
        flag_of(None, name) == Ok::<Option<bool>, Seq<char>>(None),
        flag_of(Some(&value), name) matches Ok(read) ==> match read {
            Some(b) => value == Js::Boolean(b),
            None => value is Null || value is Undefined,
        },
        value is Boolean || value is Null || value is Undefined ==> flag_of(Some(&value), name) is Ok,
        batch_rows_of(None) == Ok::<Option<u32>, Seq<char>>(None),
        batch_rows_of(Some(&value)) matches Ok(read) ==> match read {
            Some(rows) => rows >= 1 && (value matches Js::Number { bits, .. } && whole(bits) && integral(bits) == rows),
            None => value is Null || value is Undefined,
        },
        value is Null || value is Undefined || (value matches Js::Number { bits, .. } && whole(bits) && 1 <= integral(bits)
            <= 0xffff_ffff) <==> batch_rows_of(Some(&value)) is Ok,
        int_mode_of(None, connection) == Ok::<_, Seq<char>>(connection),
        value is Null || value is Undefined ==> int_mode_of(Some(&value), connection) == Ok::<_, Seq<char>>(connection),
        value matches Js::Text(mode) ==> (int_mode_of(Some(&value), connection) is Ok <==> mode@ == "bigint"@ || mode@
            == "number"@),
        int_mode_of(Some(&value), connection) is Ok ==> value is Text || value is Null || value is Undefined,
        watches(None, Ok(aborted)) == Ok::<_, Seq<char>>(false),
        watches(Some(&value), Ok(aborted)) == Ok::<_, Seq<char>>(true) <==> value is Object && aborted is Boolean,
        watches(Some(&value), Ok(aborted)) == Ok::<_, Seq<char>>(false) <==> value is Null || value is Undefined,
{
}

/// A connection opens as it was asked to: at its path, in memory where it has none, reading only and
/// with `Temporal` values exactly where the options say so, with the memory and the threads they
/// name, and with `bigint` integers where they name no mode. It is refused for a mode that is none
/// and for `Temporal` on a runtime without one.
pub proof fn law_a_connection_opens_as_asked(opening: Opening, task: ConnectTask, options: ConnectOptions)
    requires
        task.options == Some(options),
        task.refused is None,
    ensures
        connect_refused(task) is None <==> (options.big_int_mode matches Some(mode) ==> mode@ == "bigint"@ || mode@
            == "number"@) && (options.temporal == Some(true) ==> task.has_temporal),
        connect_refused(task) is None && opens_as(opening, task) ==> opening.path@ == task.path@ && opening.memory
            == task.memory && opening.read_only == (options.read_only == Some(true)) && opening.spelling.temporal == (
        options.temporal == Some(true)) && (options.big_int_mode is None ==> opening.spelling.ints is BigInt) && (
        options.big_int_mode matches Some(mode) ==> (mode@ == "number"@ <==> opening.spelling.ints is Number)) && (
        options.threads is None <==> opening.threads is None) && (options.threads matches Some(n) ==> opening.threads
            == Some(n as usize)) && (options.memory_limit is None <==> opening.memory_limit is None) && (
        options.memory_limit matches Some(limit) ==> opening.memory_limit == Some(limit.low as usize)),
{
    reveal_strlit("bigint");
    reveal_strlit("number");
    assert("bigint"@[0] != "number"@[0]);
}

/// A path opens the database at it, options alone open one in memory with themselves, and a first
/// argument that is neither is refused.
pub proof fn law_a_path_is_where_the_database_is(
    path: String,
    value: Js,
    thing: Thing,
    first: ConnectOptions,
    read: Result<ConnectOptions, String>,
    second: Option<ConnectOptions>,
)
    requires
        path@ != MEMORY@,
    ensures
        arguments_of(Some(Js::Text(path)), read, second) == (Some(path@), second, None::<Seq<char>>),
        arguments_of(Some(Js::Object(thing)), Ok(first), second) == (None::<Seq<char>>, Some(first), None::<Seq<char>>),
        !(value is Text) && !(value is Object) && !(value is Null) && !(value is Undefined) ==> arguments_of(
            Some(value),
            read,
            second,
        ).2 is Some,
{
}

/// A statement runs exactly when its call was not refused, the session is in its slot and its signal
/// has not fired; a refusal is told before the state of the connection, and that before the signal.
pub proof fn law_a_statement_runs_when_nothing_bars_it(task: QueryTask, conn: Connection, watch: Option<Watch>, streams: bool)
    ensures
        barred(task, conn, watch, streams) is None <==> task.refused is None && conn.slot is Held && !(watch matches Some(w)
            && w.shared.asked),
        task.refused matches Some(words) ==> barred(task, conn, watch, streams) == Some(Bar::Words(words@)),
        task.refused is None && !(conn.slot is Held) ==> (barred(task, conn, watch, streams) matches Some(bar)
            && bar is Words),
        barred(task, conn, watch, streams) matches Some(bar) ==> (bar is Aborted ==> task.refused is None && conn.slot is Held
            && (watch matches Some(w) && w.shared.asked)),
{
}

/// A statement that answered has answered, whatever its signal did. One that failed is told as an
/// abort exactly when its signal fired and the engine stopped for it, and otherwise by the
/// condition the engine raised.
pub proof fn law_an_abort_is_told_as_one<T, E>(asked: bool, interrupted: bool, answer: T, raised: E)
    ensures
        settled::<T, E>(asked, interrupted, Ok(answer)) == Ok::<T, Failure<E>>(answer),
        settled::<T, E>(asked, interrupted, Err(raised)) == (if asked && interrupted {
            Err::<T, Failure<E>>(Failure::Aborted)
        } else {
            Err::<T, Failure<E>>(Failure::Engine(raised))
        }),
{
}

/// What each step changes of a connection is what it is for, and the rest of it stays: a close ends
/// it and empties its slot, a loan empties the slot, a return fills it again on an open connection
/// and says whether a transaction is running, and none of them touches what it was opened with.
pub proof fn law_a_step_changes_what_it_is_for(conn: Connection, in_transaction: bool, rows: u64, slot: Slot)
    ensures
        conn.alive ==> !closing(conn).alive && (conn.slot is Poisoned <==> closing(conn).slot is Poisoned) && (
        !(conn.slot is Poisoned) ==> closing(conn).slot is Empty) && closing(conn).in_txn == conn.in_txn,
        !conn.alive ==> closing(conn) == conn,
        closing(conn).spelling == conn.spelling && closing(conn).path == conn.path && closing(conn).read_only
            == conn.read_only && closing(conn).memory == conn.memory,
        lent(conn).slot is Empty && lent(conn).alive == conn.alive && lent(conn).in_txn == conn.in_txn && lent(conn).path
            == conn.path && lent(conn).spelling == conn.spelling,
        restored(conn, in_transaction).in_txn == in_transaction && restored(conn, in_transaction).alive == conn.alive
            && restored(conn, in_transaction).path == conn.path && restored(conn, in_transaction).spelling == conn.spelling,
        conn.alive && conn.slot is Empty ==> restored(conn, in_transaction).slot is Held,
        !conn.alive || !(conn.slot is Empty) ==> restored(conn, in_transaction).slot == conn.slot,
        answered(conn, rows, in_transaction).in_txn == in_transaction && answered(conn, rows, in_transaction).rows == rows
            && answered(conn, rows, in_transaction).slot == conn.slot,
        beginning(conn).in_txn == conn.in_txn && beginning(conn).slot == conn.slot && beginning(conn).alive == conn.alive,
        reaching(conn, slot).slot == slot && reaching(conn, slot).alive == conn.alive && reaching(conn, slot).in_txn
            == conn.in_txn,
        leaving(conn, in_transaction).in_txn == in_transaction && leaving(conn, in_transaction).slot == conn.slot
            && leaving(conn, in_transaction).alive == conn.alive,
        told_by(conn) is None <==> conn.slot is Held,
{
}

proof fn lemma_row_first(columns: Seq<String>, row: Seq<Value>, spelling: Spelling, present: bool, n: nat)
    ensures
        row_unspellable(columns, row, spelling, present, n) is None <==> forall|i: int|
            0 <= i < n ==> unspellable(columns[i]@, #[trigger] row[i], spelling, present) is None,
    decreases n,
{
    if n > 0 {
        lemma_row_first(columns, row, spelling, present, (n - 1) as nat);
        assert(row[n - 1] == row[n - 1]);
    }
}

/// A row is an object keyed by the names of its columns, in their order, each with the value under
/// it; and it is given exactly when every value of it is spelled.
pub proof fn law_a_row_is_keyed_by_its_columns(
    made: Made,
    columns: Seq<String>,
    row: Seq<Value>,
    shape: Shape,
    present: bool,
    at: int,
)
    requires
        columns.len() == row.len(),
        is_row(made, columns, row, shape),
        0 <= at < row.len(),
    ensures
        made matches Made::Object(fields) && fields@.len() == columns.len() && fields@[at].0@ == columns[at]@ && spells(
            fields@[at].1,
            row[at],
            shape,
        ),
        row_unspellable(columns, row, shape.spelling, present, row.len()) is None <==> forall|i: int|
            0 <= i < row.len() ==> unspellable(columns[i]@, #[trigger] row[i], shape.spelling, present) is None,
{
    lemma_row_first(columns, row, shape.spelling, present, row.len());
    let fields = made->Object_0;
    assert(fields@[at].0@ == columns[at]@);
}

proof fn lemma_rows_first(columns: Seq<String>, rows: Seq<Vec<Value>>, spelling: Spelling, present: bool, n: nat)
    ensures
        rows_unspellable(columns, rows, spelling, present, n) is None <==> forall|i: int|
            0 <= i < n ==> row_unspellable(columns, (#[trigger] rows[i])@, spelling, present, width(columns, rows[i]@)) is None,
    decreases n,
{
    if n > 0 {
        lemma_rows_first(columns, rows, spelling, present, (n - 1) as nat);
        assert(rows[n - 1] == rows[n - 1]);
    }
}

/// Rows are given exactly when every one of them is.
pub proof fn law_rows_are_given_when_each_is(columns: Seq<String>, rows: Seq<Vec<Value>>, spelling: Spelling, present: bool)
    ensures
        rows_unspellable(columns, rows, spelling, present, rows.len()) is None <==> forall|i: int|
            0 <= i < rows.len() ==> row_unspellable(
                columns,
                (#[trigger] rows[i])@,
                spelling,
                present,
                width(columns, rows[i]@),
            ) is None,
{
    lemma_rows_first(columns, rows, spelling, present, rows.len());
}

/// Notices are told one for one and in order, each with its own code, condition, message and page.
pub proof fn law_notices_are_told_as_raised(raised: Seq<Notice>, made: Made, at: int)
    requires
        shows(made, notices_as(raised)),
        0 <= at < raised.len(),
    ensures
        made matches Made::List(list) && list@.len() == raised.len() && (list@[at] matches Made::Object(f) && f@.len() == 4
            && f@[0].0@ == "code"@ && (f@[0].1 matches Made::Text(t) && t@ == raised[at].code@) && f@[1].0@ == "condition"@
            && (f@[1].1 matches Made::Text(t) && t@ == raised[at].condition@) && f@[2].0@ == "message"@
            && (f@[2].1 matches Made::Text(t) && t@ == raised[at].message@) && f@[3].0@ == "docUrl"@
            && (f@[3].1 matches Made::Text(t) && t@ == raised[at].doc_url@)),
{
    let list = made->List_0;
    let each = raised.map_values(|notice: Notice| notice_as(notice));
    assert(shows(list@[at], each[at]));
    let f = list@[at]->Object_0;
    let shown = notice_fields(raised[at]);
    assert(f@.len() == shown.len());
    assert(f@[0].0@ == shown[0].0 && shows(f@[0].1, shown[0].1));
    assert(f@[1].0@ == shown[1].0 && shows(f@[1].1, shown[1].1));
    assert(f@[2].0@ == shown[2].0 && shows(f@[2].1, shown[2].1));
    assert(f@[3].0@ == shown[3].0 && shows(f@[3].1, shown[3].1));
}

/// A name given to an open connection is the string it is, and anything else is refused; a closed
/// connection is given none.
pub proof fn law_a_name_is_a_string(value: Js, what: Seq<char>, call: Named, alive: bool)
    requires
        is_named(call, named_of(alive, value, what)),
    ensures
        call.refused is None <==> alive && value is Text,
        call.refused is None ==> call.name@ == value->Text_0@,
        !alive ==> (call.refused matches Some(words) && words@ == CLOSED@),
        text_of(value, what) is Ok <==> value is Text,
{
}

/// A statement leaves a signal as asked as it found it, and says whether it is running.
pub proof fn law_a_signal_is_left_as_it_was(before: Option<Watch>, after: Option<Watch>, running: bool)
    requires
        watched(before, after, running),
    ensures
        before is Some <==> after is Some,
        fired(before) == fired(after),
        after matches Some(watch) ==> watch.shared.running == running,
{
}

/// An argument or an option the runtime would not hand over is refused for the reason it gave, and
/// never read as one that was left out.
pub proof fn law_what_is_not_read_is_refused(reason: String, what: Seq<char>, connection: Ints, aborted: Kind, thing: Thing)
    ensures
        text_of(Js::Unread(reason), what) == Err::<Seq<char>, _>(reason@),
        flag_of(Some(&Js::Unread(reason)), what) == Err::<Option<bool>, _>(reason@),
        int_mode_of(Some(&Js::Unread(reason)), connection) == Err::<Ints, _>(reason@),
        batch_rows_of(Some(&Js::Unread(reason))) == Err::<Option<u32>, _>(reason@),
        watches(Some(&Js::Unread(reason)), Ok(aborted)) == Err::<bool, _>(reason@),
        watches(Some(&Js::Object(thing)), Err(reason)) == Err::<bool, _>(reason@),
        params_of(Some(&Js::Unread(reason))) == Err::<Seq<(String, Js)>, _>(reason@),
        thing.items is None && thing.keys == Err::<Vec<(String, Js)>, _>(reason) ==> params_of(Some(&Js::Object(thing)))
            == Err::<Seq<(String, Js)>, _>(reason@),
{
}

} // verus!
