//! A statement read a batch at a time, instead of all at once.
//!
//! The engine hands over a batch of rows and is told whether more are wanted, which is a push,
//! and JavaScript wants a pull, so the two are joined by a queue of two batches. The queue is
//! bounded because that is what backpressure is: a reader that stops reading stops the scan two
//! batches later rather than buffering a database into memory behind it.
//!
//! A stream starts when it is first read rather than when it is asked for, so that one made and
//! never read is not a scan holding the connection against every statement after it.

use std::collections::VecDeque;

use vstd::prelude::*;

use crate::conn::{notices, notices_as, Failure, Notice, QueryTask};
use crate::value::{
    law_strings_are_listed_in_order, object, properties, property, shows, strings, texts, Made, Shown,
};

verus! {

/// How many batches may sit between the statement and the reader.
///
/// Two, so that one is being turned into JavaScript values while the next is being made, and no
/// more, because everything past that is memory spent to hide a reader slower than the scan.
pub const QUEUE: usize = 2;

/// How many milliseconds the statement's thread waits on a full queue before it looks up to see
/// whether anybody still wants the rows.
pub const PAUSE: u64 = 25;

/// What a lock says when the thread that held it panicked.
pub const POISONED: &'static str = "the stream was left in an unknown state by a thread that panicked";

/// Everything a streamed statement needs, held until the first read.
pub struct Started {
    pub task: QueryTask,
    /// How many rows a batch holds, when the caller said.
    pub batch_rows: Option<u32>,
}

/// The queue between the statement and the reader, with both ends able to walk away.
pub struct Pipe<T> {
    pub queue: VecDeque<T>,
    /// The reader is gone, so the statement stops.
    pub closed: bool,
    /// The statement is over, so a reader that finds nothing is at the end rather than early.
    pub done: bool,
}

/// What became of something handed over.
pub enum Sent<T> {
    /// It is in the queue.
    Taken,
    /// There is no room for it yet.
    Full(T),
    /// Nobody is reading any more.
    Gone,
}

/// What a read found.
pub enum Received<T> {
    Next(T),
    /// Nothing yet.
    Early,
    /// Nothing, and there will be nothing.
    Over,
}

/// One thing done to a queue, from either end of it.
pub enum Act<T> {
    /// The statement hands something over.
    Send(T),
    /// The reader reads.
    Recv,
    /// The reader goes.
    Close,
    /// The statement ends.
    Finish,
}

/// What one act makes of what a queue holds and of whether its reader has gone.
pub open spec fn stepped<T>(queue: Seq<T>, closed: bool, act: Act<T>) -> (Seq<T>, bool) {
    match act {
        Act::Send(chunk) => (if closed || queue.len() >= QUEUE { queue } else { queue.push(chunk) }, closed),
        Act::Recv => (if queue.len() == 0 { queue } else { queue.skip(1) }, closed),
        Act::Close => (Seq::empty(), true),
        Act::Finish => (queue, closed),
    }
}

impl<T> Pipe<T> {
    /// What is between the statement and the reader, in the order it was handed over.
    pub open spec fn held(&self) -> Seq<T> {
        self.queue@
    }

    /// Never more than the queue holds.
    pub open spec fn wf(&self) -> bool {
        self.held().len() <= QUEUE
    }

    /// A queue with nothing in it, nobody gone from either end of it.
    pub fn new() -> (r: Pipe<T>)
        ensures
            r.wf(),
            r.held() == Seq::<T>::empty(),
            !r.closed,
            !r.done,
    {
        Pipe { queue: VecDeque::with_capacity(QUEUE), closed: false, done: false }
    }

    /// Hands something over, if there is room for it and somebody to read it.
    ///
    /// `alive` is the connection, which can go while the queue is full: a stream that waited
    /// forever for a reader that has gone would be a connection that could never be closed.
    pub fn send(&mut self, chunk: T, alive: bool) -> (r: Sent<T>)
        requires
            old(self).wf(),
        ensures
            final(self).wf(),
            final(self).closed == old(self).closed,
            final(self).done == old(self).done,
            (final(self).held(), final(self).closed) == stepped(old(self).held(), old(self).closed, Act::Send(chunk)),
            if old(self).closed {
                r == Sent::<T>::Gone && final(self).held() == old(self).held()
            } else if old(self).held().len() < QUEUE {
                r == Sent::<T>::Taken && final(self).held() == old(self).held().push(chunk)
            } else if alive {
                r == Sent::Full(chunk) && final(self).held() == old(self).held()
            } else {
                r == Sent::<T>::Gone && final(self).held() == old(self).held()
            },
    {
        if self.closed {
            return Sent::Gone;
        }
        if self.queue.len() >= QUEUE {
            return if alive {
                Sent::Full(chunk)
            } else {
                Sent::Gone
            };
        }
        self.queue.push_back(chunk);
        Sent::Taken
    }

    /// The next thing handed over, in the order it was handed over.
    pub fn recv(&mut self) -> (r: Received<T>)
        requires
            old(self).wf(),
        ensures
            final(self).wf(),
            final(self).closed == old(self).closed,
            final(self).done == old(self).done,
            (final(self).held(), final(self).closed) == stepped(old(self).held(), old(self).closed, Act::Recv),
            if old(self).held().len() > 0 {
                r == Received::Next(old(self).held()[0]) && final(self).held() == old(self).held().skip(1)
            } else {
                &&& final(self).held() == old(self).held()
                &&& r == (if old(self).done || old(self).closed { Received::<T>::Over } else { Received::<T>::Early })
            },
    {
        let ghost before = self.held();
        match self.queue.pop_front() {
            Some(chunk) => {
                proof {
                    assert(self.held() =~= before.skip(1));
                }
                Received::Next(chunk)
            },
            None => if self.done || self.closed {
                Received::Over
            } else {
                Received::Early
            },
        }
    }

    /// The reader is gone. What is queued is dropped, because nobody will ever ask for it.
    pub fn close(&mut self)
        ensures
            final(self).wf(),
            final(self).closed,
            final(self).done == old(self).done,
            final(self).held() == Seq::<T>::empty(),
            (final(self).held(), final(self).closed) == stepped(old(self).held(), old(self).closed, Act::Close),
    {
        self.closed = true;
        self.queue.clear();
    }

    /// The statement is over and nothing else will be sent.
    pub fn finish(&mut self)
        ensures
            final(self).held() == old(self).held(),
            final(self).closed == old(self).closed,
            final(self).done,
            (final(self).held(), final(self).closed) == stepped(old(self).held(), old(self).closed, Act::Finish),
    {
        self.done = true;
    }
}

/// A queue, and what has gone in and come out of it.
pub struct Line<T> {
    pub queue: Seq<T>,
    pub closed: bool,
    pub sent: Seq<T>,
    pub received: Seq<T>,
}

/// A queue nothing has been done to.
pub open spec fn fresh<T>() -> Line<T> {
    Line { queue: Seq::empty(), closed: false, sent: Seq::empty(), received: Seq::empty() }
}

/// What one act makes of a queue, and what went in or came out of it with that.
pub open spec fn acted<T>(line: Line<T>, act: Act<T>) -> Line<T> {
    let (queue, closed) = stepped(line.queue, line.closed, act);
    let sent = match act {
        Act::Send(chunk) => if line.closed || line.queue.len() >= QUEUE { line.sent } else { line.sent.push(chunk) },
        _ => line.sent,
    };
    let received = match act {
        Act::Recv => if line.queue.len() == 0 { line.received } else { line.received.push(line.queue[0]) },
        _ => line.received,
    };
    Line { queue, closed, sent, received }
}

/// What a run of acts makes of a queue.
pub open spec fn played<T>(acts: Seq<Act<T>>) -> Line<T>
    decreases acts.len(),
{
    if acts.len() == 0 { fresh() } else { acted(played(acts.drop_last()), acts.last()) }
}

/// Whatever is done to a queue and in whatever order, what comes out of it is what went in, in
/// the order it went in, with nothing missing before it, and no more than two are ever in
/// between. Until the reader goes, everything that went in has come out or is in between.
pub proof fn law_batches_arrive_in_order<T>(acts: Seq<Act<T>>)
    ensures
        played(acts).queue.len() <= QUEUE,
        played(acts).received.len() <= played(acts).sent.len(),
        played(acts).received == played(acts).sent.take(played(acts).received.len() as int),
        !played(acts).closed ==> played(acts).received + played(acts).queue == played(acts).sent,
    decreases acts.len(),
{
    if acts.len() > 0 {
        law_batches_arrive_in_order(acts.drop_last());
        let before = played(acts.drop_last());
        let after = played(acts);
        if !before.closed {
            assert(before.received + before.queue == before.sent);
        } else {
            lemma_closed_is_empty(acts.drop_last());
        }
        match acts.last() {
            Act::Send(chunk) => {
                if !(before.closed || before.queue.len() >= QUEUE) {
                    assert(after.received + after.queue =~= (before.received + before.queue).push(chunk));
                    assert(after.received =~= after.sent.take(after.received.len() as int));
                }
            },
            Act::Recv => {
                if before.queue.len() > 0 {
                    assert(after.received + after.queue =~= before.received + before.queue);
                    assert(after.received =~= after.sent.take(after.received.len() as int));
                }
            },
            _ => {},
        }
    } else {
        assert(fresh::<T>().received =~= fresh::<T>().sent.take(0));
        assert(fresh::<T>().received + fresh::<T>().queue =~= fresh::<T>().sent);
    }
}

proof fn lemma_closed_is_empty<T>(acts: Seq<Act<T>>)
    ensures
        played(acts).closed ==> played(acts).queue.len() == 0,
    decreases acts.len(),
{
    if acts.len() > 0 {
        lemma_closed_is_empty(acts.drop_last());
    }
}

/// What a statement streamed did.
pub struct Streamed {
    pub columns: Vec<String>,
    /// How many rows were handed over.
    pub rows: u64,
    /// Whether the reader stopped it.
    pub stopped: bool,
    /// Whether the rows were handed over as they were made, rather than after all of them were.
    pub streamed: bool,
    pub notices: Vec<Notice>,
}

/// What a stream did, as the object a caller reads.
pub open spec fn summary_fields(streamed: Streamed) -> Seq<(Seq<char>, Shown)> {
    Seq::empty().push(("columns"@, texts(streamed.columns@))).push(("rows"@, Shown::Count(streamed.rows))).push(
        ("stopped"@, Shown::Flag(streamed.stopped)),
    ).push(("streamed"@, Shown::Flag(streamed.streamed))).push(("notices"@, notices_as(streamed.notices@)))
}

impl Streamed {
    /// What the stream did, as the object a caller reads.
    ///
    /// The column names are here as well as beside every batch, because a statement that gave
    /// back no rows gave back no batches either and its projection is still worth knowing.
    pub fn to_js(&self) -> (r: Made)
        ensures
            shows(r, Shown::Object(summary_fields(*self))),
    {
        let mut fields: Vec<(String, Made)> = Vec::new();
        property(&mut fields, "columns", strings(&self.columns));
        property(&mut fields, "rows", Made::Count(self.rows));
        property(&mut fields, "stopped", Made::Boolean(self.stopped));
        property(&mut fields, "streamed", Made::Boolean(self.streamed));
        property(&mut fields, "notices", notices(&self.notices));
        proof {
            assert(properties(fields@, summary_fields(*self)));
        }
        object(fields)
    }
}

/// What the thread running a statement hands over.
pub enum Chunk<B, E> {
    /// A batch of rows.
    Rows(B),
    /// The statement ended, and this is what it ended as. Always the last thing sent.
    Done(Result<Streamed, Failure<E>>),
}

/// What a statement has ended as.
pub enum Ended<E> {
    /// It has not ended, as far as anybody has read.
    Running,
    Well(Streamed),
    /// It failed, and nobody has been told.
    Badly(Failure<E>),
    /// It failed, and somebody has been told.
    Told,
}

/// What a read of a stream found.
pub enum Pulled<B> {
    Rows(B),
    /// Nothing yet.
    Wait,
    /// The statement has ended.
    End,
}

/// Whether a scan should carry on, from the side that hands the rows over.
pub enum Handed<B, E> {
    More,
    /// There is no room for the batch yet.
    Wait(Chunk<B, E>),
    Stop,
}

/// What a cursor and the thread feeding it share. `S` is what it takes to start the statement,
/// `B` is a batch of its rows, and `E` is a condition the engine raises.
pub struct Live<S, B, E> {
    /// Where batches are handed over.
    pub pipe: Pipe<Chunk<B, E>>,
    /// Set by a reader that wants no more rows.
    pub stopped: bool,
    /// Taken by the first read, which is what starts the statement.
    pub start: Option<S>,
    /// What the statement ended as, once it has.
    pub ended: Ended<E>,
}

/// What there is to do about a stream that has been cancelled.
#[derive(Clone, Copy, PartialEq, Eq, Structural)]
pub enum Cancel {
    /// Nothing: it never started, and now it never will.
    Never,
    /// What was handed over is to be read and dropped until the statement ends.
    Drain,
}

/// What there is to do next while a cancelled stream is read to its end.
#[derive(Clone, Copy, PartialEq, Eq, Structural)]
pub enum Drain {
    /// Something was dropped, and there may be more.
    More,
    /// There is nothing yet.
    Wait,
    /// The statement is over.
    Over,
}

/// What is known about how a statement ended, once this has been read off the queue: the first
/// ending stands.
pub open spec fn ends_as<E>(had: Ended<E>, ended: Result<Streamed, Failure<E>>) -> Ended<E> {
    match had {
        Ended::Running => match ended {
            Ok(streamed) => Ended::Well(streamed),
            Err(failure) => Ended::Badly(failure),
        },
        _ => had,
    }
}

impl<S, B, E> Live<S, B, E> {
    /// No more batches in between than the queue holds.
    pub open spec fn wf(&self) -> bool {
        self.pipe.wf()
    }

    /// Whether a read can only find the end: nothing to start, nothing in the queue, and the
    /// queue is over.
    pub open spec fn at_end(&self) -> bool {
        self.start is None && self.pipe.held().len() == 0 && (self.pipe.done || self.pipe.closed)
    }

    /// Makes a stream of a statement that has not started yet.
    ///
    /// `refused` is the mistake this client caught before the engine saw it. It is carried
    /// rather than thrown, so that a caller hears about it where they hear about everything
    /// else a statement can do, which is the first read.
    pub fn open(started: S, refused: Option<String>) -> (r: Live<S, B, E>)
        ensures
            r.wf(),
            !r.stopped,
            r.pipe.held() == Seq::<Chunk<B, E>>::empty(),
            !r.pipe.closed,
            match refused {
                Some(words) => {
                    &&& r.at_end()
                    &&& r.ended matches Ended::Badly(Failure::Usage(said))
                    &&& said@ == words@
                },
                None => r.start == Some(started) && r.ended == Ended::<E>::Running && !r.pipe.done,
            },
    {
        let mut pipe: Pipe<Chunk<B, E>> = Pipe::new();
        match refused {
            Some(words) => {
                pipe.finish();
                Live { pipe, stopped: false, start: None, ended: Ended::Badly(Failure::Usage(words)) }
            },
            None => Live { pipe, stopped: false, start: Some(started), ended: Ended::Running },
        }
    }

    /// Takes what it takes to start the statement, which there is once.
    ///
    /// Nothing to start is a stream that already started, or one somebody cancelled before it
    /// ever did, and both of those are a stream to read rather than one to run.
    pub fn begin(&mut self) -> (r: Option<S>)
        ensures
            r == old(self).start,
            *final(self) == (Live { start: None, ..*old(self) }),
    {
        self.start.take()
    }

    /// The statement could not be given a thread, so there is nothing to read.
    pub fn unstarted(&mut self, why: &str) -> (r: String)
        requires
            old(self).wf(),
        ensures
            final(self).wf(),
            final(self).pipe.done,
            final(self).pipe.held() == old(self).pipe.held(),
            final(self).pipe.closed == old(self).pipe.closed,
            final(self).stopped == old(self).stopped,
            final(self).start == old(self).start,
            final(self).ended == old(self).ended,
            r@ == "the stream could not be given a thread: "@ + why@,
    {
        self.pipe.finish();
        "the stream could not be given a thread: ".to_owned().concat(why)
    }

    /// The end of the statement has been read off the queue. A stream that had already ended
    /// keeps what it ended as.
    fn end(&mut self, ended: Result<Streamed, Failure<E>>)
        ensures
            *final(self) == (Live { ended: ends_as(old(self).ended, ended), ..*old(self) }),
    {
        match self.ended {
            Ended::Running => {
                self.ended = match ended {
                    Ok(streamed) => Ended::Well(streamed),
                    Err(failure) => Ended::Badly(failure),
                };
            },
            _ => {},
        }
    }

    /// One read, of a statement that has been started: the next batch, or the end.
    pub fn pull(&mut self) -> (r: Pulled<B>)
        requires
            old(self).wf(),
        ensures
            final(self).wf(),
            final(self).start == old(self).start,
            final(self).stopped == old(self).stopped,
            final(self).pipe.done == old(self).pipe.done,
            final(self).pipe.closed == old(self).pipe.closed,
            if old(self).pipe.held().len() == 0 {
                &&& final(self).pipe.held() == old(self).pipe.held()
                &&& final(self).ended == old(self).ended
                &&& r == (if old(self).pipe.done || old(self).pipe.closed {
                    Pulled::<B>::End
                } else {
                    Pulled::<B>::Wait
                })
            } else {
                &&& final(self).pipe.held() == old(self).pipe.held().skip(1)
                &&& match old(self).pipe.held()[0] {
                    Chunk::Rows(batch) => r == Pulled::Rows(batch) && final(self).ended == old(self).ended,
                    Chunk::Done(ended) => r == Pulled::<B>::End && final(self).ended == ends_as(
                        old(self).ended,
                        ended,
                    ),
                }
            },
    {
        match self.pipe.recv() {
            Received::Next(Chunk::Rows(batch)) => Pulled::Rows(batch),
            Received::Next(Chunk::Done(ended)) => {
                self.end(ended);
                Pulled::End
            },
            Received::Early => Pulled::Wait,
            Received::Over => Pulled::End,
        }
    }

    /// The end of the stream, as the caller sees it: nothing, or the failure that ended it.
    ///
    /// Taken out, because a failure is thrown once and a second read past the end is an end
    /// rather than the same exception again.
    pub fn ending(&mut self) -> (r: Option<Failure<E>>)
        ensures
            match old(self).ended {
                Ended::Badly(failure) => r == Some(failure) && *final(self) == (Live {
                    ended: Ended::Told,
                    ..*old(self)
                }),
                _ => r is None && *final(self) == *old(self),
            },
    {
        match self.ended {
            Ended::Badly(_) => {
                let mut ended: Ended<E> = Ended::Told;
                std::mem::swap(&mut ended, &mut self.ended);
                match ended {
                    Ended::Badly(failure) => Some(failure),
                    _ => None,
                }
            },
            _ => None,
        }
    }

    /// Whether the signal can be let go of, which is once the statement it was watching has
    /// ended, however it ended.
    pub fn over(&self) -> (r: bool)
        ensures
            r == !(self.ended is Running),
    {
        match self.ended {
            Ended::Running => false,
            _ => true,
        }
    }

    /// What the statement did, once it has ended well.
    pub fn summary(&self) -> (r: Option<Made>)
        ensures
            match self.ended {
                Ended::Well(streamed) => r matches Some(made) && shows(made, Shown::Object(summary_fields(streamed))),
                _ => r is None,
            },
    {
        match &self.ended {
            Ended::Well(streamed) => Some(streamed.to_js()),
            _ => None,
        }
    }

    /// Stops the statement, which sees the word at its next batch.
    pub fn stop(&mut self)
        ensures
            *final(self) == (Live { stopped: true, ..*old(self) }),
    {
        self.stopped = true;
    }

    /// Cancels a stream that has been stopped.
    ///
    /// A stream nobody read has no statement to end, so taking the start away ends it here.
    pub fn cancel(&mut self) -> (r: Cancel)
        requires
            old(self).wf(),
        ensures
            final(self).wf(),
            final(self).start is None,
            final(self).stopped == old(self).stopped,
            final(self).ended == old(self).ended,
            final(self).pipe.held() == old(self).pipe.held(),
            final(self).pipe.closed == old(self).pipe.closed,
            final(self).pipe.done == (old(self).pipe.done || old(self).start is Some),
            r == (if old(self).start is Some { Cancel::Never } else { Cancel::Drain }),
    {
        match self.start.take() {
            Some(_) => {
                self.pipe.finish();
                Cancel::Never
            },
            None => Cancel::Drain,
        }
    }

    /// Reads one thing off a cancelled stream and drops it.
    ///
    /// The reading is the point. The thread hands a batch over and waits for room, so a stream
    /// that was stopped and then abandoned would leave a thread holding the connection.
    pub fn drain(&mut self) -> (r: Drain)
        requires
            old(self).wf(),
        ensures
            final(self).wf(),
            final(self).start == old(self).start,
            final(self).stopped == old(self).stopped,
            final(self).pipe.done == old(self).pipe.done,
            final(self).pipe.closed == old(self).pipe.closed,
            if old(self).pipe.held().len() == 0 {
                &&& final(self).pipe.held() == old(self).pipe.held()
                &&& final(self).ended == old(self).ended
                &&& r == (if old(self).pipe.done || old(self).pipe.closed { Drain::Over } else { Drain::Wait })
            } else {
                &&& final(self).pipe.held() == old(self).pipe.held().skip(1)
                &&& match old(self).pipe.held()[0] {
                    Chunk::Rows(_) => r == Drain::More && final(self).ended == old(self).ended,
                    Chunk::Done(ended) => r == Drain::Over && final(self).ended == ends_as(old(self).ended, ended),
                }
            },
    {
        match self.pipe.recv() {
            Received::Next(Chunk::Rows(_)) => Drain::More,
            Received::Next(Chunk::Done(ended)) => {
                self.end(ended);
                Drain::Over
            },
            Received::Early => Drain::Wait,
            Received::Over => Drain::Over,
        }
    }

    /// A cursor nobody holds any more is a reader that has gone.
    pub fn forget(&mut self)
        ensures
            final(self).wf(),
            final(self).stopped,
            final(self).pipe.closed,
            final(self).pipe.held() == Seq::<Chunk<B, E>>::empty(),
            final(self).pipe.done == old(self).pipe.done,
            final(self).start == old(self).start,
            final(self).ended == old(self).ended,
    {
        self.stopped = true;
        self.pipe.close();
    }

    /// Hands one batch over, and says whether the scan should carry on.
    ///
    /// Three things end a stream from this side: a reader that asked it to stop, a connection
    /// closed underneath it, and a reader that let go of the cursor entirely.
    pub fn hand(&mut self, batch: B, alive: bool) -> (r: Handed<B, E>)
        requires
            old(self).wf(),
        ensures
            final(self).wf(),
            final(self).start == old(self).start,
            final(self).stopped == old(self).stopped,
            final(self).ended == old(self).ended,
            final(self).pipe.done == old(self).pipe.done,
            final(self).pipe.closed == old(self).pipe.closed,
            if old(self).stopped || old(self).pipe.closed {
                r == Handed::<B, E>::Stop && final(self).pipe.held() == old(self).pipe.held()
            } else if old(self).pipe.held().len() < QUEUE {
                r == Handed::<B, E>::More && final(self).pipe.held() == old(self).pipe.held().push(Chunk::Rows(batch))
            } else if alive {
                r == Handed::Wait(Chunk::<B, E>::Rows(batch)) && final(self).pipe.held() == old(self).pipe.held()
            } else {
                r == Handed::<B, E>::Stop && final(self).pipe.held() == old(self).pipe.held()
            },
    {
        if self.stopped {
            return Handed::Stop;
        }
        match self.pipe.send(Chunk::Rows(batch), alive) {
            Sent::Taken => Handed::More,
            Sent::Full(chunk) => Handed::Wait(chunk),
            Sent::Gone => Handed::Stop,
        }
    }
}

/// The first ending of a statement is the one that stands: whatever is read afterwards, a
/// stream that ended well keeps its summary and one that failed keeps its failure, until
/// somebody has been told of it.
pub proof fn law_the_first_ending_stands<E>(
    first: Result<Streamed, Failure<E>>,
    later: Result<Streamed, Failure<E>>,
)
    ensures
        ends_as(ends_as(Ended::Running, first), later) == ends_as(Ended::Running, first),
        ends_as(Ended::<E>::Told, later) == Ended::<E>::Told,
{
}

/// What a stream ended as is told as it was: its columns, how many rows were handed over, whether the
/// reader stopped it, whether they came as they were made, and a notice for every one there was.
pub proof fn law_a_summary_is_told_as_it_was(streamed: Streamed, made: Made, at: int)
    requires
        shows(made, Shown::Object(summary_fields(streamed))),
    ensures
        made matches Made::Object(f) && f@.len() == 5 && f@[0].0@ == "columns"@ && (f@[0].1 matches Made::List(columns)
            && columns@.len() == streamed.columns@.len() && (0 <= at < columns@.len() ==> (columns@[at] matches Made::Text(t)
            && t@ == streamed.columns@[at]@))) && f@[1].0@ == "rows"@ && f@[1].1 == Made::Count(streamed.rows) && f@[2].0@
            == "stopped"@ && f@[2].1 == Made::Boolean(streamed.stopped) && f@[3].0@ == "streamed"@ && f@[3].1
            == Made::Boolean(streamed.streamed) && f@[4].0@ == "notices"@ && (f@[4].1 matches Made::List(told) && told@.len()
            == streamed.notices@.len()),
{
    let f = made->Object_0;
    let shown = summary_fields(streamed);
    assert(f@.len() == shown.len());
    assert(f@[0].0@ == shown[0].0 && shows(f@[0].1, shown[0].1));
    assert(f@[1].0@ == shown[1].0 && shows(f@[1].1, shown[1].1));
    assert(f@[2].0@ == shown[2].0 && shows(f@[2].1, shown[2].1));
    assert(f@[3].0@ == shown[3].0 && shows(f@[3].1, shown[3].1));
    assert(f@[4].0@ == shown[4].0 && shows(f@[4].1, shown[4].1));
    law_strings_are_listed_in_order(streamed.columns@, f@[0].1, at);
}

/// A queue of no more than one batch whose reader is there takes another at its end, and one of two
/// takes none. A read takes the first and leaves the rest in order, a reader that goes leaves
/// nothing behind it, and the end of the statement leaves what is there.
pub proof fn law_a_queue_holds_two<T>(queue: Seq<T>, closed: bool, chunk: T)
    ensures
        !closed && queue.len() < 2 ==> stepped(queue, closed, Act::Send(chunk)) == (queue.push(chunk), false),
        closed || queue.len() >= 2 ==> stepped(queue, closed, Act::Send(chunk)) == (queue, closed),
        queue.len() > 0 ==> seq![queue[0]] + stepped(queue, closed, Act::<T>::Recv).0 == queue,
        queue.len() == 0 ==> stepped(queue, closed, Act::<T>::Recv).0 == queue,
        stepped(queue, closed, Act::<T>::Recv).1 == closed,
        stepped(queue, closed, Act::<T>::Close) == (Seq::<T>::empty(), true),
        stepped(queue, closed, Act::<T>::Finish) == (queue, closed),
{
    if queue.len() > 0 {
        assert(seq![queue[0]] + stepped(queue, closed, Act::<T>::Recv).0 =~= queue);
    }
}

/// A stream ends well with the summary it ended with, and badly with the failure it ended with.
pub proof fn law_an_ending_is_what_ended<E>(streamed: Streamed, failure: Failure<E>)
    ensures
        ends_as(Ended::<E>::Running, Ok(streamed)) == Ended::<E>::Well(streamed),
        ends_as(Ended::<E>::Running, Err(failure)) == Ended::<E>::Badly(failure),
{
}

} // verus!
