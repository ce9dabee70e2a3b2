//! Several statements as one unit of work.
//!
//! A statement written on its own already runs in a transaction of its own. What a transaction
//! holds is the span: two statements are one unit, and the file keeps the state they started
//! from until one word or the other ends them.
//!
//! Leaving the scope of a transaction that has not been committed undoes it. A JavaScript
//! disposal is told nothing about the scope it is leaving, so a disposal that committed would
//! commit half the work of a block that failed, and the commit has to be the word the caller
//! writes.

use vstd::prelude::*;

verus! {

/// What a second `commit()` or `rollback()` says.
pub const ENDED: &'static str = "this transaction has already ended, and the statements after it \
     belong to no transaction of yours";

/// What a transaction is being ended with.
#[derive(Clone, Copy, PartialEq, Eq, Structural)]
pub enum Word {
    Commit,
    Rollback,
    /// A rollback that has nothing to say about a transaction which has already ended, because
    /// leaving the scope of a committed transaction is the ordinary way one ends.
    Dispose,
}

/// The statement a word ends a transaction with.
pub open spec fn ends_with(word: Word) -> Seq<char> {
    match word {
        Word::Commit => "COMMIT"@,
        Word::Rollback | Word::Dispose => "ROLLBACK"@,
    }
}

impl Word {
    /// The statement this ends a transaction with.
    pub fn statement(&self) -> (r: &'static str)
        ensures
            r@ == ends_with(*self),
    {
        match self {
            Word::Commit => "COMMIT",
            Word::Rollback | Word::Dispose => "ROLLBACK",
        }
    }
}

/// A call that starts a transaction, ready to run or ready to say why it will not.
pub struct StartTask {
    pub read_only: bool,
    /// Why this is not going to run, when it is not.
    pub refused: Option<String>,
}

impl StartTask {
    /// A call that starts a transaction.
    pub fn new(read_only: bool, refused: Option<String>) -> (r: StartTask)
        ensures
            r == (StartTask { read_only, refused }),
    {
        StartTask { read_only, refused }
    }

    /// The statement that starts one. `READ ONLY` is the engine's own spelling, and it is
    /// enforced at the statement that writes.
    pub fn statement(&self) -> (r: &'static str)
        ensures
            r@ == (if self.read_only { "START TRANSACTION READ ONLY"@ } else { "START TRANSACTION"@ }),
    {
        if self.read_only {
            "START TRANSACTION READ ONLY"
        } else {
            "START TRANSACTION"
        }
    }

    /// The transaction that has been started.
    pub fn started(&self) -> (r: Transaction)
        ensures
            r.read_only == self.read_only,
            !r.done,
    {
        Transaction { read_only: self.read_only, done: false }
    }
}

/// A transaction that has been started.
pub struct Transaction {
    pub read_only: bool,
    /// Whether a `COMMIT` or a `ROLLBACK` has already run here, or is running.
    pub done: bool,
}

/// What there is to do about a word that ends a transaction.
pub enum Ending {
    /// Nothing, and nothing to say.
    Silent,
    /// Nothing, and this is why.
    Refused(String),
    /// The statement is to be run.
    Run(&'static str),
}

/// What a word comes to: whether the transaction counts as ended afterwards, and what is done.
pub enum Outcome {
    Silent,
    Refused,
    Run,
}

/// What a word comes to, by whether the transaction has ended and whether the connection is
/// open.
///
/// A connection closed while a transaction was open took the transaction with it, unwritten, so
/// leaving the scope of one has nothing left to undo. Only for a disposal: a caller who wrote
/// `rollback()` by hand is asking a question and is owed the answer that the connection is gone.
pub open spec fn ended_by(word: Word, done: bool, alive: bool) -> Outcome {
    if done {
        if word == Word::Dispose { Outcome::Silent } else { Outcome::Refused }
    } else if word == Word::Dispose && !alive {
        Outcome::Silent
    } else {
        Outcome::Run
    }
}

impl Transaction {
    /// Whether this transaction was started `READ ONLY`.
    pub fn read_only(&self) -> (r: bool)
        ensures
            r == self.read_only,
    {
        self.read_only
    }

    /// Whether this transaction has already been committed or rolled back.
    pub fn done(&self) -> (r: bool)
        ensures
            r == self.done,
    {
        self.done
    }

    /// Ends the transaction and keeps what it wrote.
    ///
    /// Doing it twice is refused rather than ignored. A second commit is a program that has lost
    /// track of where its transaction ends.
    pub fn commit(&mut self, alive: bool) -> (r: Ending)
        ensures
            final(self).done,
            final(self).read_only == old(self).read_only,
            if old(self).done {
                r matches Ending::Refused(words) && words@ == ENDED@
            } else {
                r matches Ending::Run(statement) && statement@ == "COMMIT"@
            },
    {
        self.end(Word::Commit, alive)
    }

    /// Ends the transaction and throws away what it wrote.
    pub fn rollback(&mut self, alive: bool) -> (r: Ending)
        ensures
            final(self).done,
            final(self).read_only == old(self).read_only,
            if old(self).done {
                r matches Ending::Refused(words) && words@ == ENDED@
            } else {
                r matches Ending::Run(statement) && statement@ == "ROLLBACK"@
            },
    {
        self.end(Word::Rollback, alive)
    }

    /// The undo `await using` calls. It rolls back, and it does nothing at all when the
    /// transaction has already ended or its connection is gone.
    pub fn dispose(&mut self, alive: bool) -> (r: Ending)
        ensures
            final(self).done,
            final(self).read_only == old(self).read_only,
            if old(self).done || !alive {
                r == Ending::Silent
            } else {
                r matches Ending::Run(statement) && statement@ == "ROLLBACK"@
            },
    {
        self.end(Word::Dispose, alive)
    }

    /// A word that ends the transaction is about to run.
    ///
    /// Claimed before the statement runs rather than after it, so that two commits issued
    /// together cannot both find the transaction open and both run.
    pub fn end(&mut self, word: Word, alive: bool) -> (r: Ending)
        ensures
            final(self).done,
            final(self).read_only == old(self).read_only,
            match ended_by(word, old(self).done, alive) {
                Outcome::Silent => r == Ending::Silent,
                Outcome::Refused => r matches Ending::Refused(words) && words@ == ENDED@,
                Outcome::Run => r matches Ending::Run(statement) && statement@ == ends_with(word),
            },
    {
        if self.done {
            return match word {
                Word::Dispose => Ending::Silent,
                _ => Ending::Refused(ENDED.to_owned()),
            };
        }
        self.done = true;
        if word == Word::Dispose && !alive {
            return Ending::Silent;
        }
        Ending::Run(word.statement())
    }

    /// The word has run, and went through or did not.
    ///
    /// One that did not gives the claim back, so a commit the engine refused leaves a
    /// transaction the caller can still roll back rather than one that is neither open nor
    /// ended.
    pub fn answered(&mut self, went_through: bool)
        ensures
            final(self).read_only == old(self).read_only,
            final(self).done == claimed(old(self).done, went_through),
    {
        if !went_through {
            self.done = false;
        }
    }
}

/// Whether a transaction counts as ended once a word has run: as before when it went through,
/// and not when it did not.
pub open spec fn claimed(done: bool, went_through: bool) -> bool {
    done && went_through
}

/// A transaction ends once. After a word that went through, and while one is running, a commit
/// or a rollback is refused and leaving the scope says nothing.
pub proof fn law_a_transaction_ends_once(word: Word, alive: bool)
    ensures
        ended_by(word, claimed(true, true), alive) == (if word == Word::Dispose {
            Outcome::Silent
        } else {
            Outcome::Refused
        }),
        ended_by(word, true, alive) != Outcome::Run,
{
}

/// A word the engine refused leaves the transaction open: every word still runs on an open
/// connection.
pub proof fn law_a_refused_end_is_given_back(word: Word)
    ensures
        ended_by(word, claimed(true, false), true) == Outcome::Run,
{
}

/// Leaving the scope of a transaction never commits, and says nothing about one whose
/// connection has gone.
pub proof fn law_leaving_a_scope_undoes(done: bool)
    ensures
        ends_with(Word::Dispose) == ends_with(Word::Rollback),
        ended_by(Word::Dispose, done, false) == Outcome::Silent,
        ended_by(Word::Rollback, false, false) == Outcome::Run,
{
}

/// A commit commits and nothing else does; a rollback and leaving a scope undo. A word runs exactly
/// when the transaction has not ended and, for leaving a scope, the connection is open.
pub proof fn law_a_word_does_what_it_says(word: Word, done: bool, alive: bool)
    ensures
        ends_with(word) == "COMMIT"@ <==> word is Commit,
        ends_with(word) == "ROLLBACK"@ <==> word is Rollback || word is Dispose,
        ended_by(word, done, alive) is Run <==> !done && (alive || !(word is Dispose)),
        ended_by(word, done, alive) is Refused <==> done && !(word is Dispose),
        claimed(done, alive) <==> done && alive,
{
    reveal_strlit("COMMIT");
    reveal_strlit("ROLLBACK");
    assert("COMMIT"@.len() == 6 && "ROLLBACK"@.len() == 8);
}

} // verus!
