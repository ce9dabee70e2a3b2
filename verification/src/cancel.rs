//! An `AbortSignal`, wired to the statement it is meant to stop.
//!
//! What arrives on the other side of a signal is the engine's interrupt, which is one word
//! the executor reads at a boundary it was already stopping at.
//!
//! Two things make this harder than adding a listener. The interrupt belongs to the
//! connection rather than to the statement, so a stop raised a moment too late would end the
//! next statement instead of the one it was meant for. And a signal can fire before the
//! statement reaches the thread it runs on, which is a stop nobody is there to hear. Both are
//! answered the same way: the listener and the statement share two words and set them in the
//! opposite order, so whichever of them is second sees what the other did. And each half is one
//! call under one lock, the listener's with the interrupt it raises and the statement's last
//! with the interrupt it puts down, so nothing comes between deciding to raise it and raising it.

use vstd::prelude::*;

use crate::js::Kind;

verus! {

/// The two words a listener and a statement share.
///
/// `asked` is set by the listener and read by the statement, `running` the other way about.
pub struct Shared {
    pub asked: bool,
    pub running: bool,
}

impl Shared {
    /// The words once somebody has asked.
    pub open spec fn asking(self) -> Shared {
        Shared { asked: true, ..self }
    }

    /// The words once the statement has said that it is running.
    pub open spec fn entering(self) -> Shared {
        Shared { running: true, ..self }
    }

    /// The words once the statement has said that it is not.
    pub open spec fn leaving(self) -> Shared {
        Shared { running: false, ..self }
    }

    /// The listener's half: says that somebody asked, and answers whether there is a
    /// statement running to stop.
    pub fn ask(&mut self) -> (r: bool)
        ensures
            *final(self) == old(self).asking(),
            r == old(self).running,
    {
        self.asked = true;
        self.running
    }
}

/// A signal watching one statement.
pub struct Watch {
    pub shared: Shared,
}

impl Watch {
    /// Watches a signal, by whether it has already fired.
    ///
    /// One that has is still watched rather than refused here, so that one place decides what
    /// an aborted statement does and the answer does not depend on how early the caller was.
    pub fn new(aborted: bool) -> (r: Watch)
        ensures
            r.shared.asked == aborted,
            !r.shared.running,
    {
        Watch { shared: Shared { asked: aborted, running: false } }
    }

    /// The statement is about to run. `false` means it must not: the signal fired first.
    pub fn enter(&mut self) -> (r: bool)
        ensures
            final(self).shared == old(self).shared.entering(),
            r == !old(self).shared.asked,
    {
        self.shared.running = true;
        !self.shared.asked
    }

    /// The statement is done with the connection, so a signal firing from here on finds
    /// nothing to stop. The interrupt is put back down after this.
    pub fn leave(&mut self)
        ensures
            final(self).shared == old(self).shared.leaving(),
    {
        self.shared.running = false;
    }

    /// Whether the signal fired at all, which is what tells an interrupt the caller asked for
    /// apart from one they did not.
    pub fn asked(&self) -> (r: bool)
        ensures
            r == self.shared.asked,
    {
        self.shared.asked
    }

    /// Whether a signal's `reason` is one, by what kind of value reading it found.
    ///
    /// Every runtime sets a reason on a signal that has fired, so this is almost always so. A
    /// rejection with `undefined` in it is worse than the plain sentence this client would
    /// write instead.
    pub fn reason(reason: &Result<Kind, String>) -> (r: bool)
        ensures
            r == (reason matches Ok(kind) && kind != Kind::Undefined && kind != Kind::Null),
    {
        match reason {
            Err(_) => false,
            Ok(kind) => *kind != Kind::Undefined && *kind != Kind::Null,
        }
    }
}

/// One call of one end of a signal.
pub enum Call {
    /// The listener asks, and raises the interrupt when there is a statement to stop.
    Ask,
    /// The statement is about to run.
    Enter,
    /// The statement is done, and puts the interrupt down.
    Leave,
}

/// A statement with a signal of its own.
pub struct Watched {
    pub shared: Shared,
    /// Whether the statement went ahead when it last looked.
    pub ran: bool,
}

/// A connection: the statements that have been or will be run on it, each with its signal, and
/// the one interrupt they share.
pub struct Line {
    pub statements: Seq<Watched>,
    /// The interrupt, which is up while somebody is asking the engine to stop.
    pub raised: bool,
}

impl Line {
    /// Nothing runs yet and the interrupt is down. Any of the signals may have fired already.
    pub open spec fn idle(&self) -> bool {
        !self.raised && forall|i: int|
            0 <= i < self.statements.len() ==> !(#[trigger] self.statements[i]).shared.running
    }

    /// Whether the connection is some statement's.
    pub open spec fn taken(&self) -> bool {
        exists|i: int| 0 <= i < self.statements.len() && (#[trigger] self.statements[i]).shared.running
    }

    /// What a call of one of the statements makes of the connection.
    ///
    /// A connection runs one statement at a time, so a statement that would enter while another
    /// has it is not there yet, and one that is not there has nothing to leave. A signal fires
    /// whenever it fires.
    pub open spec fn called(self, who: int, call: Call) -> Line {
        if !(0 <= who < self.statements.len()) {
            self
        } else {
            let shared = self.statements[who].shared;
            let ran = self.statements[who].ran;
            match call {
                Call::Ask => Line {
                    statements: self.statements.update(who, Watched { shared: shared.asking(), ran }),
                    raised: self.raised || shared.running,
                },
                Call::Enter => if self.taken() {
                    self
                } else {
                    Line {
                        statements: self.statements.update(
                            who,
                            Watched { shared: shared.entering(), ran: !shared.asked },
                        ),
                        ..self
                    }
                },
                Call::Leave => if !shared.running {
                    self
                } else {
                    Line {
                        statements: self.statements.update(who, Watched { shared: shared.leaving(), ran }),
                        raised: false,
                    }
                },
            }
        }
    }

    /// What these calls make of it, in this order.
    pub open spec fn through(self, calls: Seq<(int, Call)>) -> Line
        decreases calls.len(),
    {
        if calls.len() == 0 {
            self
        } else {
            self.through(calls.drop_last()).called(calls.last().0, calls.last().1)
        }
    }

    /// Whether no two statements have the connection, the interrupt is up for one that has it
    /// and was asked to stop, and one that has it and was asked to stop did not go ahead or has
    /// the interrupt up.
    spec fn orderly(&self) -> bool {
        &&& forall|i: int, j: int|
            0 <= i < self.statements.len() && 0 <= j < self.statements.len() && (
            #[trigger] self.statements[i]).shared.running && (#[trigger] self.statements[j]).shared.running ==> i == j
        &&& self.raised ==> self.meant()
        &&& forall|i: int|
            0 <= i < self.statements.len() && (#[trigger] self.statements[i]).shared.running
                && self.statements[i].shared.asked ==> !self.statements[i].ran || self.raised
    }

    /// Whether a statement has the connection and was itself asked to stop.
    pub open spec fn meant(&self) -> bool {
        exists|i: int|
            0 <= i < self.statements.len() && (#[trigger] self.statements[i]).shared.running
                && self.statements[i].shared.asked
    }
}

proof fn lemma_orderly(start: Line, calls: Seq<(int, Call)>)
    requires
        start.idle(),
    ensures
        start.through(calls).orderly(),
    decreases calls.len(),
{
    if calls.len() > 0 {
        lemma_orderly(start, calls.drop_last());
        lemma_stays_orderly(start.through(calls.drop_last()), calls.last().0, calls.last().1);
    }
}

proof fn lemma_stays_orderly(line: Line, who: int, call: Call)
    requires
        line.orderly(),
    ensures
        line.called(who, call).orderly(),
{
    let now = line.called(who, call);
    if 0 <= who < line.statements.len() {
        assert(now.statements[who].shared.running || !now.statements[who].shared.running);
        if now.raised {
            if line.raised {
                let i = choose|i: int|
                    0 <= i < line.statements.len() && (#[trigger] line.statements[i]).shared.running
                        && line.statements[i].shared.asked;
                assert(now.statements[i].shared.running && now.statements[i].shared.asked);
            } else {
                assert(now.statements[who].shared.running && now.statements[who].shared.asked);
            }
        }
    }
}

/// A listener and a statement, each some way through what it does, with every read and every
/// write of a word a step of its own. The listener's first two steps are [`Shared::ask`], and
/// its third is the raise that the answer of that call decides. The statement's two steps are
/// [`Watch::enter`].
pub struct Race {
    /// The two words.
    pub shared: Shared,
    /// The interrupt, which is up while somebody is asking the engine to stop.
    pub raised: bool,
    /// How many of its three steps the listener has taken: it says that somebody asked, it
    /// looks whether a statement is running, and it raises the interrupt if one was.
    pub listener: nat,
    /// What the listener saw when it looked, which is what [`Shared::ask`] answers.
    pub saw: bool,
    /// How many of its two steps the statement has taken: it says that it is running, and it
    /// looks whether somebody asked.
    pub statement: nat,
    /// Whether the statement went ahead, once it has looked, which is what [`Watch::enter`]
    /// answers.
    pub ran: bool,
}

impl Race {
    /// Nothing has happened yet, and the interrupt is down.
    pub open spec fn begun(&self) -> bool {
        !self.shared.asked && !self.shared.running && !self.raised && self.listener == 0 && self.statement == 0
    }

    /// The listener takes its next step, if it has one left.
    pub open spec fn listens(self) -> Race {
        if self.listener == 0 {
            Race { shared: self.shared.asking(), listener: 1, ..self }
        } else if self.listener == 1 {
            Race { saw: self.shared.running, listener: 2, ..self }
        } else if self.listener == 2 {
            Race { raised: self.raised || self.saw, listener: 3, ..self }
        } else {
            self
        }
    }

    /// The statement takes its next step, if it has one left.
    pub open spec fn states(self) -> Race {
        if self.statement == 0 {
            Race { shared: self.shared.entering(), statement: 1, ..self }
        } else if self.statement == 1 {
            Race { ran: !self.shared.asked, statement: 2, ..self }
        } else {
            self
        }
    }

    /// What becomes of the race when the two take their steps in this order, where `true` is
    /// a step of the listener.
    pub open spec fn after(self, order: Seq<bool>) -> Race
        decreases order.len(),
    {
        if order.len() == 0 {
            self
        } else {
            let before = self.after(order.drop_last());
            if order.last() { before.listens() } else { before.states() }
        }
    }

    /// What is so at every point of a race, whatever the order.
    spec fn holds(&self) -> bool {
        &&& self.listener <= 3
        &&& self.statement <= 2
        &&& self.shared.asked == (self.listener >= 1)
        &&& self.shared.running == (self.statement >= 1)
        &&& self.statement == 2 && self.listener >= 2 ==> !self.ran || self.saw
        &&& self.raised == (self.listener == 3 && self.saw)
    }
}

proof fn lemma_holds(start: Race, order: Seq<bool>)
    requires
        start.begun(),
    ensures
        start.after(order).holds(),
    decreases order.len(),
{
    if order.len() > 0 {
        lemma_holds(start, order.drop_last());
    }
}

/// A call is its steps: taken without a step of the other in between, the listener's first two
/// leave the words and the answer that [`Shared::ask`] does, and the statement's two leave those
/// that [`Watch::enter`] does.
pub proof fn law_a_call_is_its_steps(race: Race)
    ensures
        race.listener == 0 ==> race.listens().listens() == (Race {
            shared: race.shared.asking(),
            saw: race.shared.running,
            listener: 2,
            ..race
        }),
        race.statement == 0 ==> race.states().states() == (Race {
            shared: race.shared.entering(),
            ran: !race.shared.asked,
            statement: 2,
            ..race
        }),
{
}

/// A stop is always heard. In whatever order a listener and a statement take their steps,
/// once the listener is through and the statement has looked, either the statement saw that
/// somebody asked and did not run, or the interrupt is up.
pub proof fn law_a_stop_is_heard(start: Race, order: Seq<bool>)
    requires
        start.begun(),
        start.after(order).listener == 3,
        start.after(order).statement == 2,
    ensures
        !start.after(order).ran || start.after(order).raised,
{
    lemma_holds(start, order);
}

/// A stop ends the statement it was meant for and no other, whatever is called on a connection
/// and in whatever order. The interrupt is up only while a statement has the connection whose
/// own signal fired, so it is down whenever no statement has it, and a statement starts with
/// nothing asking it to stop but its own signal. And a statement that has the connection and
/// whose signal fired did not go ahead, or has the interrupt up.
pub proof fn law_a_stop_is_put_down(start: Line, calls: Seq<(int, Call)>)
    requires
        start.idle(),
    ensures
        start.through(calls).raised ==> start.through(calls).meant(),
        !start.through(calls).taken() ==> !start.through(calls).raised,
        forall|i: int|
            0 <= i < start.through(calls).statements.len() && (#[trigger] start.through(calls).statements[i]).shared.running
                && start.through(calls).statements[i].shared.asked ==> !start.through(calls).statements[i].ran
                || start.through(calls).raised,
{
    lemma_orderly(start, calls);
}

/// Each end of a signal writes its own word and leaves the other's: asking asks and says nothing of
/// running, and entering and leaving say whether the statement runs and nothing of asking.
pub proof fn law_each_end_writes_its_own_word(shared: Shared)
    ensures
        shared.asking().asked && shared.asking().running == shared.running,
        shared.entering().running && shared.entering().asked == shared.asked,
        !shared.leaving().running && shared.leaving().asked == shared.asked,
{
}

/// A signal that has fired stays fired, whatever is done after it and by whom; and one that fires
/// has fired.
pub proof fn law_a_signal_stays_fired(start: Line, calls: Seq<(int, Call)>, who: int)
    requires
        0 <= who < start.statements.len(),
    ensures
        start.through(calls).statements.len() == start.statements.len(),
        start.statements[who].shared.asked ==> start.through(calls).statements[who].shared.asked,
        calls.len() > 0 && calls.last() == (who, Call::Ask) ==> start.through(calls).statements[who].shared.asked,
        start.through(calls).statements[who].shared.asked && !start.statements[who].shared.asked ==> calls.contains(
            (who, Call::Ask),
        ),
    decreases calls.len(),
{
    if calls.len() > 0 {
        let before = calls.drop_last();
        law_a_signal_stays_fired(start, before, who);
        assert(calls.last() == calls[calls.len() - 1]);
        if before.contains((who, Call::Ask)) {
            let k = choose|k: int| 0 <= k < before.len() && before[k] == (who, Call::Ask);
            assert(calls[k] == (who, Call::Ask));
        }
    }
}

} // verus!
