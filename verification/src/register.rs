//! Frames, registered under a name a statement can match on.
//!
//! What the engine is told is where the caller's columns are, how wide their values are and
//! what they mean. A frame belongs to the connection it was registered on and goes when that
//! connection does, and nothing writes to it.
//!
//! A name goes into a statement as itself, so a name that is not an identifier is one that
//! would either fail to parse or parse as something else, and the second of those is the one
//! worth refusing for.

use vstd::prelude::*;

use crate::conn::CLOSED;
use crate::frame::{Described, Frame};
use crate::js::said;
use crate::text::same;

verus! {

/// What a registration says when it is run a second time.
pub const TWICE: &'static str = "this registration has already run, and a frame is registered once";

/// A letter of the alphabet, in either case.
pub open spec fn letter(c: char) -> bool {
    'a' <= c <= 'z' || 'A' <= c <= 'Z'
}

/// A character a name may go on with.
pub open spec fn goes_on(c: char) -> bool {
    letter(c) || '0' <= c <= '9' || c == '_'
}

/// Whether a statement can carry this name: a letter or an underscore, followed by letters,
/// digits or underscores.
pub open spec fn carries(name: Seq<char>) -> bool {
    &&& name.len() > 0
    &&& letter(name[0]) || name[0] == '_'
    &&& forall|i: int| 1 <= i < name.len() ==> goes_on(#[trigger] name[i])
}

/// What a name no statement can carry is refused with.
pub open spec fn no_name(name: Seq<char>, what: Seq<char>) -> Seq<char> {
    "'"@ + name + "' is not a name a statement can carry, and "@ + what
        + " is named by a letter or an \
             underscore followed by letters, digits or underscores"@
}

fn carried(name: &str) -> (r: bool)
    ensures
        r == carries(name@),
{
    let n: usize = name.unicode_len();
    if n == 0 {
        return false;
    }
    let first: char = name.get_char(0);
    if !(('a' <= first && first <= 'z') || ('A' <= first && first <= 'Z') || first == '_') {
        return false;
    }
    let mut at: usize = 1;
    while at < n
        invariant
            1 <= at <= n,
            n == name@.len(),
            forall|i: int| 1 <= i < at ==> goes_on(#[trigger] name@[i]),
        decreases n - at,
    {
        let c: char = name.get_char(at);
        if !(('a' <= c && c <= 'z') || ('A' <= c && c <= 'Z') || ('0' <= c && c <= '9') || c == '_') {
            assert(!goes_on(name@[at as int]));
            return false;
        }
        at += 1;
    }
    true
}

/// Refuses a name a statement could not carry.
pub fn identifier(name: &str, what: &str) -> (r: Result<(), String>)
    ensures
        match r {
            Ok(()) => carries(name@),
            Err(words) => !carries(name@) && words@ == no_name(name@, what@),
        },
{
    if carried(name) {
        Ok(())
    } else {
        Err(
            "'".to_owned().concat(name).concat("' is not a name a statement can carry, and ").concat(what).concat(
                " is named by a letter or an \
             underscore followed by letters, digits or underscores",
            ),
        )
    }
}

/// What a frame with no columns is refused with.
pub open spec fn columnless() -> Seq<char> {
    "this frame has no columns, and a table whose rows hold nothing is not a table"@
}

/// What a column of a frame is called when its name is refused.
pub open spec fn frame_column() -> Seq<char> {
    "a column of a registered frame"@
}

/// The first of these columns whose name no statement can carry, from `at` on.
pub open spec fn misnamed(columns: Seq<Described>, at: int) -> Option<int>
    decreases columns.len() - at,
{
    if at < 0 || at >= columns.len() {
        None
    } else if !carries(columns[at].name@) {
        Some(at)
    } else {
        misnamed(columns, at + 1)
    }
}

/// What a frame is refused with before the connection is even asked for, when it is.
pub open spec fn unreadable(name: Seq<char>, frame: Result<Frame, String>) -> Option<Seq<char>> {
    if !carries(name) {
        Some(no_name(name, "a registered frame"@))
    } else {
        match frame {
            Err(words) => Some(words@),
            Ok(frame) => if frame.columns@.len() == 0 {
                Some(columnless())
            } else {
                match misnamed(frame.columns@, 0) {
                    Some(at) => Some(no_name(frame.columns@[at].name@, frame_column())),
                    None => None,
                }
            },
        }
    }
}

/// A frame read for registering under a name, or the sentence to refuse the call with, and
/// never both. Every name of it is one a statement can carry.
pub fn read(name: &str, frame: Result<Frame, String>) -> (r: Result<Frame, String>)
    ensures
        match r {
            Ok(read) => {
                &&& unreadable(name@, frame) is None
                &&& frame == Ok::<_, String>(read)
                &&& carries(name@)
                &&& forall|i: int| 0 <= i < read.columns@.len() ==> carries((#[trigger] read.columns@[i]).name@)
            },
            Err(words) => unreadable(name@, frame) == Some(words@),
        },
{
    identifier(name, "a registered frame")?;
    let read: Frame = frame?;
    if read.columns.len() == 0 {
        return Err("this frame has no columns, and a table whose rows hold nothing is not a table".to_owned());
    }
    let mut at: usize = 0;
    while at < read.columns.len()
        invariant
            at <= read.columns@.len(),
            misnamed(read.columns@, 0) == misnamed(read.columns@, at as int),
            forall|i: int| 0 <= i < at ==> carries((#[trigger] read.columns@[i]).name@),
            frame == Ok::<_, String>(read),
            carries(name@),
            read.columns@.len() > 0,
        decreases read.columns@.len() - at,
    {
        identifier(read.columns[at].name.as_str(), "a column of a registered frame")?;
        at += 1;
    }
    Ok(read)
}

/// Whether one of these names is that one.
pub open spec fn among(names: Seq<String>, name: Seq<char>) -> bool {
    exists|i: int| 0 <= i < names.len() && (#[trigger] names[i])@ == name
}

fn found(names: &Vec<String>, name: &str) -> (r: bool)
    ensures
        r == among(names@, name@),
{
    let mut at: usize = 0;
    while at < names.len()
        invariant
            at <= names@.len(),
            forall|i: int| 0 <= i < at ==> (#[trigger] names@[i])@ != name@,
        decreases names@.len() - at,
    {
        if same(names[at].as_str(), name) {
            return true;
        }
        at += 1;
    }
    false
}

/// Whether the database already holds a table of this name.
///
/// Node tables and rel tables both, because a name is a label in a statement either way.
pub fn has_table(nodes: &Vec<String>, rels: &Vec<String>, name: &str) -> (r: bool)
    ensures
        r == (among(nodes@, name@) || among(rels@, name@)),
{
    found(nodes, name) || found(rels, name)
}

/// Registers a frame as a table called `name`.
pub struct RegisterTask {
    pub name: String,
    /// The frame, until the task has taken it.
    pub described: Option<Frame>,
    pub refused: Option<String>,
}

/// What registering over a table of the database is refused with.
pub open spec fn clashes(name: Seq<char>) -> Seq<char> {
    "'"@ + name
        + "' is already a table of this database, and registering over one \
                     would hide rows this frame knows nothing about"@
}

impl RegisterTask {
    /// A registration, ready to run or ready to say why it will not.
    pub fn new(name: String, described: Option<Frame>, refused: Option<String>) -> (r: RegisterTask)
        ensures
            r == (RegisterTask { name, described, refused }),
    {
        RegisterTask { name, described, refused }
    }

    /// Takes what is to be registered, which a registration has once.
    pub fn take(&mut self) -> (r: Result<Frame, String>)
        ensures
            final(self).name == old(self).name,
            final(self).refused is None,
            match old(self).refused {
                Some(words) => said(r) == Err::<Frame, _>(words@) && final(self).described == old(self).described,
                None => {
                    &&& final(self).described is None
                    &&& match old(self).described {
                        Some(frame) => r == Ok::<_, String>(frame),
                        None => said(r) == Err::<Frame, _>(TWICE@),
                    }
                },
            },
    {
        if let Some(words) = self.refused.take() {
            return Err(words);
        }
        match self.described.take() {
            Some(frame) => Ok(frame),
            None => Err(TWICE.to_owned()),
        }
    }

    /// Whether the name is free, by the tables the database holds.
    ///
    /// Refused here rather than at the statement that would have hit it: a label in a
    /// statement is one thing and the stored table would win.
    pub fn free(&self, nodes: &Vec<String>, rels: &Vec<String>) -> (r: Result<(), String>)
        ensures
            match r {
                Ok(()) => !among(nodes@, self.name@) && !among(rels@, self.name@),
                Err(words) => (among(nodes@, self.name@) || among(rels@, self.name@)) && words@ == clashes(self.name@),
            },
    {
        if has_table(nodes, rels, self.name.as_str()) {
            Err(
                "'".to_owned().concat(self.name.as_str()).concat(
                    "' is already a table of this database, and registering over one \
                     would hide rows this frame knows nothing about",
                ),
            )
        } else {
            Ok(())
        }
    }
}

/// What taking away a name nothing is registered under is refused with.
pub open spec fn unknown(name: Seq<char>) -> Seq<char> {
    "nothing is registered here as '"@ + name
        + "', and a name this connection did not \
                     register is a table of the database rather than a frame of the caller's"@
}

/// Takes a registered frame's name away.
pub struct UnregisterTask {
    pub name: String,
    pub refused: Option<String>,
}

impl UnregisterTask {
    /// A call to take a name away, ready to run or ready to say why it will not.
    pub fn new(name: String, refused: Option<String>) -> (r: UnregisterTask)
        ensures
            r == (UnregisterTask { name, refused }),
    {
        UnregisterTask { name, refused }
    }

    /// What the call answers, by whether there was such a name to take away.
    pub fn answer(&self, found: bool) -> (r: Result<(), String>)
        ensures
            match r {
                Ok(()) => found,
                Err(words) => !found && words@ == unknown(self.name@),
            },
    {
        if found {
            Ok(())
        } else {
            Err(
                "nothing is registered here as '".to_owned().concat(self.name.as_str()).concat(
                    "', and a name this connection did not \
                     register is a table of the database rather than a frame of the caller's",
                ),
            )
        }
    }
}

/// Asks which names frames are registered under.
pub struct RegisteredTask {
    pub refused: Option<String>,
}

impl RegisteredTask {
    /// The question, ready to be asked or ready to say why it will not be.
    pub fn new(refused: Option<String>) -> (r: RegisteredTask)
        ensures
            r.refused == refused,
    {
        RegisteredTask { refused }
    }
}

/// What a closed connection says.
pub fn closed() -> (r: String)
    ensures
        r@ == CLOSED@,
{
    CLOSED.to_owned()
}

/// A name a statement can carry is some letters, digits and underscores that do not start with a
/// digit, by the numbers of the characters, and every such name is one.
pub proof fn law_a_name_is_letters_digits_and_underscores(name: Seq<char>)
    ensures
        carries(name) <==> name.len() > 0 && !(48 <= name[0] as int <= 57) && forall|i: int|
            0 <= i < name.len() ==> {
                let c = #[trigger] name[i] as int;
                48 <= c <= 57 || 65 <= c <= 90 || c == 95 || 97 <= c <= 122
            },
{
    if carries(name) {
        assert forall|i: int| 0 <= i < name.len() implies {
            let c = #[trigger] name[i] as int;
            48 <= c <= 57 || 65 <= c <= 90 || c == 95 || 97 <= c <= 122
        } by {
            if i > 0 {
                assert(goes_on(name[i]));
            }
        }
    }
    if name.len() > 0 {
        let first = name[0] as int;
        if forall|i: int|
            0 <= i < name.len() ==> {
                let c = #[trigger] name[i] as int;
                48 <= c <= 57 || 65 <= c <= 90 || c == 95 || 97 <= c <= 122
            } {
            assert(48 <= first <= 57 || 65 <= first <= 90 || first == 95 || 97 <= first <= 122);
            assert forall|i: int| 1 <= i < name.len() implies goes_on(#[trigger] name[i]) by {
                let c = name[i] as int;
                assert(48 <= c <= 57 || 65 <= c <= 90 || c == 95 || 97 <= c <= 122);
            }
        }
    }
}

proof fn lemma_first_misnamed(columns: Seq<Described>, at: int)
    requires
        0 <= at <= columns.len(),
    ensures
        match misnamed(columns, at) {
            None => forall|i: int| at <= i < columns.len() ==> carries((#[trigger] columns[i]).name@),
            Some(k) => at <= k < columns.len() && !carries(columns[k].name@) && forall|i: int|
                at <= i < k ==> carries((#[trigger] columns[i]).name@),
        },
    decreases columns.len() - at,
{
    if at < columns.len() {
        lemma_first_misnamed(columns, at + 1);
    }
}

/// A frame is registered exactly when it was read, it has a column, and its own name and the name of
/// every column of it is one a statement can carry.
pub proof fn law_a_frame_is_registered_by_names(name: Seq<char>, frame: Frame, words: String)
    ensures
        unreadable(name, Ok(frame)) is None <==> carries(name) && frame.columns@.len() > 0 && forall|i: int|
            0 <= i < frame.columns@.len() ==> carries((#[trigger] frame.columns@[i]).name@),
        carries(name) ==> unreadable(name, Err(words)) == Some(words@),
        !carries(name) ==> unreadable(name, Err(words)) is Some,
{
    lemma_first_misnamed(frame.columns@, 0);
}

} // verus!
