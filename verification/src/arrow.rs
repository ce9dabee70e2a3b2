//! A result as Arrow, in the bytes Arrow ships between processes.
//!
//! What comes back is bytes: the buffers of the columns with the schema written beside them, in
//! the format every Arrow implementation already reads.

use vstd::prelude::*;

use crate::conn::{notices, notices_as, refused, Failure, Notice, QueryTask};
use crate::value::{object, properties, property, shows, Made, Shown};

verus! {

/// One statement, read as Arrow.
pub struct ArrowTask {
    pub task: QueryTask,
    /// How many rows go in a record batch, or why the caller's answer to that could not be
    /// read.
    pub batch: Result<usize, String>,
}

impl ArrowTask {
    /// Settles a call before the statement runs: how many rows go in a record batch, or what the
    /// call is refused with.
    ///
    /// The batch size first, because one nobody could read is a call that was wrong when it was
    /// written and not an answer worth running a scan for.
    pub fn settle<E>(&mut self) -> (r: Result<usize, Failure<E>>)
        ensures
            final(self).batch == old(self).batch,
            match old(self).batch {
                Err(words) => refused(r, words@) && final(self).task == old(self).task,
                Ok(batch) => {
                    &&& final(self).task == (QueryTask { refused: None, ..old(self).task })
                    &&& match old(self).task.refused {
                        Some(words) => refused(r, words@),
                        None => r == Ok::<_, Failure<E>>(batch),
                    }
                },
            },
    {
        let batch: usize = match &self.batch {
            Err(words) => return Err(Failure::Usage(words.clone())),
            Ok(batch) => *batch,
        };
        match self.task.refused.take() {
            Some(words) => Err(Failure::Usage(words)),
            None => Ok(batch),
        }
    }
}

/// A whole result, as the bytes and what came with them.
pub struct Read {
    pub ipc: Vec<u8>,
    pub rows: u64,
    pub gqlstatus: String,
    pub notices: Vec<Notice>,
}

/// A whole result as the object a caller reads.
pub open spec fn read_fields(read: Read) -> Seq<(Seq<char>, Shown)> {
    Seq::empty().push(("ipc"@, Shown::Bytes(read.ipc@))).push(("rows"@, Shown::Count(read.rows))).push(
        ("gqlstatus"@, Shown::Text(read.gqlstatus@)),
    ).push(("notices"@, notices_as(read.notices@)))
}

impl Read {
    /// The result as the object a caller reads.
    pub fn to_js(self) -> (r: Made)
        ensures
            shows(r, Shown::Object(read_fields(self))),
    {
        let mut fields: Vec<(String, Made)> = Vec::new();
        property(&mut fields, "ipc", Made::Bytes(self.ipc));
        property(&mut fields, "rows", Made::Count(self.rows));
        property(&mut fields, "gqlstatus", Made::Text(self.gqlstatus));
        property(&mut fields, "notices", notices(&self.notices));
        proof {
            assert(properties(fields@, read_fields(self)));
        }
        object(fields)
    }
}

/// A result as Arrow is handed over whole: its bytes as they are, how many rows they hold, the status
/// it ended with and a notice for every one there was.
pub proof fn law_a_result_is_handed_over_whole(read: Read, made: Made)
    requires
        shows(made, Shown::Object(read_fields(read))),
    ensures
        made matches Made::Object(f) && f@.len() == 4 && f@[0].0@ == "ipc"@ && (f@[0].1 matches Made::Bytes(bytes) && bytes@
            == read.ipc@) && f@[1].0@ == "rows"@ && f@[1].1 == Made::Count(read.rows) && f@[2].0@ == "gqlstatus"@
            && (f@[2].1 matches Made::Text(t) && t@ == read.gqlstatus@) && f@[3].0@ == "notices"@
            && (f@[3].1 matches Made::List(told) && told@.len() == read.notices@.len()),
{
    let f = made->Object_0;
    let shown = read_fields(read);
    assert(f@.len() == shown.len());
    assert(f@[0].0@ == shown[0].0 && shows(f@[0].1, shown[0].1));
    assert(f@[1].0@ == shown[1].0 && shows(f@[1].1, shown[1].1));
    assert(f@[2].0@ == shown[2].0 && shows(f@[2].1, shown[2].1));
    assert(f@[3].0@ == shown[3].0 && shows(f@[3].1, shown[3].1));
}

} // verus!
