//! Raising a condition as a JavaScript exception.
//!
//! What a caller catches is an ordinary `Error`. What makes it this client's is the fields it
//! carries: every field the error model gives a binding is a property, and none of them is
//! parsed back out of a message. The name is the condition's class written out, so a stack
//! trace says `ZuSyntaxError` rather than `Error`.

use vstd::prelude::*;

use crate::js::Kind;
use crate::text::same;
use crate::value::{properties, property, shows, Made, Shown};

verus! {

/// How serious a condition is.
#[derive(Clone, Copy, PartialEq, Eq, Structural)]
pub enum Severity {
    Success,
    NoData,
    Warning,
    Informational,
    Exception,
}

/// A condition of the standard's: its code, the two characters of it that name its class, the
/// standard's own words for it, how serious it is, and where it is written about.
pub struct Status {
    pub code: String,
    pub class: String,
    pub condition: String,
    pub severity: Severity,
    pub doc_url: String,
}

/// A place in a statement.
pub struct Position {
    pub line: u32,
    pub column: u32,
    pub offset: u32,
}

/// What a failure without a code is of.
#[derive(Clone, Copy, PartialEq, Eq, Structural)]
pub enum Sort {
    Interrupted,
    InvalidArgument,
    Conflict,
    Io,
    Corrupt,
    Other,
}

/// A failure the engine raised, by what a binding reads off it.
pub struct Raised {
    pub message: String,
    pub retryable: bool,
    pub sort: Sort,
    pub status: Option<Status>,
    pub position: Option<Position>,
    pub excerpt: Option<String>,
}

/// The name a failure without a code wears.
///
/// A file that is not there, or is there and is not a database, is the same kind of thing as a
/// database that cannot be reached. Reporting a missing path as an internal error would tell
/// the caller to file a bug about their own typo.
pub open spec fn codeless(sort: Sort) -> Seq<char> {
    match sort {
        Sort::Interrupted => "ZuInterrupted"@,
        Sort::InvalidArgument => "ZuUsageError"@,
        Sort::Conflict => "ZuTransactionError"@,
        Sort::Io | Sort::Corrupt => "ZuConnectionError"@,
        Sort::Other => "ZuInternalError"@,
    }
}

/// The name a class of conditions wears.
pub open spec fn class_name(class: Seq<char>) -> Seq<char> {
    if class == "08"@ {
        "ZuConnectionError"@
    } else if class == "22"@ {
        "ZuDataError"@
    } else if class == "25"@ || class == "2D"@ || class == "40"@ {
        "ZuTransactionError"@
    } else if class == "42"@ {
        "ZuSyntaxError"@
    } else {
        "ZuError"@
    }
}

/// The name a failure wears.
pub open spec fn name_of(err: Raised) -> Seq<char> {
    match err.status {
        None => codeless(err.sort),
        Some(status) => class_name(status.class@),
    }
}

/// The name a condition wears.
///
/// One name per class, which is what the two characters that open a code are for: a caller
/// that wants every condition of a class tests one name rather than listing them, and a
/// condition added to that class later answers to the same test.
pub fn name_for(err: &Raised) -> (r: &'static str)
    ensures
        r@ == name_of(*err),
{
    match &err.status {
        None => match err.sort {
            Sort::Interrupted => "ZuInterrupted",
            Sort::InvalidArgument => "ZuUsageError",
            Sort::Conflict => "ZuTransactionError",
            Sort::Io | Sort::Corrupt => "ZuConnectionError",
            Sort::Other => "ZuInternalError",
        },
        Some(status) => {
            let class: &str = status.class.as_str();
            if same(class, "08") {
                "ZuConnectionError"
            } else if same(class, "22") {
                "ZuDataError"
            } else if same(class, "25") || same(class, "2D") || same(class, "40") {
                "ZuTransactionError"
            } else if same(class, "42") {
                "ZuSyntaxError"
            } else {
                "ZuError"
            }
        },
    }
}

/// The severity's name, because `"exception"` is what a person reading a log understands.
pub open spec fn severity_of(severity: Severity) -> Seq<char> {
    match severity {
        Severity::Success => "success"@,
        Severity::NoData => "noData"@,
        Severity::Warning => "warning"@,
        Severity::Informational => "informational"@,
        Severity::Exception => "exception"@,
    }
}

/// The severity's name.
pub fn severity(how: Severity) -> (r: &'static str)
    ensures
        r@ == severity_of(how),
{
    match how {
        Severity::Success => "success",
        Severity::NoData => "noData",
        Severity::Warning => "warning",
        Severity::Informational => "informational",
        Severity::Exception => "exception",
    }
}

/// An `Error` about to be made: its name, its message, and the properties on it besides.
pub struct Exception {
    pub name: &'static str,
    pub message: String,
    pub fields: Vec<(String, Made)>,
}

/// The properties a condition with a code carries for it.
pub open spec fn status_fields(status: Option<Status>) -> Seq<(Seq<char>, Shown)> {
    match status {
        None => Seq::empty(),
        Some(status) => Seq::empty().push(("code"@, Shown::Text(status.code@))).push(
            ("condition"@, Shown::Text(status.condition@)),
        ).push(("severity"@, Shown::Text(severity_of(status.severity)))).push(
            ("docUrl"@, Shown::Text(status.doc_url@)),
        ),
    }
}

/// The properties a condition with a place in the statement carries for it.
pub open spec fn position_fields(position: Option<Position>) -> Seq<(Seq<char>, Shown)> {
    match position {
        None => Seq::empty(),
        Some(at) => Seq::empty().push(("line"@, Shown::Count(at.line as u64))).push(
            ("column"@, Shown::Count(at.column as u64)),
        ).push(("offset"@, Shown::Count(at.offset as u64))),
    }
}

/// The property a condition that quotes the statement carries for it.
pub open spec fn excerpt_fields(excerpt: Option<String>) -> Seq<(Seq<char>, Shown)> {
    match excerpt {
        None => Seq::empty(),
        Some(excerpt) => Seq::empty().push(("excerpt"@, Shown::Text(excerpt@))),
    }
}

/// Every property a failure carries besides its name and its message.
pub open spec fn fields_of(err: Raised) -> Seq<(Seq<char>, Shown)> {
    Seq::empty().push(("retryable"@, Shown::Flag(err.retryable))) + status_fields(err.status) + position_fields(
        err.position,
    ) + excerpt_fields(err.excerpt)
}

/// Whether an exception is this failure.
pub open spec fn is_raised(made: Exception, err: Raised) -> bool {
    &&& made.name@ == name_of(err)
    &&& made.message@ == err.message@
    &&& properties(made.fields@, fields_of(err))
}

/// Builds the exception for a failure the engine raised.
pub fn build(err: &Raised) -> (r: Exception)
    ensures
        is_raised(r, *err),
{
    let ghost mut shown: Seq<(Seq<char>, Shown)> = Seq::empty();
    let mut fields: Vec<(String, Made)> = Vec::new();
    property(&mut fields, "retryable", Made::Boolean(err.retryable));
    proof {
        shown = shown.push(("retryable"@, Shown::Flag(err.retryable)));
    }
    if let Some(status) = &err.status {
        property(&mut fields, "code", Made::Text(status.code.clone()));
        property(&mut fields, "condition", Made::Text(status.condition.clone()));
        property(&mut fields, "severity", Made::Text(severity(status.severity).to_owned()));
        property(&mut fields, "docUrl", Made::Text(status.doc_url.clone()));
    }
    proof {
        shown = shown + status_fields(err.status);
        assert(properties(fields@, shown));
    }
    if let Some(at) = &err.position {
        property(&mut fields, "line", Made::Count(at.line as u64));
        property(&mut fields, "column", Made::Count(at.column as u64));
        property(&mut fields, "offset", Made::Count(at.offset as u64));
    }
    proof {
        shown = shown + position_fields(err.position);
        assert(properties(fields@, shown));
    }
    if let Some(excerpt) = &err.excerpt {
        property(&mut fields, "excerpt", Made::Text(excerpt.clone()));
    }
    Exception { name: name_for(err), message: err.message.clone(), fields }
}

fn plain(name: &'static str, message: &str) -> (r: Exception)
    ensures
        r.name@ == name@,
        r.message@ == message@,
        properties(r.fields@, Seq::empty().push(("retryable"@, Shown::Flag(false)))),
{
    let mut fields: Vec<(String, Made)> = Vec::new();
    property(&mut fields, "retryable", Made::Boolean(false));
    proof {
        assert(properties(fields@, Seq::empty().push(("retryable"@, Shown::Flag(false)))));
    }
    Exception { name, message: message.to_owned(), fields }
}

/// A mistake the program made, as the exception for one.
///
/// It carries no `code`, since a caller mapping codes to branches has to be able to tell a
/// missing code from one it does not recognize.
pub fn usage(message: &str) -> (r: Exception)
    ensures
        r.name@ == "ZuUsageError"@,
        r.message@ == message@,
        properties(r.fields@, Seq::empty().push(("retryable"@, Shown::Flag(false)))),
{
    plain("ZuUsageError", message)
}

/// A statement stopped by a signal that named no reason of its own.
///
/// Named `AbortError`, because that is the name every runtime gives the reason it makes for a
/// signal nobody gave one to.
pub fn aborted(message: &str) -> (r: Exception)
    ensures
        r.name@ == "AbortError"@,
        r.message@ == message@,
        properties(r.fields@, Seq::empty().push(("retryable"@, Shown::Flag(false)))),
{
    plain("AbortError", message)
}

/// The `stack` an error is given, by what kind of value the runtime gave it as one: the header
/// line, on a runtime that gave it none. An error that arrived with a stack keeps it.
pub fn stacked(existing: Kind, name: &str, message: &str) -> (r: Option<String>)
    ensures
        match r {
            None => existing == Kind::Text,
            Some(stack) => existing != Kind::Text && stack@ == name@ + ": "@ + message@,
        },
{
    if existing == Kind::Text {
        None
    } else {
        Some(name.to_owned().concat(": ").concat(message))
    }
}

/// Two conditions of one class wear one name, whatever else is different about them.
pub proof fn law_a_class_has_one_name(one: Raised, other: Raised)
    requires
        one.status matches Some(a) && (other.status matches Some(b) && a.class@ == b.class@),
    ensures
        name_of(one) == name_of(other),
{
}

/// Each name is that of the classes it is the name of and of no other: `08`, `22`, `25`, `2D`, `40`
/// and `42` have theirs and every other class shares the plain one. A failure without a code is
/// named by what it is of.
pub proof fn law_a_name_names_its_classes(err: Raised)
    ensures
        err.status matches Some(status) ==> (name_of(err) == "ZuConnectionError"@ <==> status.class@ == "08"@) && (name_of(
            err,
        ) == "ZuDataError"@ <==> status.class@ == "22"@) && (name_of(err) == "ZuTransactionError"@ <==> status.class@
            == "25"@ || status.class@ == "2D"@ || status.class@ == "40"@) && (name_of(err) == "ZuSyntaxError"@
            <==> status.class@ == "42"@) && (name_of(err) == "ZuError"@ <==> status.class@ != "08"@ && status.class@
            != "22"@ && status.class@ != "25"@ && status.class@ != "2D"@ && status.class@ != "40"@ && status.class@
            != "42"@),
        err.status is None ==> (name_of(err) == "ZuInterrupted"@ <==> err.sort is Interrupted) && (name_of(err)
            == "ZuUsageError"@ <==> err.sort is InvalidArgument) && (name_of(err) == "ZuTransactionError"@ <==> err.sort
            is Conflict) && (name_of(err) == "ZuConnectionError"@ <==> err.sort is Io || err.sort is Corrupt) && (name_of(
            err,
        ) == "ZuInternalError"@ <==> err.sort is Other),
{
    reveal_strlit("ZuConnectionError");
    reveal_strlit("ZuDataError");
    reveal_strlit("ZuTransactionError");
    reveal_strlit("ZuSyntaxError");
    reveal_strlit("ZuError");
    reveal_strlit("ZuInterrupted");
    reveal_strlit("ZuUsageError");
    reveal_strlit("ZuInternalError");
    reveal_strlit("08");
    reveal_strlit("22");
    reveal_strlit("25");
    reveal_strlit("2D");
    reveal_strlit("40");
    reveal_strlit("42");
    assert("ZuConnectionError"@.len() == 17 && "ZuDataError"@.len() == 11 && "ZuTransactionError"@.len() == 18);
    assert("ZuSyntaxError"@.len() == 13 && "ZuError"@.len() == 7 && "ZuInterrupted"@.len() == 13);
    assert("ZuUsageError"@.len() == 12 && "ZuInternalError"@.len() == 15);
    assert("08"@[0] == '0' && "22"@[0] == '2' && "25"@[0] == '2' && "2D"@[0] == '2' && "40"@[0] == '4' && "42"@[0] == '4');
    assert("08"@[1] == '8' && "22"@[1] == '2' && "25"@[1] == '5' && "2D"@[1] == 'D' && "40"@[1] == '0' && "42"@[1] == '2');
}

/// Each severity has a name of its own.
pub proof fn law_a_severity_has_its_own_name(severity: Severity)
    ensures
        severity_of(severity) == "success"@ <==> severity is Success,
        severity_of(severity) == "noData"@ <==> severity is NoData,
        severity_of(severity) == "warning"@ <==> severity is Warning,
        severity_of(severity) == "informational"@ <==> severity is Informational,
        severity_of(severity) == "exception"@ <==> severity is Exception,
{
    reveal_strlit("success");
    reveal_strlit("noData");
    reveal_strlit("warning");
    reveal_strlit("informational");
    reveal_strlit("exception");
    assert("success"@.len() == 7 && "noData"@.len() == 6 && "warning"@.len() == 7 && "informational"@.len() == 13
        && "exception"@.len() == 9);
    assert("success"@[0] == 's' && "warning"@[0] == 'w');
}

/// An exception carries what the failure carries: its message, whether it is worth trying again, and
/// its code, condition, severity and page, its line, column and offset, and its excerpt, each
/// exactly where the failure has one.
pub proof fn law_an_exception_carries_the_failure(made: Exception, err: Raised)
    requires
        is_raised(made, err),
    ensures
        ({
            let f = made.fields@;
            let s: int = if err.status is Some { 4 } else { 0 };
            let p: int = if err.position is Some { 3 } else { 0 };
            let e: int = if err.excerpt is Some { 1 } else { 0 };
            &&& made.message@ == err.message@
            &&& f.len() == 1 + s + p + e
            &&& f[0].0@ == "retryable"@ && f[0].1 == Made::Boolean(err.retryable)
            &&& err.status matches Some(status) ==> f[1].0@ == "code"@ && (f[1].1 matches Made::Text(t) && t@
                == status.code@) && f[2].0@ == "condition"@ && (f[2].1 matches Made::Text(t) && t@ == status.condition@)
                && f[3].0@ == "severity"@ && (f[3].1 matches Made::Text(t) && t@ == severity_of(status.severity)) && f[4].0@
                == "docUrl"@ && (f[4].1 matches Made::Text(t) && t@ == status.doc_url@)
            &&& err.position matches Some(at) ==> f[1 + s].0@ == "line"@ && (f[1 + s].1 matches Made::Count(n) && n == at.line)
                && f[2 + s].0@ == "column"@ && (f[2 + s].1 matches Made::Count(n) && n == at.column) && f[3 + s].0@
                == "offset"@ && (f[3 + s].1 matches Made::Count(n) && n == at.offset)
            &&& err.excerpt matches Some(excerpt) ==> f[1 + s + p].0@ == "excerpt"@ && (f[1 + s + p].1 matches Made::Text(t)
                && t@ == excerpt@)
        }),
{
    let f = made.fields@;
    let shown = fields_of(err);
    let s: int = if err.status is Some { 4 } else { 0 };
    let p: int = if err.position is Some { 3 } else { 0 };
    assert(f[0].0@ == shown[0].0 && shows(f[0].1, shown[0].1));
    if err.status is Some {
        assert(f[1].0@ == shown[1].0 && shows(f[1].1, shown[1].1));
        assert(f[2].0@ == shown[2].0 && shows(f[2].1, shown[2].1));
        assert(f[3].0@ == shown[3].0 && shows(f[3].1, shown[3].1));
        assert(f[4].0@ == shown[4].0 && shows(f[4].1, shown[4].1));
    }
    if err.position is Some {
        assert(f[1 + s].0@ == shown[1 + s].0 && shows(f[1 + s].1, shown[1 + s].1));
        assert(f[2 + s].0@ == shown[2 + s].0 && shows(f[2 + s].1, shown[2 + s].1));
        assert(f[3 + s].0@ == shown[3 + s].0 && shows(f[3 + s].1, shown[3 + s].1));
    }
    if err.excerpt is Some {
        assert(f[1 + s + p].0@ == shown[1 + s + p].0 && shows(f[1 + s + p].1, shown[1 + s + p].1));
    }
}

} // verus!
