//! The zu client for JavaScript.
//!
//! zu is an embedded graph database, so there is no socket and no server: a statement runs in
//! the process that called it, and what crosses between the two is values. This library is what
//! a client decides about them. Which value of one side a value of the other is, and which
//! sentence a value that is none is refused with; what a call on a connection, a transaction, a
//! stream, an appender or a prepared statement does next; where the values of a registered frame
//! lie; what a load writes; what an exception says.
//!
//! A JavaScript value is a [`js::Js`] here and an engine's value a [`value::Value`]. What is
//! built for JavaScript is a [`value::Made`]. Asking a runtime what a value is, and an engine to
//! run a statement, is the part of the client around this library.

pub mod append;
pub mod arrow;
pub mod buffer;
pub mod calendar;
pub mod cancel;
pub mod columns;
pub mod conn;
pub mod error;
pub mod frame;
pub mod js;
pub mod load;
pub mod number;
pub mod plan;
pub mod prepared;
pub mod register;
pub mod stream;
pub mod temporal;
pub mod text;
pub mod txn;
pub mod value;
