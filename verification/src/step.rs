//! The protocol between the decision core and the program around it.
//!
//! A piece of work that needs the outside world (git, a database, the file
//! system) is a state. Its `request` says what is to be done outside; the
//! program does it and hands the answer to `resume`, which decides how to go
//! on. An answer that does not fit the pending request changes nothing.
use vstd::prelude::*;

verus! {

/// Where a piece of work stands: it waits for the answer to the request of a
/// state, or it is done.
#[derive(Debug)]
pub enum Step<T, R> {
    /// The request of the state is to be performed.
    Ask(T),
    /// The work is done, with this result.
    Done(R),
}

} // verus!
