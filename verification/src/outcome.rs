//! How a pump, and with it the session, ends.

use vstd::prelude::*;

verus! {

/// What went wrong where a session failed.
#[derive(Debug, Clone, Copy, PartialEq, Eq, Structural)]
pub enum Failure {
    /// No connection to the server could be made.
    Connect,
    /// The local input could not be read.
    Input,
    /// A request could not be written to the connection, or not flushed.
    Send,
    /// The connection could not be read.
    Receive,
    /// A line from the connection is no record of a reply.
    Decode,
}

/// How a pump, or a session, ended.
#[derive(Debug, Clone, Copy, PartialEq, Eq, Structural)]
pub enum Outcome {
    Success,
    Failure(Failure),
}

/// The exit status of the process for the outcome of its session.
pub open spec fn status_of(outcome: Outcome) -> u8 {
    match outcome {
        Outcome::Success => 0,
        Outcome::Failure(_) => 1,
    }
}

/// The exit status of the process: zero for success and nothing else.
pub fn exit_status(outcome: Outcome) -> (status: u8)
    ensures
        status == status_of(outcome),
        status == 0 <==> outcome == Outcome::Success,
{
    match outcome {
        Outcome::Success => 0,
        Outcome::Failure(_) => 1,
    }
}

} // verus!
