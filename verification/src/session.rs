//! The session: one connection, two pumps that race over it, and the outcome
//! of the pump that ends first.

use crate::outcome::{Failure, Outcome};
use vstd::prelude::*;

verus! {

/// One of the two pumps of a session.
#[derive(Debug, Clone, Copy, PartialEq, Eq, Structural)]
pub enum Pump {
    Outbound,
    Inbound,
}

/// The end of a pump: which one, and how.
#[derive(Debug, Clone, Copy, PartialEq, Eq, Structural)]
pub struct Finish {
    pub pump: Pump,
    pub outcome: Outcome,
}

/// The state of a session after a pump has ended: the first end stands.
pub open spec fn settle(first: Option<Finish>, finish: Finish) -> Option<Finish> {
    match first {
        Some(_) => first,
        None => Some(finish),
    }
}

/// The state of a session after a run of ends, in the order in which they
/// happened.
pub open spec fn settle_all(first: Option<Finish>, finishes: Seq<Finish>) -> Option<Finish>
    decreases finishes.len(),
{
    if finishes.len() == 0 {
        first
    } else {
        settle_all(settle(first, finishes[0]), finishes.drop_first())
    }
}

/// A session. It races its two pumps and ends when the first of them ends.
#[derive(Debug, Clone, Copy, PartialEq, Eq)]
pub struct Session {
    /// The end of the pump that ended first, `None` while both run.
    pub first: Option<Finish>,
}

impl Session {
    /// A session whose pumps both run.
    pub fn new() -> (session: Session)
        ensures
            session.first is None,
    {
        Session { first: None }
    }

    /// Starts a session once the connection was asked for. Without a
    /// connection there is no session and no race: the attempt has failed.
    pub fn open(connected: bool) -> (started: Result<Session, Outcome>)
        ensures
            started == if connected {
                Ok::<Session, Outcome>(Session { first: None })
            } else {
                Err::<Session, Outcome>(Outcome::Failure(Failure::Connect))
            },
    {
        if connected {
            Ok(Session::new())
        } else {
            Err(Outcome::Failure(Failure::Connect))
        }
    }

    /// Whether the session has ended.
    pub fn is_over(&self) -> (over: bool)
        ensures
            over == self.first is Some,
    {
        self.first.is_some()
    }

    /// Records that a pump has ended, and gives the outcome of the session:
    /// that of the pump that ended first.
    pub fn finished(&mut self, pump: Pump, outcome: Outcome) -> (decided: Outcome)
        ensures
            final(self).first == settle(old(self).first, (Finish { pump, outcome })),
            Some(decided) == final(self).outcome(),
    {
        match self.first {
            Some(first) => first.outcome,
            None => {
                self.first = Some(Finish { pump, outcome });
                outcome
            },
        }
    }

    /// The outcome of the session, `None` while both pumps run.
    pub open spec fn outcome(&self) -> Option<Outcome> {
        match self.first {
            Some(first) => Some(first.outcome),
            None => None,
        }
    }
}

/// The pump that ends first decides: whatever ends later changes nothing.
pub proof fn law_first_decides(finishes: Seq<Finish>)
    requires
        finishes.len() > 0,
    ensures
        settle_all(None, finishes) == Some(finishes[0]),
{
    lemma_settled_stays(finishes[0], finishes.drop_first());
}

/// A session that has ended stays as it ended.
pub proof fn lemma_settled_stays(first: Finish, finishes: Seq<Finish>)
    ensures
        settle_all(Some(first), finishes) == Some(first),
    decreases finishes.len(),
{
    if finishes.len() > 0 {
        lemma_settled_stays(first, finishes.drop_first());
    }
}

} // verus!
