//! The life-cycle states of a coroutine.

use vstd::prelude::*;

verus! {

/// Where a coroutine stands in its life cycle.
#[derive(Clone, Copy, Debug, PartialEq, Eq, Structural)]
pub enum State {
    /// Not started yet, or parked by a voluntary yield; may be resumed.
    Suspended,
    /// The one coroutine whose code is executing right now.
    Running,
    /// Has resumed a child and waits for it to hand control back.
    Normal,
    /// Parked until some outside condition holds; may be resumed.
    Blocked,
    /// The body returned.
    Finished,
    /// The body panicked.
    Panicked,
}

impl State {
    /// Terminal states are never left again.
    pub open spec fn is_terminal(self) -> bool {
        self == State::Finished || self == State::Panicked
    }

    /// The states from which a resume transfers control.
    pub open spec fn is_resumable(self) -> bool {
        self == State::Suspended || self == State::Blocked
    }

    /// Whether the coroutine has reached `Finished` or `Panicked`.
    pub fn terminal(self) -> (r: bool)
        ensures
            r == self.is_terminal(),
    {
        self == State::Finished || self == State::Panicked
    }

    /// Whether a resume of a coroutine in this state switches into it.
    pub fn resumable(self) -> (r: bool)
        ensures
            r == self.is_resumable(),
    {
        self == State::Suspended || self == State::Blocked
    }
}

} // verus!
