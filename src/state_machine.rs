use vstd::prelude::*;

verus! {

/// Whether the coordinator accepts new connections.
#[allow(non_camel_case_types, clippy::upper_case_acronyms)]
#[derive(Clone, Copy, PartialEq, Eq, Debug, Structural)]
pub enum State {
    /// New connections are accepted and each gets a session.
    OPEN,
    /// No new connection is accepted; open sessions run to their end.
    CLOSED,
}

/// The coordinator's operational flag.
#[derive(Debug)]
pub struct StateMachine {
    state: State,
}

impl View for StateMachine {
    type V = State;

    closed spec fn view(&self) -> State {
        self.state
    }
}

impl StateMachine {
    /// A flag that starts `OPEN`.
    pub fn new() -> (r: StateMachine)
        ensures
            r@ == State::OPEN,
    {
        StateMachine { state: State::OPEN }
    }

    /// Sets the flag to `OPEN`.
    pub fn open(&mut self)
        ensures
            final(self)@ == State::OPEN,
    {
        self.state = State::OPEN;
    }

    /// Sets the flag to `CLOSED`.
    pub fn close(&mut self)
        ensures
            final(self)@ == State::CLOSED,
    {
        self.state = State::CLOSED;
    }

    /// The current value of the flag.
    pub fn get_state(&self) -> (r: State)
        ensures
            r == self@,
    {
        self.state
    }
}

} // verus!
