//! Where a connection stands.

use vstd::prelude::*;

verus! {

/// The states of the protocol.
#[derive(Debug, Clone, Copy, PartialEq, Eq, Structural)]
pub enum State {
    HandShake,
    Status,
    Login,
    Transfer,
    Play,
    Config,
}

/// The state that a connection is in.
pub struct CurrentState {
    current_state: State,
}

impl View for CurrentState {
    type V = State;

    closed spec fn view(&self) -> State {
        self.current_state
    }
}

impl CurrentState {
    /// Starts in `initial_state`.
    pub fn new(initial_state: State) -> (current: Self)
        ensures
            current@ == initial_state,
    {
        Self { current_state: initial_state }
    }

    /// Moves to `new_state`.
    pub fn set_state(&mut self, new_state: State)
        ensures
            final(self)@ == new_state,
    {
        self.current_state = new_state;
    }

    /// Returns the state that the connection is in.
    pub fn get_state(&self) -> (state: State)
        ensures
            state == self@,
    {
        self.current_state
    }
}

} // verus!
