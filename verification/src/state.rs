//! The run-state machine gating automatic evolution.

use vstd::prelude::*;

verus! {

/// Whether automatic evolution is active. The state starts at `INITIAL`
/// (paused, editable) and is flipped by an explicit user command; no other
/// transitions exist.
#[allow(non_camel_case_types)]
#[derive(Debug, Clone, Copy, PartialEq, Eq, Hash, Structural)]
pub enum GameState {
    INITIAL,
    RUNNING,
}

/// The other run state: the result of one toggle command.
pub open spec fn toggled(s: GameState) -> GameState {
    match s {
        GameState::INITIAL => GameState::RUNNING,
        GameState::RUNNING => GameState::INITIAL,
    }
}

impl Default for GameState {
    /// The lifecycle starts paused.
    fn default() -> (r: GameState)
        ensures
            r == GameState::INITIAL,
    {
        GameState::INITIAL
    }
}

} // verus!
