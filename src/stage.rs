//! The fixed, forward-only order of a lobby's stages.

use vstd::prelude::*;

verus! {

/// Error returned when a lobby that has already completed is asked to advance.
#[derive(Debug, Clone, Copy, PartialEq, Eq, Structural)]
pub struct LastStateReached;

/// The stages a lobby passes through, in order.
#[derive(Debug, Clone, Copy, PartialEq, Eq, Structural, Hash)]
pub enum LobbyState {
    /// The lobby is waiting for players to join - started by the host
    WaitingForPlayers,
    /// Players craft their boards. No more players can join
    CraftingBoards,
    /// The lobby is currently in progress.
    InProgress,
    /// The lobby has ended
    Completed,
}

/// Position of a stage in the fixed order.
pub open spec fn stage_rank(s: LobbyState) -> nat {
    match s {
        LobbyState::WaitingForPlayers => 0,
        LobbyState::CraftingBoards => 1,
        LobbyState::InProgress => 2,
        LobbyState::Completed => 3,
    }
}

/// The stage that follows `s`, if any.
pub open spec fn spec_next_stage(s: LobbyState) -> Option<LobbyState> {
    match s {
        LobbyState::WaitingForPlayers => Some(LobbyState::CraftingBoards),
        LobbyState::CraftingBoards => Some(LobbyState::InProgress),
        LobbyState::InProgress => Some(LobbyState::Completed),
        LobbyState::Completed => None,
    }
}

impl LobbyState {
    /// The stage after this one, or `None` for the last stage.
    pub fn next_stage(self) -> (r: Option<Self>)
        ensures
            r == spec_next_stage(self),
            r is None <==> self == LobbyState::Completed,
            r matches Some(n) ==> stage_rank(n) == stage_rank(self) + 1,
    {
        let state = match self {
            LobbyState::WaitingForPlayers => LobbyState::CraftingBoards,
            LobbyState::CraftingBoards => LobbyState::InProgress,
            LobbyState::InProgress => LobbyState::Completed,
            LobbyState::Completed => return None,
        };
        Some(state)
    }
}

/// The transition function is total and strictly increasing: every stage but
/// the last has a successor exactly one rank higher, the last has none, and
/// ranks identify stages.
pub proof fn lemma_next_stage_monotonic(s: LobbyState, t: LobbyState)
    ensures
        spec_next_stage(s) is None <==> s == LobbyState::Completed,
        spec_next_stage(s) matches Some(n) ==> stage_rank(n) == stage_rank(s) + 1,
        stage_rank(s) == stage_rank(t) ==> s == t,
        stage_rank(s) <= 3,
{
}

/// Walking the transitions from the first stage visits the four stages in
/// their fixed order and then stops.
pub proof fn lemma_stage_sequence()
    ensures
        spec_next_stage(LobbyState::WaitingForPlayers) == Some(LobbyState::CraftingBoards),
        spec_next_stage(LobbyState::CraftingBoards) == Some(LobbyState::InProgress),
        spec_next_stage(LobbyState::InProgress) == Some(LobbyState::Completed),
        spec_next_stage(LobbyState::Completed) is None,
{
}

} // verus!
