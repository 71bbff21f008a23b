//! Coordination engine for short-lived bingo sessions: a host opens a lobby
//! with 25 cards, players join, the host moves the lobby through its stages,
//! players submit boards and the winners are read off the called cards.

pub mod board;
pub mod keyed;
pub mod lobby_id;
pub mod manager;
pub mod model;
pub mod protocol;
pub mod stage;
