//! Payloads exchanged with clients, in their plain form.

use vstd::prelude::*;

use crate::lobby_id::LobbyId;
use crate::model::{Card, Host};

verus! {

/// Request to open a lobby with the host's name and the 25 card texts.
#[derive(Debug)]
pub struct CreateLobbyRequest {
    pub host_name: String,
    pub cards: [String; 25],
}

/// Answer to a lobby creation: who hosts it and under which id.
#[derive(Debug)]
pub struct CreateLobbyResponse {
    pub host: Host,
    pub lobby_id: LobbyId,
}

/// Request to join the lobby `lobby_id` under `player_name`.
#[derive(Debug)]
pub struct JoinLobbyRequest {
    pub player_name: String,
    pub lobby_id: LobbyId,
}

/// Request to open a lobby with the host's name and the 25 card texts.
#[derive(Debug)]
pub struct HostLobbyRequest {
    pub host_name: String,
    pub cards: [String; 25],
}

/// A board submitted for the lobby `lobby_id`: 25 card ids in row-major order.
#[derive(Debug)]
pub struct BoardSubmitRequest {
    pub lobby_id: LobbyId,
    pub cards: [u8; 25],
}

/// What a joining player learns: the roster before them, the host's name and
/// the lobby's cards.
#[derive(Debug)]
pub struct JoinLobbyAck {
    pub players: Vec<String>,
    pub host: String,
    pub cards: Vec<Card>,
}

/// What a host learns after opening a lobby: its id and its cards.
#[derive(Debug)]
pub struct HostLobbyAck {
    pub lobby_id: String,
    pub cards: Vec<Card>,
}

/// The reply sent to a request: its data on success, a message on failure.
#[derive(Debug)]
pub enum Acknowledgement<T> {
    Success { data: T },
    Failure { message: String },
}

impl Acknowledgement<()> {
    pub fn success<T>(data: T) -> (r: Acknowledgement<T>)
        ensures
            r == (Acknowledgement::Success { data }),
    {
        Acknowledgement::Success { data }
    }

    pub fn failure(message: String) -> (r: Acknowledgement<()>)
        ensures
            r == (Acknowledgement::<()>::Failure { message }),
    {
        Acknowledgement::Failure { message }
    }

    pub fn failure_t<T>(message: String) -> (r: Acknowledgement<T>)
        ensures
            r == (Acknowledgement::<T>::Failure { message }),
    {
        Acknowledgement::Failure { message }
    }
}

} // verus!
