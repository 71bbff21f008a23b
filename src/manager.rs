//! The registry of running lobbies and the decisions taken on each request.

use vstd::prelude::*;

use crate::keyed::{
    entries_map, keys_unique, lemma_entry_at, lemma_push_entry, lemma_remove_entry,
    lemma_update_entry,
};
use crate::lobby_id::{is_lobby_code, LobbyId, ParseLobbyIdError};
use crate::model::{
    cards_wf, copy_cards, has_player, name_in_roster, player_index,
    player_names, roster_after_join, string_views, Card, Host, JoinLobbyError, Lobby,
    ParticipantId, Player, SubmitBoardError, CARD_COUNT,
};
use crate::protocol::{
    BoardSubmitRequest, HostLobbyAck, HostLobbyRequest, JoinLobbyAck, JoinLobbyRequest,
};
use crate::stage::{spec_next_stage, LobbyState};

verus! {

/// All running lobbies, by id. Callers that share it between tasks hold it
/// behind one lock for each whole read-check-update sequence.
#[derive(Debug)]
pub struct LobbyManager {
    pub lobbies: Vec<(LobbyId, Lobby)>,
}

impl View for LobbyManager {
    type V = Map<LobbyId, Lobby>;

    open spec fn view(&self) -> Map<LobbyId, Lobby> {
        entries_map(self.lobbies@)
    }
}

/// Why a request to advance a lobby's stage was ignored.
#[derive(Debug, Clone, Copy, PartialEq, Eq, Structural)]
pub enum AdvanceRejected {
    /// No lobby has the requested id.
    LobbyDoesNotExist,
    /// The requester does not host the lobby.
    NotHost,
    /// The lobby is already completed.
    LastStageReached,
}

/// What the transport must tell a lobby's room after a participant left.
#[derive(Debug)]
pub enum DisconnectAction {
    /// A player left `lobby_id`; the room is told their name.
    PlayerLeft { lobby_id: LobbyId, player_name: String },
    /// The host left and `lobby_id` was closed; every connection leaves the room.
    LobbyClosed { lobby_id: LobbyId },
}

/// `cards` are the cards made from `texts`: the `i`-th has id `i` and text `texts[i]`.
pub open spec fn cards_from(cards: Seq<Card>, texts: Seq<String>) -> bool {
    &&& cards_wf(cards)
    &&& texts.len() == 25
    &&& forall|i: int| 0 <= i < 25 ==> (#[trigger] cards[i]).description == texts[i]
}

/// The 25 cards made from the host's texts, in the order given.
fn cards_from_texts(texts: &[String; 25]) -> (r: Vec<Card>)
    ensures
        cards_from(r@, texts@),
{
    let mut cards: Vec<Card> = Vec::new();
    let mut i: usize = 0;
    while i < CARD_COUNT
        invariant
            i <= 25,
            texts@.len() == 25,
            cards@.len() == i,
            forall|j: int| 0 <= j < i ==> (#[trigger] cards@[j]).id == j && cards@[j].description == texts@[j],
        decreases 25 - i,
    {
        cards.push(Card::new(texts[i].clone(), i as u8));
        i = i + 1;
    }
    cards
}

/// `after` is `before` once the player `id` left: their roster entry and
/// their board are gone, nothing else changed.
pub open spec fn player_left(before: Lobby, after: Lobby, id: ParticipantId) -> bool {
    &&& after.wf()
    &&& after.players@ == before.players@.remove(player_index(before.players@, id))
    &&& after.board_map() == before.board_map().remove(id)
    &&& after == (Lobby { players: after.players, boards: after.boards, ..before })
}

/// The outcome of `id` asking to join `lobby_id` under `name`, taking the
/// registry from `before` to `after` and answering `r`. Checked in order: the
/// lobby exists, it waits for players, the name is free; a failure changes
/// nothing.
pub open spec fn join_outcome(
    before: Map<LobbyId, Lobby>,
    after: Map<LobbyId, Lobby>,
    id: ParticipantId,
    lobby_id: LobbyId,
    name: String,
    r: Result<JoinLobbyAck, JoinLobbyError>,
) -> bool {
    if !before.contains_key(lobby_id) {
        r == Err::<JoinLobbyAck, JoinLobbyError>(JoinLobbyError::LobbyDoesNotExist) && after == before
    } else {
        let l = before[lobby_id];
        if l.state != LobbyState::WaitingForPlayers {
            r == Err::<JoinLobbyAck, JoinLobbyError>(JoinLobbyError::NotAcceptingPlayers) && after
                == before
        } else if name_in_roster(l.players@, name@) || l.host.name@ == name@ {
            r == Err::<JoinLobbyAck, JoinLobbyError>(JoinLobbyError::NameTaken) && after == before
        } else {
            &&& r is Ok
            &&& string_views(r->Ok_0.players@) == player_names(l.players@)
            &&& r->Ok_0.host@ == l.host.name@
            &&& r->Ok_0.cards@ == l.available_cards@
            &&& after == before.insert(lobby_id, after[lobby_id])
            &&& after[lobby_id] == (Lobby { players: after[lobby_id].players, ..l })
            &&& after[lobby_id].players@ == roster_after_join(l.players@, id, name)
        }
    }
}

/// `l` is a freshly created lobby of `host` with `cards`.
pub open spec fn is_fresh_lobby(l: Lobby, host: Host, cards: Seq<Card>) -> bool {
    &&& l.wf()
    &&& l.host == host
    &&& l.available_cards@ == cards
    &&& l.players@.len() == 0
    &&& l.boards@.len() == 0
    &&& l.correct_answers@.len() == 0
    &&& l.state == LobbyState::WaitingForPlayers
}

impl LobbyManager {
    /// Distinct ids, and every lobby well formed.
    pub open spec fn wf(&self) -> bool {
        &&& keys_unique(self.lobbies@)
        &&& forall|i: int| 0 <= i < self.lobbies@.len() ==> (#[trigger] self.lobbies@[i]).1.wf()
    }

    pub fn new() -> (r: Self)
        ensures
            r.wf(),
            r@ == Map::<LobbyId, Lobby>::empty(),
    {
        let r = Self { lobbies: Vec::new() };
        assert(r@ =~= Map::<LobbyId, Lobby>::empty());
        r
    }

    /// Position of the lobby `lobby_id`.
    fn find_lobby(&self, lobby_id: &LobbyId) -> (r: Option<usize>)
        requires
            self.wf(),
        ensures
            r is None <==> !self@.contains_key(*lobby_id),
            r matches Some(i) ==> i < self.lobbies@.len() && self.lobbies@[i as int].0
                == *lobby_id,
    {
        let mut i: usize = 0;
        while i < self.lobbies.len()
            invariant
                i <= self.lobbies@.len(),
                forall|j: int| 0 <= j < i ==> (#[trigger] self.lobbies@[j]).0 != *lobby_id,
            decreases self.lobbies@.len() - i,
        {
            if self.lobbies[i].0 == *lobby_id {
                return Some(i);
            }
            i = i + 1;
        }
        None
    }

    /// A well-formed registry holds well-formed lobbies.
    pub proof fn lemma_lobby_wf(&self, lobby_id: LobbyId)
        requires
            self.wf(),
            self@.contains_key(lobby_id),
        ensures
            self@[lobby_id].wf(),
    {
        let i = choose|i: int|
            0 <= i < self.lobbies@.len() && (#[trigger] self.lobbies@[i]).0 == lobby_id;
        lemma_entry_at(self.lobbies@, i);
    }

    /// Opens the lobby `lobby_id` for `host` with `cards`; an existing lobby
    /// with that id is replaced.
    pub fn create_lobby(&mut self, lobby_id: LobbyId, host: Host, cards: Vec<Card>)
        requires
            old(self).wf(),
            cards_wf(cards@),
        ensures
            final(self).wf(),
            final(self)@ == old(self)@.insert(lobby_id, final(self)@[lobby_id]),
            is_fresh_lobby(final(self)@[lobby_id], host, cards@),
    {
        let ghost cards0 = cards@;
        let lobby = Lobby::new(host, cards);
        let ghost fresh = lobby;
        let ghost entries0 = self.lobbies@;
        match self.find_lobby(&lobby_id) {
            Some(i) => {
                proof {
                    lemma_update_entry(entries0, i as int, lobby);
                }
                self.lobbies.set(i, (lobby_id, lobby));
                proof {
                    assert forall|j: int| 0 <= j < self.lobbies@.len() implies (#[trigger] self.lobbies@[j]).1.wf() by {
                        if j != i {
                            assert(self.lobbies@[j] == entries0[j]);
                        }
                    }
                }
            },
            None => {
                proof {
                    lemma_push_entry(entries0, lobby_id, lobby);
                }
                self.lobbies.push((lobby_id, lobby));
                proof {
                    assert forall|j: int| 0 <= j < self.lobbies@.len() implies (#[trigger] self.lobbies@[j]).1.wf() by {
                        if j < entries0.len() {
                            assert(self.lobbies@[j] == entries0[j]);
                        }
                    }
                }
            },
        }
        assert(self@[lobby_id] == fresh);
    }

    /// The lobby `lobby_id`, if it is running.
    pub fn get_lobby(&self, lobby_id: &LobbyId) -> (r: Option<&Lobby>)
        requires
            self.wf(),
        ensures
            r is Some <==> self@.contains_key(*lobby_id),
            r matches Some(l) ==> *l == self@[*lobby_id] && l.wf(),
    {
        match self.find_lobby(lobby_id) {
            Some(i) => {
                proof {
                    lemma_entry_at(self.lobbies@, i as int);
                }
                Some(&self.lobbies[i].1)
            },
            None => None,
        }
    }

    /// Closes the lobby `lobby_id` and hands it back, if it was running.
    pub fn remove_lobby(&mut self, lobby_id: &LobbyId) -> (r: Option<Lobby>)
        requires
            old(self).wf(),
        ensures
            final(self).wf(),
            final(self)@ == old(self)@.remove(*lobby_id),
            r is Some <==> old(self)@.contains_key(*lobby_id),
            r matches Some(l) ==> l == old(self)@[*lobby_id],
    {
        let ghost entries0 = self.lobbies@;
        match self.find_lobby(lobby_id) {
            Some(i) => {
                proof {
                    lemma_entry_at(entries0, i as int);
                    lemma_remove_entry(entries0, i as int);
                }
                let (_, lobby) = self.lobbies.remove(i);
                proof {
                    assert forall|j: int| 0 <= j < self.lobbies@.len() implies (#[trigger] self.lobbies@[j]).1.wf() by {
                        if j < i {
                            assert(self.lobbies@[j] == entries0[j]);
                        } else {
                            assert(self.lobbies@[j] == entries0[j + 1]);
                        }
                    }
                }
                Some(lobby)
            },
            None => {
                assert(self@ =~= self@.remove(*lobby_id));
                None
            },
        }
    }

    /// Opens a lobby for `host_id` under a fresh random id, with the cards
    /// made from the request's texts in order. Returns the id and the reply
    /// for the host.
    pub fn host_lobby(&mut self, host_id: ParticipantId, request: HostLobbyRequest) -> (r: (LobbyId, HostLobbyAck))
        requires
            old(self).wf(),
        ensures
            final(self).wf(),
            is_lobby_code(r.0@),
            r.1.lobby_id@ == r.0@,
            cards_from(r.1.cards@, request.cards@),
            final(self)@ == old(self)@.insert(r.0, final(self)@[r.0]),
            is_fresh_lobby(final(self)@[r.0], Host { id: host_id, name: request.host_name }, r.1.cards@),
    {
        let lobby_id = LobbyId::new();
        let host = Host::new(host_id, request.host_name);
        let cards = cards_from_texts(&request.cards);
        let ack_cards = copy_cards(&cards);
        self.create_lobby(lobby_id, host, cards);
        (lobby_id, HostLobbyAck { lobby_id: lobby_id.to_string(), cards: ack_cards })
    }

    /// Adds `id` as a player of the requested lobby. Checked in order: the
    /// lobby exists, it waits for players, the name is used by no player and
    /// not by the host. On success the reply holds the roster before the
    /// join, the host's name and the cards.
    pub fn join_lobby(&mut self, id: ParticipantId, request: JoinLobbyRequest) -> (r: Result<JoinLobbyAck, JoinLobbyError>)
        requires
            old(self).wf(),
        ensures
            final(self).wf(),
            join_outcome(old(self)@, final(self)@, id, request.lobby_id, request.player_name, r),
    {
        let i = match self.find_lobby(&request.lobby_id) {
            Some(i) => i,
            None => {
                return Err(JoinLobbyError::LobbyDoesNotExist);
            },
        };
        let ghost entries0 = self.lobbies@;
        proof {
            lemma_entry_at(entries0, i as int);
        }
        let (key, mut lobby) = self.lobbies.remove(i);
        let result = lobby.add_player(id, request.player_name);
        let host_name = lobby.host.name.clone();
        let cards = copy_cards(&lobby.available_cards);
        proof {
            lemma_update_entry(entries0, i as int, lobby);
        }
        self.lobbies.insert(i, (key, lobby));
        assert(self.lobbies@ =~= entries0.update(i as int, (key, lobby)));
        proof {
            assert forall|j: int| 0 <= j < self.lobbies@.len() implies (#[trigger] self.lobbies@[j]).1.wf() by {
                if j != i {
                    assert(self.lobbies@[j] == entries0[j]);
                }
            }
            if result is Err {
                assert(self@ =~= entries_map(entries0));
            }
        }
        match result {
            Ok(players) => Ok(JoinLobbyAck { players, host: host_name, cards }),
            Err(e) => Err(e),
        }
    }

    /// Moves the lobby to its next stage when `id` hosts it. The outcome says
    /// why nothing happened otherwise: no such lobby, `id` is not the host, or
    /// the lobby is already completed.
    pub fn trigger_next_stage(&mut self, id: ParticipantId, lobby_id: &LobbyId) -> (r: Result<LobbyState, AdvanceRejected>)
        requires
            old(self).wf(),
        ensures
            final(self).wf(),
            !old(self)@.contains_key(*lobby_id) ==> r == Err::<LobbyState, AdvanceRejected>(
                AdvanceRejected::LobbyDoesNotExist,
            ) && final(self)@ == old(self)@,
            old(self)@.contains_key(*lobby_id) ==> {
                let l = old(self)@[*lobby_id];
                &&& l.host.id != id ==> r == Err::<LobbyState, AdvanceRejected>(
                    AdvanceRejected::NotHost,
                ) && final(self)@ == old(self)@
                &&& l.host.id == id && spec_next_stage(l.state) is None ==> r == Err::<
                    LobbyState,
                    AdvanceRejected,
                >(AdvanceRejected::LastStageReached) && final(self)@ == old(self)@
                &&& l.host.id == id && spec_next_stage(l.state) is Some ==> {
                    let n = spec_next_stage(l.state)->Some_0;
                    &&& r == Ok::<LobbyState, AdvanceRejected>(n)
                    &&& final(self)@ == old(self)@.insert(*lobby_id, l.with_state(n))
                }
            },
    {
        let i = match self.find_lobby(lobby_id) {
            Some(i) => i,
            None => {
                return Err(AdvanceRejected::LobbyDoesNotExist);
            },
        };
        let ghost entries0 = self.lobbies@;
        proof {
            lemma_entry_at(entries0, i as int);
        }
        if !self.lobbies[i].1.is_host(id) {
            return Err(AdvanceRejected::NotHost);
        }
        let (key, mut lobby) = self.lobbies.remove(i);
        let result = lobby.advance_state();
        proof {
            lemma_update_entry(entries0, i as int, lobby);
        }
        self.lobbies.insert(i, (key, lobby));
        assert(self.lobbies@ =~= entries0.update(i as int, (key, lobby)));
        proof {
            assert forall|j: int| 0 <= j < self.lobbies@.len() implies (#[trigger] self.lobbies@[j]).1.wf() by {
                if j != i {
                    assert(self.lobbies@[j] == entries0[j]);
                }
            }
            if result is Err {
                assert(self@ =~= entries_map(entries0));
            }
        }
        match result {
            Ok(state) => Ok(state),
            Err(_) => Err(AdvanceRejected::LastStageReached),
        }
    }

    /// Stores the submitted board for player `id`, replacing an earlier one,
    /// and returns the player's name. Fails, changing nothing, when the lobby
    /// does not exist or `id` is not one of its players.
    pub fn submit_board(&mut self, id: ParticipantId, request: &BoardSubmitRequest) -> (r: Result<String, SubmitBoardError>)
        requires
            old(self).wf(),
        ensures
            final(self).wf(),
            !old(self)@.contains_key(request.lobby_id) ==> r == Err::<String, SubmitBoardError>(
                SubmitBoardError::LobbyDoesNotExist,
            ) && final(self)@ == old(self)@,
            old(self)@.contains_key(request.lobby_id) ==> {
                let l = old(self)@[request.lobby_id];
                &&& !has_player(l.players@, id) ==> r == Err::<String, SubmitBoardError>(
                    SubmitBoardError::NotAPlayer,
                ) && final(self)@ == old(self)@
                &&& has_player(l.players@, id) ==> {
                    let after = final(self)@[request.lobby_id];
                    &&& r is Ok
                    &&& r->Ok_0@ == l.players@[player_index(l.players@, id)].name@
                    &&& final(self)@ == old(self)@.insert(request.lobby_id, after)
                    &&& after.board_map() == l.board_map().insert(id, request.cards)
                    &&& after == (Lobby { boards: after.boards, ..l })
                }
            },
    {
        let i = match self.find_lobby(&request.lobby_id) {
            Some(i) => i,
            None => {
                return Err(SubmitBoardError::LobbyDoesNotExist);
            },
        };
        let ghost entries0 = self.lobbies@;
        proof {
            lemma_entry_at(entries0, i as int);
        }
        let (key, mut lobby) = self.lobbies.remove(i);
        let result = lobby.submit_board(id, request.cards);
        proof {
            lemma_update_entry(entries0, i as int, lobby);
        }
        self.lobbies.insert(i, (key, lobby));
        assert(self.lobbies@ =~= entries0.update(i as int, (key, lobby)));
        proof {
            assert forall|j: int| 0 <= j < self.lobbies@.len() implies (#[trigger] self.lobbies@[j]).1.wf() by {
                if j != i {
                    assert(self.lobbies@[j] == entries0[j]);
                }
            }
            if result is Err {
                assert(self@ =~= entries_map(entries0));
            }
        }
        result
    }

    /// What happens to the lobby `lobby_id` when the connection `id` goes
    /// away: a player is taken off the roster and the room is told; otherwise
    /// the host's leaving closes the lobby, whatever its stage.
    pub fn leave_lobby(&mut self, id: ParticipantId, lobby_id: LobbyId) -> (r: Option<DisconnectAction>)
        requires
            old(self).wf(),
        ensures
            final(self).wf(),
            !old(self)@.contains_key(lobby_id) ==> r is None && final(self)@ == old(self)@,
            old(self)@.contains_key(lobby_id) ==> {
                let l = old(self)@[lobby_id];
                &&& has_player(l.players@, id) ==> {
                    &&& final(self)@ == old(self)@.insert(lobby_id, final(self)@[lobby_id])
                    &&& player_left(l, final(self)@[lobby_id], id)
                    &&& r matches Some(DisconnectAction::PlayerLeft { lobby_id: k, player_name })
                        && k == lobby_id && player_name@ == l.players@[player_index(l.players@, id)].name@
                }
                &&& !has_player(l.players@, id) && l.host.id == id ==> {
                    &&& final(self)@ == old(self)@.remove(lobby_id)
                    &&& r matches Some(DisconnectAction::LobbyClosed { lobby_id: k }) && k == lobby_id
                }
                &&& !has_player(l.players@, id) && l.host.id != id ==> r is None && final(self)@
                    == old(self)@
            },
            left_as(old(self)@, final(self)@, lobby_id, id),
            forall|k: LobbyId| k != lobby_id ==> #[trigger] untouched(final(self)@, old(self)@, k),
    {
        let i = match self.find_lobby(&lobby_id) {
            Some(i) => i,
            None => {
                return None;
            },
        };
        let ghost entries0 = self.lobbies@;
        proof {
            lemma_entry_at(entries0, i as int);
        }
        if self.lobbies[i].1.find_player(id).is_some() {
            let (key, mut lobby) = self.lobbies.remove(i);
            let removed = lobby.remove_player(&id);
            proof {
                lemma_update_entry(entries0, i as int, lobby);
            }
            self.lobbies.insert(i, (key, lobby));
            assert(self.lobbies@ =~= entries0.update(i as int, (key, lobby)));
            proof {
                assert forall|j: int| 0 <= j < self.lobbies@.len() implies (#[trigger] self.lobbies@[j]).1.wf() by {
                    if j != i {
                        assert(self.lobbies@[j] == entries0[j]);
                    }
                }
            }
            match removed {
                Some(player) => Some(DisconnectAction::PlayerLeft { lobby_id, player_name: player.name }),
                None => None,
            }
        } else if self.lobbies[i].1.is_host(id) {
            let _ = self.remove_lobby(&lobby_id);
            Some(DisconnectAction::LobbyClosed { lobby_id })
        } else {
            None
        }
    }

    /// Handles the end of connection `id`, which was subscribed to `rooms`.
    /// Each lobby that a room names is left once, through `leave_lobby`, in
    /// the order of its first room; rooms that name no lobby, or a lobby
    /// already handled, are skipped. The notices come in the same order.
    /// Lobbies that no room names are untouched.
    pub fn on_disconnect(&mut self, id: ParticipantId, rooms: &Vec<String>) -> (r: Vec<DisconnectAction>)
        requires
            old(self).wf(),
        ensures
            final(self).wf(),
            r@.len() <= rooms@.len(),
            forall|k: LobbyId|
                k.wf() && named_by(rooms@, rooms@.len() as int, k) ==> #[trigger] left_as(
                    old(self)@,
                    final(self)@,
                    k,
                    id,
                ),
            forall|k: LobbyId|
                !(k.wf() && named_by(rooms@, rooms@.len() as int, k)) ==> #[trigger] untouched(
                    final(self)@,
                    old(self)@,
                    k,
                ),
            forall|a: int|
                0 <= a < r@.len() ==> #[trigger] notice_sound(
                    r@[a],
                    old(self)@,
                    rooms@,
                    rooms@.len() as int,
                    id,
                ),
            forall|k: LobbyId|
                k.wf() && named_by(rooms@, rooms@.len() as int, k) && #[trigger] plays_in(
                    old(self)@,
                    k,
                    id,
                ) ==> exists|a: int| 0 <= a < r@.len() && #[trigger] is_player_left_notice(r@[a], k),
            forall|k: LobbyId|
                #[trigger] hosted_alone_by(old(self)@, k, id) && named_by(rooms@, rooms@.len() as int, k)
                    ==> exists|a: int| 0 <= a < r@.len() && #[trigger] is_lobby_closed_notice(r@[a], k),
    {
        let ghost start = self@;
        let mut actions: Vec<DisconnectAction> = Vec::new();
        let mut seen: Vec<LobbyId> = Vec::new();
        let mut n: usize = 0;
        while n < rooms.len()
            invariant
                self.wf(),
                n <= rooms@.len(),
                actions@.len() <= n,
                forall|k: LobbyId| #[trigger] seen@.contains(k) <==> k.wf() && named_by(rooms@, n as int, k),
                forall|k: LobbyId|
                    k.wf() && named_by(rooms@, n as int, k) ==> #[trigger] left_as(start, self@, k, id),
                forall|k: LobbyId|
                    !(k.wf() && named_by(rooms@, n as int, k)) ==> #[trigger] untouched(self@, start, k),
                forall|a: int|
                    0 <= a < actions@.len() ==> #[trigger] notice_sound(
                        actions@[a],
                        start,
                        rooms@,
                        n as int,
                        id,
                    ),
                forall|k: LobbyId|
                    k.wf() && named_by(rooms@, n as int, k) && #[trigger] plays_in(start, k, id)
                        ==> exists|a: int| 0 <= a < actions@.len() && #[trigger] is_player_left_notice(actions@[a], k),
                forall|k: LobbyId|
                    #[trigger] hosted_alone_by(start, k, id) && named_by(rooms@, n as int, k)
                        ==> exists|a: int| 0 <= a < actions@.len() && #[trigger] is_lobby_closed_notice(actions@[a], k),
            decreases rooms@.len() - n,
        {
            let ghost before = self@;
            let ghost actions0 = actions@;
            let ghost seen0 = seen@;
            let parsed = LobbyId::parse(rooms[n].as_str());
            let mut fresh = false;
            if let Ok(lobby_id) = parsed {
                if !contains_lobby_id(&seen, &lobby_id) {
                    fresh = true;
                    proof {
                        assert(lobby_id@ == rooms@[n as int]@);
                        assert(!named_by(rooms@, n as int, lobby_id));
                        assert(untouched(before, start, lobby_id));
                    }
                    let out = self.leave_lobby(id, lobby_id);
                    if let Some(action) = out {
                        proof {
                            assert(named_by(rooms@, n + 1, lobby_id));
                            assert(notice_sound(action, start, rooms@, n + 1, id));
                        }
                        actions.push(action);
                    }
                    seen.push(lobby_id);
                }
            }
            proof {
                assert(forall|a: int| 0 <= a < actions0.len() ==> actions@[a] == actions0[a]);
                // A well-formed id named by room `n` is the parsed one.
                assert forall|k: LobbyId| k.wf() && rooms@[n as int]@ == k@ implies parsed == Ok::<
                    LobbyId,
                    ParseLobbyIdError,
                >(k) by {
                    assert(parsed is Ok);
                    assert(k.0 =~= parsed->Ok_0.0);
                }
                assert forall|k: LobbyId| k.wf() && named_by(rooms@, n + 1, k) <==> (k.wf()
                    && named_by(rooms@, n as int, k)) || (parsed is Ok && parsed->Ok_0 == k) by {
                    if k.wf() && named_by(rooms@, n + 1, k) && !named_by(rooms@, n as int, k) {
                        let j = choose|j: int| 0 <= j < n + 1 && (#[trigger] rooms@[j])@ == k@;
                        assert(j == n);
                    }
                    if named_by(rooms@, n as int, k) {
                        let j = choose|j: int| 0 <= j < n && (#[trigger] rooms@[j])@ == k@;
                        assert(0 <= j < n + 1 && rooms@[j]@ == k@);
                    }
                    if parsed is Ok && parsed->Ok_0 == k {
                        assert(rooms@[n as int]@ == k@);
                    }
                }
                assert forall|k: LobbyId| #[trigger] seen@.contains(k) <==> k.wf() && named_by(rooms@, n + 1, k) by {
                    if fresh {
                        assert(seen@ == seen0.push(parsed->Ok_0));
                        if seen@.contains(k) && !seen0.contains(k) {
                            assert(k == parsed->Ok_0);
                        }
                        if seen0.contains(k) {
                            let i = choose|i: int| 0 <= i < seen0.len() && seen0[i] == k;
                            assert(seen@[i] == k);
                        }
                        assert(seen@[seen0.len() as int] == parsed->Ok_0);
                    } else {
                        assert(seen@ == seen0);
                        if parsed is Ok {
                            assert(seen0.contains(parsed->Ok_0));
                        }
                    }
                }
                assert forall|k: LobbyId| k.wf() && named_by(rooms@, n + 1, k) implies #[trigger] left_as(
                    start,
                    self@,
                    k,
                    id,
                ) by {
                    if fresh && parsed->Ok_0 == k {
                    } else {
                        assert(named_by(rooms@, n as int, k));
                        assert(left_as(start, before, k, id));
                        assert(untouched(self@, before, k));
                    }
                }
                assert forall|k: LobbyId| !(k.wf() && named_by(rooms@, n + 1, k)) implies #[trigger] untouched(
                    self@,
                    start,
                    k,
                ) by {
                    assert(untouched(before, start, k));
                    if fresh {
                        assert(k != parsed->Ok_0);
                    }
                }
                assert forall|a: int| 0 <= a < actions@.len() implies #[trigger] notice_sound(
                    actions@[a],
                    start,
                    rooms@,
                    n + 1,
                    id,
                ) by {
                    if a < actions0.len() {
                        assert(notice_sound(actions0[a], start, rooms@, n as int, id));
                        match actions0[a] {
                            DisconnectAction::PlayerLeft { lobby_id, .. } => {
                                let j = choose|j: int| 0 <= j < n && (#[trigger] rooms@[j])@ == lobby_id@;
                                assert(0 <= j < n + 1 && rooms@[j]@ == lobby_id@);
                            },
                            DisconnectAction::LobbyClosed { lobby_id } => {
                                let j = choose|j: int| 0 <= j < n && (#[trigger] rooms@[j])@ == lobby_id@;
                                assert(0 <= j < n + 1 && rooms@[j]@ == lobby_id@);
                            },
                        }
                    }
                }
                assert forall|k: LobbyId| k.wf() && named_by(rooms@, n + 1, k) && #[trigger] plays_in(
                    start,
                    k,
                    id,
                ) implies exists|a: int|
                    0 <= a < actions@.len() && #[trigger] is_player_left_notice(actions@[a], k) by {
                    if named_by(rooms@, n as int, k) {
                        let a = choose|a: int|
                            0 <= a < actions0.len() && #[trigger] is_player_left_notice(actions0[a], k);
                        assert(is_player_left_notice(actions@[a], k));
                    } else {
                        assert(seen0.contains(k) == false);
                        assert(fresh);
                        assert(is_player_left_notice(actions@[actions@.len() - 1], k));
                    }
                }
                assert forall|k: LobbyId| #[trigger] hosted_alone_by(start, k, id) && named_by(
                    rooms@,
                    n + 1,
                    k,
                ) implies exists|a: int|
                    0 <= a < actions@.len() && #[trigger] is_lobby_closed_notice(actions@[a], k) by {
                    if named_by(rooms@, n as int, k) {
                        let a = choose|a: int|
                            0 <= a < actions0.len() && #[trigger] is_lobby_closed_notice(actions0[a], k);
                        assert(is_lobby_closed_notice(actions@[a], k));
                    } else {
                        assert(seen0.contains(k) == false);
                        assert(fresh);
                        assert(is_lobby_closed_notice(actions@[actions@.len() - 1], k));
                    }
                }
            }
            n = n + 1;
        }
        actions
    }
}

/// Whether `id` is among `ids`.
fn contains_lobby_id(ids: &Vec<LobbyId>, id: &LobbyId) -> (r: bool)
    ensures
        r == ids@.contains(*id),
{
    let mut i: usize = 0;
    while i < ids.len()
        invariant
            i <= ids@.len(),
            forall|j: int| 0 <= j < i ==> ids@[j] != *id,
        decreases ids@.len() - i,
    {
        if ids[i] == *id {
            return true;
        }
        i = i + 1;
    }
    false
}

/// Some room among the first `n` of `rooms` is the text of `k`.
pub open spec fn named_by(rooms: Seq<String>, n: int, k: LobbyId) -> bool {
    exists|j: int| 0 <= j < n && (#[trigger] rooms[j])@ == k@
}

/// `a` tells the room of `k` that a player left.
pub open spec fn is_player_left_notice(a: DisconnectAction, k: LobbyId) -> bool {
    a matches DisconnectAction::PlayerLeft { lobby_id, .. } && lobby_id == k
}

/// `a` tells the room of `k` that the lobby closed.
pub open spec fn is_lobby_closed_notice(a: DisconnectAction, k: LobbyId) -> bool {
    a matches DisconnectAction::LobbyClosed { lobby_id } && lobby_id == k
}

/// The notice `a`, issued while `id` left the lobbies named by the first `n`
/// rooms of a registry that was `start`, is true: a player-left notice names
/// a lobby where `id` played, under `id`'s name there; a closing notice names
/// a lobby hosted by `id` in which `id` did not play.
pub open spec fn notice_sound(
    a: DisconnectAction,
    start: Map<LobbyId, Lobby>,
    rooms: Seq<String>,
    n: int,
    id: ParticipantId,
) -> bool {
    match a {
        DisconnectAction::PlayerLeft { lobby_id, player_name } => {
            &&& lobby_id.wf()
            &&& named_by(rooms, n, lobby_id)
            &&& plays_in(start, lobby_id, id)
            &&& player_name@ == start[lobby_id].players@[player_index(start[lobby_id].players@, id)].name@
        },
        DisconnectAction::LobbyClosed { lobby_id } => {
            &&& named_by(rooms, n, lobby_id)
            &&& hosted_alone_by(start, lobby_id, id)
        },
    }
}

/// The lobby `k` after `id` left it, going from registry `before` to
/// `after`: a lobby where `id` plays keeps running without `id` and their
/// board; otherwise a lobby hosted by `id` is closed; any other lobby, or its
/// absence, stays as it was.
pub open spec fn left_as(
    before: Map<LobbyId, Lobby>,
    after: Map<LobbyId, Lobby>,
    k: LobbyId,
    id: ParticipantId,
) -> bool {
    if !before.contains_key(k) {
        !after.contains_key(k)
    } else if has_player(before[k].players@, id) {
        after.contains_key(k) && player_left(before[k], after[k], id)
    } else if before[k].host.id == id {
        !after.contains_key(k)
    } else {
        after.contains_key(k) && after[k] == before[k]
    }
}

/// The lobby `k` runs and has `id` as one of its players.
pub open spec fn plays_in(m: Map<LobbyId, Lobby>, k: LobbyId, id: ParticipantId) -> bool {
    m.contains_key(k) && has_player(m[k].players@, id)
}

/// `k` stands in `after` exactly as in `before`.
pub open spec fn untouched(after: Map<LobbyId, Lobby>, before: Map<LobbyId, Lobby>, k: LobbyId) -> bool {
    &&& after.contains_key(k) == before.contains_key(k)
    &&& before.contains_key(k) ==> after[k] == before[k]
}

/// The lobby `k`, whose id is well formed, runs, is hosted by `id`, and `id`
/// is not one of its players.
pub open spec fn hosted_alone_by(m: Map<LobbyId, Lobby>, k: LobbyId, id: ParticipantId) -> bool {
    &&& k.wf()
    &&& m.contains_key(k)
    &&& m[k].host.id == id
    &&& !has_player(m[k].players@, id)
}

/// A lobby read back right after its creation has the host it was created
/// with and exactly the 25 cards given, with ids `0..24`.
pub proof fn lemma_create_then_get(
    before: LobbyManager,
    created: LobbyManager,
    lobby_id: LobbyId,
    host: Host,
    cards: Seq<Card>,
    got: Option<Lobby>,
)
    requires
        before.wf(),
        cards_wf(cards),
        created@ == before@.insert(lobby_id, created@[lobby_id]),
        is_fresh_lobby(created@[lobby_id], host, cards),
        got is Some <==> created@.contains_key(lobby_id),
        got matches Some(l) ==> l == created@[lobby_id],
    ensures
        got is Some,
        got->Some_0.host == host,
        got->Some_0.available_cards@ == cards,
        got->Some_0.available_cards@.len() == 25,
        forall|i: int| 0 <= i < 25 ==> (#[trigger] got->Some_0.available_cards@[i]).id == i,
{
}

/// A lobby read back right after its removal is gone.
pub proof fn lemma_remove_then_get(
    before: LobbyManager,
    removed: LobbyManager,
    lobby_id: LobbyId,
    got: Option<Lobby>,
)
    requires
        before.wf(),
        removed@ == before@.remove(lobby_id),
        got is Some <==> removed@.contains_key(lobby_id),
    ensures
        got is None,
{
}

/// Joining fails with `LobbyDoesNotExist` for an unknown lobby, and with
/// `NameTaken` when the name is the host's or a player's; a free name is
/// accepted while the lobby waits for players, and only once: the same name
/// asked for again, by anyone, is refused and changes nothing.
pub proof fn lemma_join_name_once(
    m0: Map<LobbyId, Lobby>,
    m1: Map<LobbyId, Lobby>,
    m2: Map<LobbyId, Lobby>,
    first: ParticipantId,
    second: ParticipantId,
    lobby_id: LobbyId,
    name: String,
    again: String,
    r1: Result<JoinLobbyAck, JoinLobbyError>,
    r2: Result<JoinLobbyAck, JoinLobbyError>,
)
    requires
        join_outcome(m0, m1, first, lobby_id, name, r1),
        join_outcome(m1, m2, second, lobby_id, again, r2),
        again@ == name@,
    ensures
        !m0.contains_key(lobby_id) ==> r1 == Err::<JoinLobbyAck, JoinLobbyError>(
            JoinLobbyError::LobbyDoesNotExist,
        ),
        m0.contains_key(lobby_id) && m0[lobby_id].state == LobbyState::WaitingForPlayers && (
        name_in_roster(m0[lobby_id].players@, name@) || m0[lobby_id].host.name@ == name@) ==> r1
            == Err::<JoinLobbyAck, JoinLobbyError>(JoinLobbyError::NameTaken),
        m0.contains_key(lobby_id) && m0[lobby_id].state == LobbyState::WaitingForPlayers
            && !name_in_roster(m0[lobby_id].players@, name@) && m0[lobby_id].host.name@ != name@
            ==> r1 is Ok,
        r1 is Ok ==> r2 == Err::<JoinLobbyAck, JoinLobbyError>(JoinLobbyError::NameTaken) && m2
            == m1,
        r1 is Ok && !has_player(m0[lobby_id].players@, first) ==> m1[lobby_id].players@
            == m0[lobby_id].players@.push(Player { id: first, name }),
{
    if r1 is Ok {
        let l = m0[lobby_id];
        let players = m1[lobby_id].players@;
        assert(players == roster_after_join(l.players@, first, name));
        if has_player(l.players@, first) {
            let k = player_index(l.players@, first);
            assert(players[k].name@ == name@);
        } else {
            assert(players[l.players@.len() as int].name@ == name@);
        }
        assert(name_in_roster(players, again@));
    }
}

} // verus!
