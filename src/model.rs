//! The lobby aggregate: cards, host, roster, stage, boards and called cards.

use vstd::prelude::*;

use crate::board::{check_winner_board, is_winning_board};
use crate::keyed::{
    entries_map, has_key, keys_unique, lemma_push_entry, lemma_remove_entry, lemma_update_entry,
};
use crate::stage::{spec_next_stage, LastStateReached, LobbyState};

verus! {

/// Number of cards a host offers when opening a lobby.
pub const CARD_COUNT: usize = 25;

/// Identity of one transport connection: the 128 bits of its session id.
/// Stable while the connection lives, never reused across reconnects.
#[derive(Debug, Clone, Copy, PartialEq, Eq, Structural, Hash)]
pub struct ParticipantId(pub u128);

/// One of the answers a host offers; `id` is its position in the host's list.
#[derive(Debug, Clone, PartialEq, Eq, Hash)]
pub struct Card {
    pub id: u8,
    pub description: String,
}

impl Card {
    pub fn new(description: String, idx: u8) -> (r: Self)
        ensures
            r.id == idx,
            r.description == description,
    {
        Self { description, id: idx }
    }
}

/// The cards of a lobby: exactly 25, the `i`-th with id `i`.
pub open spec fn cards_wf(cards: Seq<Card>) -> bool {
    cards.len() == 25 && forall|i: int| 0 <= i < 25 ==> (#[trigger] cards[i]).id == i
}

/// The participant that opened a lobby.
#[derive(Debug, Clone, PartialEq, Eq, Hash)]
pub struct Host {
    pub name: String,
    pub id: ParticipantId,
}

impl Host {
    pub fn new(id: ParticipantId, name: String) -> (r: Self)
        ensures
            r.id == id,
            r.name == name,
    {
        Self { id, name }
    }
}

/// A participant that joined a lobby.
#[derive(Debug, Clone, PartialEq, Eq, Hash)]
pub struct Player {
    pub id: ParticipantId,
    pub name: String,
}

impl Player {
    pub fn new(id: ParticipantId, name: String) -> (r: Self)
        ensures
            r.id == id,
            r.name == name,
    {
        Self { id, name }
    }
}

/// A submitted board together with the participant who submitted it.
pub type SubmittedBoard = (ParticipantId, [u8; 25]);

/// The display names of `players`, in roster order.
pub open spec fn player_names(players: Seq<Player>) -> Seq<Seq<char>> {
    players.map_values(|p: Player| p.name@)
}

/// `id` belongs to one of `players`.
pub open spec fn has_player(players: Seq<Player>, id: ParticipantId) -> bool {
    exists|i: int| 0 <= i < players.len() && (#[trigger] players[i]).id == id
}

/// Position in `players` of the player with identity `id` (meaningful when
/// `has_player(players, id)`).
pub open spec fn player_index(players: Seq<Player>, id: ParticipantId) -> int {
    choose|i: int| 0 <= i < players.len() && (#[trigger] players[i]).id == id
}

/// `name` is used by one of `players`.
pub open spec fn name_in_roster(players: Seq<Player>, name: Seq<char>) -> bool {
    exists|i: int| 0 <= i < players.len() && (#[trigger] players[i]).name@ == name
}

/// Names of the players whose board wins against `called`, in the order the
/// boards were first submitted.
pub open spec fn winners_of(
    boards: Seq<SubmittedBoard>,
    players: Seq<Player>,
    called: Seq<u8>,
) -> Seq<Seq<char>>
    decreases boards.len(),
{
    if boards.len() == 0 {
        Seq::empty()
    } else {
        let earlier = winners_of(boards.drop_last(), players, called);
        let b = boards.last();
        if is_winning_board(b.1@, called) && has_player(players, b.0) {
            earlier.push(players[player_index(players, b.0)].name@)
        } else {
            earlier
        }
    }
}

/// Relies on chrono::Utc::now and DateTime::timestamp_millis: the current
/// time in milliseconds since the Unix epoch. Nothing is known of its value.
#[verifier::external_body]
fn now_millis() -> (r: i64) {
    chrono::Utc::now().timestamp_millis()
}

/// A copy of `card` equal to it.
fn copy_card(card: &Card) -> (r: Card)
    ensures
        r == *card,
{
    Card { id: card.id, description: card.description.clone() }
}

/// A copy of `cards` equal to it.
pub fn copy_cards(cards: &Vec<Card>) -> (r: Vec<Card>)
    ensures
        r@ == cards@,
{
    let mut out: Vec<Card> = Vec::new();
    let mut i: usize = 0;
    while i < cards.len()
        invariant
            i <= cards@.len(),
            out@ == cards@.take(i as int),
        decreases cards@.len() - i,
    {
        out.push(copy_card(&cards[i]));
        i = i + 1;
        assert(out@ =~= cards@.take(i as int));
    }
    assert(cards@.take(cards@.len() as int) =~= cards@);
    out
}

/// The text of each string in `strings`.
pub open spec fn string_views(strings: Seq<String>) -> Seq<Seq<char>> {
    strings.map_values(|x: String| x@)
}

/// The display names of `players`, in roster order.
pub fn roster_names(players: &Vec<Player>) -> (r: Vec<String>)
    ensures
        string_views(r@) == player_names(players@),
{
    let mut out: Vec<String> = Vec::new();
    let mut i: usize = 0;
    while i < players.len()
        invariant
            i <= players@.len(),
            out@.len() == i,
            forall|j: int| 0 <= j < i ==> (#[trigger] out@[j])@ == players@[j].name@,
        decreases players@.len() - i,
    {
        out.push(players[i].name.clone());
        i = i + 1;
    }
    assert(string_views(out@) =~= player_names(players@));
    out
}

/// Why a participant could not join a lobby.
#[derive(Debug, Clone, Copy, PartialEq, Eq, Structural)]
pub enum JoinLobbyError {
    /// No lobby has the requested id.
    LobbyDoesNotExist,
    /// The lobby has left its first stage.
    NotAcceptingPlayers,
    /// A player or the host already uses the requested name.
    NameTaken,
}

impl JoinLobbyError {
    /// The message shown to the participant.
    pub fn message(&self) -> (r: &'static str)
        ensures
            *self == JoinLobbyError::LobbyDoesNotExist ==> r@ == "Lobby does not exist"@,
            *self == JoinLobbyError::NotAcceptingPlayers ==> r@
                == "Lobby is not accepting new players"@,
            *self == JoinLobbyError::NameTaken ==> r@ == "Player name is already taken"@,
    {
        match self {
            JoinLobbyError::LobbyDoesNotExist => "Lobby does not exist",
            JoinLobbyError::NotAcceptingPlayers => "Lobby is not accepting new players",
            JoinLobbyError::NameTaken => "Player name is already taken",
        }
    }
}

/// Why a board was not stored.
#[derive(Debug, Clone, Copy, PartialEq, Eq, Structural)]
pub enum SubmitBoardError {
    /// No lobby has the requested id.
    LobbyDoesNotExist,
    /// The submitter never joined the lobby as a player.
    NotAPlayer,
}

impl SubmitBoardError {
    /// The message shown to the participant.
    pub fn message(&self) -> (r: &'static str)
        ensures
            *self == SubmitBoardError::LobbyDoesNotExist ==> r@ == "Lobby does not exist"@,
            *self == SubmitBoardError::NotAPlayer ==> r@ == "Only players of the lobby can submit a board"@,
    {
        match self {
            SubmitBoardError::LobbyDoesNotExist => "Lobby does not exist",
            SubmitBoardError::NotAPlayer => "Only players of the lobby can submit a board",
        }
    }
}

/// The roster after `id` joins under `name`: a new player goes to the end,
/// a participant already on the roster keeps their place under the new name.
pub open spec fn roster_after_join(players: Seq<Player>, id: ParticipantId, name: String) -> Seq<Player> {
    if has_player(players, id) {
        players.update(player_index(players, id), Player { id, name })
    } else {
        players.push(Player { id, name })
    }
}

/// One running lobby: host, cards, roster, stage, boards and called cards.
#[derive(Debug, Clone)]
pub struct Lobby {
    pub host: Host,
    pub available_cards: Vec<Card>,
    pub players: Vec<Player>,
    /// Creation time, in milliseconds since the Unix epoch.
    pub start_date: i64,
    pub state: LobbyState,
    // We only save the card ids. They are enough for checking the winner.
    pub correct_answers: Vec<u8>,
    pub boards: Vec<SubmittedBoard>,
}

impl Lobby {
    /// The lobby's invariant: 25 cards with ids `0..24`; players with distinct
    /// identities and distinct names, none named like the host; at most one
    /// board per identity, each submitted by a player.
    pub open spec fn wf(&self) -> bool {
        &&& cards_wf(self.available_cards@)
        &&& forall|i: int, j: int|
            0 <= i < j < self.players@.len() ==> (#[trigger] self.players@[i]).id
                != (#[trigger] self.players@[j]).id && self.players@[i].name@
                != self.players@[j].name@
        &&& forall|i: int|
            0 <= i < self.players@.len() ==> (#[trigger] self.players@[i]).name@
                != self.host.name@
        &&& keys_unique(self.boards@)
        &&& forall|i: int|
            0 <= i < self.boards@.len() ==> has_player(
                self.players@,
                (#[trigger] self.boards@[i]).0,
            )
    }

    /// A fresh lobby in its first stage, with no players, boards or called cards.
    pub fn new(host: Host, available_cards: Vec<Card>) -> (r: Self)
        requires
            cards_wf(available_cards@),
        ensures
            r.wf(),
            r.host == host,
            r.available_cards@ == available_cards@,
            r.players@.len() == 0,
            r.boards@.len() == 0,
            r.correct_answers@.len() == 0,
            r.state == LobbyState::WaitingForPlayers,
    {
        Self {
            host,
            available_cards,
            players: Vec::new(),
            correct_answers: Vec::new(),
            start_date: now_millis(),
            state: LobbyState::WaitingForPlayers,
            boards: Vec::new(),
        }
    }

    pub fn is_host(&self, socket_id: ParticipantId) -> (r: bool)
        ensures
            r == (self.host.id == socket_id),
    {
        self.host.id == socket_id
    }

    /// Position of the player with identity `id` in the roster.
    pub fn find_player(&self, id: ParticipantId) -> (r: Option<usize>)
        requires
            self.wf(),
        ensures
            r is None <==> !has_player(self.players@, id),
            r matches Some(i) ==> i < self.players@.len() && self.players@[i as int].id == id
                && i == player_index(self.players@, id),
    {
        let mut i: usize = 0;
        while i < self.players.len()
            invariant
                self.wf(),
                i <= self.players@.len(),
                forall|j: int| 0 <= j < i ==> (#[trigger] self.players@[j]).id != id,
            decreases self.players@.len() - i,
        {
            if self.players[i].id == id {
                proof {
                    assert(self.players@[i as int].id == id);
                    assert(has_player(self.players@, id));
                    let k = player_index(self.players@, id);
                    assert(self.players@[k].id == id);
                    if k < i {
                        assert(self.players@[k].id != self.players@[i as int].id);
                    } else if k > i {
                        assert(self.players@[i as int].id != self.players@[k].id);
                    }
                }
                return Some(i);
            }
            i = i + 1;
        }
        None
    }

    /// Whether `name` is already used by a player or by the host.
    pub fn is_name_taken(&self, name: &String) -> (r: bool)
        ensures
            r == (name_in_roster(self.players@, name@) || self.host.name@ == name@),
    {
        let mut i: usize = 0;
        while i < self.players.len()
            invariant
                i <= self.players@.len(),
                forall|j: int| 0 <= j < i ==> (#[trigger] self.players@[j]).name@ != name@,
            decreases self.players@.len() - i,
        {
            if self.players[i].name == *name {
                return true;
            }
            i = i + 1;
        }
        self.host.name == *name
    }

    /// The submitted boards, by submitter.
    pub open spec fn board_map(&self) -> Map<ParticipantId, [u8; 25]> {
        entries_map(self.boards@)
    }

    /// This lobby with its stage replaced by `s`.
    pub open spec fn with_state(self, s: LobbyState) -> Lobby {
        Lobby { state: s, ..self }
    }

    /// Position of the board submitted by `id`.
    fn find_board(&self, id: ParticipantId) -> (r: Option<usize>)
        requires
            keys_unique(self.boards@),
        ensures
            r is None <==> !has_key(self.boards@, id),
            r matches Some(i) ==> i < self.boards@.len() && self.boards@[i as int].0 == id,
    {
        let mut i: usize = 0;
        while i < self.boards.len()
            invariant
                i <= self.boards@.len(),
                forall|j: int| 0 <= j < i ==> (#[trigger] self.boards@[j]).0 != id,
            decreases self.boards@.len() - i,
        {
            if self.boards[i].0 == id {
                return Some(i);
            }
            i = i + 1;
        }
        None
    }

    /// Removes the player with identity `sid` and the board they submitted.
    pub fn remove_player(&mut self, sid: &ParticipantId) -> (r: Option<Player>)
        requires
            old(self).wf(),
        ensures
            final(self).wf(),
            r is Some <==> has_player(old(self).players@, *sid),
            r matches Some(p) ==> {
                let k = player_index(old(self).players@, *sid);
                &&& p == old(self).players@[k]
                &&& final(self).players@ == old(self).players@.remove(k)
            },
            r is None ==> final(self).players@ == old(self).players@,
            final(self).board_map() == old(self).board_map().remove(*sid),
            final(self).host == old(self).host,
            final(self).available_cards == old(self).available_cards,
            final(self).start_date == old(self).start_date,
            final(self).state == old(self).state,
            final(self).correct_answers == old(self).correct_answers,
    {
        let sid = *sid;
        let ghost boards0 = self.boards@;
        let ghost players0 = self.players@;
        match self.find_board(sid) {
            Some(i) => {
                proof {
                    lemma_remove_entry(boards0, i as int);
                }
                self.boards.remove(i);
            },
            None => {
                assert(entries_map(boards0) =~= entries_map(boards0).remove(sid));
            },
        }
        assert(forall|j: int| 0 <= j < self.boards@.len() ==> (#[trigger] self.boards@[j]).0 != sid)
            by {
            assert forall|j: int| 0 <= j < self.boards@.len() implies (#[trigger] self.boards@[j]).0
                != sid by {
                let b = self.boards@[j];
                assert(entries_map(self.boards@).contains_key(b.0)) by {
                    assert(has_key(self.boards@, b.0));
                }
            }
        }
        assert(forall|j: int|
            0 <= j < self.boards@.len() ==> has_player(players0, (#[trigger] self.boards@[j]).0))
            by {
            assert forall|j: int| 0 <= j < self.boards@.len() implies has_player(
                players0,
                (#[trigger] self.boards@[j]).0,
            ) by {
                let b = self.boards@[j];
                assert(has_key(self.boards@, b.0));
                assert(has_key(boards0, b.0));
                let j0 = choose|j0: int| 0 <= j0 < boards0.len() && (#[trigger] boards0[j0]).0 == b.0;
                assert(has_player(players0, boards0[j0].0));
            }
        }
        match self.find_player(sid) {
            Some(i) => {
                let p = self.players.remove(i);
                proof {
                    let after = self.players@;
                    assert forall|j: int| 0 <= j < self.boards@.len() implies has_player(
                        after,
                        (#[trigger] self.boards@[j]).0,
                    ) by {
                        let key = self.boards@[j].0;
                        let m = choose|m: int| 0 <= m < players0.len() && (#[trigger] players0[m]).id == key;
                        if m < i {
                            assert(after[m] == players0[m]);
                        } else {
                            assert(m != i);
                            assert(after[m - 1] == players0[m]);
                        }
                    }
                    assert forall|a: int, b: int| 0 <= a < b < after.len() implies (#[trigger] after[a]).id
                        != (#[trigger] after[b]).id && after[a].name@ != after[b].name@ by {
                        let a0 = if a < i { a } else { a + 1 };
                        let b0 = if b < i { b } else { b + 1 };
                        assert(after[a] == players0[a0]);
                        assert(after[b] == players0[b0]);
                    }
                    assert forall|a: int| 0 <= a < after.len() implies (#[trigger] after[a]).name@
                        != self.host.name@ by {
                        let a0 = if a < i { a } else { a + 1 };
                        assert(after[a] == players0[a0]);
                    }
                }
                Some(p)
            },
            None => None,
        }
    }

    /// Moves the lobby to its next stage, or reports that it is already in
    /// the last one and leaves it unchanged.
    pub fn advance_state(&mut self) -> (r: Result<LobbyState, LastStateReached>)
        ensures
            match spec_next_stage(old(self).state) {
                Some(n) => r == Ok::<LobbyState, LastStateReached>(n) && *final(self)
                    == old(self).with_state(n),
                None => r == Err::<LobbyState, LastStateReached>(LastStateReached)
                    && *final(self) == *old(self),
            },
    {
        match self.state.next_stage() {
            Some(next) => {
                self.state = next;
                Ok(self.state)
            },
            None => Err(LastStateReached),
        }
    }

    /// Display names of the players whose board wins against the called
    /// cards, in the order the boards were first submitted.
    pub fn check_winners(&self) -> (r: Vec<String>)
        requires
            self.wf(),
        ensures
            string_views(r@) == winners_of(self.boards@, self.players@, self.correct_answers@),
    {
        let mut winners: Vec<String> = Vec::new();
        let mut i: usize = 0;
        while i < self.boards.len()
            invariant
                self.wf(),
                i <= self.boards@.len(),
                string_views(winners@) == winners_of(
                    self.boards@.take(i as int),
                    self.players@,
                    self.correct_answers@,
                ),
            decreases self.boards@.len() - i,
        {
            let ghost before = winners@;
            let (player_id, board) = self.boards[i];
            assert(self.boards@.take(i + 1).drop_last() =~= self.boards@.take(i as int));
            if check_winner_board(board, self.correct_answers.as_slice()) {
                if let Some(k) = self.find_player(player_id) {
                    winners.push(self.players[k].name.clone());
                    assert(string_views(winners@) =~= string_views(before).push(
                        self.players@[k as int].name@,
                    ));
                }
            }
            i = i + 1;
        }
        assert(self.boards@.take(self.boards@.len() as int) =~= self.boards@);
        winners
    }

    /// Adds `id` to the roster under `name` while the lobby waits for players
    /// and the name is free; the result is the roster as it was before.
    pub fn add_player(&mut self, id: ParticipantId, name: String) -> (r: Result<Vec<String>, JoinLobbyError>)
        requires
            old(self).wf(),
        ensures
            final(self).wf(),
            old(self).state != LobbyState::WaitingForPlayers ==> r == Err::<Vec<String>, JoinLobbyError>(
                JoinLobbyError::NotAcceptingPlayers,
            ) && *final(self) == *old(self),
            old(self).state == LobbyState::WaitingForPlayers && (name_in_roster(
                old(self).players@,
                name@,
            ) || old(self).host.name@ == name@) ==> r == Err::<Vec<String>, JoinLobbyError>(
                JoinLobbyError::NameTaken,
            ) && *final(self) == *old(self),
            old(self).state == LobbyState::WaitingForPlayers && !name_in_roster(
                old(self).players@,
                name@,
            ) && old(self).host.name@ != name@ ==> r is Ok && string_views(r->Ok_0@)
                == player_names(old(self).players@) && *final(self) == (Lobby {
                players: final(self).players,
                ..*old(self)
            }) && final(self).players@ == roster_after_join(old(self).players@, id, name),
    {
        if self.state != LobbyState::WaitingForPlayers {
            return Err(JoinLobbyError::NotAcceptingPlayers);
        }
        if self.is_name_taken(&name) {
            return Err(JoinLobbyError::NameTaken);
        }
        let roster = roster_names(&self.players);
        let ghost players0 = self.players@;
        let player = Player::new(id, name);
        match self.find_player(id) {
            Some(i) => {
                self.players.set(i, player);
                proof {
                    let after = self.players@;
                    assert(after == players0.update(i as int, player));
                    assert forall|a: int| 0 <= a < self.boards@.len() implies has_player(
                        after,
                        (#[trigger] self.boards@[a]).0,
                    ) by {
                        let key = self.boards@[a].0;
                        let m = choose|m: int| 0 <= m < players0.len() && (#[trigger] players0[m]).id == key;
                        assert(after[m].id == key);
                    }
                    assert forall|a: int, b: int| 0 <= a < b < after.len() implies (#[trigger] after[a]).id
                        != (#[trigger] after[b]).id && after[a].name@ != after[b].name@ by {
                        if a == i {
                            assert(players0[b].name@ != name@);
                        } else if b == i {
                            assert(players0[a].name@ != name@);
                        }
                    }
                }
            },
            None => {
                self.players.push(player);
                proof {
                    let after = self.players@;
                    assert forall|a: int| 0 <= a < self.boards@.len() implies has_player(
                        after,
                        (#[trigger] self.boards@[a]).0,
                    ) by {
                        let key = self.boards@[a].0;
                        let m = choose|m: int| 0 <= m < players0.len() && (#[trigger] players0[m]).id == key;
                        assert(after[m] == players0[m]);
                    }
                    assert forall|a: int, b: int| 0 <= a < b < after.len() implies (#[trigger] after[a]).id
                        != (#[trigger] after[b]).id && after[a].name@ != after[b].name@ by {
                        assert(after[a] == players0[a]);
                        if b < players0.len() {
                            assert(after[b] == players0[b]);
                        } else {
                            assert(!has_player(players0, id));
                            assert(players0[a].id != id);
                            assert(players0[a].name@ != name@);
                        }
                    }
                }
            },
        }
        Ok(roster)
    }

    /// Stores `board` as the board of player `id`, replacing an earlier one,
    /// and returns the player's display name. Only players may submit.
    pub fn submit_board(&mut self, id: ParticipantId, board: [u8; 25]) -> (r: Result<String, SubmitBoardError>)
        requires
            old(self).wf(),
        ensures
            final(self).wf(),
            !has_player(old(self).players@, id) ==> r == Err::<String, SubmitBoardError>(
                SubmitBoardError::NotAPlayer,
            ) && *final(self) == *old(self),
            has_player(old(self).players@, id) ==> r is Ok && r->Ok_0@ == old(
                self,
            ).players@[player_index(old(self).players@, id)].name@ && final(self).board_map()
                == old(self).board_map().insert(id, board) && *final(self) == (Lobby {
                boards: final(self).boards,
                ..*old(self)
            }),
    {
        let k = match self.find_player(id) {
            Some(k) => k,
            None => {
                return Err(SubmitBoardError::NotAPlayer);
            },
        };
        let ghost boards0 = self.boards@;
        match self.find_board(id) {
            Some(i) => {
                proof {
                    lemma_update_entry(boards0, i as int, board);
                }
                self.boards.set(i, (id, board));
                proof {
                    assert(self.boards@ == boards0.update(i as int, (boards0[i as int].0, board)));
                    assert forall|a: int| 0 <= a < self.boards@.len() implies has_player(
                        self.players@,
                        (#[trigger] self.boards@[a]).0,
                    ) by {
                        assert(self.boards@[a].0 == boards0[a].0);
                    }
                }
            },
            None => {
                proof {
                    lemma_push_entry(boards0, id, board);
                }
                self.boards.push((id, board));
                proof {
                    assert forall|a: int| 0 <= a < self.boards@.len() implies has_player(
                        self.players@,
                        (#[trigger] self.boards@[a]).0,
                    ) by {
                        if a < boards0.len() {
                            assert(self.boards@[a] == boards0[a]);
                        } else {
                            assert(self.players@[k as int].id == id);
                        }
                    }
                }
            },
        }
        Ok(self.players[k].name.clone())
    }
}

} // verus!
