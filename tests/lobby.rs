use bingo::lobby_id::{LobbyId, ParseLobbyIdError};
use bingo::manager::{AdvanceRejected, DisconnectAction, LobbyManager};
use bingo::model::{Card, Host, JoinLobbyError, Lobby, ParticipantId, Player, SubmitBoardError};
use bingo::protocol::{Acknowledgement, BoardSubmitRequest, HostLobbyRequest, JoinLobbyRequest};
use bingo::stage::{LastStateReached, LobbyState};

fn answers() -> [String; 25] {
    std::array::from_fn(|i| format!("A{}", i))
}

fn cards() -> Vec<Card> {
    (0..25u8).map(|i| Card::new(format!("A{}", i), i)).collect()
}

fn host_alice(manager: &mut LobbyManager) -> LobbyId {
    let request = HostLobbyRequest { host_name: "Alice".to_string(), cards: answers() };
    let (id, _) = manager.host_lobby(ParticipantId(1), request);
    id
}

fn join(manager: &mut LobbyManager, who: u128, name: &str, lobby_id: LobbyId) -> Result<Vec<String>, JoinLobbyError> {
    let request = JoinLobbyRequest { player_name: name.to_string(), lobby_id };
    manager.join_lobby(ParticipantId(who), request).map(|ack| ack.players)
}

#[test]
fn host_then_join_then_host_leaves() {
    let mut manager = LobbyManager::new();
    let request = HostLobbyRequest { host_name: "Alice".to_string(), cards: answers() };
    let (id, ack) = manager.host_lobby(ParticipantId(1), request);
    assert_eq!(ack.lobby_id.chars().count(), 6);
    assert!(ack.lobby_id.chars().all(|c| c.is_ascii_alphanumeric()));
    assert_eq!(ack.lobby_id, id.to_string());
    assert_eq!(ack.cards.len(), 25);
    for (i, card) in ack.cards.iter().enumerate() {
        assert_eq!(card.id as usize, i);
        assert_eq!(card.description, format!("A{}", i));
    }

    let parsed = LobbyId::parse(&ack.lobby_id).unwrap();
    let join_request = JoinLobbyRequest { player_name: "Bob".to_string(), lobby_id: parsed };
    let join_ack = manager.join_lobby(ParticipantId(2), join_request).unwrap();
    assert!(join_ack.players.is_empty());
    assert_eq!(join_ack.host, "Alice");
    assert_eq!(join_ack.cards, ack.cards);

    let actions = manager.on_disconnect(ParticipantId(1), &vec![ack.lobby_id.clone()]);
    assert_eq!(actions.len(), 1);
    assert!(matches!(actions[0], DisconnectAction::LobbyClosed { lobby_id } if lobby_id == id));
    assert!(manager.get_lobby(&id).is_none());
    assert_eq!(join(&mut manager, 3, "Carol", id), Err(JoinLobbyError::LobbyDoesNotExist));
}

#[test]
fn join_rejects_unknown_lobby_and_taken_names() {
    let mut manager = LobbyManager::new();
    let id = host_alice(&mut manager);
    let unknown = LobbyId::parse("zzzzzz").unwrap();
    assert_eq!(join(&mut manager, 2, "Bob", unknown), Err(JoinLobbyError::LobbyDoesNotExist));
    assert_eq!(join(&mut manager, 2, "Alice", id), Err(JoinLobbyError::NameTaken));
    assert_eq!(join(&mut manager, 2, "Bob", id), Ok(vec![]));
    assert_eq!(join(&mut manager, 3, "Bob", id), Err(JoinLobbyError::NameTaken));
    assert_eq!(join(&mut manager, 3, "bob", id), Ok(vec!["Bob".to_string()]));
    assert_eq!(join(&mut manager, 4, "Dan", id), Ok(vec!["Bob".to_string(), "bob".to_string()]));
    let lobby = manager.get_lobby(&id).unwrap();
    let names: Vec<&str> = lobby.players.iter().map(|p| p.name.as_str()).collect();
    assert_eq!(names, vec!["Bob", "bob", "Dan"]);
}

#[test]
fn join_rejected_after_first_stage() {
    let mut manager = LobbyManager::new();
    let id = host_alice(&mut manager);
    assert_eq!(manager.trigger_next_stage(ParticipantId(1), &id), Ok(LobbyState::CraftingBoards));
    assert_eq!(join(&mut manager, 2, "Bob", id), Err(JoinLobbyError::NotAcceptingPlayers));
}

#[test]
fn join_error_messages() {
    assert_eq!(JoinLobbyError::LobbyDoesNotExist.message(), "Lobby does not exist");
    assert_eq!(JoinLobbyError::NotAcceptingPlayers.message(), "Lobby is not accepting new players");
    assert_eq!(JoinLobbyError::NameTaken.message(), "Player name is already taken");
    assert_eq!(SubmitBoardError::LobbyDoesNotExist.message(), "Lobby does not exist");
}

#[test]
fn only_host_advances_and_stages_run_in_order() {
    let mut manager = LobbyManager::new();
    let id = host_alice(&mut manager);
    let unknown = LobbyId::parse("000000").unwrap();
    assert_eq!(manager.trigger_next_stage(ParticipantId(1), &unknown), Err(AdvanceRejected::LobbyDoesNotExist));
    assert_eq!(manager.trigger_next_stage(ParticipantId(9), &id), Err(AdvanceRejected::NotHost));
    assert_eq!(manager.get_lobby(&id).unwrap().state, LobbyState::WaitingForPlayers);
    assert_eq!(manager.trigger_next_stage(ParticipantId(1), &id), Ok(LobbyState::CraftingBoards));
    assert_eq!(manager.trigger_next_stage(ParticipantId(1), &id), Ok(LobbyState::InProgress));
    assert_eq!(manager.trigger_next_stage(ParticipantId(1), &id), Ok(LobbyState::Completed));
    assert_eq!(manager.trigger_next_stage(ParticipantId(1), &id), Err(AdvanceRejected::LastStageReached));
    assert_eq!(manager.get_lobby(&id).unwrap().state, LobbyState::Completed);
}

#[test]
fn next_stage_sequence() {
    assert_eq!(LobbyState::WaitingForPlayers.next_stage(), Some(LobbyState::CraftingBoards));
    assert_eq!(LobbyState::CraftingBoards.next_stage(), Some(LobbyState::InProgress));
    assert_eq!(LobbyState::InProgress.next_stage(), Some(LobbyState::Completed));
    assert_eq!(LobbyState::Completed.next_stage(), None);
}

#[test]
fn advance_state_on_completed_lobby_fails() {
    let host = Host::new(ParticipantId(1), "Alice".to_string());
    let mut lobby = Lobby::new(host, cards());
    lobby.state = LobbyState::Completed;
    assert_eq!(lobby.advance_state(), Err(LastStateReached));
    assert_eq!(lobby.state, LobbyState::Completed);
}

#[test]
fn create_get_remove() {
    let mut manager = LobbyManager::new();
    let id = LobbyId::parse("abc123").unwrap();
    let host = Host::new(ParticipantId(7), "Host".to_string());
    manager.create_lobby(id, host.clone(), cards());
    let lobby = manager.get_lobby(&id).unwrap();
    assert_eq!(lobby.host, host);
    assert_eq!(lobby.available_cards, cards());
    assert_eq!(lobby.state, LobbyState::WaitingForPlayers);
    assert!(lobby.players.is_empty());
    let removed = manager.remove_lobby(&id).unwrap();
    assert_eq!(removed.host, host);
    assert!(manager.get_lobby(&id).is_none());
    assert!(manager.remove_lobby(&id).is_none());
}

#[test]
fn create_with_same_id_replaces_lobby() {
    let mut manager = LobbyManager::new();
    let id = LobbyId::parse("SAMEid").unwrap();
    manager.create_lobby(id, Host::new(ParticipantId(1), "First".to_string()), cards());
    manager.create_lobby(id, Host::new(ParticipantId(2), "Second".to_string()), cards());
    assert_eq!(manager.get_lobby(&id).unwrap().host.name, "Second");
    manager.remove_lobby(&id);
    assert!(manager.get_lobby(&id).is_none());
}

#[test]
fn submit_board_and_winners() {
    let mut manager = LobbyManager::new();
    let id = host_alice(&mut manager);
    join(&mut manager, 2, "Bob", id).unwrap();
    join(&mut manager, 3, "Carol", id).unwrap();
    let mut row_major = [0u8; 25];
    for (i, cell) in row_major.iter_mut().enumerate() {
        *cell = i as u8;
    }
    let mut shifted = [0u8; 25];
    for (i, cell) in shifted.iter_mut().enumerate() {
        *cell = ((i + 1) % 25) as u8;
    }
    let bob = BoardSubmitRequest { lobby_id: id, cards: row_major };
    assert_eq!(manager.submit_board(ParticipantId(2), &bob), Ok("Bob".to_string()));
    let carol = BoardSubmitRequest { lobby_id: id, cards: shifted };
    assert_eq!(manager.submit_board(ParticipantId(3), &carol), Ok("Carol".to_string()));
    let host = BoardSubmitRequest { lobby_id: id, cards: row_major };
    assert_eq!(manager.submit_board(ParticipantId(1), &host), Err(SubmitBoardError::NotAPlayer));
    let unknown = BoardSubmitRequest { lobby_id: LobbyId::parse("nope00").unwrap(), cards: row_major };
    assert_eq!(manager.submit_board(ParticipantId(2), &unknown), Err(SubmitBoardError::LobbyDoesNotExist));

    let (key, lobby) = manager.lobbies.iter_mut().find(|(k, _)| *k == id).unwrap();
    assert_eq!(*key, id);
    assert_eq!(lobby.boards.len(), 2);
    lobby.correct_answers = vec![5, 6, 7, 8, 9];
    assert_eq!(lobby.check_winners(), vec!["Bob".to_string()]);
    lobby.correct_answers = vec![0, 6, 12, 18, 24];
    assert_eq!(lobby.check_winners(), vec!["Bob".to_string()]);
    lobby.correct_answers = vec![19, 1, 13, 7, 0, 42];
    assert_eq!(lobby.check_winners(), vec!["Carol".to_string()]);
    lobby.correct_answers = (0..25).collect();
    assert_eq!(lobby.check_winners(), vec!["Bob".to_string(), "Carol".to_string()]);
    lobby.correct_answers = vec![1, 7, 13, 19, 14];
    assert!(lobby.check_winners().is_empty());
}

#[test]
fn resubmission_overwrites_board() {
    let host = Host::new(ParticipantId(1), "Alice".to_string());
    let mut lobby = Lobby::new(host, cards());
    lobby.add_player(ParticipantId(2), "Bob".to_string()).unwrap();
    assert_eq!(lobby.submit_board(ParticipantId(2), [0u8; 25]), Ok("Bob".to_string()));
    assert_eq!(lobby.submit_board(ParticipantId(2), [3u8; 25]), Ok("Bob".to_string()));
    assert_eq!(lobby.boards.len(), 1);
    assert_eq!(lobby.boards[0], (ParticipantId(2), [3u8; 25]));
}

#[test]
fn player_disconnect_removes_player_and_board() {
    let mut manager = LobbyManager::new();
    let id = host_alice(&mut manager);
    join(&mut manager, 2, "Bob", id).unwrap();
    join(&mut manager, 3, "Carol", id).unwrap();
    let board = BoardSubmitRequest { lobby_id: id, cards: [1u8; 25] };
    manager.submit_board(ParticipantId(2), &board).unwrap();
    let rooms = vec!["not a lobby".to_string(), id.to_string()];
    let actions = manager.on_disconnect(ParticipantId(2), &rooms);
    assert_eq!(actions.len(), 1);
    match &actions[0] {
        DisconnectAction::PlayerLeft { lobby_id, player_name } => {
            assert_eq!(*lobby_id, id);
            assert_eq!(player_name, "Bob");
        }
        DisconnectAction::LobbyClosed { .. } => panic!("the lobby must stay open"),
    }
    let lobby = manager.get_lobby(&id).unwrap();
    assert_eq!(lobby.players, vec![Player::new(ParticipantId(3), "Carol".to_string())]);
    assert!(lobby.boards.is_empty());
    assert!(manager.on_disconnect(ParticipantId(42), &rooms).is_empty());
    assert_eq!(manager.get_lobby(&id).unwrap().players.len(), 1);
}

#[test]
fn remove_player_reports_missing_player() {
    let host = Host::new(ParticipantId(1), "Alice".to_string());
    let mut lobby = Lobby::new(host, cards());
    assert_eq!(lobby.remove_player(&ParticipantId(5)), None);
    lobby.add_player(ParticipantId(5), "Eve".to_string()).unwrap();
    assert_eq!(lobby.remove_player(&ParticipantId(5)), Some(Player::new(ParticipantId(5), "Eve".to_string())));
    assert!(lobby.players.is_empty());
}

#[test]
fn host_disconnect_closes_lobby_in_any_stage() {
    let mut manager = LobbyManager::new();
    let id = host_alice(&mut manager);
    manager.trigger_next_stage(ParticipantId(1), &id).unwrap();
    manager.trigger_next_stage(ParticipantId(1), &id).unwrap();
    let actions = manager.on_disconnect(ParticipantId(1), &vec![id.to_string()]);
    assert!(matches!(actions[0], DisconnectAction::LobbyClosed { .. }));
    assert!(manager.get_lobby(&id).is_none());
}

#[test]
fn lobby_id_parse_and_text_form() {
    let id = LobbyId::parse("aZ09xY").unwrap();
    assert_eq!(id.0, ['a', 'Z', '0', '9', 'x', 'Y']);
    assert_eq!(id.to_string(), "aZ09xY");
    assert_eq!(
        LobbyId::parse("abc"),
        Err(ParseLobbyIdError::InvalidLength { expected: 6, got: 3 })
    );
    assert_eq!(
        LobbyId::parse("abcdefg"),
        Err(ParseLobbyIdError::InvalidLength { expected: 6, got: 7 })
    );
    assert_eq!(
        LobbyId::parse("h\u{e9}llo"),
        Err(ParseLobbyIdError::InvalidLength { expected: 6, got: 5 })
    );
    assert_eq!(
        "h\u{e9}llo!".parse::<LobbyId>(),
        Err(ParseLobbyIdError::InvalidCharacter { position: 1 })
    );
    assert_eq!(LobbyId::parse("ab-def"), Err(ParseLobbyIdError::InvalidCharacter { position: 2 }));
    assert!(LobbyId::parse("").is_err());
    let from_trait: LobbyId = "QWERTY".parse().unwrap();
    assert_eq!(from_trait.to_string(), "QWERTY");
}

#[test]
fn generated_lobby_ids_are_six_base62_symbols() {
    for _ in 0..50 {
        let id = LobbyId::new();
        let text = id.to_string();
        assert_eq!(text.len(), 6);
        assert!(text.chars().all(|c| c.is_ascii_alphanumeric()));
        assert_eq!(LobbyId::parse(&text), Ok(id));
    }
}

#[test]
fn acknowledgement_constructors() {
    match Acknowledgement::success(5u8) {
        Acknowledgement::Success { data } => assert_eq!(data, 5),
        Acknowledgement::Failure { .. } => panic!("expected success"),
    }
    match Acknowledgement::failure("boom".to_string()) {
        Acknowledgement::Failure { message } => assert_eq!(message, "boom"),
        Acknowledgement::Success { .. } => panic!("expected failure"),
    }
    match Acknowledgement::failure_t::<u8>("nope".to_string()) {
        Acknowledgement::Failure { message } => assert_eq!(message, "nope"),
        Acknowledgement::Success { .. } => panic!("expected failure"),
    }
}

#[test]
fn lobby_records_start_time() {
    let host = Host::new(ParticipantId(1), "Alice".to_string());
    let lobby = Lobby::new(host, cards());
    assert!(lobby.start_date > 1_600_000_000_000);
}

#[test]
fn disconnect_handles_each_lobby_once() {
    let mut manager = LobbyManager::new();
    let id = host_alice(&mut manager);
    join(&mut manager, 1, "Alice again", id).unwrap();
    join(&mut manager, 2, "Bob", id).unwrap();
    let rooms = vec![id.to_string(), id.to_string()];
    let actions = manager.on_disconnect(ParticipantId(1), &rooms);
    assert_eq!(actions.len(), 1);
    assert!(matches!(&actions[0], DisconnectAction::PlayerLeft { player_name, .. } if player_name == "Alice again"));
    let lobby = manager.get_lobby(&id).unwrap();
    assert_eq!(lobby.players, vec![Player::new(ParticipantId(2), "Bob".to_string())]);
}

#[test]
fn disconnect_of_bystander_leaves_lobby_unchanged() {
    let mut manager = LobbyManager::new();
    let id = host_alice(&mut manager);
    join(&mut manager, 2, "Bob", id).unwrap();
    let actions = manager.on_disconnect(ParticipantId(9), &vec![id.to_string()]);
    assert!(actions.is_empty());
    let lobby = manager.get_lobby(&id).unwrap();
    assert_eq!(lobby.players, vec![Player::new(ParticipantId(2), "Bob".to_string())]);
    assert_eq!(lobby.host.name, "Alice");
}
