use hexhavoc::config::WORLD_SIZE;
use hexhavoc::entity::EntityType;
use hexhavoc::geometry::Vec2;
use hexhavoc::packet::{Dispatch, Message, Packet};
use hexhavoc::session::{Client, CreateGameError, ServerState};
use hexhavoc::terrain::TileSample;
use hexhavoc::world::get_chunk_coords_visible_from;

const GRASS: TileSample =
    TileSample { elevation: 600_000, temperature: 600_000, humidity: 500_000, resource: 0 };
const SEA: TileSample = TileSample { elevation: 0, temperature: 0, humidity: 0, resource: 0 };
const GAME: u128 = 500;

fn uniform(tile: TileSample) -> Vec<TileSample> {
    vec![tile; (WORLD_SIZE as usize) * (WORLD_SIZE as usize)]
}

/// Samples of a world whose only land is the tile (700, 300).
fn island() -> Vec<TileSample> {
    let mut samples = uniform(SEA);
    samples[300 * 1024 + 700] = GRASS;
    samples
}

const HOME: Vec2 = Vec2 { x: 700_000, y: 300_000 };

fn register(game: &str, name: &str) -> Packet {
    Packet::PlayerRegister { game_name: String::from(game), username: String::from(name), skin: 1 }
}

fn say(line: &str) -> Packet {
    Packet::ChatMessageSend { message: String::from(line) }
}

/// One game on the island, and the sessions 1, 2 and 3, of which 1 is
/// registered as ann and 2 as bob.
fn server() -> ServerState {
    let mut state = ServerState::new();
    assert_eq!(state.create_game_with_id(GAME, "isle", 3, island()), Ok(GAME));
    for id in [1, 2, 3] {
        assert!(state.connect(id));
    }
    assert!(!state.handle(1, register("isle", "ann")).is_empty());
    assert!(!state.handle(2, register("isle", "bob")).is_empty());
    state
}

fn position(state: &ServerState, id: u128) -> Vec2 {
    state.games()[0].get_entity(id).unwrap().position
}

fn bindings(state: &ServerState) -> Vec<(u128, Option<u128>, Option<String>)> {
    state.clients().iter().map(|c| (c.id, c.game, c.username.clone())).collect()
}

fn system_message(dispatch: &Dispatch) -> Option<&str> {
    match &dispatch.message {
        Message::Packet(Packet::SystemMessage { message }) => Some(message.as_str()),
        _ => None,
    }
}

fn error_code(dispatch: &Dispatch) -> Option<&str> {
    match &dispatch.message {
        Message::Error(error) => Some(error.error.as_str()),
        _ => None,
    }
}

#[test]
fn games_are_created_under_names_of_their_own() {
    let mut state = ServerState::new();
    assert!(state.games().is_empty() && state.clients().is_empty());
    let first = state.create_game("one", 1, uniform(GRASS)).unwrap();
    // version 4, variant 1
    assert_eq!(first & 0x0000_0000_0000_f000_c000_0000_0000_0000, 0x0000_0000_0000_4000_8000_0000_0000_0000);
    assert_eq!(state.create_game("one", 2, uniform(GRASS)), Err(CreateGameError::NameTaken));
    assert_eq!(state.create_game("two", 2, vec![GRASS; 5]), Err(CreateGameError::BadTerrain));
    assert_eq!(state.create_game("one", 2, vec![GRASS; 5]), Err(CreateGameError::NameTaken));
    assert_eq!(state.create_game_with_id(first, "two", 2, uniform(GRASS)), Err(CreateGameError::IdTaken));
    assert_eq!(state.games().len(), 1);
    let second = state.create_game("two", 2, uniform(GRASS)).unwrap();
    assert_ne!(first, second);
    assert_eq!(state.games().len(), 2);
    assert_eq!(state.games()[0].id(), first);
    assert_eq!(state.games()[0].name(), "one");
    assert_eq!(state.games()[0].terrain().fields().0.seed, 1);
    assert_eq!(state.games()[1].id(), second);
    assert_eq!(state.find_game_by_name("two"), Some(1));
    assert_eq!(state.find_game_by_name("three"), None);
    assert_eq!(state.find_game(second), Some(1));
    assert_eq!(state.find_game(1), None);
    // an id in use gives way to the least free one
    assert_eq!(state.free_id_from(first), 0);
    assert_eq!(state.free_id_from(3), 3);
    assert_eq!(state.create_game_with_id(0, "three", 2, uniform(GRASS)), Ok(0));
    assert_eq!(state.free_id_from(second), 1);
}

#[test]
fn a_new_game_holds_the_resources_of_its_terrain() {
    let mut samples = uniform(GRASS);
    let forest = TileSample { elevation: 600_000, temperature: 600_000, humidity: 900_000, resource: 399_999 };
    samples[300 * 1024 + 300] = forest;
    samples[301 * 1024 + 300] = forest;
    let mut state = ServerState::new();
    state.create_game_with_id(GAME, "woods", 3, samples).unwrap();
    let game = &state.games()[0];
    let trees: Vec<Vec2> = game.entities().iter().map(|e| e.position).collect();
    assert_eq!(trees, vec![Vec2::new(300_000, 300_000), Vec2::new(300_000, 301_000)]);
    assert!(game.entities().iter().all(|e| matches!(e.value, EntityType::ForestTree) && e.health == 50));
    assert_ne!(game.entities()[0].id, game.entities()[1].id);
    assert!(game.usernames().is_empty());
}

#[test]
fn sessions_come_and_go() {
    let mut state = server();
    assert!(!state.connect(2));
    assert_eq!(state.find_client(3), Some(2));
    assert_eq!(
        bindings(&state),
        vec![(1, Some(GAME), Some(String::from("ann"))), (2, Some(GAME), Some(String::from("bob"))), (3, None, None)]
    );
    assert!(state.disconnect(1));
    assert!(!state.disconnect(1));
    assert_eq!(state.find_client(1), None);
    assert_eq!(state.clients().len(), 2);
    // only the session went: the entity and the name stay
    assert!(state.games()[0].get_entity(1).is_some());
    assert!(state.games()[0].is_username_taken(&String::from("ann")));
    // a new session cannot take the name
    assert!(state.connect(4));
    let answer = state.handle(4, register("isle", "ann"));
    assert_eq!(error_code(&answer[0]), Some("username-taken"));
}

#[test]
fn broadcasts_reach_a_world_or_everyone() {
    let mut state = server();
    state.create_game_with_id(GAME + 1, "other", 3, island()).unwrap();
    assert!(!state.handle(3, register("other", "ann")).is_empty());
    assert!(state.connect(4));
    assert_eq!(state.recipients(None, None), vec![1, 2, 3, 4]);
    assert_eq!(state.recipients(None, Some(2)), vec![1, 3, 4]);
    assert_eq!(state.recipients(Some(GAME), None), vec![1, 2]);
    assert_eq!(state.recipients(Some(GAME), Some(1)), vec![2]);
    assert_eq!(state.recipients(Some(GAME + 1), None), vec![3]);
    assert_eq!(state.recipients(Some(9), None), Vec::<u128>::new());
    let all = state.broadcast_to_all(Packet::EntityDeath { id: 8 });
    assert_eq!(all.recipients, vec![1, 2, 3, 4]);
    assert!(matches!(all.message, Message::Packet(Packet::EntityDeath { id: 8 })));
    let world = state.broadcast_to_world(GAME, Packet::EntityUnload { id: 8 });
    assert_eq!(world.recipients, vec![1, 2]);
    assert!(matches!(world.message, Message::Packet(Packet::EntityUnload { id: 8 })));
}

#[test]
fn registration_streams_the_view_and_announces_the_player() {
    let mut state = ServerState::new();
    state.create_game_with_id(GAME, "isle", 3, island()).unwrap();
    assert!(state.connect(1));
    assert!(state.connect(2));
    let first = state.handle(1, register("isle", "ann"));
    let chunks = get_chunk_coords_visible_from(HOME);
    assert_eq!(first.len(), chunks.len() + 2);
    for (sent, place) in first.iter().zip(chunks.iter()) {
        assert_eq!(sent.recipients, vec![1]);
        match &sent.message {
            Message::Packet(Packet::TerrainChunk { chunk }) => {
                assert_eq!(chunk.position, *place);
                assert_eq!(chunk.contents.len(), 64);
            }
            _ => panic!("a chunk was expected"),
        }
    }
    let load = &first[chunks.len()];
    assert_eq!(load.recipients, vec![1]);
    assert!(matches!(&load.message, Message::Packet(Packet::EntityLoad { entity })
        if entity.id == 1 && entity.position == HOME && entity.health == 100));
    let done = &first[chunks.len() + 1];
    assert_eq!(done.recipients, vec![1]);
    assert!(matches!(done.message, Message::Packet(Packet::PlayerRegistered { id: 1 })));

    let second = state.handle(2, register("isle", "bob"));
    assert_eq!(second.len(), chunks.len() + 3);
    // both players are told about bob
    let announce = &second[chunks.len()];
    assert_eq!(announce.recipients, vec![1, 2]);
    assert!(matches!(&announce.message, Message::Packet(Packet::EntityLoad { entity })
        if entity.id == 2 && matches!(&entity.value, EntityType::Player(p) if p.username == "bob" && p.skin == 1)));
    // bob is told about ann
    let other = &second[chunks.len() + 1];
    assert_eq!(other.recipients, vec![2]);
    assert!(matches!(&other.message, Message::Packet(Packet::EntityLoad { entity }) if entity.id == 1));
    assert!(matches!(second[chunks.len() + 2].message, Message::Packet(Packet::PlayerRegistered { id: 2 })));
    let game = &state.games()[0];
    assert!(game.is_visible_to(1, 2) && game.is_visible_to(2, 1));
    assert!(game.is_visible_to(1, 1) && game.is_visible_to(2, 2));
    assert_eq!(bindings(&state)[1], (2, Some(GAME), Some(String::from("bob"))));
}

#[test]
fn a_name_taken_in_the_game_is_refused_to_a_second_session() {
    let mut state = ServerState::new();
    state.create_game_with_id(GAME, "isle", 3, island()).unwrap();
    assert!(state.connect(1));
    assert!(state.connect(2));
    assert!(!state.handle(1, register("isle", "ann")).is_empty());
    let answer = state.handle(2, register("isle", "ann"));
    assert_eq!(answer.len(), 1);
    assert_eq!(answer[0].recipients, vec![2]);
    assert_eq!(error_code(&answer[0]), Some("username-taken"));
    assert_eq!(state.games()[0].usernames().len(), 1);
    assert_eq!(state.games()[0].entities().len(), 1);
    assert_eq!(bindings(&state)[1], (2, None, None));
    // the session may still register under another name
    assert!(state.handle(2, register("isle", "bob")).len() > 1);
    assert_eq!(state.games()[0].usernames().len(), 2);
}

#[test]
fn the_same_name_is_free_in_another_game() {
    let mut state = server();
    state.create_game_with_id(GAME + 1, "other", 3, island()).unwrap();
    let answer = state.handle(3, register("other", "ann"));
    assert!(matches!(answer.last().unwrap().message, Message::Packet(Packet::PlayerRegistered { id: 3 })));
    assert_eq!(bindings(&state)[2], (3, Some(GAME + 1), Some(String::from("ann"))));
}

#[test]
fn an_unknown_game_is_answered_with_an_error() {
    let mut state = server();
    let before = bindings(&state);
    let answer = state.handle(3, register("nowhere", "cid"));
    assert_eq!(answer.len(), 1);
    assert_eq!(answer[0].recipients, vec![3]);
    assert_eq!(error_code(&answer[0]), Some("game-not-found"));
    assert_eq!(bindings(&state), before);
    assert_eq!(state.games().len(), 1);
    assert_eq!(state.games()[0].entities().len(), 2);
    assert_eq!(state.games()[0].usernames().len(), 2);
}

#[test]
fn a_registered_session_does_not_register_again() {
    let mut state = server();
    assert!(state.handle(1, register("isle", "zed")).is_empty());
    assert!(state.handle(1, register("nowhere", "zed")).is_empty());
    assert_eq!(state.games()[0].usernames().len(), 2);
    assert_eq!(bindings(&state)[0], (1, Some(GAME), Some(String::from("ann"))));
    // nor does a session that is not connected
    assert!(state.handle(9, register("isle", "zed")).is_empty());
    assert_eq!(state.games()[0].entities().len(), 2);
}

#[test]
fn a_move_is_told_to_every_other_session() {
    let mut state = server();
    let to = Vec2::new(701_000, 300_000);
    let sent = state.handle(1, Packet::EntityMove { id: 1, new_position: to });
    assert_eq!(position(&state, 1), to);
    assert_eq!(sent.len(), 1);
    assert_eq!(sent[0].recipients, vec![2, 3]);
    assert!(matches!(sent[0].message, Message::Packet(Packet::EntityMove { id: 1, new_position }) if new_position == to));
}

#[test]
fn a_leap_streams_what_comes_into_view() {
    let mut state = server();
    let to = Vec2::new(300_000, 700_000);
    let sent = state.handle(1, Packet::EntityMove { id: 1, new_position: to });
    let chunks = get_chunk_coords_visible_from(to);
    // the chunks, then the unloads of bob and of the mover where it stood, then the move
    assert_eq!(sent.len(), chunks.len() + 3);
    for (dispatch, place) in sent.iter().zip(chunks.iter()) {
        assert_eq!(dispatch.recipients, vec![1]);
        assert!(matches!(&dispatch.message, Message::Packet(Packet::TerrainChunk { chunk }) if chunk.position == *place));
    }
    assert!(matches!(sent[chunks.len()].message, Message::Packet(Packet::EntityUnload { id: 1 })));
    assert!(matches!(sent[chunks.len() + 1].message, Message::Packet(Packet::EntityUnload { id: 2 })));
    assert_eq!(sent[chunks.len()].recipients, vec![1]);
    assert_eq!(sent[chunks.len() + 2].recipients, vec![2, 3]);
    assert!(!state.games()[0].is_visible_to(1, 2));
    assert!(state.games()[0].is_visible_to(2, 1));
}

#[test]
fn a_move_under_another_id_is_ignored() {
    let mut state = server();
    assert!(state.handle(1, Packet::EntityMove { id: 2, new_position: Vec2::new(5, 5) }).is_empty());
    assert_eq!(position(&state, 1), HOME);
    assert_eq!(position(&state, 2), HOME);
    // and so is one of a session that is not registered
    assert!(state.handle(3, Packet::EntityMove { id: 3, new_position: Vec2::new(5, 5) }).is_empty());
}

#[test]
fn speech_goes_to_the_world_of_the_speaker() {
    let mut state = server();
    state.create_game_with_id(GAME + 1, "other", 3, island()).unwrap();
    assert!(!state.handle(3, register("other", "cid")).is_empty());
    let sent = state.handle(2, say("hello all"));
    assert_eq!(sent.len(), 1);
    assert_eq!(sent[0].recipients, vec![1, 2]);
    assert!(matches!(&sent[0].message, Message::Packet(Packet::ChatMessage { id: 2, message, username })
        if message == "hello all" && username == "bob"));
    let sent = state.handle(3, say("anyone?"));
    assert_eq!(sent[0].recipients, vec![3]);
    // a session that is not registered says nothing
    assert!(state.connect(4));
    assert!(state.handle(4, say("hello")).is_empty());
}

#[test]
fn tp_takes_the_caller_to_the_player_and_echoes_the_move() {
    let mut state = server();
    let away = Vec2::new(720_000, 310_000);
    assert!(!state.handle(1, Packet::EntityMove { id: 1, new_position: away }).is_empty());
    assert_eq!(position(&state, 1), away);
    let sent = state.handle(2, say("/tp ann"));
    assert_eq!(position(&state, 2), away);
    assert_eq!(position(&state, 1), away);
    let last = sent.last().unwrap();
    assert_eq!(last.recipients, vec![1, 2, 3]);
    assert!(matches!(last.message, Message::Packet(Packet::EntityMove { id: 2, new_position }) if new_position == away));
    // words after the name are ignored
    assert!(!state.handle(1, Packet::EntityMove { id: 1, new_position: HOME }).is_empty());
    let sent = state.handle(2, say("/tp ann now"));
    assert_eq!(position(&state, 2), HOME);
    assert!(sent.last().unwrap().recipients.contains(&2));
}

#[test]
fn commands_that_cannot_be_carried_out_are_answered_to_the_caller() {
    let mut state = server();
    for line in ["/tp", "/tp ", "/tp nobody", "/dance", "/", "/tp  ann", "/TP ann"] {
        let sent = state.handle(2, say(line));
        assert_eq!(sent.len(), 1);
        assert_eq!(sent[0].recipients, vec![2]);
        assert_eq!(system_message(&sent[0]), Some("Invalid command"));
        assert_eq!(position(&state, 2), HOME);
    }
}

#[test]
fn an_attack_is_told_to_those_who_see_the_target() {
    let mut state = server();
    let sent = state.handle(1, Packet::PlayerAttack { cursor_world_pos: HOME });
    assert_eq!(sent.len(), 1);
    let mut viewers = sent[0].recipients.clone();
    viewers.sort();
    assert_eq!(viewers, vec![1, 2]);
    assert!(matches!(sent[0].message, Message::Packet(Packet::EntityDamage { id: 2, new_health: 80 })));
    assert_eq!(state.games()[0].get_entity(2).unwrap().health, 80);
    // nothing in reach: nothing is sent
    assert!(state.handle(1, Packet::PlayerAttack { cursor_world_pos: Vec2::new(0, 0) }).is_empty());
    // a session without a player attacks nothing
    assert!(state.handle(3, Packet::PlayerAttack { cursor_world_pos: HOME }).is_empty());
}

#[test]
fn a_death_is_told_and_a_killed_player_is_named() {
    let mut state = server();
    for _ in 0..4 {
        assert_eq!(state.handle(1, Packet::PlayerAttack { cursor_world_pos: HOME }).len(), 1);
    }
    let sent = state.handle(1, Packet::PlayerAttack { cursor_world_pos: HOME });
    assert_eq!(sent.len(), 3);
    assert!(matches!(sent[0].message, Message::Packet(Packet::EntityDamage { id: 2, new_health: 0 })));
    assert!(matches!(sent[1].message, Message::Packet(Packet::EntityDeath { id: 2 })));
    for dispatch in &sent[..2] {
        let mut viewers = dispatch.recipients.clone();
        viewers.sort();
        assert_eq!(viewers, vec![1, 2]);
    }
    assert_eq!(sent[2].recipients, vec![1, 2]);
    assert_eq!(system_message(&sent[2]), Some("ann killed bob"));
    assert!(state.games()[0].get_entity(2).is_none());
    // the session of the dead stays bound, and may speak
    assert_eq!(bindings(&state)[1], (2, Some(GAME), Some(String::from("bob"))));
    assert_eq!(state.handle(2, say("ouch")).len(), 1);
    // but a command to move it is refused
    assert_eq!(system_message(&state.handle(2, say("/tp ann"))[0]), Some("Invalid command"));
}

#[test]
fn the_slot_in_hand_is_chosen_by_packet() {
    let mut state = server();
    assert!(state.handle(1, Packet::InventorySelect { selected: 3 }).is_empty());
    // an empty hand deals 5
    let sent = state.handle(1, Packet::PlayerAttack { cursor_world_pos: HOME });
    assert!(matches!(sent[0].message, Message::Packet(Packet::EntityDamage { id: 2, new_health: 95 })));
    // a slot that does not exist leaves the hand as it is
    assert!(state.handle(1, Packet::InventorySelect { selected: 6 }).is_empty());
    let sent = state.handle(1, Packet::PlayerAttack { cursor_world_pos: HOME });
    assert!(matches!(sent[0].message, Message::Packet(Packet::EntityDamage { id: 2, new_health: 90 })));
    assert!(state.handle(1, Packet::InventorySelect { selected: 0 }).is_empty());
    let sent = state.handle(1, Packet::PlayerAttack { cursor_world_pos: HOME });
    assert!(matches!(sent[0].message, Message::Packet(Packet::EntityDamage { id: 2, new_health: 70 })));
}

#[test]
fn packets_that_only_the_server_sends_are_ignored() {
    let mut state = server();
    let before = bindings(&state);
    assert!(state.handle(1, Packet::PlayerRegistered { id: 1 }).is_empty());
    assert!(state.handle(1, Packet::EntityDeath { id: 2 }).is_empty());
    assert!(state.handle(1, Packet::EntityDamage { id: 2, new_health: 0 }).is_empty());
    assert!(state.handle(1, Packet::EntityUnload { id: 2 }).is_empty());
    assert!(state.handle(1, Packet::SystemMessage { message: String::from("x") }).is_empty());
    assert_eq!(bindings(&state), before);
    assert_eq!(state.games()[0].entities().len(), 2);
    assert_eq!(state.games()[0].get_entity(2).unwrap().health, 100);
}

#[test]
fn a_session_is_brought_up_to_date_by_what_it_receives() {
    let mut state = ServerState::new();
    state.create_game_with_id(GAME, "isle", 3, island()).unwrap();
    assert!(state.connect(1));
    let mut client = Client { id: 1, game: None, username: None };
    let sent = client.recv(register("isle", "ann"), &mut state);
    assert!(matches!(sent.last().unwrap().message, Message::Packet(Packet::PlayerRegistered { id: 1 })));
    assert_eq!((client.id, client.game, client.username.as_deref()), (1, Some(GAME), Some("ann")));
    let to = Vec2::new(705_000, 300_000);
    let sent = client.recv(Packet::EntityMove { id: 1, new_position: to }, &mut state);
    // five tiles on, some chunks come into view; the move itself has nobody to go to
    assert!(matches!(sent.last().unwrap().message, Message::Packet(Packet::EntityMove { id: 1, .. })));
    assert!(sent.last().unwrap().recipients.is_empty());
    assert!(sent[..sent.len() - 1].iter().all(|d| matches!(d.message, Message::Packet(Packet::TerrainChunk { .. }))));
    assert_eq!(position(&state, 1), to);
    // a session that the directory does not hold does nothing
    let mut ghost = Client { id: 9, game: None, username: None };
    assert!(ghost.recv(register("isle", "zed"), &mut state).is_empty());
    assert_eq!((ghost.id, ghost.game, ghost.username), (9, None, None));
    assert_eq!(state.games()[0].entities().len(), 1);
    let copy = client.clone();
    assert_eq!((copy.id, copy.game, copy.username.as_deref()), (1, Some(GAME), Some("ann")));
}
