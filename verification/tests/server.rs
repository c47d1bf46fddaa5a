use brutal_grounds::client::GameClientState;
use brutal_grounds::components::ReplicatedEntity;
use brutal_grounds::net::{CharacterInput, DespawnCharacterEvent, PlayerInput, WorldSnapshot};
use brutal_grounds::server::{
    build_world_snapshot, GameServerState, IdTracker, Player, ServerAction, ServerEvent,
};

type Vec3 = (f32, f32, f32);

fn character(net_id: u32, owner: u64) -> ReplicatedEntity {
    ReplicatedEntity { net_id, owner_client_id: owner }
}

fn player_input(id: u32, acking: Option<u32>, with_character: bool) -> PlayerInput<Vec3, f32> {
    PlayerInput {
        id,
        acking_snapshot_id: acking,
        character_input: if with_character {
            Some(CharacterInput {
                wish_direction: (1.0, 0.0, 0.0),
                aim_yaw: 0.0,
                predicted_ability: false,
                weapon_wish_fire: false,
                final_position: None,
            })
        } else {
            None
        },
        sends: 0,
    }
}

#[test]
fn ids_are_pumped_in_order() {
    let mut ids = IdTracker::new();
    assert_eq!(ids.pump_next_net_id(), 0);
    assert_eq!(ids.pump_next_net_id(), 1);
    assert_eq!(ids.pump_world_snapshot_id(), 0);
    assert_eq!(ids.next_entity_net_id, 2);
    assert_eq!(ids.next_world_snapshot_id, 1);
}

#[test]
fn connecting_client_learns_world_and_everyone_learns_of_it() {
    let mut state = GameServerState::new();
    let mut ids = IdTracker { next_world_snapshot_id: 0, next_entity_net_id: 5 };
    let characters: Vec<(ReplicatedEntity, Vec3)> = vec![(character(1, 0), (2.0, 0.5, 2.0)), (character(3, 10), (4.0, 0.5, 4.0))];
    let clients = vec![10, 11];
    let actions = state.handle_connection_event(&mut ids, ServerEvent::ClientConnected { client_id: 11 }, &characters, &clients, (0.0, 0.5, 0.0));
    assert_eq!(actions.len(), 5);
    match actions[0] {
        ServerAction::SendSpawn { to, event } => {
            assert_eq!(to, 11);
            assert_eq!((event.net_id, event.client_id, event.position, event.is_local), (1, 0, (2.0, 0.5, 2.0), false));
        }
        _ => panic!("expected a spawn message"),
    }
    match actions[1] {
        ServerAction::SendSpawn { to, event } => {
            assert_eq!(to, 11);
            assert_eq!((event.net_id, event.client_id, event.is_local), (3, 10, false));
        }
        _ => panic!("expected a spawn message"),
    }
    match actions[2] {
        ServerAction::SpawnLocally(event) => {
            assert_eq!((event.net_id, event.client_id, event.position, event.is_local), (5, 11, (0.0, 0.5, 0.0), false));
        }
        _ => panic!("expected a local spawn"),
    }
    match actions[3] {
        ServerAction::SendSpawn { to, event } => {
            assert_eq!((to, event.net_id, event.client_id, event.is_local), (10, 5, 11, false));
        }
        _ => panic!("expected a spawn message"),
    }
    match actions[4] {
        ServerAction::SendSpawn { to, event } => {
            assert_eq!((to, event.net_id, event.client_id, event.is_local), (11, 5, 11, true));
        }
        _ => panic!("expected a spawn message"),
    }
    assert_eq!(ids.next_entity_net_id, 6);
    assert_eq!(state.player(11), Some(Player { last_acked_world_snapshot_id: None, last_processed_input_id: None }));
    assert_eq!(state.player(10), None);
}

#[test]
fn disconnecting_client_loses_its_characters() {
    let mut state = GameServerState::new();
    let mut ids = IdTracker::new();
    let none: Vec<(ReplicatedEntity, Vec3)> = Vec::new();
    state.handle_connection_event(&mut ids, ServerEvent::ClientConnected { client_id: 4 }, &none, &vec![4], (0.0, 0.0, 0.0));
    assert!(state.player(4).is_some());
    let characters: Vec<(ReplicatedEntity, Vec3)> = vec![
        (character(0, 4), (0.0, 0.0, 0.0)),
        (character(1, 5), (0.0, 0.0, 0.0)),
        (character(2, 4), (0.0, 0.0, 0.0)),
    ];
    let actions = state.handle_connection_event(&mut ids, ServerEvent::ClientDisconnected { client_id: 4 }, &characters, &vec![5, 6], (0.0, 0.0, 0.0));
    assert_eq!(state.player(4), None);
    assert_eq!(ids.next_entity_net_id, 1);
    assert_eq!(actions.len(), 6);
    let expected = [
        (None, 0u32),
        (Some(5u64), 0),
        (Some(6), 0),
        (None, 2),
        (Some(5), 2),
        (Some(6), 2),
    ];
    for (action, (to, net_id)) in actions.iter().zip(expected.iter()) {
        match (action, to) {
            (ServerAction::DespawnLocally(DespawnCharacterEvent { net_id: n }), None) => assert_eq!(n, net_id),
            (ServerAction::SendDespawn { to: t, event }, Some(expected_to)) => {
                assert_eq!(t, expected_to);
                assert_eq!(event.net_id, *net_id);
            }
            _ => panic!("unexpected action"),
        }
    }
}

#[test]
fn server_acks_last_processed_input() {
    let mut state = GameServerState::new();
    let mut ids = IdTracker::new();
    let none: Vec<(ReplicatedEntity, Vec3)> = Vec::new();
    state.handle_connection_event(&mut ids, ServerEvent::ClientConnected { client_id: 9 }, &none, &vec![9], (0.0, 0.0, 0.0));
    state.handle_connection_event(&mut ids, ServerEvent::ClientConnected { client_id: 8 }, &none, &vec![9, 8], (0.0, 0.0, 0.0));
    let characters = vec![character(0, 9), character(1, 8), character(2, 9)];
    let targets = state.handle_client_input(9, &player_input(17, Some(3), true), &characters);
    assert_eq!(targets, vec![0, 2]);
    assert_eq!(state.player(9), Some(Player { last_acked_world_snapshot_id: Some(3), last_processed_input_id: Some(17) }));
    assert_eq!(state.player(8).unwrap().last_processed_input_id, None);

    let moving: Vec<(ReplicatedEntity, Vec3, Vec3)> = vec![(character(0, 9), (1.0, 0.5, 1.0), (0.0, 0.0, 1.0))];
    let base = build_world_snapshot(&mut ids, &moving, 0.0f32);
    assert_eq!(base.id, 0);
    assert_eq!(base.acking_input_id, None);
    assert_eq!(base.character_entities.len(), 1);
    assert_eq!(base.character_entities[0].id, 0);
    assert_eq!(base.character_entities[0].position, Some((1.0, 0.5, 1.0)));
    assert_eq!(base.character_entities[0].velocity, Some((0.0, 0.0, 1.0)));
    assert_eq!(base.character_entities[0].yaw, Some(0.0));
    assert_eq!(ids.next_world_snapshot_id, 1);

    let to_nine = state.snapshot_for_client(&base, 9);
    assert_eq!(to_nine.acking_input_id, Some(17));
    assert_eq!(to_nine.id, 0);
    assert_eq!(to_nine.character_entities.len(), 1);
    let to_eight = state.snapshot_for_client(&base, 8);
    assert_eq!(to_eight.acking_input_id, None);
    let to_stranger = state.snapshot_for_client(&base, 77);
    assert_eq!(to_stranger.acking_input_id, None);
}

#[test]
fn input_without_character_input_or_characters_changes_nothing() {
    let mut state = GameServerState::new();
    let mut ids = IdTracker::new();
    let none: Vec<(ReplicatedEntity, Vec3)> = Vec::new();
    state.handle_connection_event(&mut ids, ServerEvent::ClientConnected { client_id: 1 }, &none, &vec![1], (0.0, 0.0, 0.0));
    let characters = vec![character(0, 1)];
    assert!(state.handle_client_input(1, &player_input(4, Some(1), false), &characters).is_empty());
    assert_eq!(state.player(1).unwrap().last_processed_input_id, None);
    assert!(state.handle_client_input(1, &player_input(4, Some(1), true), &Vec::new()).is_empty());
    assert_eq!(state.player(1).unwrap().last_processed_input_id, None);
    // An unknown client's input still steers its characters but records nothing.
    assert_eq!(state.handle_client_input(2, &player_input(4, None, true), &vec![character(5, 2)]), vec![0]);
    assert_eq!(state.player(2), None);
}

#[test]
fn snapshot_for_client_keeps_acknowledgement_of_unknown_client() {
    let state = GameServerState::new();
    let base: WorldSnapshot<Vec3, f32> = WorldSnapshot { id: 4, acking_input_id: Some(2), character_entities: Vec::new() };
    assert_eq!(state.snapshot_for_client(&base, 3).acking_input_id, Some(2));
}

#[test]
fn ack_round_trip_between_server_and_client() {
    let mut client: GameClientState<Vec3, f32> = GameClientState::new();
    for _ in 0..5 {
        client.record_input(CharacterInput {
            wish_direction: (0.0, 0.0, 1.0),
            aim_yaw: 0.0,
            predicted_ability: false,
            weapon_wish_fire: false,
            final_position: None,
        });
    }
    let mut server = GameServerState::new();
    let mut ids = IdTracker::new();
    let none: Vec<(ReplicatedEntity, Vec3)> = Vec::new();
    server.handle_connection_event(&mut ids, ServerEvent::ClientConnected { client_id: 3 }, &none, &vec![3], (0.0, 0.0, 0.0));
    let sent = *client.input(2);
    server.handle_client_input(3, &sent, &vec![character(0, 3)]);
    let base = build_world_snapshot(&mut ids, &Vec::<(ReplicatedEntity, Vec3, Vec3)>::new(), 0.0f32);
    let snapshot = server.snapshot_for_client(&base, 3);
    assert_eq!(snapshot.acking_input_id, Some(2));
    assert!(client.accept_world_snapshot(snapshot.id, snapshot.acking_input_id));
    let kept: Vec<u32> = (0..client.input_count()).map(|i| client.input(i).id).collect();
    assert_eq!(kept, vec![2, 3, 4]);
}
