use brutal_grounds::client::ConnectToServerEvent;
use brutal_grounds::components::{characters_owned_by, characters_with_net_id, ReplicatedEntity, WeaponState};
use brutal_grounds::map::next_debug_navmesh;
use brutal_grounds::server::HostServerEvent;
use brutal_grounds::shared::{startup_request, CommandLineArgs, GameState, StartupRequest};

#[test]
fn weapon_respects_fire_rate() {
    let mut state = WeaponState::default();
    assert_eq!(state.next_fire_tick, 0);
    assert!(!state.try_fire(0, 10, false));
    assert!(state.try_fire(0, 10, true));
    assert_eq!(state.next_fire_tick, 10);
    for tick in 1..10 {
        assert!(!state.try_fire(tick, 10, true));
    }
    assert_eq!(state.next_fire_tick, 10);
    assert!(state.try_fire(12, 10, true));
    assert_eq!(state.next_fire_tick, 22);
}

#[test]
fn character_lookups() {
    let characters = vec![
        ReplicatedEntity { net_id: 1, owner_client_id: 7 },
        ReplicatedEntity { net_id: 2, owner_client_id: 8 },
        ReplicatedEntity { net_id: 1, owner_client_id: 8 },
    ];
    assert_eq!(characters_with_net_id(&characters, 1), vec![0, 2]);
    assert_eq!(characters_with_net_id(&characters, 3), Vec::<usize>::new());
    assert_eq!(characters_owned_by(&characters, 8), vec![1, 2]);
    assert_eq!(characters_owned_by(&characters, 9), Vec::<usize>::new());
}

#[test]
fn debug_navmesh_cycles() {
    assert_eq!(next_debug_navmesh(0, 3), 1);
    assert_eq!(next_debug_navmesh(2, 3), 0);
    assert_eq!(next_debug_navmesh(0, 1), 0);
    assert_eq!(next_debug_navmesh(7, 3), 2);
}

#[test]
fn game_starts_loading() {
    assert_eq!(GameState::default(), GameState::Loading);
}

#[test]
fn startup_hosts_or_connects() {
    let server = CommandLineArgs { server: true, server_ip: "127.0.0.1".to_string(), port: 6000 };
    match startup_request(server) {
        (StartupRequest::HostServer(HostServerEvent { port }), state) => {
            assert_eq!(port, 6000);
            assert_eq!(state, GameState::Playing);
        }
        _ => panic!("expected to host"),
    }
    let client = CommandLineArgs { server: false, server_ip: "10.0.0.2".to_string(), port: 5000 };
    match startup_request(client) {
        (StartupRequest::ConnectToServer(ConnectToServerEvent { server_ip, server_port }), state) => {
            assert_eq!(server_ip, "10.0.0.2");
            assert_eq!(server_port, 5000);
            assert_eq!(state, GameState::Playing);
        }
        _ => panic!("expected to connect"),
    }
}
