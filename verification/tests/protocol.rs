use brutal_grounds::net::{
    connection_config, find_entity, ChannelConfig, ClientChannel, EntitySnapshot, SendType,
    ServerChannel, SnapshotNearness, WorldSnapshot, BYTES_PER_TICK, CHANNEL_MEMORY_BYTES,
    SERVER_ID,
};

type Vec3 = (f32, f32, f32);

fn entity(id: u32, position: Option<Vec3>, velocity: Option<Vec3>, yaw: Option<f32>) -> EntitySnapshot<Vec3, f32> {
    EntitySnapshot { id, position, velocity, yaw }
}

const ALL_NEAR: SnapshotNearness = SnapshotNearness { position: true, velocity: true, yaw: true };
const NONE_NEAR: SnapshotNearness = SnapshotNearness { position: false, velocity: false, yaw: false };

#[test]
fn channel_ids_match_their_config_entries() {
    let client = ClientChannel::config();
    let server = ServerChannel::config();
    assert_eq!(u8::from(ClientChannel::Input), 0);
    assert_eq!(u8::from(ServerChannel::SpawnCharacter), 0);
    assert_eq!(u8::from(ServerChannel::DespawnCharacter), 1);
    assert_eq!(u8::from(ServerChannel::WorldSnapshot), 2);
    for channel in [ServerChannel::SpawnCharacter, ServerChannel::DespawnCharacter, ServerChannel::WorldSnapshot] {
        let id = u8::from(channel);
        assert_eq!(server[id as usize].channel_id, id);
    }
    assert_eq!(client[u8::from(ClientChannel::Input) as usize].channel_id, 0);
}

#[test]
fn server_channels_are_reliable_except_snapshots() {
    let server = ServerChannel::config();
    assert_eq!(server.len(), 3);
    assert_eq!(server[0].send_type, SendType::ReliableOrdered { resend_time_ms: 10 });
    assert_eq!(server[1].send_type, SendType::ReliableOrdered { resend_time_ms: 10 });
    assert_eq!(server[2].send_type, SendType::Unreliable);
    for c in server.iter() {
        assert_eq!(c.max_memory_usage_bytes, 5 * 1024 * 1024);
    }
}

#[test]
fn client_channel_is_unreliable_input() {
    let client = ClientChannel::config();
    assert_eq!(
        client,
        vec![ChannelConfig {
            channel_id: 0,
            max_memory_usage_bytes: CHANNEL_MEMORY_BYTES,
            send_type: SendType::Unreliable
        }]
    );
}

#[test]
fn connection_config_budget_and_channels() {
    let config = connection_config();
    assert_eq!(config.available_bytes_per_tick, 64 * 1024);
    assert_eq!(config.available_bytes_per_tick, BYTES_PER_TICK);
    assert_eq!(config.server_channels_config, ServerChannel::config());
    assert_eq!(config.client_channels_config, ClientChannel::config());
    assert_eq!(SERVER_ID, 0);
}

#[test]
fn entity_diff_drops_near_fields() {
    let newer = entity(4, Some((1.0, 0.5, 2.0)), Some((0.0, 0.0, 1.0)), Some(0.25));
    let older = entity(4, Some((1.00001, 0.5, 2.0)), Some((0.0, 0.0, 3.0)), Some(0.25));
    let near = SnapshotNearness { position: true, velocity: false, yaw: true };
    let d = newer.diff(&older, near);
    assert_eq!(d.id, 4);
    assert_eq!(d.position, None);
    assert_eq!(d.velocity, Some((0.0, 0.0, 1.0)));
    assert_eq!(d.yaw, None);
    assert!(!d.is_empty());
}

#[test]
fn entity_diff_sends_fields_that_appear_and_keeps_disappeared_unset() {
    let newer = entity(2, Some((1.0, 0.0, 0.0)), None, None);
    let older = entity(2, None, Some((1.0, 0.0, 0.0)), None);
    // Flags only matter where both sides are set.
    let d = newer.diff(&older, ALL_NEAR);
    assert_eq!(d.position, Some((1.0, 0.0, 0.0)));
    assert_eq!(d.velocity, None);
    assert_eq!(d.yaw, None);
}

#[test]
fn entity_diff_of_identical_snapshots_is_empty() {
    let e = entity(9, Some((3.0, 0.5, 3.0)), Some((0.0, 0.0, 0.0)), Some(1.5));
    let d = e.diff(&e, ALL_NEAR);
    assert!(d.is_empty());
    assert_eq!(d.id, 9);
    assert!(entity(1, None, None, None).is_empty());
    assert!(!entity(1, None, None, Some(0.0)).is_empty());
}

#[test]
fn find_entity_returns_first_match() {
    let entities = vec![entity(3, None, None, None), entity(5, None, None, None), entity(5, None, None, Some(1.0))];
    assert_eq!(find_entity(&entities, 5), Some(1));
    assert_eq!(find_entity(&entities, 3), Some(0));
    assert_eq!(find_entity(&entities, 4), None);
    assert_eq!(find_entity(&Vec::<EntitySnapshot<Vec3, f32>>::new(), 0), None);
}

#[test]
fn world_diff_sends_new_entities_in_full_and_skips_unchanged() {
    let newer = WorldSnapshot {
        id: 12,
        acking_input_id: Some(40),
        character_entities: vec![
            entity(1, Some((0.0, 0.5, 0.0)), Some((0.0, 0.0, 0.0)), Some(0.0)),
            entity(2, Some((5.0, 0.5, 1.0)), Some((1.0, 0.0, 0.0)), Some(0.0)),
            entity(3, Some((7.0, 0.5, 7.0)), Some((0.0, 0.0, 0.0)), Some(0.0)),
        ],
    };
    let older = WorldSnapshot {
        id: 11,
        acking_input_id: Some(39),
        character_entities: vec![
            entity(2, Some((4.0, 0.5, 1.0)), Some((1.0, 0.0, 0.0)), Some(0.0)),
            entity(1, Some((0.0, 0.5, 0.0)), Some((0.0, 0.0, 0.0)), Some(0.0)),
        ],
    };
    let near = vec![
        ALL_NEAR,
        SnapshotNearness { position: false, velocity: true, yaw: true },
        NONE_NEAR,
    ];
    let d = newer.diff(&older, &near);
    assert_eq!(d.id, 12);
    assert_eq!(d.acking_input_id, Some(40));
    assert_eq!(d.character_entities.len(), 2);
    assert_eq!(d.character_entities[0].id, 2);
    assert_eq!(d.character_entities[0].position, Some((5.0, 0.5, 1.0)));
    assert_eq!(d.character_entities[0].velocity, None);
    assert_eq!(d.character_entities[0].yaw, None);
    assert_eq!(d.character_entities[1].id, 3);
    assert_eq!(d.character_entities[1].position, Some((7.0, 0.5, 7.0)));
    assert_eq!(d.character_entities[1].velocity, Some((0.0, 0.0, 0.0)));
    assert_eq!(d.character_entities[1].yaw, Some(0.0));
}

#[test]
fn world_diff_against_unrelated_snapshot_is_full() {
    let newer = WorldSnapshot {
        id: 3,
        acking_input_id: None,
        character_entities: vec![entity(1, Some((1.0, 2.0, 3.0)), None, Some(0.0)), entity(2, None, None, None)],
    };
    let older: WorldSnapshot<Vec3, f32> = WorldSnapshot { id: 2, acking_input_id: None, character_entities: vec![entity(8, None, None, None)] };
    let d = newer.diff(&older, &vec![NONE_NEAR, NONE_NEAR]);
    assert_eq!(d.character_entities.len(), 2);
    assert_eq!(d.character_entities[0].id, 1);
    assert_eq!(d.character_entities[0].position, Some((1.0, 2.0, 3.0)));
    assert_eq!(d.character_entities[1].id, 2);
    assert!(d.character_entities[1].is_empty());
}

#[test]
fn applying_a_diff_brings_the_receiver_up_to_date() {
    let newer = entity(1, Some((2.0, 0.5, 2.0)), Some((0.0, 0.0, 1.0)), Some(0.5));
    let older = entity(1, Some((1.0, 0.5, 1.0)), Some((0.0, 0.0, 1.00001)), Some(0.5));
    let near = SnapshotNearness { position: false, velocity: true, yaw: true };
    let d = newer.diff(&older, near);
    let mut position = older.position.unwrap();
    let mut velocity = older.velocity.unwrap();
    brutal_grounds::client::apply_entity_snapshot(&mut position, &mut velocity, &d);
    assert_eq!(position, (2.0, 0.5, 2.0));
    // Within tolerance: the receiver keeps its own value.
    assert_eq!(velocity, (0.0, 0.0, 1.00001));
}
