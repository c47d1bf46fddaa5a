use brutal_grounds::client::{
    ability_tick, apply_entity_snapshot, entity_snapshot_action, keyboard_wish_axes,
    ClientDebugDiagnostics, GameClientState, SnapshotAction,
};
use brutal_grounds::net::{CharacterInput, EntitySnapshot};
use brutal_grounds::shared::TICKS_PER_SECOND;

type Vec3 = (f32, f32, f32);

fn input(wish: Vec3, ability: bool) -> CharacterInput<Vec3, f32> {
    CharacterInput {
        wish_direction: wish,
        aim_yaw: 0.0,
        predicted_ability: ability,
        weapon_wish_fire: false,
        final_position: None,
    }
}

fn ids(state: &GameClientState<Vec3, f32>) -> Vec<u32> {
    (0..state.input_count()).map(|i| state.input(i).id).collect()
}

#[test]
fn new_client_state_is_empty() {
    let state: GameClientState<Vec3, f32> = GameClientState::new();
    assert_eq!(state.input_count(), 0);
    assert_eq!(state.next_input_id(), 0);
    assert_eq!(state.last_world_snapshot_processed_id(), None);
    assert!(!state.is_connecting());
}

#[test]
fn connection_attempts_do_not_overlap() {
    let mut state: GameClientState<Vec3, f32> = GameClientState::new();
    assert!(state.begin_connect());
    assert!(state.is_connecting());
    assert!(!state.begin_connect());
    state.connect_failed();
    assert!(!state.is_connecting());
    assert!(state.begin_connect());
}

#[test]
fn recorded_inputs_take_consecutive_ids_and_ack_last_snapshot() {
    let mut state: GameClientState<Vec3, f32> = GameClientState::new();
    state.record_input(input((0.0, 0.0, -1.0), false));
    assert!(state.accept_world_snapshot(7, None));
    state.record_input(input((1.0, 0.0, 0.0), true));
    assert_eq!(ids(&state), vec![0, 1]);
    assert_eq!(state.next_input_id(), 2);
    assert_eq!(state.input(0).acking_snapshot_id, None);
    assert_eq!(state.input(1).acking_snapshot_id, Some(7));
    assert_eq!(state.input(1).sends, 0);
    let ci = state.input(1).character_input.unwrap();
    assert_eq!(ci.wish_direction, (1.0, 0.0, 0.0));
    assert!(ci.predicted_ability);
}

#[test]
fn history_keeps_one_second_of_inputs() {
    let mut state: GameClientState<Vec3, f32> = GameClientState::new();
    for _ in 0..300 {
        state.record_input(input((0.0, 0.0, 0.0), false));
        state.trim_input_history();
        assert!(state.input_count() <= TICKS_PER_SECOND as usize);
    }
    assert_eq!(state.input_count(), 128);
    assert_eq!(state.input(0).id, 300 - 128);
    assert_eq!(state.input(127).id, 299);
}

#[test]
fn trim_leaves_short_history_alone() {
    let mut state: GameClientState<Vec3, f32> = GameClientState::new();
    for _ in 0..128 {
        state.record_input(input((0.0, 0.0, 0.0), false));
    }
    state.trim_input_history();
    assert_eq!(state.input_count(), 128);
    state.record_input(input((0.0, 0.0, 0.0), false));
    state.trim_input_history();
    assert_eq!(state.input_count(), 128);
    assert_eq!(state.input(0).id, 1);
}

#[test]
fn unsent_inputs_get_final_position_once() {
    let mut state: GameClientState<Vec3, f32> = GameClientState::new();
    state.record_input(input((0.0, 0.0, 1.0), false));
    state.record_input(input((0.0, 0.0, 1.0), false));
    let pending = state.prepare_unsent_inputs(Some((1.0, 0.5, 1.0)));
    assert_eq!(pending, vec![0, 1]);
    assert_eq!(state.input(0).character_input.unwrap().final_position, Some((1.0, 0.5, 1.0)));
    state.mark_sent(0);
    state.mark_sent(1);
    assert_eq!(state.input(0).sends, 1);
    state.record_input(input((0.0, 0.0, 1.0), false));
    let pending = state.prepare_unsent_inputs(Some((2.0, 0.5, 2.0)));
    assert_eq!(pending, vec![2]);
    // Already sent inputs keep their recorded position.
    assert_eq!(state.input(0).character_input.unwrap().final_position, Some((1.0, 0.5, 1.0)));
    assert_eq!(state.input(2).character_input.unwrap().final_position, Some((2.0, 0.5, 2.0)));
}

#[test]
fn failed_send_is_retried_with_new_position() {
    let mut state: GameClientState<Vec3, f32> = GameClientState::new();
    state.record_input(input((0.0, 0.0, 1.0), false));
    assert_eq!(state.prepare_unsent_inputs(None), vec![0]);
    assert_eq!(state.input(0).character_input.unwrap().final_position, None);
    // Not marked sent: the next round hands it out again.
    assert_eq!(state.prepare_unsent_inputs(Some((3.0, 0.0, 3.0))), vec![0]);
    assert_eq!(state.input(0).character_input.unwrap().final_position, Some((3.0, 0.0, 3.0)));
}

#[test]
fn stale_snapshots_are_refused() {
    let mut state: GameClientState<Vec3, f32> = GameClientState::new();
    assert!(state.accept_world_snapshot(5, None));
    assert_eq!(state.last_world_snapshot_processed_id(), Some(5));
    assert!(!state.accept_world_snapshot(5, None));
    assert!(!state.accept_world_snapshot(2, None));
    assert_eq!(state.last_world_snapshot_processed_id(), Some(5));
    assert!(state.accept_world_snapshot(6, None));
    assert_eq!(state.last_world_snapshot_processed_id(), Some(6));
}

#[test]
fn ack_drops_older_inputs_but_keeps_the_acked_one() {
    let mut state: GameClientState<Vec3, f32> = GameClientState::new();
    for _ in 0..6 {
        state.record_input(input((0.0, 0.0, 0.0), false));
    }
    assert!(state.accept_world_snapshot(1, Some(3)));
    assert_eq!(ids(&state), vec![3, 4, 5]);
    // A stale snapshot acking more changes nothing.
    assert!(!state.accept_world_snapshot(1, Some(5)));
    assert_eq!(ids(&state), vec![3, 4, 5]);
    // Acking an input the client no longer has drops everything older.
    assert!(state.accept_world_snapshot(2, Some(9)));
    assert_eq!(state.input_count(), 0);
    assert_eq!(state.next_input_id(), 6);
}

#[test]
fn acked_final_position_and_replay() {
    let mut state: GameClientState<Vec3, f32> = GameClientState::new();
    for _ in 0..4 {
        state.record_input(input((0.0, 0.0, 0.0), false));
    }
    state.prepare_unsent_inputs(Some((1.0, 0.0, 1.0)));
    assert_eq!(state.acked_final_position(2), Some((1.0, 0.0, 1.0)));
    assert_eq!(state.acked_final_position(10), None);
    assert_eq!(state.replay_indices(1), vec![2, 3]);
    assert_eq!(state.replay_indices(3), Vec::<usize>::new());
    state.set_final_position(3, (9.0, 0.0, 9.0));
    assert_eq!(state.input(3).character_input.unwrap().final_position, Some((9.0, 0.0, 9.0)));
    assert_eq!(state.input(2).character_input.unwrap().final_position, Some((1.0, 0.0, 1.0)));
}

#[test]
fn snapshot_actions() {
    assert_eq!(entity_snapshot_action(false, true, Some(3)), SnapshotAction::Apply);
    assert_eq!(entity_snapshot_action(false, false, None), SnapshotAction::Apply);
    assert_eq!(entity_snapshot_action(true, false, Some(3)), SnapshotAction::Skip);
    assert_eq!(entity_snapshot_action(true, true, Some(3)), SnapshotAction::Reconcile { acked_input_id: 3 });
    assert_eq!(entity_snapshot_action(true, true, None), SnapshotAction::Apply);
}

#[test]
fn apply_entity_snapshot_overwrites_present_fields() {
    let mut position: Vec3 = (0.0, 0.5, 0.0);
    let mut velocity: Vec3 = (1.0, 0.0, 0.0);
    let snapshot: EntitySnapshot<Vec3, f32> = EntitySnapshot { id: 1, position: Some((4.0, 0.5, 4.0)), velocity: None, yaw: None };
    apply_entity_snapshot(&mut position, &mut velocity, &snapshot);
    assert_eq!(position, (4.0, 0.5, 4.0));
    assert_eq!(velocity, (1.0, 0.0, 0.0));
    let snapshot: EntitySnapshot<Vec3, f32> = EntitySnapshot { id: 1, position: None, velocity: Some((0.0, 0.0, 2.0)), yaw: Some(1.0) };
    apply_entity_snapshot(&mut position, &mut velocity, &snapshot);
    assert_eq!(position, (4.0, 0.5, 4.0));
    assert_eq!(velocity, (0.0, 0.0, 2.0));
}

#[test]
fn keyboard_axes() {
    assert_eq!(keyboard_wish_axes(false, false, false, false), (0, 0));
    assert_eq!(keyboard_wish_axes(true, false, false, false), (0, -1));
    assert_eq!(keyboard_wish_axes(false, true, false, false), (0, 1));
    assert_eq!(keyboard_wish_axes(false, false, true, false), (-1, 0));
    assert_eq!(keyboard_wish_axes(false, false, false, true), (1, 0));
    assert_eq!(keyboard_wish_axes(true, true, true, true), (0, 0));
    assert_eq!(keyboard_wish_axes(true, false, false, true), (1, -1));
}

#[test]
fn ability_cooldown_lasts_one_second() {
    assert_eq!(ability_tick(0, true), (true, 127));
    assert_eq!(ability_tick(0, false), (false, 0));
    assert_eq!(ability_tick(5, true), (false, 4));
    let mut ticks = 0;
    let mut uses = Vec::new();
    for tick in 0..300u32 {
        let (used, remaining) = ability_tick(ticks, true);
        ticks = remaining;
        if used {
            uses.push(tick);
        }
    }
    assert_eq!(uses, vec![0, 128, 256]);
}

#[test]
fn rollback_counters() {
    let mut d = ClientDebugDiagnostics::new();
    assert_eq!((d.rollback_count, d.rollback_ticks), (0, 0));
    d.record_rollback();
    d.record_rollback_tick();
    d.record_rollback_tick();
    assert_eq!((d.rollback_count, d.rollback_ticks), (1, 2));
}
