//! Client-side bookkeeping: the connection attempt, the history of inputs
//! kept for prediction, which of them still have to be sent, and how a
//! world snapshot from the server is taken in.

use vstd::prelude::*;
use crate::net::{CharacterInput, EntitySnapshot, InputId, PlayerInput, SnapshotId};
use crate::shared::TICKS_PER_SECOND;

verus! {

/// A request to connect to a server.
#[derive(Clone, Debug)]
pub struct ConnectToServerEvent {
    pub server_ip: String,
    pub server_port: u16,
}

/// Counters of how often the client had to correct its prediction.
#[derive(PartialEq, Eq, Structural, Clone, Copy, Debug)]
pub struct ClientDebugDiagnostics {
    pub rollback_count: u32,
    pub rollback_ticks: u32,
}

impl ClientDebugDiagnostics {
    /// Both counters start at zero.
    pub fn new() -> (d: ClientDebugDiagnostics)
        ensures
            d.rollback_count == 0,
            d.rollback_ticks == 0,
    {
        ClientDebugDiagnostics { rollback_count: 0, rollback_ticks: 0 }
    }

    /// Counts one rollback.
    pub fn record_rollback(&mut self)
        requires
            old(self).rollback_count < u32::MAX,
        ensures
            final(self).rollback_count == old(self).rollback_count + 1,
            final(self).rollback_ticks == old(self).rollback_ticks,
    {
        self.rollback_count = self.rollback_count + 1;
    }

    /// Counts one re-simulated tick.
    pub fn record_rollback_tick(&mut self)
        requires
            old(self).rollback_ticks < u32::MAX,
        ensures
            final(self).rollback_ticks == old(self).rollback_ticks + 1,
            final(self).rollback_count == old(self).rollback_count,
    {
        self.rollback_ticks = self.rollback_ticks + 1;
    }
}

/// Input ids in `history` strictly increase and all lie below `next`.
pub open spec fn history_ordered<V, Y>(history: Seq<PlayerInput<V, Y>>, next: InputId) -> bool {
    &&& forall|i: int, j: int| 0 <= i < j < history.len() ==> history[i].id < history[j].id
    &&& forall|i: int| 0 <= i < history.len() ==> (#[trigger] history[i]).id < next
}

/// The history after one more input: it takes the next id and
/// acknowledges the last snapshot processed, and has not been sent yet.
pub open spec fn history_after_record<V, Y>(
    history: Seq<PlayerInput<V, Y>>,
    next: InputId,
    last_processed: Option<SnapshotId>,
    character_input: CharacterInput<V, Y>,
) -> Seq<PlayerInput<V, Y>> {
    history.push(
        PlayerInput {
            id: next,
            acking_snapshot_id: last_processed,
            character_input: Some(character_input),
            sends: 0,
        },
    )
}

/// The history kept: one second of inputs; beyond that the oldest goes.
pub open spec fn trimmed<V, Y>(history: Seq<PlayerInput<V, Y>>) -> Seq<PlayerInput<V, Y>> {
    if history.len() > TICKS_PER_SECOND {
        history.subrange(1, history.len() as int)
    } else {
        history
    }
}

/// An input with the final position of its character set to `position`,
/// where it has a character input.
pub open spec fn stamped<V, Y>(input: PlayerInput<V, Y>, position: Option<V>) -> PlayerInput<V, Y> {
    match input.character_input {
        Some(ci) => PlayerInput {
            character_input: Some(CharacterInput { final_position: position, ..ci }),
            ..input
        },
        None => input,
    }
}

/// The history after the unsent inputs took `position` as final position.
pub open spec fn stamp_unsent<V, Y>(history: Seq<PlayerInput<V, Y>>, position: Option<V>) -> Seq<
    PlayerInput<V, Y>,
> {
    history.map_values(
        |input: PlayerInput<V, Y>|
            if input.sends == 0 {
                stamped(input, position)
            } else {
                input
            },
    )
}

/// The positions, in order, of the inputs that have not been sent.
pub open spec fn unsent_indices<V, Y>(history: Seq<PlayerInput<V, Y>>) -> Seq<usize>
    decreases history.len(),
{
    if history.len() == 0 {
        seq![]
    } else {
        let before = unsent_indices(history.drop_last());
        if history.last().sends == 0 {
            before.push((history.len() - 1) as usize)
        } else {
            before
        }
    }
}

/// The inputs, in order, whose id is at least `acked`.
pub open spec fn keep_from<V, Y>(history: Seq<PlayerInput<V, Y>>, acked: InputId) -> Seq<
    PlayerInput<V, Y>,
>
    decreases history.len(),
{
    if history.len() == 0 {
        seq![]
    } else {
        let before = keep_from(history.drop_last(), acked);
        if history.last().id >= acked {
            before.push(history.last())
        } else {
            before
        }
    }
}

/// The positions, in order, of the inputs whose id is above `acked`: the
/// ones re-simulated after a correction.
pub open spec fn indices_after<V, Y>(history: Seq<PlayerInput<V, Y>>, acked: InputId) -> Seq<usize>
    decreases history.len(),
{
    if history.len() == 0 {
        seq![]
    } else {
        let before = indices_after(history.drop_last(), acked);
        if history.last().id > acked {
            before.push((history.len() - 1) as usize)
        } else {
            before
        }
    }
}

/// The position of the first input with id `id`.
pub open spec fn find_input<V, Y>(history: Seq<PlayerInput<V, Y>>, id: InputId) -> Option<int>
    decreases history.len(),
{
    if history.len() == 0 {
        None
    } else {
        match find_input(history.drop_last(), id) {
            Some(i) => Some(i),
            None => if history.last().id == id {
                Some(history.len() - 1)
            } else {
                None
            },
        }
    }
}

/// Where the client's prediction put its character after input `acked`,
/// if that input is still held and recorded it.
pub open spec fn acked_final_position<V, Y>(history: Seq<PlayerInput<V, Y>>, acked: InputId) -> Option<
    V,
> {
    match find_input(history, acked) {
        Some(i) => match history[i].character_input {
            Some(ci) => ci.final_position,
            None => None,
        },
        None => None,
    }
}

/// A snapshot is stale when one with the same or a later id was processed.
pub open spec fn snapshot_is_stale(last_processed: Option<SnapshotId>, id: SnapshotId) -> bool {
    match last_processed {
        Some(last) => id <= last,
        None => false,
    }
}

/// What the client keeps of its inputs when a snapshot acknowledges
/// `acking`: the acknowledged input and all later ones.
pub open spec fn history_after_ack<V, Y>(
    history: Seq<PlayerInput<V, Y>>,
    acking: Option<InputId>,
) -> Seq<PlayerInput<V, Y>> {
    match acking {
        Some(acked) => keep_from(history, acked),
        None => history,
    }
}

/// The client's prediction state.
pub struct GameClientState<V, Y> {
    input_history: Vec<PlayerInput<V, Y>>,
    next_input_id: InputId,
    last_world_snapshot_processed_id: Option<SnapshotId>,
    is_connecting: bool,
}

impl<V, Y> GameClientState<V, Y> {
    #[verifier::type_invariant]
    closed spec fn inv(self) -> bool {
        history_ordered(self.input_history@, self.next_input_id)
    }

    /// The inputs held for prediction, oldest first.
    pub closed spec fn inputs(self) -> Seq<PlayerInput<V, Y>> {
        self.input_history@
    }

    /// The id the next input will take.
    pub closed spec fn next_id(self) -> InputId {
        self.next_input_id
    }

    /// The id of the newest snapshot processed, if any.
    pub closed spec fn last_processed(self) -> Option<SnapshotId> {
        self.last_world_snapshot_processed_id
    }

    /// Whether a connection attempt is under way.
    pub closed spec fn connecting(self) -> bool {
        self.is_connecting
    }
}


/// How a character takes in its entry of a world snapshot.
#[derive(PartialEq, Eq, Structural, Clone, Copy, Debug)]
pub enum SnapshotAction {
    /// Take the snapshot's position and velocity as they are.
    Apply,
    /// The locally controlled character: compare the snapshot's position
    /// with the prediction recorded for the acknowledged input, and roll
    /// back if they differ.
    Reconcile { acked_input_id: InputId },
    /// Nothing to do.
    Skip,
}

/// The action for a character's snapshot entry: other players' characters
/// take the snapshot as it is; the local character does nothing without a
/// position, reconciles against the acknowledged input, or takes the
/// snapshot when no input is acknowledged.
pub open spec fn snapshot_action_for(
    is_local: bool,
    has_position: bool,
    acking: Option<InputId>,
) -> SnapshotAction {
    if !is_local {
        SnapshotAction::Apply
    } else if !has_position {
        SnapshotAction::Skip
    } else {
        match acking {
            Some(acked) => SnapshotAction::Reconcile { acked_input_id: acked },
            None => SnapshotAction::Apply,
        }
    }
}

/// Decides how a character takes in its snapshot entry (see
/// `snapshot_action_for`).
pub fn entity_snapshot_action(is_local: bool, has_position: bool, acking: Option<InputId>) -> (action:
    SnapshotAction)
    ensures
        action == snapshot_action_for(is_local, has_position, acking),
{
    if !is_local {
        SnapshotAction::Apply
    } else if !has_position {
        SnapshotAction::Skip
    } else {
        match acking {
            Some(acked) => SnapshotAction::Reconcile { acked_input_id: acked },
            None => SnapshotAction::Apply,
        }
    }
}

/// Overwrites position and velocity with those the snapshot carries; a
/// field the snapshot lacks stays as it is.
pub fn apply_entity_snapshot<V: Copy, Y>(
    position: &mut V,
    velocity: &mut V,
    entity_snapshot: &EntitySnapshot<V, Y>,
)
    ensures
        *final(position) == (match entity_snapshot.position {
            Some(p) => p,
            None => *old(position),
        }),
        *final(velocity) == (match entity_snapshot.velocity {
            Some(v) => v,
            None => *old(velocity),
        }),
{
    if let Some(new_position) = entity_snapshot.position {
        *position = new_position;
    }
    if let Some(new_velocity) = entity_snapshot.velocity {
        *velocity = new_velocity;
    }
}

/// How each character takes in its snapshot entry: a character of another
/// player always takes the entry as it is; the locally controlled one
/// never acts on an entry without a position, whatever is acknowledged;
/// with a position it reconciles against the acknowledged input, or takes
/// the entry when no input is acknowledged.
pub proof fn lemma_snapshot_action_cases(has_position: bool, acking: Option<InputId>, acked: InputId)
    ensures
        snapshot_action_for(false, has_position, acking) == SnapshotAction::Apply,
        snapshot_action_for(true, false, acking) == SnapshotAction::Skip,
        snapshot_action_for(true, true, Some(acked)) == (SnapshotAction::Reconcile {
            acked_input_id: acked,
        }),
        snapshot_action_for(true, true, None) == SnapshotAction::Apply,
{
}

/// The movement keys held, as a direction on the ground plane before
/// normalisation: x grows to the right, z grows backwards.
pub open spec fn wish_axes(forward: bool, back: bool, left: bool, right: bool) -> (int, int) {
    (
        (if right { 1int } else { 0int }) - (if left { 1int } else { 0int }),
        (if back { 1int } else { 0int }) - (if forward { 1int } else { 0int }),
    )
}

/// The sum of the unit steps of the movement keys held (forward is -z,
/// back +z, left -x, right +x).
pub fn keyboard_wish_axes(forward: bool, back: bool, left: bool, right: bool) -> (axes: (i8, i8))
    ensures
        axes.0 as int == wish_axes(forward, back, left, right).0,
        axes.1 as int == wish_axes(forward, back, left, right).1,
{
    let mut x: i8 = 0;
    let mut z: i8 = 0;
    if forward {
        z = z - 1;
    }
    if back {
        z = z + 1;
    }
    if left {
        x = x - 1;
    }
    if right {
        x = x + 1;
    }
    (x, z)
}

/// One tick of an ability's cooldown: it fires when ready and its key is
/// held, which makes it wait a second; the wait shrinks by one each tick.
pub open spec fn ability_tick_for(ticks_until_ready: u32, pressed: bool) -> (bool, u32) {
    let fired = ticks_until_ready == 0 && pressed;
    let wait: u32 = if fired {
        TICKS_PER_SECOND
    } else {
        ticks_until_ready
    };
    (fired, if wait > 0 { (wait - 1) as u32 } else { 0 })
}

/// Advances an ability's cooldown by one tick; returns whether the ability
/// is used this tick and the ticks until it is ready again.
pub fn ability_tick(ticks_until_ready: u32, pressed: bool) -> (result: (bool, u32))
    ensures
        result == ability_tick_for(ticks_until_ready, pressed),
{
    let mut ticks = ticks_until_ready;
    let mut fired = false;
    if ticks == 0 && pressed {
        fired = true;
        ticks = TICKS_PER_SECOND;
    }
    (fired, ticks.saturating_sub(1))
}

/// An ability used at one tick cannot be used during the following
/// `TICKS_PER_SECOND - 1` ticks, and it waits one tick less each tick.
pub proof fn lemma_ability_cooldown(ticks_until_ready: u32, pressed: bool)
    ensures
        ability_tick_for(ticks_until_ready, pressed).0 ==> ability_tick_for(
            ticks_until_ready,
            pressed,
        ).1 == TICKS_PER_SECOND - 1,
        ticks_until_ready > 0 ==> !ability_tick_for(ticks_until_ready, pressed).0
            && ability_tick_for(ticks_until_ready, pressed).1 == ticks_until_ready - 1,
        ticks_until_ready == 0 && !pressed ==> ability_tick_for(ticks_until_ready, pressed) == (
            false,
            0u32,
        ),
{
}

/// Every element of `keep_from` is an input of the history with an id of
/// at least `acked`, and it keeps the order of ids.
proof fn lemma_keep_from<V, Y>(history: Seq<PlayerInput<V, Y>>, acked: InputId, next: InputId)
    requires
        history_ordered(history, next),
    ensures
        history_ordered(keep_from(history, acked), next),
        forall|k: int|
            0 <= k < keep_from(history, acked).len() ==> #[trigger] keep_from(history, acked)[k].id
                >= acked,
        forall|k: int|
            0 <= k < keep_from(history, acked).len() ==> history.contains(
                #[trigger] keep_from(history, acked)[k],
            ),
    decreases history.len(),
{
    if history.len() > 0 {
        let before = history.drop_last();
        assert(history_ordered(before, next));
        lemma_keep_from(before, acked, next);
        let kept = keep_from(before, acked);
        assert forall|k: int| 0 <= k < kept.len() implies history.contains(#[trigger] kept[k]) by {
            let i = choose|i: int| 0 <= i < before.len() && before[i] == kept[k];
            assert(history[i] == kept[k]);
        }
        assert forall|k: int| 0 <= k < kept.len() implies (#[trigger] kept[k]).id < history.last().id by {
            let i = choose|i: int| 0 <= i < before.len() && before[i] == kept[k];
            assert(history[i] == kept[k]);
        }
        assert(history.contains(history.last()));
    }
}

/// The positions listed by `indices_after` and `unsent_indices` are valid.
proof fn lemma_index_lists_in_bounds<V, Y>(history: Seq<PlayerInput<V, Y>>, acked: InputId)
    requires
        history.len() <= usize::MAX,
    ensures
        forall|k: int|
            0 <= k < indices_after(history, acked).len() ==> {
                let i = #[trigger] indices_after(history, acked)[k] as int;
                0 <= i < history.len() && history[i].id > acked
            },
        forall|k: int|
            0 <= k < unsent_indices(history).len() ==> {
                let i = #[trigger] unsent_indices(history)[k] as int;
                0 <= i < history.len() && history[i].sends == 0
            },
        forall|i: int|
            0 <= i < history.len() && (#[trigger] history[i]).id > acked ==> indices_after(
                history,
                acked,
            ).contains(i as usize),
        forall|i: int|
            0 <= i < history.len() && (#[trigger] history[i]).sends == 0 ==> unsent_indices(
                history,
            ).contains(i as usize),
        forall|a: int, b: int|
            0 <= a < b < indices_after(history, acked).len() ==> indices_after(history, acked)[a]
                < indices_after(history, acked)[b],
        forall|a: int, b: int|
            0 <= a < b < unsent_indices(history).len() ==> unsent_indices(history)[a]
                < unsent_indices(history)[b],
    decreases history.len(),
{
    if history.len() > 0 {
        let before = history.drop_last();
        lemma_index_lists_in_bounds(before, acked);
        let last = history.len() - 1;
        assert forall|i: int|
            0 <= i < history.len() && (#[trigger] history[i]).id > acked implies indices_after(
            history,
            acked,
        ).contains(i as usize) by {
            if i < last {
                assert(before[i] == history[i]);
                let l = indices_after(before, acked);
                let k = choose|k: int| 0 <= k < l.len() && l[k] == i as usize;
                assert(indices_after(history, acked)[k] == i as usize);
            } else {
                assert(indices_after(history, acked).last() == i as usize);
            }
        }
        assert forall|i: int|
            0 <= i < history.len() && (#[trigger] history[i]).sends == 0 implies unsent_indices(
            history,
        ).contains(i as usize) by {
            if i < last {
                assert(before[i] == history[i]);
                let l = unsent_indices(before);
                let k = choose|k: int| 0 <= k < l.len() && l[k] == i as usize;
                assert(unsent_indices(history)[k] == i as usize);
            } else {
                assert(unsent_indices(history).last() == i as usize);
            }
        }
    }
}

/// The first occurrence of an id is a held input with that id; where
/// there is none, no held input has the id.
pub proof fn lemma_find_input<V, Y>(history: Seq<PlayerInput<V, Y>>, id: InputId)
    ensures
        match find_input(history, id) {
            Some(i) => {
                &&& 0 <= i < history.len()
                &&& history[i].id == id
                &&& forall|k: int| 0 <= k < i ==> (#[trigger] history[k]).id != id
            },
            None => forall|k: int| 0 <= k < history.len() ==> (#[trigger] history[k]).id != id,
        },
    decreases history.len(),
{
    if history.len() > 0 {
        lemma_find_input(history.drop_last(), id);
        assert forall|k: int| 0 <= k < history.len() - 1 implies history.drop_last()[k]
            == #[trigger] history[k] by {}
    }
}

/// The prediction looked up for an acknowledged input is the final
/// position recorded by the held input whose id is the acknowledged one;
/// when no held input has that id, there is none.
pub proof fn lemma_acked_final_position<V, Y>(
    history: Seq<PlayerInput<V, Y>>,
    next: InputId,
    acked: InputId,
)
    requires
        history_ordered(history, next),
    ensures
        forall|i: int|
            0 <= i < history.len() && (#[trigger] history[i]).id == acked ==> acked_final_position(
                history,
                acked,
            ) == match history[i].character_input {
                Some(ci) => ci.final_position,
                None => None,
            },
        (forall|i: int| 0 <= i < history.len() ==> (#[trigger] history[i]).id != acked)
            ==> acked_final_position(history, acked) is None,
{
    lemma_find_input(history, acked);
    assert forall|i: int|
        0 <= i < history.len() && (#[trigger] history[i]).id == acked implies find_input(
        history,
        acked,
    ) == Some(i) by {
        let f = find_input(history, acked).unwrap();
        if f < i {
            assert(history[f].id < history[i].id);
        } else if f > i {
            assert(history[i].id < history[f].id);
        }
    }
}

/// A first occurrence within a prefix is the first occurrence overall.
proof fn lemma_find_input_prefix<V, Y>(history: Seq<PlayerInput<V, Y>>, n: int, id: InputId)
    requires
        0 <= n <= history.len(),
        find_input(history.take(n), id) is Some,
    ensures
        find_input(history, id) == find_input(history.take(n), id),
    decreases history.len() - n,
{
    if n < history.len() {
        assert(history.take(n + 1).drop_last() =~= history.take(n));
        lemma_find_input_prefix(history, n + 1, id);
    } else {
        assert(history.take(n) =~= history);
    }
}

impl<V: Copy, Y: Copy> GameClientState<V, Y> {
    /// No input recorded, no snapshot processed, not connecting.
    pub fn new() -> (s: Self)
        ensures
            s.inputs().len() == 0,
            s.next_id() == 0,
            s.last_processed() is None,
            !s.connecting(),
            history_ordered(s.inputs(), s.next_id()),
    {
        GameClientState {
            input_history: Vec::new(),
            next_input_id: 0,
            last_world_snapshot_processed_id: None,
            is_connecting: false,
        }
    }

    /// The id the next input will take.
    pub fn next_input_id(&self) -> (id: InputId)
        ensures
            id == self.next_id(),
    {
        self.next_input_id
    }

    /// The id of the newest snapshot processed, if any.
    pub fn last_world_snapshot_processed_id(&self) -> (id: Option<SnapshotId>)
        ensures
            id == self.last_processed(),
    {
        self.last_world_snapshot_processed_id
    }

    /// Whether a connection attempt is under way.
    pub fn is_connecting(&self) -> (connecting: bool)
        ensures
            connecting == self.connecting(),
    {
        self.is_connecting
    }

    /// How many inputs are held.
    pub fn input_count(&self) -> (n: usize)
        ensures
            n == self.inputs().len(),
    {
        self.input_history.len()
    }

    /// The input held at position `index`.
    pub fn input(&self, index: usize) -> (input: &PlayerInput<V, Y>)
        requires
            index < self.inputs().len(),
        ensures
            *input == self.inputs()[index as int],
    {
        &self.input_history[index]
    }

    /// Starts a connection attempt unless one is under way; returns whether
    /// it started one.
    pub fn begin_connect(&mut self) -> (started: bool)
        ensures
            started == !old(self).connecting(),
            final(self).connecting(),
            history_ordered(final(self).inputs(), final(self).next_id()),
            final(self).inputs() == old(self).inputs(),
            final(self).next_id() == old(self).next_id(),
            final(self).last_processed() == old(self).last_processed(),
    {
        proof {
            use_type_invariant(&*self);
        }
        if self.is_connecting {
            false
        } else {
            self.is_connecting = true;
            true
        }
    }

    /// The connection attempt failed: a new one may start.
    pub fn connect_failed(&mut self)
        ensures
            !final(self).connecting(),
            history_ordered(final(self).inputs(), final(self).next_id()),
            final(self).inputs() == old(self).inputs(),
            final(self).next_id() == old(self).next_id(),
            final(self).last_processed() == old(self).last_processed(),
    {
        proof {
            use_type_invariant(&*self);
        }
        self.is_connecting = false;
    }

    /// Records the input of this tick under the next id; it acknowledges
    /// the newest snapshot processed.
    pub fn record_input(&mut self, character_input: CharacterInput<V, Y>)
        requires
            old(self).next_id() < u32::MAX,
        ensures
            final(self).inputs() == history_after_record(
                old(self).inputs(),
                old(self).next_id(),
                old(self).last_processed(),
                character_input,
            ),
            final(self).next_id() == old(self).next_id() + 1,
            final(self).last_processed() == old(self).last_processed(),
            final(self).connecting() == old(self).connecting(),
            history_ordered(final(self).inputs(), final(self).next_id()),
    {
        proof {
            use_type_invariant(&*self);
        }
        let id = self.next_input_id;
        self.next_input_id = id + 1;
        let input = PlayerInput {
            id,
            acking_snapshot_id: self.last_world_snapshot_processed_id,
            character_input: Some(character_input),
            sends: 0,
        };
        let mut history: Vec<PlayerInput<V, Y>> = Vec::new();
        std::mem::swap(&mut history, &mut self.input_history);
        history.push(input);
        self.input_history = history;
    }

    /// Keeps at most one second of inputs: beyond that the oldest goes.
    pub fn trim_input_history(&mut self)
        ensures
            final(self).inputs() == trimmed(old(self).inputs()),
            final(self).next_id() == old(self).next_id(),
            final(self).last_processed() == old(self).last_processed(),
            final(self).connecting() == old(self).connecting(),
            history_ordered(final(self).inputs(), final(self).next_id()),
    {
        proof {
            use_type_invariant(&*self);
        }
        if self.input_history.len() > TICKS_PER_SECOND as usize {
            let mut history: Vec<PlayerInput<V, Y>> = Vec::new();
            std::mem::swap(&mut history, &mut self.input_history);
            let ghost before = history@;
            history.remove(0);
            assert(history@ =~= before.subrange(1, before.len() as int));
            self.input_history = history;
        }
    }

    /// Gives every input not sent yet `final_position` (where the locally
    /// controlled character stands now) and returns their positions; the
    /// caller sends them and confirms each with `mark_sent`.
    pub fn prepare_unsent_inputs(&mut self, final_position: Option<V>) -> (pending: Vec<usize>)
        ensures
            pending@ == unsent_indices(old(self).inputs()),
            final(self).inputs() == stamp_unsent(old(self).inputs(), final_position),
            final(self).next_id() == old(self).next_id(),
            final(self).last_processed() == old(self).last_processed(),
            final(self).connecting() == old(self).connecting(),
            history_ordered(final(self).inputs(), final(self).next_id()),
    {
        proof {
            use_type_invariant(&*self);
        }
        let ghost before = self.input_history@;
        let mut updated: Vec<PlayerInput<V, Y>> = Vec::new();
        let mut pending: Vec<usize> = Vec::new();
        let mut i: usize = 0;
        while i < self.input_history.len()
            invariant
                self.input_history@ == before,
                i <= before.len(),
                updated@ == stamp_unsent(before.take(i as int), final_position),
                pending@ == unsent_indices(before.take(i as int)),
            decreases before.len() - i,
        {
            assert(before.take(i as int + 1).drop_last() =~= before.take(i as int));
            let input = self.input_history[i];
            if input.sends == 0 {
                let stamped_input = match input.character_input {
                    Some(ci) => PlayerInput {
                        character_input: Some(CharacterInput { final_position, ..ci }),
                        ..input
                    },
                    None => input,
                };
                updated.push(stamped_input);
                pending.push(i);
            } else {
                updated.push(input);
            }
            assert(updated@ =~= stamp_unsent(before.take(i as int + 1), final_position));
            i = i + 1;
        }
        assert(before.take(i as int) =~= before);
        assert(history_ordered(updated@, self.next_input_id));
        self.input_history = updated;
        pending
    }

    /// Notes that the input at `index` was sent once more.
    pub fn mark_sent(&mut self, index: usize)
        requires
            index < old(self).inputs().len(),
            old(self).inputs()[index as int].sends < u8::MAX,
        ensures
            final(self).inputs() == old(self).inputs().update(
                index as int,
                PlayerInput {
                    sends: (old(self).inputs()[index as int].sends + 1) as u8,
                    ..old(self).inputs()[index as int]
                },
            ),
            final(self).next_id() == old(self).next_id(),
            final(self).last_processed() == old(self).last_processed(),
            final(self).connecting() == old(self).connecting(),
            history_ordered(final(self).inputs(), final(self).next_id()),
    {
        proof {
            use_type_invariant(&*self);
        }
        let input = self.input_history[index];
        let sent = PlayerInput { sends: input.sends + 1, ..input };
        let ghost expected = self.input_history@.update(index as int, sent);
        assert(history_ordered(expected, self.next_input_id));
        let mut history: Vec<PlayerInput<V, Y>> = Vec::new();
        std::mem::swap(&mut history, &mut self.input_history);
        history.set(index, sent);
        self.input_history = history;
    }

    /// Takes in world snapshot `id`, which acknowledges input `acking`.
    /// A stale snapshot (one no newer than the newest processed) is
    /// refused and changes nothing. Otherwise the inputs before the
    /// acknowledged one are dropped and the snapshot counts as processed.
    pub fn accept_world_snapshot(&mut self, id: SnapshotId, acking: Option<InputId>) -> (accepted:
        bool)
        ensures
            accepted == !snapshot_is_stale(old(self).last_processed(), id),
            final(self).inputs() == (if accepted {
                history_after_ack(old(self).inputs(), acking)
            } else {
                old(self).inputs()
            }),
            final(self).last_processed() == (if accepted {
                Some(id)
            } else {
                old(self).last_processed()
            }),
            final(self).next_id() == old(self).next_id(),
            final(self).connecting() == old(self).connecting(),
            history_ordered(final(self).inputs(), final(self).next_id()),
    {
        proof {
            use_type_invariant(&*self);
        }
        if let Some(last) = self.last_world_snapshot_processed_id {
            if id <= last {
                return false;
            }
        }
        if let Some(acked) = acking {
            let ghost before = self.input_history@;
            let mut kept: Vec<PlayerInput<V, Y>> = Vec::new();
            let mut i: usize = 0;
            while i < self.input_history.len()
                invariant
                    self.input_history@ == before,
                    i <= before.len(),
                    kept@ == keep_from(before.take(i as int), acked),
                decreases before.len() - i,
            {
                assert(before.take(i as int + 1).drop_last() =~= before.take(i as int));
                let input = self.input_history[i];
                if input.id >= acked {
                    kept.push(input);
                }
                i = i + 1;
            }
            assert(before.take(i as int) =~= before);
            proof {
                lemma_keep_from(before, acked, self.next_input_id);
            }
            self.input_history = kept;
        }
        self.last_world_snapshot_processed_id = Some(id);
        true
    }

    /// Where the prediction put the character after input `acked`, if that
    /// input is held and recorded it.
    pub fn acked_final_position(&self, acked: InputId) -> (position: Option<V>)
        ensures
            position == acked_final_position(self.inputs(), acked),
    {
        let mut i: usize = 0;
        while i < self.input_history.len()
            invariant
                i <= self.inputs().len(),
                find_input(self.inputs().take(i as int), acked) is None,
            decreases self.inputs().len() - i,
        {
            assert(self.inputs().take(i as int + 1).drop_last() =~= self.inputs().take(i as int));
            let input = &self.input_history[i];
            if input.id == acked {
                proof {
                    lemma_find_input_prefix(self.inputs(), i as int + 1, acked);
                }
                return match input.character_input {
                    Some(ci) => ci.final_position,
                    None => None,
                };
            }
            i = i + 1;
        }
        assert(self.inputs().take(i as int) =~= self.inputs());
        None
    }

    /// The positions of the inputs after `acked`, oldest first: the ones
    /// to re-simulate after a correction.
    pub fn replay_indices(&self, acked: InputId) -> (indices: Vec<usize>)
        ensures
            indices@ == indices_after(self.inputs(), acked),
    {
        let mut indices: Vec<usize> = Vec::new();
        let mut i: usize = 0;
        while i < self.input_history.len()
            invariant
                i <= self.inputs().len(),
                indices@ == indices_after(self.inputs().take(i as int), acked),
            decreases self.inputs().len() - i,
        {
            assert(self.inputs().take(i as int + 1).drop_last() =~= self.inputs().take(i as int));
            if self.input_history[i].id > acked {
                indices.push(i);
            }
            i = i + 1;
        }
        assert(self.inputs().take(i as int) =~= self.inputs());
        indices
    }

    /// Records where re-simulation put the character after the input at
    /// `index`, if that input has a character input.
    pub fn set_final_position(&mut self, index: usize, position: V)
        requires
            index < old(self).inputs().len(),
        ensures
            final(self).inputs() == old(self).inputs().update(
                index as int,
                stamped(old(self).inputs()[index as int], Some(position)),
            ),
            final(self).next_id() == old(self).next_id(),
            final(self).last_processed() == old(self).last_processed(),
            final(self).connecting() == old(self).connecting(),
            history_ordered(final(self).inputs(), final(self).next_id()),
    {
        proof {
            use_type_invariant(&*self);
        }
        let input = self.input_history[index];
        let updated = match input.character_input {
            Some(ci) => PlayerInput {
                character_input: Some(CharacterInput { final_position: Some(position), ..ci }),
                ..input
            },
            None => input,
        };
        let ghost expected = self.input_history@.update(index as int, updated);
        assert(history_ordered(expected, self.next_input_id));
        let mut history: Vec<PlayerInput<V, Y>> = Vec::new();
        std::mem::swap(&mut history, &mut self.input_history);
        history.set(index, updated);
        self.input_history = history;
    }
}


/// Once snapshot `id` is processed, it and every older snapshot are
/// stale: no snapshot is taken in twice, and processed ids only grow.
pub proof fn lemma_processed_snapshots_are_stale(id: SnapshotId, other: SnapshotId)
    ensures
        other <= id ==> snapshot_is_stale(Some(id), other),
        other > id ==> !snapshot_is_stale(Some(id), other),
        !snapshot_is_stale(None, other),
{
}

/// An acknowledgement drops exactly the inputs older than the acknowledged
/// one: every input kept has an id of at least `acked`, every held input
/// with such an id is kept, and the order of ids is kept.
pub proof fn lemma_ack_keeps_unacknowledged_inputs<V, Y>(
    history: Seq<PlayerInput<V, Y>>,
    next: InputId,
    acked: InputId,
)
    requires
        history_ordered(history, next),
    ensures
        history_ordered(keep_from(history, acked), next),
        forall|k: int|
            0 <= k < keep_from(history, acked).len() ==> #[trigger] keep_from(history, acked)[k].id
                >= acked,
        forall|i: int|
            0 <= i < history.len() && (#[trigger] history[i]).id >= acked ==> keep_from(
                history,
                acked,
            ).contains(history[i]),
    decreases history.len(),
{
    lemma_keep_from(history, acked, next);
    if history.len() > 0 {
        let before = history.drop_last();
        lemma_ack_keeps_unacknowledged_inputs(before, next, acked);
        assert forall|i: int|
            0 <= i < history.len() && (#[trigger] history[i]).id >= acked implies keep_from(
                history,
                acked,
            ).contains(history[i]) by {
            if i < history.len() - 1 {
                assert(before[i] == history[i]);
                let kept = keep_from(before, acked);
                let k = choose|k: int| 0 <= k < kept.len() && kept[k] == before[i];
                assert(keep_from(history, acked)[k] == history[i]);
            } else {
                assert(keep_from(history, acked).last() == history[i]);
            }
        }
    }
}

/// Recording one input per tick and then trimming keeps at most one second
/// of inputs.
pub proof fn lemma_history_stays_bounded<V, Y>(
    history: Seq<PlayerInput<V, Y>>,
    next: InputId,
    last_processed: Option<SnapshotId>,
    character_input: CharacterInput<V, Y>,
)
    requires
        history.len() <= TICKS_PER_SECOND,
    ensures
        trimmed(history_after_record(history, next, last_processed, character_input)).len()
            <= TICKS_PER_SECOND,
{
}

/// A newly recorded input keeps the history ordered: its id is above every
/// held one.
pub proof fn lemma_record_keeps_order<V, Y>(
    history: Seq<PlayerInput<V, Y>>,
    next: InputId,
    last_processed: Option<SnapshotId>,
    character_input: CharacterInput<V, Y>,
)
    requires
        history_ordered(history, next),
        next < u32::MAX,
    ensures
        history_ordered(
            history_after_record(history, next, last_processed, character_input),
            (next + 1) as InputId,
        ),
        history_ordered(trimmed(history), next),
{
}

/// Each input is sent once: only inputs never sent are handed out for
/// sending, and preparing a send leaves inputs already sent untouched.
pub proof fn lemma_inputs_sent_once<V, Y>(history: Seq<PlayerInput<V, Y>>, position: Option<V>)
    requires
        history.len() <= usize::MAX,
    ensures
        forall|k: int|
            0 <= k < unsent_indices(history).len() ==> {
                let i = #[trigger] unsent_indices(history)[k] as int;
                0 <= i < history.len() && history[i].sends == 0
            },
        forall|i: int|
            0 <= i < history.len() && (#[trigger] history[i]).sends > 0 ==> stamp_unsent(
                history,
                position,
            )[i] == history[i],
        stamp_unsent(history, position).len() == history.len(),
        forall|i: int|
            0 <= i < history.len() && (#[trigger] history[i]).sends == 0 ==> unsent_indices(
                history,
            ).contains(i as usize),
        forall|a: int, b: int|
            0 <= a < b < unsent_indices(history).len() ==> unsent_indices(history)[a]
                < unsent_indices(history)[b],
        forall|i: int|
            0 <= i < history.len() && (#[trigger] history[i]).sends == 0 ==> {
                let after = stamp_unsent(history, position)[i];
                &&& after.id == history[i].id
                &&& after.acking_snapshot_id == history[i].acking_snapshot_id
                &&& after.sends == 0
                &&& match history[i].character_input {
                    Some(ci) => after.character_input == Some(
                        CharacterInput {
                            wish_direction: ci.wish_direction,
                            aim_yaw: ci.aim_yaw,
                            predicted_ability: ci.predicted_ability,
                            weapon_wish_fire: ci.weapon_wish_fire,
                            final_position: position,
                        },
                    ),
                    None => after.character_input is None,
                }
            },
{
    lemma_index_lists_in_bounds(history, 0);
}

/// Re-simulation after a correction replays exactly the inputs newer than
/// the acknowledged one, at valid positions.
pub proof fn lemma_replay_follows_ack<V, Y>(history: Seq<PlayerInput<V, Y>>, acked: InputId)
    requires
        history.len() <= usize::MAX,
    ensures
        forall|k: int|
            0 <= k < indices_after(history, acked).len() ==> {
                let i = #[trigger] indices_after(history, acked)[k] as int;
                0 <= i < history.len() && history[i].id > acked
            },
        forall|i: int|
            0 <= i < history.len() && (#[trigger] history[i]).id > acked ==> indices_after(
                history,
                acked,
            ).contains(i as usize),
        forall|a: int, b: int|
            0 <= a < b < indices_after(history, acked).len() ==> indices_after(history, acked)[a]
                < indices_after(history, acked)[b],
{
    lemma_index_lists_in_bounds(history, acked);
}


/// Recording an input appends exactly one input after all held ones: it
/// takes the next id, acknowledges the last processed snapshot, carries the
/// given character input and has not been sent.
pub proof fn lemma_record_appends_one<V, Y>(
    history: Seq<PlayerInput<V, Y>>,
    next: InputId,
    last_processed: Option<SnapshotId>,
    character_input: CharacterInput<V, Y>,
)
    ensures
        ({
            let after = history_after_record(history, next, last_processed, character_input);
            &&& after.len() == history.len() + 1
            &&& forall|k: int| 0 <= k < history.len() ==> #[trigger] after[k] == history[k]
            &&& after[history.len() as int].id == next
            &&& after[history.len() as int].acking_snapshot_id == last_processed
            &&& after[history.len() as int].character_input == Some(character_input)
            &&& after[history.len() as int].sends == 0
        }),
{
}

/// Trimming keeps a history of at most one second as it is, and from a
/// longer one drops exactly the oldest input.
pub proof fn lemma_trim_drops_oldest<V, Y>(history: Seq<PlayerInput<V, Y>>)
    ensures
        history.len() <= TICKS_PER_SECOND ==> trimmed(history) == history,
        history.len() > TICKS_PER_SECOND ==> {
            &&& trimmed(history).len() == history.len() - 1
            &&& forall|k: int|
                0 <= k < history.len() - 1 ==> #[trigger] trimmed(history)[k] == history[k + 1]
        },
{
}

/// Without an acknowledgement a snapshot leaves the inputs as they are.
pub proof fn lemma_no_ack_keeps_history<V, Y>(history: Seq<PlayerInput<V, Y>>)
    ensures
        history_after_ack(history, None) == history,
{
}

/// The keys held make a step of at most one unit per axis: right without
/// left is +x, left without right is -x, otherwise no x; back without
/// forward is +z, forward without back is -z, otherwise no z.
pub proof fn lemma_wish_axes_cases(forward: bool, back: bool, left: bool, right: bool)
    ensures
        (wish_axes(forward, back, left, right).0 == 1) == (right && !left),
        (wish_axes(forward, back, left, right).0 == -1) == (left && !right),
        (wish_axes(forward, back, left, right).0 == 0) == (left == right),
        (wish_axes(forward, back, left, right).1 == 1) == (back && !forward),
        (wish_axes(forward, back, left, right).1 == -1) == (forward && !back),
        (wish_axes(forward, back, left, right).1 == 0) == (forward == back),
{
}

} // verus!
