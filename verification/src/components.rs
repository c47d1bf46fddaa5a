//! Components whose logic does not touch floating-point state.

use vstd::prelude::*;
use crate::net::{ClientId, EntityNetId};

verus! {

/// A replicated entity. All entities that are replicated over the network
/// carry one.
#[derive(PartialEq, Eq, Structural, Clone, Copy, Debug)]
pub struct ReplicatedEntity {
    /// A unique identifier for the entity over the network.
    pub net_id: EntityNetId,
    /// The client id of the owner of the entity.
    pub owner_client_id: ClientId,
}

/// The positions, in order, of the entities whose net id is `id`.
pub open spec fn indices_with_net_id(s: Seq<ReplicatedEntity>, id: EntityNetId) -> Seq<usize>
    decreases s.len(),
{
    if s.len() == 0 {
        seq![]
    } else {
        let before = indices_with_net_id(s.drop_last(), id);
        if s.last().net_id == id {
            before.push((s.len() - 1) as usize)
        } else {
            before
        }
    }
}

/// The positions, in order, of the entities owned by `client`.
pub open spec fn indices_owned_by(s: Seq<ReplicatedEntity>, client: ClientId) -> Seq<usize>
    decreases s.len(),
{
    if s.len() == 0 {
        seq![]
    } else {
        let before = indices_owned_by(s.drop_last(), client);
        if s.last().owner_client_id == client {
            before.push((s.len() - 1) as usize)
        } else {
            before
        }
    }
}

/// The positions of the characters whose net id is `id` (the ones a
/// despawn event for `id` removes).
pub fn characters_with_net_id(characters: &Vec<ReplicatedEntity>, id: EntityNetId) -> (found: Vec<
    usize,
>)
    ensures
        found@ == indices_with_net_id(characters@, id),
{
    let mut found: Vec<usize> = Vec::new();
    let mut i: usize = 0;
    while i < characters.len()
        invariant
            i <= characters@.len(),
            found@ == indices_with_net_id(characters@.take(i as int), id),
        decreases characters@.len() - i,
    {
        assert(characters@.take(i as int + 1).drop_last() =~= characters@.take(i as int));
        if characters[i].net_id == id {
            found.push(i);
        }
        i = i + 1;
    }
    assert(characters@.take(i as int) =~= characters@);
    found
}

/// The positions of the characters owned by `client`.
pub fn characters_owned_by(characters: &Vec<ReplicatedEntity>, client: ClientId) -> (found: Vec<
    usize,
>)
    ensures
        found@ == indices_owned_by(characters@, client),
{
    let mut found: Vec<usize> = Vec::new();
    let mut i: usize = 0;
    while i < characters.len()
        invariant
            i <= characters@.len(),
            found@ == indices_owned_by(characters@.take(i as int), client),
        decreases characters@.len() - i,
    {
        assert(characters@.take(i as int + 1).drop_last() =~= characters@.take(i as int));
        if characters[i].owner_client_id == client {
            found.push(i);
        }
        i = i + 1;
    }
    assert(characters@.take(i as int) =~= characters@);
    found
}

/// The position of every entity in `indices_owned_by` is a valid index of
/// an entity owned by `client`, and every such entity is listed.
pub proof fn lemma_indices_owned_by(s: Seq<ReplicatedEntity>, client: ClientId)
    requires
        s.len() <= usize::MAX,
    ensures
        forall|k: int|
            0 <= k < indices_owned_by(s, client).len() ==> {
                let i = #[trigger] indices_owned_by(s, client)[k] as int;
                0 <= i < s.len() && s[i].owner_client_id == client
            },
        forall|i: int|
            0 <= i < s.len() && (#[trigger] s[i]).owner_client_id == client ==> indices_owned_by(
                s,
                client,
            ).contains(i as usize),
    decreases s.len(),
{
    if s.len() > 0 {
        lemma_indices_owned_by(s.drop_last(), client);
        let before = indices_owned_by(s.drop_last(), client);
        assert forall|i: int|
            0 <= i < s.len() && (#[trigger] s[i]).owner_client_id == client implies indices_owned_by(
                s,
                client,
            ).contains(i as usize) by {
            if i < s.len() - 1 {
                assert(s.drop_last()[i] == s[i]);
                let k = choose|k: int| 0 <= k < before.len() && before[k] == i as usize;
                assert(indices_owned_by(s, client)[k] == i as usize);
            } else {
                assert(indices_owned_by(s, client).last() == i as usize);
            }
        }
    }
}

/// The positions listed by `indices_with_net_id` are exactly those of the
/// entities with that net id, in increasing order.
pub proof fn lemma_indices_with_net_id(s: Seq<ReplicatedEntity>, id: EntityNetId)
    requires
        s.len() <= usize::MAX,
    ensures
        forall|k: int|
            0 <= k < indices_with_net_id(s, id).len() ==> {
                let i = #[trigger] indices_with_net_id(s, id)[k] as int;
                0 <= i < s.len() && s[i].net_id == id
            },
        forall|i: int|
            0 <= i < s.len() && (#[trigger] s[i]).net_id == id ==> indices_with_net_id(
                s,
                id,
            ).contains(i as usize),
        forall|a: int, b: int|
            0 <= a < b < indices_with_net_id(s, id).len() ==> indices_with_net_id(s, id)[a]
                < indices_with_net_id(s, id)[b],
    decreases s.len(),
{
    if s.len() > 0 {
        lemma_indices_with_net_id(s.drop_last(), id);
        let before = indices_with_net_id(s.drop_last(), id);
        assert forall|i: int|
            0 <= i < s.len() && (#[trigger] s[i]).net_id == id implies indices_with_net_id(
                s,
                id,
            ).contains(i as usize) by {
            if i < s.len() - 1 {
                assert(s.drop_last()[i] == s[i]);
                let k = choose|k: int| 0 <= k < before.len() && before[k] == i as usize;
                assert(indices_with_net_id(s, id)[k] == i as usize);
            } else {
                assert(indices_with_net_id(s, id).last() == i as usize);
            }
        }
    }
}

/// When a weapon may fire next.
#[derive(PartialEq, Eq, Structural, Clone, Copy, Debug)]
pub struct WeaponState {
    /// The next tick that the weapon can fire. Must be at this tick, or
    /// later, for it to fire.
    pub next_fire_tick: u32,
}

impl Default for WeaponState {
    fn default() -> (state: WeaponState)
        ensures
            state.next_fire_tick == 0,
    {
        WeaponState { next_fire_tick: 0 }
    }
}

/// Whether a weapon whose next fire tick is `next_fire_tick` fires at tick
/// `now` when its owner does or does not wish to fire.
pub open spec fn fires_at(next_fire_tick: u32, now: u32, wishes_to_fire: bool) -> bool {
    next_fire_tick <= now && wishes_to_fire
}

impl WeaponState {
    /// Fires the weapon at tick `now` if its owner wishes to and the
    /// weapon is ready; a shot makes it ready again `fire_rate_ticks` ticks
    /// later. Returns whether it fired.
    pub fn try_fire(&mut self, now: u32, fire_rate_ticks: u32, wishes_to_fire: bool) -> (fired:
        bool)
        requires
            fires_at(old(self).next_fire_tick, now, wishes_to_fire) ==> now + fire_rate_ticks
                <= u32::MAX,
        ensures
            fired == fires_at(old(self).next_fire_tick, now, wishes_to_fire),
            final(self).next_fire_tick == if fired {
                (now + fire_rate_ticks) as u32
            } else {
                old(self).next_fire_tick
            },
    {
        if self.next_fire_tick <= now && wishes_to_fire {
            self.next_fire_tick = now + fire_rate_ticks;
            true
        } else {
            false
        }
    }
}

/// A weapon that fired at tick `now` cannot fire again before
/// `now + fire_rate_ticks`, and can from then on whenever its owner wishes.
pub proof fn lemma_fire_rate_limits_shots(now: u32, fire_rate_ticks: u32, later: u32, wishes: bool)
    requires
        now + fire_rate_ticks <= u32::MAX,
    ensures
        later < now + fire_rate_ticks ==> !fires_at((now + fire_rate_ticks) as u32, later, wishes),
        later >= now + fire_rate_ticks ==> fires_at((now + fire_rate_ticks) as u32, later, wishes)
            == wishes,
{
}

} // verus!
