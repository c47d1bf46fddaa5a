//! Server-side bookkeeping: connected players, id allocation, connection
//! handling, client inputs and per-client world snapshots.

use vstd::prelude::*;
use crate::client::{history_after_ack, history_ordered, lemma_ack_keeps_unacknowledged_inputs};
use crate::components::{characters_owned_by, indices_owned_by, ReplicatedEntity};
use crate::net::{
    ClientId, DespawnCharacterEvent, EntityNetId, EntitySnapshot, InputId, PlayerInput,
    SnapshotId, SpawnCharacterEvent, WorldSnapshot,
};

verus! {

#[verifier::external_type_specification]
#[verifier::external_body]
#[verifier::reject_recursive_types(K)]
#[verifier::reject_recursive_types(V)]
#[verifier::reject_recursive_types(S)]
pub struct ExBevyHashMap<K, V, S>(bevy::platform::collections::HashMap<K, V, S>);

#[verifier::external_type_specification]
#[verifier::external_body]
pub struct ExFixedHasher(bevy::platform::hash::FixedHasher);

/// What the server knows of a connected player.
#[derive(PartialEq, Eq, Structural, Clone, Copy, Debug)]
pub struct Player {
    pub last_acked_world_snapshot_id: Option<SnapshotId>,
    pub last_processed_input_id: Option<InputId>,
}

/// The record of a player that has just connected.
pub open spec fn fresh_player() -> Player {
    Player { last_acked_world_snapshot_id: None, last_processed_input_id: None }
}

/// The map from client ids to player records.
pub type PlayerMap = bevy::platform::collections::HashMap<ClientId, Player>;

/// The empty player table.
pub open spec fn no_players() -> Map<ClientId, Player> {
    Map::empty()
}

/// The entries of a player map.
pub uninterp spec fn player_table(m: PlayerMap) -> Map<ClientId, Player>;

/// Calls `bevy::platform::collections::HashMap::new`; the map it returns
/// has no entry.
#[verifier::external_body]
fn players_new() -> (m: PlayerMap)
    ensures
        player_table(m) == no_players(),
{
    bevy::platform::collections::HashMap::new()
}

/// Calls `HashMap::insert`; afterwards `k` maps to `v` and every other key
/// keeps its entry.
#[verifier::external_body]
fn players_insert(m: &mut PlayerMap, k: ClientId, v: Player)
    ensures
        player_table(*final(m)) == player_table(*old(m)).insert(k, v),
{
    m.insert(k, v);
}

/// Calls `HashMap::remove`; afterwards `k` has no entry and every other key
/// keeps its entry.
#[verifier::external_body]
fn players_remove(m: &mut PlayerMap, k: ClientId)
    ensures
        player_table(*final(m)) == player_table(*old(m)).remove(k),
{
    m.remove(&k);
}

/// Calls `HashMap::get` and copies out the entry of `k`, if any.
#[verifier::external_body]
fn players_get(m: &PlayerMap, k: ClientId) -> (p: Option<Player>)
    ensures
        p == (if player_table(*m).contains_key(k) {
            Some(player_table(*m)[k])
        } else {
            None
        }),
{
    m.get(&k).copied()
}

/// The players the server knows of, by client id.
pub struct GameServerState {
    players: PlayerMap,
}

impl View for GameServerState {
    type V = Map<ClientId, Player>;

    closed spec fn view(&self) -> Map<ClientId, Player> {
        player_table(self.players)
    }
}

/// Allocator of snapshot ids and entity net ids.
pub struct IdTracker {
    pub next_world_snapshot_id: SnapshotId,
    pub next_entity_net_id: EntityNetId,
}

impl IdTracker {
    /// Both counters start at zero.
    pub fn new() -> (ids: IdTracker)
        ensures
            ids.next_world_snapshot_id == 0,
            ids.next_entity_net_id == 0,
    {
        IdTracker { next_world_snapshot_id: 0, next_entity_net_id: 0 }
    }

    /// Hands out the next entity net id.
    pub fn pump_next_net_id(&mut self) -> (id: EntityNetId)
        requires
            old(self).next_entity_net_id < u32::MAX,
        ensures
            id == old(self).next_entity_net_id,
            final(self).next_entity_net_id == old(self).next_entity_net_id + 1,
            final(self).next_world_snapshot_id == old(self).next_world_snapshot_id,
    {
        let id = self.next_entity_net_id;
        self.next_entity_net_id = id + 1;
        id
    }

    /// Hands out the next world snapshot id.
    pub fn pump_world_snapshot_id(&mut self) -> (id: SnapshotId)
        requires
            old(self).next_world_snapshot_id < u32::MAX,
        ensures
            id == old(self).next_world_snapshot_id,
            final(self).next_world_snapshot_id == old(self).next_world_snapshot_id + 1,
            final(self).next_entity_net_id == old(self).next_entity_net_id,
    {
        let id = self.next_world_snapshot_id;
        self.next_world_snapshot_id = id + 1;
        id
    }
}

/// Ids handed out one after another are distinct: a second net id never
/// repeats the first.
pub proof fn lemma_net_ids_distinct(first: IdTracker, second: IdTracker, a: EntityNetId, b: EntityNetId)
    requires
        first.next_entity_net_id < u32::MAX,
        a == first.next_entity_net_id,
        second.next_entity_net_id == first.next_entity_net_id + 1,
        b == second.next_entity_net_id,
    ensures
        a < b,
{
}

/// A request to host a server on a port.
#[derive(PartialEq, Eq, Structural, Clone, Copy, Debug)]
pub struct HostServerEvent {
    pub port: u16,
}

/// A change in the set of connected clients, as the transport reports it.
#[derive(PartialEq, Eq, Structural, Clone, Copy, Debug)]
pub enum ServerEvent {
    ClientConnected { client_id: ClientId },
    ClientDisconnected { client_id: ClientId },
}

/// What the server does in reply to a connection change: raise an event
/// for itself, or send a message to one client.
#[allow(inconsistent_fields)]
#[derive(Clone, Copy, Debug)]
pub enum ServerAction<V> {
    SpawnLocally(SpawnCharacterEvent<V>),
    SendSpawn { to: ClientId, event: SpawnCharacterEvent<V> },
    DespawnLocally(DespawnCharacterEvent),
    SendDespawn { to: ClientId, event: DespawnCharacterEvent },
}

/// Spawn messages telling client `to` about every existing character.
pub open spec fn spawn_existing_for<V>(characters: Seq<(ReplicatedEntity, V)>, to: ClientId) -> Seq<
    ServerAction<V>,
>
    decreases characters.len(),
{
    if characters.len() == 0 {
        seq![]
    } else {
        let c = characters.last();
        spawn_existing_for(characters.drop_last(), to).push(
            ServerAction::SendSpawn {
                to,
                event: SpawnCharacterEvent {
                    net_id: c.0.net_id,
                    client_id: c.0.owner_client_id,
                    position: c.1,
                    is_local: false,
                },
            },
        )
    }
}

/// Spawn messages telling every client in `clients` about a new character
/// of `owner`; only `owner` hears that it is its own.
pub open spec fn announce_spawn<V>(
    clients: Seq<ClientId>,
    owner: ClientId,
    event: SpawnCharacterEvent<V>,
) -> Seq<ServerAction<V>> {
    clients.map_values(
        |cid: ClientId|
            ServerAction::SendSpawn {
                to: cid,
                event: SpawnCharacterEvent { is_local: cid == owner, ..event },
            },
    )
}

/// Despawn messages telling every client in `clients` about `event`.
pub open spec fn announce_despawn<V>(clients: Seq<ClientId>, event: DespawnCharacterEvent) -> Seq<
    ServerAction<V>,
> {
    clients.map_values(|cid: ClientId| ServerAction::SendDespawn { to: cid, event })
}

/// For every character of `owner`, in order: despawn it locally, then tell
/// every client.
pub open spec fn despawn_owned<V>(
    characters: Seq<(ReplicatedEntity, V)>,
    owner: ClientId,
    clients: Seq<ClientId>,
) -> Seq<ServerAction<V>>
    decreases characters.len(),
{
    if characters.len() == 0 {
        seq![]
    } else {
        let before = despawn_owned(characters.drop_last(), owner, clients);
        let c = characters.last();
        if c.0.owner_client_id == owner {
            let event = DespawnCharacterEvent { net_id: c.0.net_id };
            before + seq![ServerAction::DespawnLocally(event)] + announce_despawn(clients, event)
        } else {
            before
        }
    }
}

/// The character the server spawns for a newly connected client.
pub open spec fn new_character_event<V>(
    net_id: EntityNetId,
    owner: ClientId,
    position: V,
) -> SpawnCharacterEvent<V> {
    SpawnCharacterEvent { net_id, client_id: owner, position, is_local: false }
}

/// Everything the server does when a connection changes, in order.
/// On connection: tell the newcomer about every existing character, spawn
/// its character under net id `next_net_id` at `spawn_position`, and tell
/// every connected client about it. On disconnection: despawn each of the
/// client's characters locally and on every client.
pub open spec fn connection_actions<V>(
    event: ServerEvent,
    characters: Seq<(ReplicatedEntity, V)>,
    clients: Seq<ClientId>,
    next_net_id: EntityNetId,
    spawn_position: V,
) -> Seq<ServerAction<V>> {
    match event {
        ServerEvent::ClientConnected { client_id } => {
            let spawned = new_character_event(next_net_id, client_id, spawn_position);
            spawn_existing_for(characters, client_id) + seq![ServerAction::SpawnLocally(spawned)]
                + announce_spawn(clients, client_id, spawned)
        },
        ServerEvent::ClientDisconnected { client_id } => despawn_owned(
            characters,
            client_id,
            clients,
        ),
    }
}

/// The player table after a connection change: a newcomer gets a fresh
/// record, a leaver loses its record.
pub open spec fn players_after_event(players: Map<ClientId, Player>, event: ServerEvent) -> Map<
    ClientId,
    Player,
> {
    match event {
        ServerEvent::ClientConnected { client_id } => players.insert(client_id, fresh_player()),
        ServerEvent::ClientDisconnected { client_id } => players.remove(client_id),
    }
}

/// The player table after the server processed input `input_id`, which
/// acknowledged snapshot `acking`, from `client`: a known client's record
/// now holds both; an unknown client changes nothing.
pub open spec fn players_after_input(
    players: Map<ClientId, Player>,
    client: ClientId,
    input_id: InputId,
    acking: Option<SnapshotId>,
) -> Map<ClientId, Player> {
    if players.contains_key(client) {
        players.insert(
            client,
            Player { last_acked_world_snapshot_id: acking, last_processed_input_id: Some(input_id) },
        )
    } else {
        players
    }
}

/// The input id the server acknowledges to `client` in its snapshots: the
/// last one it processed from that client, or none for an unknown client.
pub open spec fn acking_for(players: Map<ClientId, Player>, client: ClientId) -> Option<InputId> {
    if players.contains_key(client) {
        players[client].last_processed_input_id
    } else {
        None
    }
}

impl GameServerState {
    /// No player is known.
    pub fn new() -> (s: Self)
        ensures
            s@ == no_players(),
    {
        GameServerState { players: players_new() }
    }

    /// The record of `client`, if it is connected.
    pub fn player(&self, client: ClientId) -> (p: Option<Player>)
        ensures
            p == (if self@.contains_key(client) {
                Some(self@[client])
            } else {
                None
            }),
    {
        players_get(&self.players, client)
    }

    /// Handles a connection change (see `connection_actions`) given the
    /// replicated characters with their positions and the connected
    /// clients. A connection uses up one net id.
    pub fn handle_connection_event<V: Copy>(
        &mut self,
        ids: &mut IdTracker,
        event: ServerEvent,
        characters: &Vec<(ReplicatedEntity, V)>,
        clients: &Vec<ClientId>,
        spawn_position: V,
    ) -> (actions: Vec<ServerAction<V>>)
        requires
            event is ClientConnected ==> old(ids).next_entity_net_id < u32::MAX,
        ensures
            actions@ == connection_actions(
                event,
                characters@,
                clients@,
                old(ids).next_entity_net_id,
                spawn_position,
            ),
            final(self)@ == players_after_event(old(self)@, event),
            final(ids).next_world_snapshot_id == old(ids).next_world_snapshot_id,
            final(ids).next_entity_net_id == (if event is ClientConnected {
                (old(ids).next_entity_net_id + 1) as u32
            } else {
                old(ids).next_entity_net_id
            }),
    {
        let mut actions: Vec<ServerAction<V>> = Vec::new();
        match event {
            ServerEvent::ClientConnected { client_id } => {
                players_insert(
                    &mut self.players,
                    client_id,
                    Player { last_acked_world_snapshot_id: None, last_processed_input_id: None },
                );
                // Tell the newcomer about every character that already exists.
                let mut i: usize = 0;
                while i < characters.len()
                    invariant
                        i <= characters@.len(),
                        actions@ == spawn_existing_for(characters@.take(i as int), client_id),
                    decreases characters@.len() - i,
                {
                    assert(characters@.take(i as int + 1).drop_last() =~= characters@.take(
                        i as int,
                    ));
                    let (entity, position) = characters[i];
                    actions.push(
                        ServerAction::SendSpawn {
                            to: client_id,
                            event: SpawnCharacterEvent {
                                net_id: entity.net_id,
                                client_id: entity.owner_client_id,
                                position,
                                is_local: false,
                            },
                        },
                    );
                    i = i + 1;
                }
                assert(characters@.take(i as int) =~= characters@);
                // Spawn the newcomer's character.
                let spawned = SpawnCharacterEvent {
                    net_id: ids.pump_next_net_id(),
                    client_id,
                    position: spawn_position,
                    is_local: false,
                };
                actions.push(ServerAction::SpawnLocally(spawned));
                let ghost head = actions@;
                // Tell every client about it; the newcomer learns it is its own.
                let mut k: usize = 0;
                while k < clients.len()
                    invariant
                        k <= clients@.len(),
                        actions@ == head + announce_spawn(clients@.take(k as int), client_id, spawned),
                    decreases clients@.len() - k,
                {
                    assert(announce_spawn(clients@.take(k as int + 1), client_id, spawned)
                        =~= announce_spawn(clients@.take(k as int), client_id, spawned).push(
                        ServerAction::SendSpawn {
                            to: clients@[k as int],
                            event: SpawnCharacterEvent {
                                is_local: clients@[k as int] == client_id,
                                ..spawned
                            },
                        },
                    ));
                    let cid = clients[k];
                    actions.push(
                        ServerAction::SendSpawn {
                            to: cid,
                            event: SpawnCharacterEvent { is_local: cid == client_id, ..spawned },
                        },
                    );
                    k = k + 1;
                }
                assert(clients@.take(k as int) =~= clients@);
            },
            ServerEvent::ClientDisconnected { client_id } => {
                players_remove(&mut self.players, client_id);
                let mut i: usize = 0;
                while i < characters.len()
                    invariant
                        i <= characters@.len(),
                        actions@ == despawn_owned(characters@.take(i as int), client_id, clients@),
                    decreases characters@.len() - i,
                {
                    assert(characters@.take(i as int + 1).drop_last() =~= characters@.take(
                        i as int,
                    ));
                    let (entity, _) = characters[i];
                    if entity.owner_client_id == client_id {
                        let despawned = DespawnCharacterEvent { net_id: entity.net_id };
                        actions.push(ServerAction::DespawnLocally(despawned));
                        let ghost head = actions@;
                        let mut k: usize = 0;
                        while k < clients.len()
                            invariant
                                k <= clients@.len(),
                                actions@ == head + announce_despawn::<V>(
                                    clients@.take(k as int),
                                    despawned,
                                ),
                            decreases clients@.len() - k,
                        {
                            assert(announce_despawn::<V>(clients@.take(k as int + 1), despawned)
                                =~= announce_despawn::<V>(clients@.take(k as int), despawned).push(
                                ServerAction::SendDespawn { to: clients@[k as int], event: despawned },
                            ));
                            actions.push(ServerAction::SendDespawn { to: clients[k], event: despawned });
                            k = k + 1;
                        }
                        assert(clients@.take(k as int) =~= clients@);
                    }
                    i = i + 1;
                }
                assert(characters@.take(i as int) =~= characters@);
            },
        }
        actions
    }

    /// Processes an input of `client`: when it carries a character input,
    /// the returned positions are those of the client's characters (whose
    /// wish direction the caller then sets), and if there is any, the
    /// client's record notes the input and the snapshot it acknowledged.
    pub fn handle_client_input<V, Y>(
        &mut self,
        client: ClientId,
        input: &PlayerInput<V, Y>,
        characters: &Vec<ReplicatedEntity>,
    ) -> (targets: Vec<usize>)
        ensures
            targets@ == (if input.character_input is Some {
                indices_owned_by(characters@, client)
            } else {
                seq![]
            }),
            final(self)@ == (if targets@.len() > 0 {
                players_after_input(old(self)@, client, input.id, input.acking_snapshot_id)
            } else {
                old(self)@
            }),
    {
        if input.character_input.is_none() {
            return Vec::new();
        }
        let targets = characters_owned_by(characters, client);
        if targets.len() > 0 {
            if let Some(_) = players_get(&self.players, client) {
                players_insert(
                    &mut self.players,
                    client,
                    Player {
                        last_acked_world_snapshot_id: input.acking_snapshot_id,
                        last_processed_input_id: Some(input.id),
                    },
                );
            }
        }
        targets
    }

    /// The snapshot sent to `client`: `snapshot` acknowledging the last
    /// input the server processed from that client, if it is known.
    pub fn snapshot_for_client<V: Copy, Y: Copy>(
        &self,
        snapshot: &WorldSnapshot<V, Y>,
        client: ClientId,
    ) -> (personal: WorldSnapshot<V, Y>)
        ensures
            personal.id == snapshot.id,
            personal.character_entities@ == snapshot.character_entities@,
            personal.acking_input_id == (if self@.contains_key(client) {
                acking_for(self@, client)
            } else {
                snapshot.acking_input_id
            }),
    {
        let mut entities: Vec<EntitySnapshot<V, Y>> = Vec::new();
        let mut i: usize = 0;
        while i < snapshot.character_entities.len()
            invariant
                i <= snapshot.character_entities@.len(),
                entities@ == snapshot.character_entities@.take(i as int),
            decreases snapshot.character_entities@.len() - i,
        {
            entities.push(snapshot.character_entities[i]);
            assert(entities@ =~= snapshot.character_entities@.take(i as int + 1));
            i = i + 1;
        }
        assert(snapshot.character_entities@.take(i as int) =~= snapshot.character_entities@);
        let acking_input_id = match players_get(&self.players, client) {
            Some(player) => player.last_processed_input_id,
            None => snapshot.acking_input_id,
        };
        WorldSnapshot { id: snapshot.id, acking_input_id, character_entities: entities }
    }
}

/// The entity snapshots of the replicated characters: each with its
/// position, velocity and the yaw `yaw`.
pub open spec fn character_snapshots<V, Y>(characters: Seq<(ReplicatedEntity, V, V)>, yaw: Y) -> Seq<
    EntitySnapshot<V, Y>,
> {
    characters.map_values(
        |c: (ReplicatedEntity, V, V)|
            EntitySnapshot { id: c.0.net_id, position: Some(c.1), velocity: Some(c.2), yaw: Some(yaw) },
    )
}

/// Builds the next world snapshot from the replicated characters with
/// their positions and velocities; it acknowledges no input yet (see
/// `GameServerState::snapshot_for_client`).
pub fn build_world_snapshot<V: Copy, Y: Copy>(
    ids: &mut IdTracker,
    characters: &Vec<(ReplicatedEntity, V, V)>,
    yaw: Y,
) -> (snapshot: WorldSnapshot<V, Y>)
    requires
        old(ids).next_world_snapshot_id < u32::MAX,
    ensures
        snapshot.id == old(ids).next_world_snapshot_id,
        snapshot.acking_input_id is None,
        snapshot.character_entities@ == character_snapshots(characters@, yaw),
        final(ids).next_world_snapshot_id == old(ids).next_world_snapshot_id + 1,
        final(ids).next_entity_net_id == old(ids).next_entity_net_id,
{
    let id = ids.pump_world_snapshot_id();
    let mut entities: Vec<EntitySnapshot<V, Y>> = Vec::new();
    let mut i: usize = 0;
    while i < characters.len()
        invariant
            i <= characters@.len(),
            entities@ == character_snapshots(characters@.take(i as int), yaw),
        decreases characters@.len() - i,
    {
        let (entity, position, velocity) = characters[i];
        entities.push(
            EntitySnapshot {
                id: entity.net_id,
                position: Some(position),
                velocity: Some(velocity),
                yaw: Some(yaw),
            },
        );
        assert(entities@ =~= character_snapshots(characters@.take(i as int + 1), yaw));
        i = i + 1;
    }
    assert(characters@.take(i as int) =~= characters@);
    WorldSnapshot { id, acking_input_id: None, character_entities: entities }
}

/// What the server acknowledges to a client is the last input it
/// processed from that client: once input `input_id` of a connected client
/// is processed, its snapshots acknowledge exactly that input.
pub proof fn lemma_acks_last_processed_input(
    players: Map<ClientId, Player>,
    client: ClientId,
    input_id: InputId,
    acking: Option<SnapshotId>,
)
    requires
        players.contains_key(client),
    ensures
        acking_for(players_after_input(players, client, input_id, acking), client) == Some(
            input_id,
        ),
        players_after_input(players, client, input_id, acking)[client].last_acked_world_snapshot_id
            == acking,
{
}

/// Round trip of an acknowledgement: once the server has processed input
/// `input_id` of a connected client, a client taking in the next snapshot
/// keeps exactly its inputs from `input_id` on, in order.
pub proof fn lemma_ack_round_trip<V, Y>(
    players: Map<ClientId, Player>,
    client: ClientId,
    input_id: InputId,
    acking: Option<SnapshotId>,
    history: Seq<PlayerInput<V, Y>>,
    next: InputId,
)
    requires
        players.contains_key(client),
        history_ordered(history, next),
    ensures
        ({
            let kept = history_after_ack(
                history,
                acking_for(players_after_input(players, client, input_id, acking), client),
            );
            &&& history_ordered(kept, next)
            &&& forall|k: int| 0 <= k < kept.len() ==> #[trigger] kept[k].id >= input_id
            &&& forall|i: int|
                0 <= i < history.len() && (#[trigger] history[i]).id >= input_id ==> kept.contains(
                    history[i],
                )
        }),
{
    lemma_ack_keeps_unacknowledged_inputs(history, next, input_id);
}

/// A new character is announced once to every connected client, and only
/// its owner is told that the character is its own.
pub proof fn lemma_only_owner_told_local<V>(
    clients: Seq<ClientId>,
    owner: ClientId,
    event: SpawnCharacterEvent<V>,
)
    ensures
        announce_spawn(clients, owner, event).len() == clients.len(),
        forall|k: int|
            0 <= k < clients.len() ==> match #[trigger] announce_spawn(clients, owner, event)[k] {
                ServerAction::SendSpawn { to, event: sent } => {
                    &&& to == clients[k]
                    &&& sent.is_local == (clients[k] == owner)
                    &&& sent.net_id == event.net_id
                    &&& sent.client_id == event.client_id
                },
                _ => false,
            },
{
}

/// A disconnection despawns only characters of the client that left: every
/// despawn it causes names the net id of one of that client's characters.
pub proof fn lemma_despawns_only_owned<V>(
    characters: Seq<(ReplicatedEntity, V)>,
    owner: ClientId,
    clients: Seq<ClientId>,
)
    ensures
        forall|k: int|
            0 <= k < despawn_owned(characters, owner, clients).len() ==> {
                let net_id = match #[trigger] despawn_owned(characters, owner, clients)[k] {
                    ServerAction::DespawnLocally(e) => e.net_id,
                    ServerAction::SendDespawn { to: _, event: e } => e.net_id,
                    ServerAction::SpawnLocally(e) => e.net_id,
                    ServerAction::SendSpawn { to: _, event: e } => e.net_id,
                };
                &&& !(despawn_owned(characters, owner, clients)[k] is SpawnLocally)
                &&& !(despawn_owned(characters, owner, clients)[k] is SendSpawn)
                &&& exists|i: int|
                    0 <= i < characters.len() && characters[i].0.owner_client_id == owner
                        && characters[i].0.net_id == net_id
            },
    decreases characters.len(),
{
    if characters.len() > 0 {
        let before = despawn_owned(characters.drop_last(), owner, clients);
        lemma_despawns_only_owned(characters.drop_last(), owner, clients);
        let all = despawn_owned(characters, owner, clients);
        let last = characters.len() - 1;
        assert forall|k: int| 0 <= k < all.len() implies {
            let net_id = match #[trigger] all[k] {
                ServerAction::DespawnLocally(e) => e.net_id,
                ServerAction::SendDespawn { to: _, event: e } => e.net_id,
                ServerAction::SpawnLocally(e) => e.net_id,
                ServerAction::SendSpawn { to: _, event: e } => e.net_id,
            };
            &&& !(all[k] is SpawnLocally)
            &&& !(all[k] is SendSpawn)
            &&& exists|i: int|
                0 <= i < characters.len() && characters[i].0.owner_client_id == owner
                    && characters[i].0.net_id == net_id
        } by {
            if k < before.len() {
                assert(all[k] == before[k]);
                let net_id = match before[k] {
                    ServerAction::DespawnLocally(e) => e.net_id,
                    ServerAction::SendDespawn { to: _, event: e } => e.net_id,
                    ServerAction::SpawnLocally(e) => e.net_id,
                    ServerAction::SendSpawn { to: _, event: e } => e.net_id,
                };
                let i = choose|i: int|
                    0 <= i < characters.drop_last().len()
                        && characters.drop_last()[i].0.owner_client_id == owner
                        && characters.drop_last()[i].0.net_id == net_id;
                assert(characters[i] == characters.drop_last()[i]);
            } else {
                assert(characters.last() == characters[last]);
            }
        }
    }
}

/// A connection change alters only the record of the client it names:
/// every other client is known afterwards exactly when it was known
/// before, with the same record. The named client is known afterwards
/// with a fresh record after connecting, and unknown after leaving.
pub proof fn lemma_connection_change_is_local(
    players: Map<ClientId, Player>,
    event: ServerEvent,
    other: ClientId,
)
    ensures
        ({
            let named = match event {
                ServerEvent::ClientConnected { client_id } => client_id,
                ServerEvent::ClientDisconnected { client_id } => client_id,
            };
            let after = players_after_event(players, event);
            &&& other != named ==> (after.contains_key(other) == players.contains_key(other))
            &&& other != named && players.contains_key(other) ==> after[other] == players[other]
            &&& event is ClientConnected ==> after.contains_key(named) && after[named]
                == Player { last_acked_world_snapshot_id: None, last_processed_input_id: None }
            &&& event is ClientDisconnected ==> !after.contains_key(named)
        }),
{
}

/// Every entry of a built snapshot describes its own character: the
/// `k`-th entry carries the net id, position and velocity of the `k`-th
/// character and the given yaw, one entry per character.
pub proof fn lemma_snapshot_entries_describe_characters<V, Y>(
    characters: Seq<(ReplicatedEntity, V, V)>,
    yaw: Y,
)
    ensures
        character_snapshots(characters, yaw).len() == characters.len(),
        forall|k: int|
            0 <= k < characters.len() ==> {
                let e = #[trigger] character_snapshots(characters, yaw)[k];
                &&& e.id == characters[k].0.net_id
                &&& e.position == Some(characters[k].1)
                &&& e.velocity == Some(characters[k].2)
                &&& e.yaw == Some(yaw)
            },
{
}

/// The newcomer hears of every existing character, one message each in
/// order, with the character's net id, owner and position, never as its
/// own.
pub proof fn lemma_newcomer_learns_world<V>(characters: Seq<(ReplicatedEntity, V)>, to: ClientId)
    ensures
        spawn_existing_for(characters, to).len() == characters.len(),
        forall|k: int|
            0 <= k < characters.len() ==> #[trigger] spawn_existing_for(characters, to)[k]
                == (ServerAction::SendSpawn {
                to,
                event: SpawnCharacterEvent {
                    net_id: characters[k].0.net_id,
                    client_id: characters[k].0.owner_client_id,
                    position: characters[k].1,
                    is_local: false,
                },
            }),
    decreases characters.len(),
{
    if characters.len() > 0 {
        lemma_newcomer_learns_world(characters.drop_last(), to);
        assert forall|k: int| 0 <= k < characters.len() - 1 implies characters.drop_last()[k]
            == #[trigger] characters[k] by {}
    }
}

/// On connection the server raises one local spawn for the newcomer's
/// character, under the next net id, owned by the newcomer, at the spawn
/// position; it comes after the messages about existing characters and
/// before the announcements, one per connected client, that carry the
/// same character.
pub proof fn lemma_connect_spawns_newcomer<V>(
    characters: Seq<(ReplicatedEntity, V)>,
    clients: Seq<ClientId>,
    client: ClientId,
    next_net_id: EntityNetId,
    spawn_position: V,
)
    ensures
        ({
            let actions = connection_actions(
                ServerEvent::ClientConnected { client_id: client },
                characters,
                clients,
                next_net_id,
                spawn_position,
            );
            &&& actions.len() == characters.len() + 1 + clients.len()
            &&& actions[characters.len() as int] == ServerAction::SpawnLocally(
                SpawnCharacterEvent {
                    net_id: next_net_id,
                    client_id: client,
                    position: spawn_position,
                    is_local: false,
                },
            )
            &&& forall|k: int|
                0 <= k < clients.len() ==> #[trigger] actions[characters.len() + 1 + k]
                    == (ServerAction::SendSpawn {
                    to: clients[k],
                    event: SpawnCharacterEvent {
                        net_id: next_net_id,
                        client_id: client,
                        position: spawn_position,
                        is_local: clients[k] == client,
                    },
                })
        }),
{
    lemma_newcomer_learns_world(characters, client);
}

/// A disconnection despawns every character of the client that left:
/// each one is despawned locally and on every connected client.
pub proof fn lemma_despawns_every_owned<V>(
    characters: Seq<(ReplicatedEntity, V)>,
    owner: ClientId,
    clients: Seq<ClientId>,
)
    ensures
        forall|i: int|
            0 <= i < characters.len() && (#[trigger] characters[i]).0.owner_client_id == owner
                ==> {
                let event = DespawnCharacterEvent { net_id: characters[i].0.net_id };
                &&& despawn_owned(characters, owner, clients).contains(
                    ServerAction::DespawnLocally(event),
                )
                &&& forall|c: int|
                    0 <= c < clients.len() ==> despawn_owned(characters, owner, clients).contains(
                        ServerAction::SendDespawn { to: #[trigger] clients[c], event },
                    )
            },
    decreases characters.len(),
{
    if characters.len() > 0 {
        let before = despawn_owned(characters.drop_last(), owner, clients);
        lemma_despawns_every_owned(characters.drop_last(), owner, clients);
        let all = despawn_owned(characters, owner, clients);
        assert forall|x: ServerAction<V>| before.contains(x) implies all.contains(x) by {
            let k = choose|k: int| 0 <= k < before.len() && before[k] == x;
            assert(all[k] == before[k]);
        }
        let last = characters.len() - 1;
        assert forall|i: int|
            0 <= i < characters.len() && (#[trigger] characters[i]).0.owner_client_id == owner
                implies {
            let event = DespawnCharacterEvent { net_id: characters[i].0.net_id };
            &&& all.contains(ServerAction::DespawnLocally(event))
            &&& forall|c: int|
                0 <= c < clients.len() ==> all.contains(
                    ServerAction::SendDespawn { to: #[trigger] clients[c], event },
                )
        } by {
            let event = DespawnCharacterEvent { net_id: characters[i].0.net_id };
            if i < last {
                assert(characters.drop_last()[i] == characters[i]);
            } else {
                assert(characters.last() == characters[i]);
                assert(all[before.len() as int] == ServerAction::<V>::DespawnLocally(event));
                assert forall|c: int| 0 <= c < clients.len() implies all.contains(
                    ServerAction::SendDespawn { to: #[trigger] clients[c], event },
                ) by {
                    assert(all[before.len() + 1 + c] == ServerAction::<V>::SendDespawn {
                        to: clients[c],
                        event,
                    });
                }
            }
        }
    }
}

/// An input from a client the server does not know changes no record.
pub proof fn lemma_unknown_client_input_ignored(
    players: Map<ClientId, Player>,
    client: ClientId,
    input_id: InputId,
    acking: Option<SnapshotId>,
)
    requires
        !players.contains_key(client),
    ensures
        players_after_input(players, client, input_id, acking) == players,
        acking_for(players, client) is None,
{
}

/// Inputs of one client leave the records of all others untouched.
pub proof fn lemma_input_isolated_to_client(
    players: Map<ClientId, Player>,
    client: ClientId,
    other: ClientId,
    input_id: InputId,
    acking: Option<SnapshotId>,
)
    requires
        client != other,
    ensures
        acking_for(players_after_input(players, client, input_id, acking), other) == acking_for(
            players,
            other,
        ),
{
}

/// A client that connects is known with a fresh record, so its snapshots
/// acknowledge nothing until it sends an input; a client that leaves is
/// forgotten.
pub proof fn lemma_connection_lifecycle(players: Map<ClientId, Player>, client: ClientId)
    ensures
        players_after_event(players, ServerEvent::ClientConnected { client_id: client }).contains_key(
            client,
        ),
        acking_for(
            players_after_event(players, ServerEvent::ClientConnected { client_id: client }),
            client,
        ) is None,
        !players_after_event(
            players,
            ServerEvent::ClientDisconnected { client_id: client },
        ).contains_key(client),
{
}

} // verus!
