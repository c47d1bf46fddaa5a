//! Wire protocol: identifiers, channels and their configuration.

use vstd::prelude::*;

verus! {

/// Identifier of a world snapshot sent by the server.
pub type SnapshotId = u32;

/// Identifier of an input sent by a client.
pub type InputId = u32;

/// Network-wide identifier of a replicated entity.
pub type EntityNetId = u32;

/// Identifier of a connected client (the transport's client id).
pub type ClientId = u64;

/// The client id under which the server itself owns entities (bots).
pub const SERVER_ID: ClientId = 0;

/// Memory budget of every channel, in bytes.
pub const CHANNEL_MEMORY_BYTES: usize = 5242880;

/// Resend delay of the reliable channels, in milliseconds.
pub const RELIABLE_RESEND_MS: u64 = 10;

/// Bytes the transport may send per tick.
pub const BYTES_PER_TICK: u64 = 65536;

/// How a channel delivers its messages.
#[derive(PartialEq, Eq, Structural, Clone, Copy, Debug)]
pub enum SendType {
    Unreliable,
    ReliableOrdered { resend_time_ms: u64 },
}

/// Configuration of one transport channel.
#[derive(PartialEq, Eq, Structural, Clone, Copy, Debug)]
pub struct ChannelConfig {
    pub channel_id: u8,
    pub max_memory_usage_bytes: usize,
    pub send_type: SendType,
}

/// Configuration of a connection: the channels of each direction and the
/// byte budget per tick.
pub struct ConnectionConfig {
    pub server_channels_config: Vec<ChannelConfig>,
    pub client_channels_config: Vec<ChannelConfig>,
    pub available_bytes_per_tick: u64,
}

/// Channels on which clients send to the server.
#[derive(PartialEq, Eq, Structural, Clone, Copy, Debug)]
pub enum ClientChannel {
    Input,
}

/// Channels on which the server sends to clients.
#[derive(PartialEq, Eq, Structural, Clone, Copy, Debug)]
pub enum ServerChannel {
    SpawnCharacter,
    DespawnCharacter,
    WorldSnapshot,
}

/// The numeric id of a client channel.
pub open spec fn client_channel_id(channel: ClientChannel) -> u8 {
    match channel {
        ClientChannel::Input => 0,
    }
}

/// The numeric id of a server channel.
pub open spec fn server_channel_id(channel: ServerChannel) -> u8 {
    match channel {
        ServerChannel::SpawnCharacter => 0,
        ServerChannel::DespawnCharacter => 1,
        ServerChannel::WorldSnapshot => 2,
    }
}

impl From<ClientChannel> for u8 {
    fn from(channel: ClientChannel) -> (id: u8) {
        match channel {
            ClientChannel::Input => 0,
        }
    }
}

impl vstd::std_specs::convert::FromSpecImpl<ClientChannel> for u8 {
    open spec fn obeys_from_spec() -> bool {
        true
    }

    open spec fn from_spec(channel: ClientChannel) -> u8 {
        client_channel_id(channel)
    }
}

impl From<ServerChannel> for u8 {
    fn from(channel: ServerChannel) -> (id: u8) {
        match channel {
            ServerChannel::SpawnCharacter => 0,
            ServerChannel::DespawnCharacter => 1,
            ServerChannel::WorldSnapshot => 2,
        }
    }
}

impl vstd::std_specs::convert::FromSpecImpl<ServerChannel> for u8 {
    open spec fn obeys_from_spec() -> bool {
        true
    }

    open spec fn from_spec(channel: ServerChannel) -> u8 {
        server_channel_id(channel)
    }
}

/// The configuration of the client-to-server channels, in id order.
pub open spec fn client_channels() -> Seq<ChannelConfig> {
    seq![
        ChannelConfig {
            channel_id: 0,
            max_memory_usage_bytes: CHANNEL_MEMORY_BYTES,
            send_type: SendType::Unreliable,
        },
    ]
}

/// The configuration of the server-to-client channels, in id order: spawns
/// and despawns are reliable and ordered, snapshots are unreliable.
pub open spec fn server_channels() -> Seq<ChannelConfig> {
    seq![
        ChannelConfig {
            channel_id: 0,
            max_memory_usage_bytes: CHANNEL_MEMORY_BYTES,
            send_type: SendType::ReliableOrdered { resend_time_ms: RELIABLE_RESEND_MS },
        },
        ChannelConfig {
            channel_id: 1,
            max_memory_usage_bytes: CHANNEL_MEMORY_BYTES,
            send_type: SendType::ReliableOrdered { resend_time_ms: RELIABLE_RESEND_MS },
        },
        ChannelConfig {
            channel_id: 2,
            max_memory_usage_bytes: CHANNEL_MEMORY_BYTES,
            send_type: SendType::Unreliable,
        },
    ]
}

impl ClientChannel {
    /// The channel configuration for client-to-server traffic.
    pub fn config() -> (configs: Vec<ChannelConfig>)
        ensures
            configs@ == client_channels(),
    {
        let mut configs: Vec<ChannelConfig> = Vec::new();
        configs.push(
            ChannelConfig {
                channel_id: 0,
                max_memory_usage_bytes: CHANNEL_MEMORY_BYTES,
                send_type: SendType::Unreliable,
            },
        );
        configs
    }
}

impl ServerChannel {
    /// The channel configuration for server-to-client traffic.
    pub fn config() -> (configs: Vec<ChannelConfig>)
        ensures
            configs@ == server_channels(),
    {
        let reliable = SendType::ReliableOrdered { resend_time_ms: RELIABLE_RESEND_MS };
        let mut configs: Vec<ChannelConfig> = Vec::new();
        configs.push(
            ChannelConfig {
                channel_id: 0,
                max_memory_usage_bytes: CHANNEL_MEMORY_BYTES,
                send_type: reliable,
            },
        );
        configs.push(
            ChannelConfig {
                channel_id: 1,
                max_memory_usage_bytes: CHANNEL_MEMORY_BYTES,
                send_type: reliable,
            },
        );
        configs.push(
            ChannelConfig {
                channel_id: 2,
                max_memory_usage_bytes: CHANNEL_MEMORY_BYTES,
                send_type: SendType::Unreliable,
            },
        );
        configs
    }
}

/// The connection configuration shared by server and clients.
pub fn connection_config() -> (config: ConnectionConfig)
    ensures
        config.server_channels_config@ == server_channels(),
        config.client_channels_config@ == client_channels(),
        config.available_bytes_per_tick == BYTES_PER_TICK,
{
    ConnectionConfig {
        server_channels_config: ServerChannel::config(),
        client_channels_config: ClientChannel::config(),
        available_bytes_per_tick: BYTES_PER_TICK,
    }
}

/// Every client channel's numeric id selects its own entry in the
/// client channel configuration, and that entry carries the same id.
pub proof fn lemma_client_channel_ids_index_config(channel: ClientChannel)
    ensures
        (client_channel_id(channel) as int) < client_channels().len(),
        client_channels()[client_channel_id(channel) as int].channel_id == client_channel_id(channel),
{
}

/// Every channel may buffer 5 MiB; the server's spawn and despawn channels
/// are reliable and ordered with a 10 ms resend delay, its snapshot channel
/// and the client's input channel are unreliable.
pub proof fn lemma_channel_delivery(channel: ServerChannel)
    ensures
        server_channels()[server_channel_id(channel) as int].max_memory_usage_bytes == 5 * 1024
            * 1024,
        server_channels()[server_channel_id(channel) as int].send_type == (if channel
            == ServerChannel::WorldSnapshot {
            SendType::Unreliable
        } else {
            SendType::ReliableOrdered { resend_time_ms: 10 }
        }),
        client_channels().len() == 1,
        client_channels()[0].max_memory_usage_bytes == 5 * 1024 * 1024,
        client_channels()[0].send_type == SendType::Unreliable,
        server_channels().len() == 3,
        BYTES_PER_TICK == 64 * 1024,
{
}

/// Every server channel's numeric id selects its own entry in the
/// server channel configuration, and that entry carries the same id;
/// distinct channels have distinct ids, numbered in declaration order.
pub proof fn lemma_server_channel_ids_index_config(channel: ServerChannel, other: ServerChannel)
    ensures
        (server_channel_id(channel) as int) < server_channels().len(),
        server_channels()[server_channel_id(channel) as int].channel_id == server_channel_id(channel),
        channel != other ==> server_channel_id(channel) != server_channel_id(other),
        server_channel_id(ServerChannel::SpawnCharacter) == 0,
        server_channel_id(ServerChannel::DespawnCharacter) == 1,
        server_channel_id(ServerChannel::WorldSnapshot) == 2,
        client_channel_id(ClientChannel::Input) == 0,
{
}


/// The state of one replicated entity in a world snapshot. A field that is
/// `None` did not change (in a diff) or is unknown. Positions and velocities
/// have type `V`, the yaw has type `Y`; this crate never inspects them.
#[derive(Clone, Copy, Debug)]
pub struct EntitySnapshot<V, Y> {
    pub id: EntityNetId,
    pub position: Option<V>,
    pub velocity: Option<V>,
    pub yaw: Option<Y>,
}

/// A world snapshot: every replicated character, plus the id of the last
/// input of the receiving client that the server has processed.
#[derive(Clone, Debug)]
pub struct WorldSnapshot<V, Y> {
    pub id: SnapshotId,
    pub acking_input_id: Option<InputId>,
    pub character_entities: Vec<EntitySnapshot<V, Y>>,
}

/// Tells a receiver to spawn a character. `is_local` is set only in the
/// message to the client that controls it.
#[derive(Clone, Copy, Debug)]
pub struct SpawnCharacterEvent<V> {
    pub net_id: EntityNetId,
    pub client_id: ClientId,
    pub position: V,
    pub is_local: bool,
}

/// Tells a receiver to despawn a character.
#[derive(PartialEq, Eq, Structural, Clone, Copy, Debug)]
pub struct DespawnCharacterEvent {
    pub net_id: EntityNetId,
}

/// What a player asked its character to do during one tick. The final
/// position is where the client's prediction put the character after that
/// tick; it is not sent over the network.
#[derive(Clone, Copy, Debug)]
pub struct CharacterInput<V, Y> {
    pub wish_direction: V,
    pub aim_yaw: Y,
    pub predicted_ability: bool,
    pub weapon_wish_fire: bool,
    pub final_position: Option<V>,
}

/// One tick of input from a client, with the last snapshot it processed and
/// how often it has been sent.
#[derive(Clone, Copy, Debug)]
pub struct PlayerInput<V, Y> {
    pub id: InputId,
    pub acking_snapshot_id: Option<SnapshotId>,
    pub character_input: Option<CharacterInput<V, Y>>,
    pub sends: u8,
}

/// Which fields of two entity snapshots are within the comparison
/// tolerance of each other. A flag only matters where both fields are set.
#[derive(PartialEq, Eq, Structural, Clone, Copy, Debug)]
pub struct SnapshotNearness {
    pub position: bool,
    pub velocity: bool,
    pub yaw: bool,
}

/// Whether two optional values count as unchanged: both unset, or both set
/// and `near` says they are within tolerance.
pub open spec fn option_unchanged<T>(a: Option<T>, b: Option<T>, near: bool) -> bool {
    match (a, b) {
        (Some(_), Some(_)) => near,
        (None, None) => true,
        _ => false,
    }
}

/// The field of a diff: nothing where unchanged, the newer value otherwise.
pub open spec fn diff_field<T>(mine: Option<T>, theirs: Option<T>, near: bool) -> Option<T> {
    if option_unchanged(mine, theirs, near) {
        None
    } else {
        mine
    }
}

/// The diff of an entity snapshot against an older one.
pub open spec fn entity_diff<V, Y>(
    mine: EntitySnapshot<V, Y>,
    theirs: EntitySnapshot<V, Y>,
    near: SnapshotNearness,
) -> EntitySnapshot<V, Y> {
    EntitySnapshot {
        id: mine.id,
        position: diff_field(mine.position, theirs.position, near.position),
        velocity: diff_field(mine.velocity, theirs.velocity, near.velocity),
        yaw: diff_field(mine.yaw, theirs.yaw, near.yaw),
    }
}

/// An entity snapshot that carries no field.
pub open spec fn entity_is_empty<V, Y>(e: EntitySnapshot<V, Y>) -> bool {
    e.position is None && e.velocity is None && e.yaw is None
}

/// The index of the first entity snapshot in `s` with net id `id`.
pub open spec fn find_id<V, Y>(s: Seq<EntitySnapshot<V, Y>>, id: EntityNetId) -> Option<int>
    decreases s.len(),
{
    if s.len() == 0 {
        None
    } else {
        match find_id(s.drop_last(), id) {
            Some(i) => Some(i),
            None => if s.last().id == id {
                Some(s.len() - 1)
            } else {
                None
            },
        }
    }
}

/// The entities of a world-snapshot diff: for each entity of the newer
/// snapshot, in order, its own diff against the first older entity with the
/// same id (left out when empty), or the entity itself when the older
/// snapshot has none with that id. `near[i]` compares `mine[i]` with its
/// older counterpart.
pub open spec fn diff_entities<V, Y>(
    mine: Seq<EntitySnapshot<V, Y>>,
    theirs: Seq<EntitySnapshot<V, Y>>,
    near: Seq<SnapshotNearness>,
) -> Seq<EntitySnapshot<V, Y>>
    decreases mine.len(),
{
    if mine.len() == 0 {
        seq![]
    } else {
        let before = diff_entities(mine.drop_last(), theirs, near.drop_last());
        let e = mine.last();
        match find_id(theirs, e.id) {
            Some(j) => {
                let d = entity_diff(e, theirs[j], near.last());
                if entity_is_empty(d) {
                    before
                } else {
                    before.push(d)
                }
            },
            None => before.push(e),
        }
    }
}

impl<V: Copy, Y: Copy> EntitySnapshot<V, Y> {
    /// The fields of `self` that changed relative to `other`: each field
    /// is dropped where both snapshots agree within tolerance (as `near`
    /// reports) or both lack it, and kept otherwise. The id is kept.
    pub fn diff(&self, other: &EntitySnapshot<V, Y>, near: SnapshotNearness) -> (d: EntitySnapshot<
        V,
        Y,
    >)
        ensures
            d == entity_diff(*self, *other, near),
    {
        let position = match (self.position, other.position) {
            (Some(_), Some(_)) => if near.position {
                None
            } else {
                self.position
            },
            (None, None) => None,
            _ => self.position,
        };
        let velocity = match (self.velocity, other.velocity) {
            (Some(_), Some(_)) => if near.velocity {
                None
            } else {
                self.velocity
            },
            (None, None) => None,
            _ => self.velocity,
        };
        let yaw = match (self.yaw, other.yaw) {
            (Some(_), Some(_)) => if near.yaw {
                None
            } else {
                self.yaw
            },
            (None, None) => None,
            _ => self.yaw,
        };
        EntitySnapshot { id: self.id, position, velocity, yaw }
    }

    /// Whether the snapshot carries no field at all.
    pub fn is_empty(&self) -> (empty: bool)
        ensures
            empty == entity_is_empty(*self),
    {
        self.position.is_none() && self.velocity.is_none() && self.yaw.is_none()
    }
}

/// The index of the first entity snapshot in `entities` whose net id is `id`.
pub fn find_entity<V, Y>(entities: &Vec<EntitySnapshot<V, Y>>, id: EntityNetId) -> (found: Option<
    usize,
>)
    ensures
        match found {
            Some(j) => {
                &&& find_id(entities@, id) == Some(j as int)
                &&& j < entities@.len()
                &&& entities@[j as int].id == id
            },
            None => find_id(entities@, id) is None,
        },
{
    let mut j: usize = 0;
    while j < entities.len()
        invariant
            j <= entities@.len(),
            find_id(entities@.take(j as int), id) is None,
        decreases entities@.len() - j,
    {
        assert(entities@.take(j as int + 1).drop_last() =~= entities@.take(j as int));
        if entities[j].id == id {
            proof {
                lemma_find_id_prefix(entities@, j as int + 1, id);
            }
            return Some(j);
        }
        j = j + 1;
    }
    assert(entities@.take(j as int) =~= entities@);
    proof {
        lemma_find_id(entities@, id);
    }
    None
}

/// The first occurrence of an id is a valid index holding that id, and no
/// earlier entity holds it; where there is none, no entity holds it.
pub proof fn lemma_find_id<V, Y>(s: Seq<EntitySnapshot<V, Y>>, id: EntityNetId)
    ensures
        match find_id(s, id) {
            Some(i) => {
                &&& 0 <= i < s.len()
                &&& s[i].id == id
                &&& forall|k: int| 0 <= k < i ==> (#[trigger] s[k]).id != id
            },
            None => forall|k: int| 0 <= k < s.len() ==> (#[trigger] s[k]).id != id,
        },
    decreases s.len(),
{
    if s.len() > 0 {
        lemma_find_id(s.drop_last(), id);
        assert forall|k: int| 0 <= k < s.len() - 1 implies s.drop_last()[k] == #[trigger] s[k] by {}
    }
}

/// A shorter prefix has no id that the longer one lacks: a first occurrence
/// in a prefix is the first occurrence in the whole sequence.
proof fn lemma_find_id_prefix<V, Y>(s: Seq<EntitySnapshot<V, Y>>, n: int, id: EntityNetId)
    requires
        0 <= n <= s.len(),
        find_id(s.take(n), id) is Some,
    ensures
        find_id(s, id) == find_id(s.take(n), id),
    decreases s.len() - n,
{
    if n < s.len() {
        assert(s.take(n + 1).drop_last() =~= s.take(n));
        lemma_find_id_prefix(s, n + 1, id);
    } else {
        assert(s.take(n) =~= s);
    }
}

impl<V: Copy, Y: Copy> WorldSnapshot<V, Y> {
    /// The snapshot that brings a receiver holding `other` up to `self`:
    /// same id and acknowledgement, and per entity only what changed (see
    /// `diff_entities`). `near[i]` compares the `i`-th entity of `self` with
    /// the first entity of `other` that has the same id.
    pub fn diff(&self, other: &WorldSnapshot<V, Y>, near: &Vec<SnapshotNearness>) -> (d:
        WorldSnapshot<V, Y>)
        requires
            near@.len() == self.character_entities@.len(),
        ensures
            d.id == self.id,
            d.acking_input_id == self.acking_input_id,
            d.character_entities@ == diff_entities(
                self.character_entities@,
                other.character_entities@,
                near@,
            ),
    {
        let mut entities: Vec<EntitySnapshot<V, Y>> = Vec::new();
        let mut i: usize = 0;
        while i < self.character_entities.len()
            invariant
                i <= self.character_entities@.len(),
                near@.len() == self.character_entities@.len(),
                entities@ == diff_entities(
                    self.character_entities@.take(i as int),
                    other.character_entities@,
                    near@.take(i as int),
                ),
            decreases self.character_entities@.len() - i,
        {
            let entity = self.character_entities[i];
            proof {
                assert(self.character_entities@.take(i as int + 1).drop_last()
                    =~= self.character_entities@.take(i as int));
                assert(near@.take(i as int + 1).drop_last() =~= near@.take(i as int));
            }
            match find_entity(&other.character_entities, entity.id) {
                Some(j) => {
                    let d = entity.diff(&other.character_entities[j], near[i]);
                    if !d.is_empty() {
                        entities.push(d);
                    }
                },
                None => {
                    entities.push(entity);
                },
            }
            i = i + 1;
        }
        proof {
            assert(self.character_entities@.take(i as int) =~= self.character_entities@);
            assert(near@.take(i as int) =~= near@);
        }
        WorldSnapshot {
            id: self.id,
            acking_input_id: self.acking_input_id,
            character_entities: entities,
        }
    }
}


/// A diff never grows: it has at most one entry per entity of the newer
/// snapshot, and every entry has the id of such an entity.
pub proof fn lemma_diff_entities_come_from_newer<V, Y>(
    mine: Seq<EntitySnapshot<V, Y>>,
    theirs: Seq<EntitySnapshot<V, Y>>,
    near: Seq<SnapshotNearness>,
)
    ensures
        diff_entities(mine, theirs, near).len() <= mine.len(),
        forall|k: int|
            0 <= k < diff_entities(mine, theirs, near).len() ==> exists|i: int|
                0 <= i < mine.len() && mine[i].id == #[trigger] diff_entities(
                    mine,
                    theirs,
                    near,
                )[k].id,
    decreases mine.len(),
{
    if mine.len() > 0 {
        let before = diff_entities(mine.drop_last(), theirs, near.drop_last());
        lemma_diff_entities_come_from_newer(mine.drop_last(), theirs, near.drop_last());
        let d = diff_entities(mine, theirs, near);
        assert forall|k: int| 0 <= k < d.len() implies exists|i: int|
            0 <= i < mine.len() && mine[i].id == #[trigger] d[k].id by {
            if k < before.len() {
                assert(d[k] == before[k]);
                let i = choose|i: int| 0 <= i < mine.drop_last().len() && mine.drop_last()[i].id == before[k].id;
                assert(mine[i] == mine.drop_last()[i]);
            } else {
                assert(d[k].id == mine[mine.len() - 1].id);
            }
        }
    }
}

/// Against a snapshot that shares no entity with it, the diff of a
/// snapshot is the snapshot itself: new entities are sent in full.
pub proof fn lemma_diff_against_unrelated_is_full<V, Y>(
    mine: Seq<EntitySnapshot<V, Y>>,
    theirs: Seq<EntitySnapshot<V, Y>>,
    near: Seq<SnapshotNearness>,
)
    requires
        forall|i: int, j: int|
            0 <= i < mine.len() && 0 <= j < theirs.len() ==> #[trigger] mine[i].id
                != #[trigger] theirs[j].id,
    ensures
        diff_entities(mine, theirs, near) == mine,
    decreases mine.len(),
{
    if mine.len() > 0 {
        assert forall|i: int, j: int|
            0 <= i < mine.drop_last().len() && 0 <= j < theirs.len() implies #[trigger] mine.drop_last()[i].id
                != #[trigger] theirs[j].id by {
            assert(mine.drop_last()[i] == mine[i]);
        }
        lemma_diff_against_unrelated_is_full(mine.drop_last(), theirs, near.drop_last());
        lemma_find_id(theirs, mine.last().id);
        assert(mine.last() == mine[mine.len() - 1]);
        assert(mine.drop_last().push(mine.last()) =~= mine);
    }
}

/// The diff of one entity against its older counterpart, written out field
/// by field: a field is dropped when both sides lack it, or both carry it
/// and `near` says they are within tolerance; otherwise the newer value is
/// kept.
pub open spec fn expected_entity_diff<V, Y>(
    mine: EntitySnapshot<V, Y>,
    theirs: EntitySnapshot<V, Y>,
    near: SnapshotNearness,
) -> EntitySnapshot<V, Y> {
    EntitySnapshot {
        id: mine.id,
        position: if (mine.position is Some && theirs.position is Some && near.position) || (
        mine.position is None && theirs.position is None) {
            None
        } else {
            mine.position
        },
        velocity: if (mine.velocity is Some && theirs.velocity is Some && near.velocity) || (
        mine.velocity is None && theirs.velocity is None) {
            None
        } else {
            mine.velocity
        },
        yaw: if (mine.yaw is Some && theirs.yaw is Some && near.yaw) || (mine.yaw is None
            && theirs.yaw is None) {
            None
        } else {
            mine.yaw
        },
    }
}

/// An entity's diff is its field-by-field diff: a field is dropped exactly
/// when both sides lack it, or both carry it within tolerance.
pub proof fn lemma_entity_diff_fields<V, Y>(
    mine: EntitySnapshot<V, Y>,
    theirs: EntitySnapshot<V, Y>,
    near: SnapshotNearness,
)
    ensures
        entity_diff(mine, theirs, near) == expected_entity_diff(mine, theirs, near),
        entity_is_empty(entity_diff(mine, theirs, near)) == !(expected_entity_diff(
            mine,
            theirs,
            near,
        ).position is Some || expected_entity_diff(mine, theirs, near).velocity is Some
            || expected_entity_diff(mine, theirs, near).yaw is Some),
{
}

/// What a world diff holds for each entity of the newer snapshot. Where
/// the older snapshot has a counterpart (the first older entity with the
/// same id), the diff holds the entity's field-by-field diff exactly when
/// that carries some field, and holds nothing for it otherwise; an entity
/// without counterpart is sent in full. Every entry of the diff is one of
/// these, and the entries keep the order of the newer snapshot.
pub proof fn lemma_world_diff_entries<V, Y>(
    mine: Seq<EntitySnapshot<V, Y>>,
    theirs: Seq<EntitySnapshot<V, Y>>,
    near: Seq<SnapshotNearness>,
    i: int,
)
    requires
        near.len() == mine.len(),
        0 <= i < mine.len(),
    ensures
        forall|j: int|
            0 <= j < theirs.len() && theirs[j].id == mine[i].id && (forall|k: int|
                0 <= k < j ==> theirs[k].id != mine[i].id) ==> {
                let d = expected_entity_diff(mine[i], theirs[j], near[i]);
                &&& (d.position is Some || d.velocity is Some || d.yaw is Some)
                    ==> diff_entities(mine, theirs, near).contains(d)
                &&& !(d.position is Some || d.velocity is Some || d.yaw is Some)
                    ==> diff_entities(mine, theirs, near) == diff_entities(
                    mine.remove(i),
                    theirs,
                    near.remove(i),
                )
            },
        (forall|j: int| 0 <= j < theirs.len() ==> theirs[j].id != mine[i].id) ==> diff_entities(
            mine,
            theirs,
            near,
        ).contains(mine[i]),
    decreases mine.len(),
{
    lemma_find_id(theirs, mine[i].id);
    let last = mine.len() - 1;
    if i == last {
        assert(mine.remove(i) =~= mine.drop_last());
        assert(near.remove(i) =~= near.drop_last());
        assert(mine.last() == mine[i]);
        assert(near.last() == near[i]);
        let before = diff_entities(mine.drop_last(), theirs, near.drop_last());
        let r = diff_entities(mine, theirs, near);
        match find_id(theirs, mine[i].id) {
            Some(j) => {
                let d = entity_diff(mine[i], theirs[j], near[i]);
                if !entity_is_empty(d) {
                    assert(r[r.len() - 1] == d);
                }
            },
            None => {
                assert(r[r.len() - 1] == mine[i]);
            },
        }
    } else {
        lemma_world_diff_entries(mine.drop_last(), theirs, near.drop_last(), i);
        assert(mine.drop_last()[i] == mine[i]);
        assert(near.drop_last()[i] == near[i]);
        let before = diff_entities(mine.drop_last(), theirs, near.drop_last());
        let r = diff_entities(mine, theirs, near);
        assert forall|x: EntitySnapshot<V, Y>| before.contains(x) implies r.contains(x) by {
            let k = choose|k: int| 0 <= k < before.len() && before[k] == x;
            assert(r[k] == before[k]);
        }
        // Removing entity `i` commutes with dropping the last entity.
        assert(mine.remove(i).drop_last() =~= mine.drop_last().remove(i));
        assert(near.remove(i).drop_last() =~= near.drop_last().remove(i));
        assert(mine.remove(i).last() == mine.last());
        assert(near.remove(i).last() == near.last());
        assert(mine.remove(i).len() > 0);
    }
}

/// A field after a receiver applies an update to it: the update where it
/// carries one, the old value otherwise.
pub open spec fn apply_update<T>(base: Option<T>, update: Option<T>) -> Option<T> {
    match update {
        Some(_) => update,
        None => base,
    }
}

/// A receiver holding the older field and applying the diff ends up with
/// the newer value, or keeps its own where the two were within tolerance.
/// (A field that the newer snapshot lacks is not conveyed, so the law is
/// stated for fields that the newer snapshot carries.)
pub proof fn lemma_applying_diff_restores_field<T>(mine: Option<T>, theirs: Option<T>, near: bool)
    requires
        mine is Some,
    ensures
        apply_update(theirs, diff_field(mine, theirs, near)) == (if near && theirs is Some {
            theirs
        } else {
            mine
        }),
{
}

/// An entity's diff keeps its id, sends every field that appeared or
/// changed beyond tolerance, and leaves out every field that did not.
pub proof fn lemma_entity_diff_sends_changes<V, Y>(
    mine: EntitySnapshot<V, Y>,
    theirs: EntitySnapshot<V, Y>,
    near: SnapshotNearness,
)
    ensures
        entity_diff(mine, theirs, near).id == mine.id,
        option_unchanged(mine.position, theirs.position, near.position) ==> entity_diff(
            mine,
            theirs,
            near,
        ).position is None,
        !option_unchanged(mine.position, theirs.position, near.position) ==> entity_diff(
            mine,
            theirs,
            near,
        ).position == mine.position,
        !option_unchanged(mine.velocity, theirs.velocity, near.velocity) ==> entity_diff(
            mine,
            theirs,
            near,
        ).velocity == mine.velocity,
        !option_unchanged(mine.yaw, theirs.yaw, near.yaw) ==> entity_diff(mine, theirs, near).yaw
            == mine.yaw,
        mine.position is Some && theirs.position is None ==> entity_diff(
            mine,
            theirs,
            near,
        ).position == mine.position,
{
}

} // verus!
