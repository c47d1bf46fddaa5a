# brutal_grounds

The game logic of a small networked top-down shooter, verified with Verus.

`src/` is the verified library:

- `net` — identifiers, transport channels and their configuration, and the
  wire types: entity and world snapshots with their diffs, spawn/despawn
  events, player inputs.
- `client` — the client's prediction bookkeeping: connection attempts, the
  history of inputs (ordered ids, one second kept, each sent once), taking in
  world snapshots (stale ones refused, acknowledged inputs dropped), what to
  re-simulate after a correction, keyboard axes and the ability cooldown.
- `server` — connected players (a Bevy `HashMap`), id allocation, what a
  connection or disconnection causes, recording client inputs, building and
  personalising world snapshots.
- `components` — replicated entities and the weapon's fire-rate timer.
- `shared`, `map` — game state, start-up decision, navmesh debug cycling.

Positions, velocities and angles are floating point; the library carries
them as type parameters and never inspects them. Where a decision depends
on comparing them (snapshot diffs), the comparison's outcome is an argument.

`app/` is the Bevy program around the library: plugins, systems, transport
I/O, serialisation, movement and collision, rendering.
