//! Game-logic core of a small networked top-down shooter: the wire protocol
//! (snapshots, inputs, channels), the client's prediction bookkeeping, the
//! server's connection and acknowledgement bookkeeping, and the weapon and
//! ability timers. Everything that does arithmetic on floating-point vectors
//! (movement, friction, collision) lives outside this crate; here such values
//! are carried as type parameters and never inspected.

pub mod components;
pub mod net;
pub mod server;
pub mod client;
pub mod shared;
pub mod map;
