//! Verified core of a tick-based multiplayer game server and its client
//! library: the length-prefixed framing codec, the shared transform and
//! game-state types, the server orchestrator's routing and tick logic, and
//! the client-side connection state machine.
//!
//! Everything here is pure logic on plain values; sockets and the event loop
//! live outside the library and feed bytes and events into it.

pub mod client;
pub mod frame;
pub mod server;
pub mod state;
pub mod wire;
