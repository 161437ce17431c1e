//! The protocol core of a reverse proxy that stands between Minecraft clients and a backend
//! server and adds Velocity modern forwarding.
//!
//! The library holds no socket. It turns bytes into packets and packets into bytes, and it
//! decides, event by event, what a connection does next:
//!
//! - [`io`]: reading from bytes in memory.
//! - [`types`]: the primitive values (VarInt, string, UUID) and their byte forms.
//! - [`packets`]: the packets of the handshake and login phases, and their framing.
//! - [`connection`]: the state machine of one connection.
//! - [`config`]: what the configuration decides.

pub mod config;
pub mod connection;
pub mod io;
pub mod packets;
pub mod types;
