//! A client/server networking core that joins a reliable, ordered stream and
//! an unreliable datagram channel into one logical connection per peer.
//!
//! - [`wire`]: fixed-width little-endian framing.
//! - [`protocol`]: protocol packets, ids and their exact encoding.
//! - [`buffer`]: acknowledgement-driven reliable delivery with timed retries.
//! - [`client`]: the client handshake and inbound demultiplexing.
//! - [`server`]: the server's connection registry and unreliable routing.
//! - [`datagram`]: the unreliable transport's size bound.
//! - [`game`]: the game's own values carried as application payloads.
//! - [`gameloop`]: a fixed-rate tick timer.
//! - [`grid`]: the server's double-buffered world grid.
use vstd::prelude::*;

pub mod buffer;
pub mod client;
pub mod datagram;
pub mod game;
pub mod gameloop;
pub mod grid;
pub mod protocol;
pub mod server;
pub mod wire;

verus! {

} // verus!
