//! The game's own values: the simulation tick, grid cells, and the
//! application packets that travel between game client and game server.
//! Their encoding is the application's concern; the network core carries
//! them as opaque payloads.
use vstd::prelude::*;

verus! {

/// A simulation step count; it starts again at zero after the largest.
#[derive(Clone, Copy, Debug, PartialEq, Eq, PartialOrd, Ord, Structural)]
pub struct Tick(pub u32);

impl Tick {
    pub fn zero() -> (r: Tick)
        ensures
            r.0 == 0,
    {
        Tick(0)
    }

    /// Advances by one step, wrapping after the largest count.
    pub fn increment_self(&mut self)
        ensures
            final(self).0 == if old(self).0 == u32::MAX {
                0
            } else {
                (old(self).0 + 1) as u32
            },
    {
        self.0 = self.0.wrapping_add(1);
    }
}

/// One cell of the world grid.
#[derive(Clone, Copy, Debug, PartialEq, Eq, Structural)]
pub enum Cell {
    Empty,
    Stone,
}

/// Game server to game client.
#[derive(Clone, Debug)]
pub enum ServerPacket {
    ConnectChallenge { challenge: String },
    SetCells { cells: Vec<Cell> },
}

/// Game client to game server.
#[derive(Clone, Debug)]
pub enum ClientPacket {
    Connect(),
    SetName { name: String },
}

} // verus!
