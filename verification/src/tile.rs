use vstd::prelude::*;

verus! {

/// A single cell of the world grid: alive or dead.
///
/// A tile's identity is the coordinate it sits at; the tile itself only
/// stores the alive flag.  Tiles are owned by the grid, which is the only
/// component allowed to mutate them.
pub struct Tile {
    pub alive: bool,
}

impl Tile {
    /// A fresh tile starts out dead.
    pub fn default() -> (t: Tile)
        ensures
            !t.alive,
    {
        Tile { alive: false }
    }

    /// Overwrite the alive flag.
    pub fn set_alive(&mut self, value: bool)
        ensures
            final(self).alive == value,
    {
        self.alive = value;
    }
}

} // verus!
