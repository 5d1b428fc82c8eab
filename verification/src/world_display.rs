use vstd::prelude::*;
use vstd::arithmetic::div_mod::lemma_fundamental_div_mod;
use crate::grid::flat_index;
use crate::world::World;

verus! {

/// A pan command for a chunk viewport or for the editor cursor.
pub enum MoveDirections {
    Left,
    Right,
    Up,
    Down,
}

/// The per-axis adjustment a pan command asks for.
pub open spec fn move_delta(d: MoveDirections) -> (int, int) {
    match d {
        MoveDirections::Left => (-1, 0),
        MoveDirections::Right => (1, 0),
        MoveDirections::Up => (0, 1),
        MoveDirections::Down => (0, -1),
    }
}

/// A chunk origin stays inside the world: with `chunk` dividing `size`
/// evenly and the address below the chunk count, the whole chunk row fits.
pub proof fn lemma_chunk_origin(addr: int, chunk: int, size: int)
    requires
        0 <= addr,
        chunk >= 1,
        size >= 1,
        size % chunk == 0,
        addr < size / chunk,
    ensures
        0 <= addr * chunk,
        addr * chunk + chunk <= size,
{
    let n = size / chunk;
    lemma_fundamental_div_mod(size, chunk);
    assert(n * chunk == size) by (nonlinear_arith)
        requires
            size == chunk * n + size % chunk,
            size % chunk == 0,
    ;
    assert(0 <= addr * chunk && addr * chunk + chunk <= n * chunk) by (nonlinear_arith)
        requires
            0 <= addr < n,
            chunk >= 1,
    ;
}

/// Renders nothing itself: computes, tile by tile, what the play viewport
/// shows of the current chunk, for a display layer to draw.
pub struct GameWorldDisplay {}

impl GameWorldDisplay {
    /// What the play viewport shows at chunk-local `(x, y)`: the world cell
    /// under it.  Missing-tile convention of the play viewport: a local
    /// offset outside the instantiated grid reads as alive, so the world's
    /// rim acts as an impassable border.
    pub open spec fn chunk_tile_at(w: World, x: int, y: int) -> bool {
        let world_x = w.current_chunk_address.0 as int * w.chunk_x_size as int + x;
        let world_y = w.current_chunk_address.1 as int * w.chunk_y_size as int + y;
        if w.in_bounds(world_x, world_y) {
            w.cell_at(world_x, world_y)
        } else {
            true
        }
    }

    /// The alive state shown at chunk-local `(x, y)`.
    pub fn chunk_tile(world: &World, x: usize, y: usize) -> (alive: bool)
        requires
            world.wf(),
            x < world.chunk_x_size,
            y < world.chunk_y_size,
        ensures
            alive == Self::chunk_tile_at(*world, x as int, y as int),
    {
        proof {
            lemma_chunk_origin(
                world.current_chunk_address.0 as int,
                world.chunk_x_size as int,
                world.grid.x_size as int,
            );
            lemma_chunk_origin(
                world.current_chunk_address.1 as int,
                world.chunk_y_size as int,
                world.grid.y_size as int,
            );
        }
        let to_fetch_x: usize = x + (world.current_chunk_address.0 as usize) * world.chunk_x_size;
        let to_fetch_y: usize = y + (world.current_chunk_address.1 as usize) * world.chunk_y_size;
        match world.grid.query(to_fetch_x, to_fetch_y) {
            Some(alive) => alive,
            None => true,
        }
    }

    /// Every tile of the current chunk in row-major order, ready to draw.
    #[verifier::loop_isolation(false)]
    pub fn chunk_tiles(world: &World) -> (tiles: Vec<bool>)
        requires
            world.wf(),
        ensures
            tiles@.len() == world.chunk_x_size as int * world.chunk_y_size as int,
            forall|i: int, j: int|
                0 <= i < world.chunk_x_size && 0 <= j < world.chunk_y_size
                    ==> #[trigger] tiles@[flat_index(i, j, world.chunk_x_size as int)]
                        == Self::chunk_tile_at(*world, i, j),
    {
        let chunk_x_size = world.chunk_x_size;
        let chunk_y_size = world.chunk_y_size;
        let mut tiles: Vec<bool> = Vec::new();
        let mut y: usize = 0;
        while y < chunk_y_size
            invariant
                y <= chunk_y_size,
                tiles@.len() == y * chunk_x_size,
                forall|i: int, j: int|
                    0 <= i < chunk_x_size && 0 <= j < y
                        ==> #[trigger] tiles@[flat_index(i, j, chunk_x_size as int)]
                            == Self::chunk_tile_at(*world, i, j),
            decreases chunk_y_size - y,
        {
            let mut x: usize = 0;
            while x < chunk_x_size
                invariant
                    x <= chunk_x_size,
                    y < chunk_y_size,
                    tiles@.len() == y * chunk_x_size + x,
                    forall|i: int, j: int|
                        0 <= i < chunk_x_size && (0 <= j < y || (j == y && 0 <= i < x))
                            ==> #[trigger] tiles@[flat_index(i, j, chunk_x_size as int)]
                                == Self::chunk_tile_at(*world, i, j),
                decreases chunk_x_size - x,
            {
                let ghost pre = tiles@;
                tiles.push(Self::chunk_tile(world, x, y));
                x = x + 1;
                proof {
                    assert forall|i: int, j: int|
                        0 <= i < chunk_x_size && (0 <= j < y || (j == y && 0 <= i < x))
                            implies #[trigger] tiles@[flat_index(i, j, chunk_x_size as int)]
                                == Self::chunk_tile_at(*world, i, j) by {
                        if j == y && i == x - 1 {
                            assert(flat_index(i, j, chunk_x_size as int) == pre.len());
                        } else {
                            assert(0 <= j * chunk_x_size + i < y * chunk_x_size + (x - 1))
                                by (nonlinear_arith)
                                requires
                                    chunk_x_size >= 1,
                                    x >= 1,
                                    0 <= i < chunk_x_size,
                                    0 <= j <= y,
                                    j < y || i < x - 1,
                            ;
                            assert(flat_index(i, j, chunk_x_size as int) == j * chunk_x_size + i);
                            assert(tiles@[flat_index(i, j, chunk_x_size as int)] == pre[flat_index(
                                i,
                                j,
                                chunk_x_size as int,
                            )]);
                        }
                    }
                }
            }
            y = y + 1;
            proof {
                assert(y * chunk_x_size == (y - 1) * chunk_x_size + chunk_x_size)
                    by (nonlinear_arith);
            }
        }
        proof {
            assert(chunk_y_size * chunk_x_size == chunk_x_size * chunk_y_size)
                by (nonlinear_arith);
        }
        tiles
    }
}

} // verus!
