use vstd::prelude::*;
use crate::grid::Grid;
use crate::grid::keys_has;
use crate::grid::keys_has_up_to;
use crate::grid::key_is;
use crate::world_display::MoveDirections;
use crate::world_display::move_delta;

verus! {

/// 1 for an alive cell, 0 for a dead one; the unit of a neighbor census.
pub open spec fn one_if(b: bool) -> int {
    if b {
        1
    } else {
        0
    }
}

/// `(x, y)` is one of the eight Moore neighbors of `(cx, cy)`.
pub open spec fn is_moore_neighbor(cx: int, cy: int, x: int, y: int) -> bool {
    &&& !(x == cx && y == cy)
    &&& -1 <= x - cx <= 1
    &&& -1 <= y - cy <= 1
}

/// Where a pan lands: the target clamped into `[0, n_chunks - 1]`.
pub open spec fn clamp_chunk(cur: int, delta: int, n_chunks: int) -> int {
    let moved = cur + delta;
    if moved < 0 {
        0
    } else if moved > n_chunks - 1 {
        n_chunks - 1
    } else {
        moved
    }
}

/// How long a frame may wait for input: zero stays zero, a single-chunk
/// world polls briefly, any other world gets a fifth of the frame interval.
pub open spec fn computed_read_input_time(
    x_size: int,
    y_size: int,
    chunk_x_size: int,
    chunk_y_size: int,
    frame_interval_ms: int,
    allotted_read_input_time: int,
) -> int {
    let one_chunk = x_size / chunk_x_size == 1 && y_size / chunk_y_size == 1;
    if allotted_read_input_time == 0 {
        0
    } else if one_chunk {
        10
    } else {
        frame_interval_ms / 5
    }
}

/// The whole simulation state: the grid with its alive index, plus a
/// pannable chunk viewport and the frame/input timing configuration.
pub struct World {
    pub grid: Grid,
    pub chunk_x_size: usize,
    pub chunk_y_size: usize,
    pub current_chunk_address: (i32, i32),
    pub allotted_read_input_time: usize,
    pub frame_interval_ms: usize,
}

/// Which seed pattern orientation an oscillator is inserted with.
pub enum OscillatorOrientation {
    Vertical,
    Horizontal,
}

impl World {
    /// The coordinate lies inside the world rectangle.
    pub open spec fn in_bounds(self, x: int, y: int) -> bool {
        self.grid.in_bounds(x, y)
    }

    /// The alive state at `(x, y)`; outside the rectangle counts as dead.
    pub open spec fn cell_at(self, x: int, y: int) -> bool {
        self.grid.cell_at(x, y)
    }

    /// How many chunks fit on the x axis.
    pub open spec fn chunks_x(self) -> int {
        self.grid.x_size as int / self.chunk_x_size as int
    }

    /// How many chunks fit on the y axis.
    pub open spec fn chunks_y(self) -> int {
        self.grid.y_size as int / self.chunk_y_size as int
    }

    /// Well-formedness: a valid grid, chunk dimensions that tile the world
    /// evenly, world dimensions that fit the viewport arithmetic, and a chunk
    /// address inside the valid range.
    pub open spec fn wf(self) -> bool {
        &&& self.grid.wf()
        &&& self.grid.x_size <= 0x7fff_ffff
        &&& self.grid.y_size <= 0x7fff_ffff
        &&& 1 <= self.chunk_x_size <= self.grid.x_size
        &&& 1 <= self.chunk_y_size <= self.grid.y_size
        &&& self.grid.x_size as int % self.chunk_x_size as int == 0
        &&& self.grid.y_size as int % self.chunk_y_size as int == 0
        &&& 0 <= self.current_chunk_address.0 < self.chunks_x()
        &&& 0 <= self.current_chunk_address.1 < self.chunks_y()
    }

    /// The two worlds share every piece of configuration: dimensions, chunk
    /// layout, viewport position and timing.  Only cell contents may differ.
    pub open spec fn same_setup(self, other: World) -> bool {
        &&& other.grid.x_size == self.grid.x_size
        &&& other.grid.y_size == self.grid.y_size
        &&& other.chunk_x_size == self.chunk_x_size
        &&& other.chunk_y_size == self.chunk_y_size
        &&& other.current_chunk_address == self.current_chunk_address
        &&& other.allotted_read_input_time == self.allotted_read_input_time
        &&& other.frame_interval_ms == self.frame_interval_ms
    }

    /// The exact number of live Moore neighbors of `(x, y)`: the eight
    /// surrounding positions, with everything outside the rectangle dead.
    pub open spec fn live_nbrs(self, x: int, y: int) -> int {
        one_if(self.cell_at(x - 1, y - 1)) + one_if(self.cell_at(x, y - 1)) + one_if(
            self.cell_at(x + 1, y - 1),
        ) + one_if(self.cell_at(x - 1, y)) + one_if(self.cell_at(x + 1, y)) + one_if(
            self.cell_at(x - 1, y + 1),
        ) + one_if(self.cell_at(x, y + 1)) + one_if(self.cell_at(x + 1, y + 1))
    }

    /// The rule set: a live cell survives with two or three live neighbors,
    /// a dead cell is born with exactly three, everything else is dead.
    pub open spec fn next_cell(self, x: int, y: int) -> bool {
        self.in_bounds(x, y) && {
            let n = self.live_nbrs(x, y);
            if self.cell_at(x, y) {
                2 <= n <= 3
            } else {
                n == 3
            }
        }
    }

    /// Build a world of `x_size` by `y_size` cells, all dead, with the
    /// viewport at chunk `(0, 0)`.  The chunk dimensions must tile the world
    /// evenly; a zero or non-dividing size is a configuration error and has
    /// no meaning later, so it is rejected here, at construction.
    pub fn new(
        x_size: usize,
        y_size: usize,
        chunk_x_size: usize,
        chunk_y_size: usize,
        frame_interval_ms: usize,
        allotted_read_input_time: usize,
    ) -> (w: World)
        requires
            1 <= x_size <= 0x7fff_ffff,
            1 <= y_size <= 0x7fff_ffff,
            1 <= chunk_x_size <= x_size,
            1 <= chunk_y_size <= y_size,
            x_size as int % chunk_x_size as int == 0,
            y_size as int % chunk_y_size as int == 0,
            x_size * y_size <= usize::MAX,
        ensures
            w.wf(),
            w.grid.x_size == x_size,
            w.grid.y_size == y_size,
            w.chunk_x_size == chunk_x_size,
            w.chunk_y_size == chunk_y_size,
            w.current_chunk_address == (0i32, 0i32),
            w.frame_interval_ms == frame_interval_ms,
            w.allotted_read_input_time == computed_read_input_time(
                x_size as int,
                y_size as int,
                chunk_x_size as int,
                chunk_y_size as int,
                frame_interval_ms as int,
                allotted_read_input_time as int,
            ),
            w.grid.alive_tile_keys@.len() == 0,
            forall|x: int, y: int| !w.cell_at(x, y),
    {
        let grid = Grid::new(x_size, y_size);
        proof {
            assert(x_size as int / chunk_x_size as int >= 1) by (nonlinear_arith)
                requires
                    1 <= chunk_x_size <= x_size,
            ;
            assert(y_size as int / chunk_y_size as int >= 1) by (nonlinear_arith)
                requires
                    1 <= chunk_y_size <= y_size,
            ;
        }
        let is_chunk_1_by_1 = x_size / chunk_x_size == 1 && y_size / chunk_y_size == 1;
        World {
            grid,
            chunk_x_size,
            chunk_y_size,
            current_chunk_address: (0, 0),
            allotted_read_input_time: (
                if allotted_read_input_time == 0 {
                    0
                } else if is_chunk_1_by_1 {
                    10
                } else {
                    frame_interval_ms / 5
                }
            ),
            frame_interval_ms,
        }
    }

    /// Clear every tile back to dead and empty the alive index; the
    /// dimensions, viewport and timing configuration are kept.
    pub fn reset_world(&mut self)
        requires
            old(self).wf(),
        ensures
            final(self).wf(),
            old(self).same_setup(*final(self)),
            final(self).grid.alive_tile_keys@.len() == 0,
            forall|x: int, y: int| !final(self).cell_at(x, y),
    {
        self.grid.reset();
    }

    /// Mark one coordinate alive, updating the dense tiles and the alive
    /// index together.
    pub fn insert_position(grid: &mut Grid, key: (usize, usize))
        requires
            old(grid).wf(),
            old(grid).in_bounds(key.0 as int, key.1 as int),
        ensures
            final(grid).wf(),
            final(grid).x_size == old(grid).x_size,
            final(grid).y_size == old(grid).y_size,
            final(grid).cell_at(key.0 as int, key.1 as int),
            forall|i: int, j: int|
                !(i == key.0 as int && j == key.1 as int)
                    ==> #[trigger] final(grid).cell_at(i, j) == old(grid).cell_at(i, j),
    {
        grid.set_alive(key.0, key.1, true);
    }

    /// Pan the viewport one chunk in the given direction, clamping into the
    /// valid chunk range: a request past an edge silently stays at that edge.
    pub fn move_chunk(&mut self, move_direction: MoveDirections)
        requires
            old(self).wf(),
        ensures
            final(self).wf(),
            final(self).grid == old(self).grid,
            final(self).chunk_x_size == old(self).chunk_x_size,
            final(self).chunk_y_size == old(self).chunk_y_size,
            final(self).allotted_read_input_time == old(self).allotted_read_input_time,
            final(self).frame_interval_ms == old(self).frame_interval_ms,
            final(self).current_chunk_address.0 as int == clamp_chunk(
                old(self).current_chunk_address.0 as int,
                move_delta(move_direction).0,
                old(self).chunks_x(),
            ),
            final(self).current_chunk_address.1 as int == clamp_chunk(
                old(self).current_chunk_address.1 as int,
                move_delta(move_direction).1,
                old(self).chunks_y(),
            ),
    {
        let mut adjustment_amount: (i32, i32) = (0, 0);
        match move_direction {
            MoveDirections::Left => {
                adjustment_amount = (adjustment_amount.0 - 1, adjustment_amount.1)
            },
            MoveDirections::Right => {
                adjustment_amount = (adjustment_amount.0 + 1, adjustment_amount.1)
            },
            MoveDirections::Up => {
                adjustment_amount = (adjustment_amount.0, adjustment_amount.1 + 1)
            },
            MoveDirections::Down => {
                adjustment_amount = (adjustment_amount.0, adjustment_amount.1 - 1)
            },
        }
        let chunks_x: i32 = (self.grid.x_size / self.chunk_x_size) as i32;
        let chunks_y: i32 = (self.grid.y_size / self.chunk_y_size) as i32;
        let original_chunk_x = self.current_chunk_address.0;
        let original_chunk_y = self.current_chunk_address.1;
        let mut new_x = original_chunk_x + adjustment_amount.0;
        let mut new_y = original_chunk_y + adjustment_amount.1;
        if new_x < 0 {
            new_x = 0;
        }
        if new_x > chunks_x - 1 {
            new_x = chunks_x - 1;
        }
        if new_y < 0 {
            new_y = 0;
        }
        if new_y > chunks_y - 1 {
            new_y = chunks_y - 1;
        }
        self.current_chunk_address = (new_x, new_y);
    }

    /// A dead in-bounds Moore neighbor of `(x, y)`: a candidate for birth
    /// that the census pass over the live cell `(x, y)` must discover.
    pub open spec fn step_candidate(self, x: int, y: int, i: int, j: int) -> bool {
        is_moore_neighbor(x, y, i, j) && self.in_bounds(i, j) && !self.cell_at(i, j)
    }

    /// The live count over the row above `(x, y)`.
    pub open spec fn northern_sum(self, x: int, y: int) -> int {
        one_if(self.cell_at(x, y + 1)) + one_if(self.cell_at(x - 1, y + 1)) + one_if(
            self.cell_at(x + 1, y + 1),
        )
    }

    /// The live count over the row below `(x, y)`.
    pub open spec fn southern_sum(self, x: int, y: int) -> int {
        one_if(self.cell_at(x, y - 1)) + one_if(self.cell_at(x - 1, y - 1)) + one_if(
            self.cell_at(x + 1, y - 1),
        )
    }

    /// The live count of the western neighbor of `(x, y)`.
    pub open spec fn western_sum(self, x: int, y: int) -> int {
        one_if(self.cell_at(x - 1, y))
    }

    /// The live count of the eastern neighbor of `(x, y)`.
    pub open spec fn eastern_sum(self, x: int, y: int) -> int {
        one_if(self.cell_at(x + 1, y))
    }

    /// Record one dead neighbor as seen, so the birth scan will consider it.
    fn handle_neighbor_key_seen(dead_keys_seen: &mut Vec<(usize, usize)>, key: (usize, usize))
        ensures
            forall|i: int, j: int|
                #[trigger] keys_has(final(dead_keys_seen)@, i, j) <==> keys_has(
                    old(dead_keys_seen)@,
                    i,
                    j,
                ) || (i == key.0 as int && j == key.1 as int),
    {
        if !crate::grid::keys_contain(dead_keys_seen, key.0, key.1) {
            let ghost pre = dead_keys_seen@;
            dead_keys_seen.push(key);
            proof {
                crate::grid::lemma_keys_push(pre, key);
            }
        }
    }

    /// Look at the single neighbor slot `(x, y)`: count it when alive, and
    /// record it as a birth candidate when dead.
    fn tally_neighbor(
        &self,
        dead_keys_seen: &mut Vec<(usize, usize)>,
        live_neighbors: usize,
        x: usize,
        y: usize,
    ) -> (r: usize)
        requires
            self.grid.wf(),
            self.in_bounds(x as int, y as int),
            live_neighbors <= 7,
        ensures
            r == live_neighbors + one_if(self.cell_at(x as int, y as int)),
            forall|i: int, j: int|
                #[trigger] keys_has(final(dead_keys_seen)@, i, j) <==> keys_has(
                    old(dead_keys_seen)@,
                    i,
                    j,
                ) || (i == x as int && j == y as int && !self.cell_at(x as int, y as int)),
    {
        let alive = match self.grid.query(x, y) {
            Some(b) => b,
            None => false,
        };
        if alive {
            live_neighbors + 1
        } else {
            World::handle_neighbor_key_seen(dead_keys_seen, (x, y));
            live_neighbors
        }
    }

    /// Census of the row above `(x, y)`: its up to three in-bounds slots.
    fn calculate_northern_neighbors(
        &self,
        dead_keys_seen: &mut Vec<(usize, usize)>,
        live_neighbors: usize,
        x: usize,
        y: usize,
    ) -> (r: usize)
        requires
            self.grid.wf(),
            self.in_bounds(x as int, y as int),
            live_neighbors <= 5,
        ensures
            r == live_neighbors + self.northern_sum(x as int, y as int),
            forall|i: int, j: int|
                #[trigger] keys_has(final(dead_keys_seen)@, i, j) <==> keys_has(
                    old(dead_keys_seen)@,
                    i,
                    j,
                ) || (j == y as int + 1 && x as int - 1 <= i <= x as int + 1
                    && self.in_bounds(i, j) && !self.cell_at(i, j)),
    {
        let mut live_neighbors = live_neighbors;
        if y + 1 < self.grid.y_size {
            live_neighbors = self.tally_neighbor(dead_keys_seen, live_neighbors, x, y + 1);
            if x > 0 {
                live_neighbors = self.tally_neighbor(dead_keys_seen, live_neighbors, x - 1, y + 1);
            }
            if x + 1 < self.grid.x_size {
                live_neighbors = self.tally_neighbor(dead_keys_seen, live_neighbors, x + 1, y + 1);
            }
        }
        live_neighbors
    }

    /// Census of the row below `(x, y)`: its up to three in-bounds slots.
    fn calculate_southern_neighbors(
        &self,
        dead_keys_seen: &mut Vec<(usize, usize)>,
        live_neighbors: usize,
        x: usize,
        y: usize,
    ) -> (r: usize)
        requires
            self.grid.wf(),
            self.in_bounds(x as int, y as int),
            live_neighbors <= 5,
        ensures
            r == live_neighbors + self.southern_sum(x as int, y as int),
            forall|i: int, j: int|
                #[trigger] keys_has(final(dead_keys_seen)@, i, j) <==> keys_has(
                    old(dead_keys_seen)@,
                    i,
                    j,
                ) || (j == y as int - 1 && x as int - 1 <= i <= x as int + 1
                    && self.in_bounds(i, j) && !self.cell_at(i, j)),
    {
        let mut live_neighbors = live_neighbors;
        if y > 0 {
            live_neighbors = self.tally_neighbor(dead_keys_seen, live_neighbors, x, y - 1);
            if x > 0 {
                live_neighbors = self.tally_neighbor(dead_keys_seen, live_neighbors, x - 1, y - 1);
            }
            if x + 1 < self.grid.x_size {
                live_neighbors = self.tally_neighbor(dead_keys_seen, live_neighbors, x + 1, y - 1);
            }
        }
        live_neighbors
    }

    /// Census of the single slot west of `(x, y)`.
    fn calculate_western_neighbors(
        &self,
        dead_keys_seen: &mut Vec<(usize, usize)>,
        live_neighbors: usize,
        x: usize,
        y: usize,
    ) -> (r: usize)
        requires
            self.grid.wf(),
            self.in_bounds(x as int, y as int),
            live_neighbors <= 7,
        ensures
            r == live_neighbors + self.western_sum(x as int, y as int),
            forall|i: int, j: int|
                #[trigger] keys_has(final(dead_keys_seen)@, i, j) <==> keys_has(
                    old(dead_keys_seen)@,
                    i,
                    j,
                ) || (j == y as int && i == x as int - 1
                    && self.in_bounds(i, j) && !self.cell_at(i, j)),
    {
        let mut live_neighbors = live_neighbors;
        if x > 0 {
            live_neighbors = self.tally_neighbor(dead_keys_seen, live_neighbors, x - 1, y);
        }
        live_neighbors
    }

    /// Census of the single slot east of `(x, y)`.
    fn calculate_eastern_neighbors(
        &self,
        dead_keys_seen: &mut Vec<(usize, usize)>,
        live_neighbors: usize,
        x: usize,
        y: usize,
    ) -> (r: usize)
        requires
            self.grid.wf(),
            self.in_bounds(x as int, y as int),
            live_neighbors <= 7,
        ensures
            r == live_neighbors + self.eastern_sum(x as int, y as int),
            forall|i: int, j: int|
                #[trigger] keys_has(final(dead_keys_seen)@, i, j) <==> keys_has(
                    old(dead_keys_seen)@,
                    i,
                    j,
                ) || (j == y as int && i == x as int + 1
                    && self.in_bounds(i, j) && !self.cell_at(i, j)),
    {
        let mut live_neighbors = live_neighbors;
        if x + 1 < self.grid.x_size {
            live_neighbors = self.tally_neighbor(dead_keys_seen, live_neighbors, x + 1, y);
        }
        live_neighbors
    }

    /// Exact live-neighbor count of `(x, y)` in one pass over its eight
    /// Moore slots, recording every dead in-bounds slot as a birth candidate.
    /// The edge rows and columns are handled by explicit bounds checks, so
    /// the coordinate arithmetic never underflows.
    pub fn count_live_neighbors(
        &self,
        dead_keys_seen: &mut Vec<(usize, usize)>,
        x: usize,
        y: usize,
    ) -> (n: usize)
        requires
            self.grid.wf(),
            self.in_bounds(x as int, y as int),
        ensures
            n == self.live_nbrs(x as int, y as int),
            n <= 8,
            forall|i: int, j: int|
                #[trigger] keys_has(final(dead_keys_seen)@, i, j) <==> keys_has(
                    old(dead_keys_seen)@,
                    i,
                    j,
                ) || self.step_candidate(x as int, y as int, i, j),
    {
        let mut live_neighbors: usize = 0;
        live_neighbors = self.calculate_northern_neighbors(dead_keys_seen, live_neighbors, x, y);
        live_neighbors = self.calculate_western_neighbors(dead_keys_seen, live_neighbors, x, y);
        live_neighbors = self.calculate_eastern_neighbors(dead_keys_seen, live_neighbors, x, y);
        live_neighbors = self.calculate_southern_neighbors(dead_keys_seen, live_neighbors, x, y);
        live_neighbors
    }

    /// The cell is alive now and stays alive: two or three live neighbors.
    pub open spec fn survives(self, x: int, y: int) -> bool {
        self.cell_at(x, y) && 2 <= self.live_nbrs(x, y) <= 3
    }

    /// The cell is alive now and dies: fewer than two or more than three
    /// live neighbors.
    pub open spec fn dies(self, x: int, y: int) -> bool {
        self.cell_at(x, y) && !(2 <= self.live_nbrs(x, y) <= 3)
    }

    /// The cell is dead now and is born: exactly three live neighbors.
    pub open spec fn born(self, x: int, y: int) -> bool {
        self.in_bounds(x, y) && !self.cell_at(x, y) && self.live_nbrs(x, y) == 3
    }

    /// One whole generation over a snapshot of the live cells.
    ///
    /// A single census pass over `keys_to_search` decides every live cell
    /// directly and discovers every dead birth candidate: each live neighbor
    /// of a dead cell visits it during the pass, so no second census over
    /// the candidates is needed.  All decisions are computed from the
    /// pre-step snapshot before any mutation; births are applied first,
    /// then deaths.
    #[verifier::loop_isolation(false)]
    fn handle_top_generation(
        &mut self,
        keys_to_search: Vec<(usize, usize)>,
        keys_to_remove: &mut Vec<(i128, i128)>,
        keys_to_add: &mut Vec<(i128, i128)>,
    )
        requires
            old(self).wf(),
            old(keys_to_remove)@.len() == 0,
            old(keys_to_add)@.len() == 0,
            forall|i: int, j: int|
                #[trigger] keys_has(keys_to_search@, i, j) ==> old(self).cell_at(i, j),
            forall|i: int, j: int|
                #[trigger] old(self).cell_at(i, j) ==> keys_has(keys_to_search@, i, j),
        ensures
            final(self).wf(),
            old(self).same_setup(*final(self)),
            forall|x: int, y: int|
                #[trigger] final(self).cell_at(x, y) == old(self).next_cell(x, y),
            final(keys_to_add)@.len() == 0,
    {
        let ghost w0 = *self;
        let ghost search = keys_to_search@;

        // Census pass: decide every live cell, record every dead candidate.
        let mut dead_keys_seen: Vec<(usize, usize)> = Vec::new();
        let mut sidx: usize = 0;
        while sidx < keys_to_search.len()
            invariant
                sidx <= search.len(),
                forall|i: int, j: int|
                    #[trigger] ikeys_has(keys_to_remove@, i, j) <==> (keys_has_up_to(
                        search,
                        sidx as int,
                        i,
                        j,
                    ) && w0.dies(i, j)),
                forall|i: int, j: int|
                    #[trigger] ikeys_has(keys_to_add@, i, j) <==> (keys_has_up_to(
                        search,
                        sidx as int,
                        i,
                        j,
                    ) && w0.survives(i, j)),
                forall|i: int, j: int|
                    #[trigger] keys_has(dead_keys_seen@, i, j) <==> discovered(
                        search,
                        sidx as int,
                        w0,
                        i,
                        j,
                    ),
            decreases search.len() - sidx,
        {
            let key = keys_to_search[sidx];
            proof {
                assert(key_is(search, sidx as int, key.0 as int, key.1 as int));
                assert(keys_has(search, key.0 as int, key.1 as int));
                assert(w0.cell_at(key.0 as int, key.1 as int));
            }
            let n = self.count_live_neighbors(&mut dead_keys_seen, key.0, key.1);
            if n == 2 || n == 3 {
                let ghost pre = keys_to_add@;
                keys_to_add.push((key.0 as i128, key.1 as i128));
                proof {
                    lemma_ikeys_push(pre, (key.0 as i128, key.1 as i128));
                }
            } else {
                let ghost pre = keys_to_remove@;
                keys_to_remove.push((key.0 as i128, key.1 as i128));
                proof {
                    lemma_ikeys_push(pre, (key.0 as i128, key.1 as i128));
                }
            }
            sidx = sidx + 1;
            proof {
                crate::grid::lemma_keys_up_to_step(search, sidx as int - 1);
                lemma_discovered_step(search, sidx as int - 1, w0);
            }
        }
        proof {
            crate::grid::lemma_keys_up_to_full(search);
            assert forall|i: int, j: int|
                #[trigger] ikeys_has(keys_to_remove@, i, j) <==> w0.dies(i, j) by {
                if w0.dies(i, j) {
                    assert(keys_has(search, i, j));
                }
            }
            assert forall|i: int, j: int|
                #[trigger] ikeys_has(keys_to_add@, i, j) <==> w0.survives(i, j) by {
                if w0.survives(i, j) {
                    assert(keys_has(search, i, j));
                }
            }
        }
        let ghost rem_fin = keys_to_remove@;
        let ghost seen_fin = dead_keys_seen@;

        // Birth scan: a discovered candidate with exactly three live
        // neighbors joins the additions.
        let mut cidx: usize = 0;
        while cidx < dead_keys_seen.len()
            invariant
                cidx <= seen_fin.len(),
                forall|i: int, j: int|
                    #[trigger] ikeys_has(keys_to_add@, i, j) <==> (w0.survives(i, j)
                        || (keys_has_up_to(seen_fin, cidx as int, i, j) && w0.born(i, j))),
            decreases seen_fin.len() - cidx,
        {
            let c = dead_keys_seen[cidx];
            proof {
                assert(key_is(seen_fin, cidx as int, c.0 as int, c.1 as int));
                assert(keys_has(seen_fin, c.0 as int, c.1 as int));
                assert(discovered(search, search.len() as int, w0, c.0 as int, c.1 as int));
                let k = choose|k: int|
                    0 <= k < search.len() && #[trigger] searched_candidate(
                        search,
                        k,
                        w0,
                        c.0 as int,
                        c.1 as int,
                    );
                assert(w0.in_bounds(c.0 as int, c.1 as int));
            }
            let mut scratch: Vec<(usize, usize)> = Vec::new();
            let n = self.count_live_neighbors(&mut scratch, c.0, c.1);
            if n == 3 {
                let ghost pre = keys_to_add@;
                keys_to_add.push((c.0 as i128, c.1 as i128));
                proof {
                    lemma_ikeys_push(pre, (c.0 as i128, c.1 as i128));
                }
            }
            cidx = cidx + 1;
            proof {
                crate::grid::lemma_keys_up_to_step(seen_fin, cidx as int - 1);
            }
        }
        proof {
            crate::grid::lemma_keys_up_to_full(seen_fin);
            assert forall|i: int, j: int|
                #[trigger] ikeys_has(keys_to_add@, i, j) <==> (w0.survives(i, j) || w0.born(
                    i,
                    j,
                )) by {
                if w0.born(i, j) {
                    lemma_born_is_discovered(w0, search, i, j);
                    assert(keys_has(seen_fin, i, j));
                }
            }
        }
        let ghost add_fin = keys_to_add@;

        // Commit: births (and re-asserted survivors) first, then deaths.
        let mut aidx: usize = 0;
        while aidx < keys_to_add.len()
            invariant
                aidx <= add_fin.len(),
                self.wf(),
                w0.same_setup(*self),
                forall|i: int, j: int|
                    #[trigger] self.cell_at(i, j) == (w0.cell_at(i, j) || ikeys_has_up_to(
                        add_fin,
                        aidx as int,
                        i,
                        j,
                    )),
            decreases add_fin.len() - aidx,
        {
            let e = keys_to_add[aidx];
            proof {
                assert(ikey_is(add_fin, aidx as int, e.0 as int, e.1 as int));
                assert(ikeys_has(add_fin, e.0 as int, e.1 as int));
                assert(w0.in_bounds(e.0 as int, e.1 as int));
            }
            let cx = e.0 as usize;
            let cy = e.1 as usize;
            proof {
                assert(cx as int == e.0 as int && cy as int == e.1 as int);
            }
            let ghost prev = *self;
            self.grid.set_alive(cx, cy, true);
            aidx = aidx + 1;
            proof {
                lemma_ikeys_up_to_step(add_fin, aidx as int - 1);
                assert forall|i: int, j: int|
                    #[trigger] self.cell_at(i, j) == (w0.cell_at(i, j) || ikeys_has_up_to(
                        add_fin,
                        aidx as int,
                        i,
                        j,
                    )) by {
                    if i == e.0 as int && j == e.1 as int {
                        assert(ikeys_has_up_to(add_fin, aidx as int, i, j));
                        assert(self.cell_at(i, j));
                    } else {
                        assert(prev.cell_at(i, j) == (w0.cell_at(i, j) || ikeys_has_up_to(
                            add_fin,
                            aidx as int - 1,
                            i,
                            j,
                        )));
                        assert(self.cell_at(i, j) == prev.cell_at(i, j));
                    }
                }
            }
        }
        proof {
            lemma_ikeys_up_to_full(add_fin);
        }
        let mut ridx: usize = 0;
        while ridx < keys_to_remove.len()
            invariant
                ridx <= rem_fin.len(),
                self.wf(),
                w0.same_setup(*self),
                forall|i: int, j: int|
                    #[trigger] self.cell_at(i, j) == ((w0.cell_at(i, j) || ikeys_has(
                        add_fin,
                        i,
                        j,
                    )) && !ikeys_has_up_to(rem_fin, ridx as int, i, j)),
            decreases rem_fin.len() - ridx,
        {
            let e = keys_to_remove[ridx];
            proof {
                assert(ikey_is(rem_fin, ridx as int, e.0 as int, e.1 as int));
                assert(ikeys_has(rem_fin, e.0 as int, e.1 as int));
                assert(w0.in_bounds(e.0 as int, e.1 as int));
            }
            let cx = e.0 as usize;
            let cy = e.1 as usize;
            proof {
                assert(cx as int == e.0 as int && cy as int == e.1 as int);
            }
            let ghost prev = *self;
            self.grid.set_alive(cx, cy, false);
            ridx = ridx + 1;
            proof {
                lemma_ikeys_up_to_step(rem_fin, ridx as int - 1);
                assert forall|i: int, j: int|
                    #[trigger] self.cell_at(i, j) == ((w0.cell_at(i, j) || ikeys_has(
                        add_fin,
                        i,
                        j,
                    )) && !ikeys_has_up_to(rem_fin, ridx as int, i, j)) by {
                    if i == e.0 as int && j == e.1 as int {
                        assert(ikeys_has_up_to(rem_fin, ridx as int, i, j));
                        assert(!self.cell_at(i, j));
                    } else {
                        assert(prev.cell_at(i, j) == ((w0.cell_at(i, j) || ikeys_has(
                            add_fin,
                            i,
                            j,
                        )) && !ikeys_has_up_to(rem_fin, ridx as int - 1, i, j)));
                        assert(self.cell_at(i, j) == prev.cell_at(i, j));
                    }
                }
            }
        }
        keys_to_add.clear();
        proof {
            lemma_ikeys_up_to_full(rem_fin);
            assert forall|x: int, y: int|
                #[trigger] self.cell_at(x, y) == w0.next_cell(x, y) by {
                assert(self.cell_at(x, y) == ((w0.cell_at(x, y) || ikeys_has(add_fin, x, y))
                    && !ikeys_has(rem_fin, x, y)));
                assert(ikeys_has(add_fin, x, y) == (w0.survives(x, y) || w0.born(x, y)));
                assert(ikeys_has(rem_fin, x, y) == w0.dies(x, y));
            }
        }
    }

    /// Step one generation: snapshot the alive index, run the census over
    /// it, and commit the resulting births and deaths.  The step is
    /// infallible on a well-formed world and never partially applies.  The
    /// two scratch buffers come in empty and leave empty.
    #[verifier::loop_isolation(false)]
    pub fn handle_generation(
        &mut self,
        keys_to_remove: &mut Vec<(i128, i128)>,
        keys_to_add: &mut Vec<(i128, i128)>,
    )
        requires
            old(self).wf(),
            old(keys_to_remove)@.len() == 0,
            old(keys_to_add)@.len() == 0,
        ensures
            final(self).wf(),
            old(self).same_setup(*final(self)),
            forall|x: int, y: int|
                #[trigger] final(self).cell_at(x, y) == old(self).next_cell(x, y),
            final(keys_to_remove)@.len() == 0,
            final(keys_to_add)@.len() == 0,
    {
        let mut keys_to_search: Vec<(usize, usize)> = Vec::new();
        let mut i: usize = 0;
        while i < self.grid.alive_tile_keys.len()
            invariant
                i <= self.grid.alive_tile_keys@.len(),
                keys_to_search@ == self.grid.alive_tile_keys@.subrange(0, i as int),
            decreases self.grid.alive_tile_keys@.len() - i,
        {
            keys_to_search.push(self.grid.alive_tile_keys[i]);
            proof {
                assert(keys_to_search@ =~= self.grid.alive_tile_keys@.subrange(0, i as int + 1));
            }
            i = i + 1;
        }
        proof {
            assert(keys_to_search@ =~= self.grid.alive_tile_keys@);
            assert forall|i: int, j: int|
                #[trigger] keys_has(keys_to_search@, i, j) implies self.cell_at(i, j) by {
                assert(self.grid.index_has(i, j));
            }
            assert forall|i: int, j: int|
                #[trigger] self.cell_at(i, j) implies keys_has(keys_to_search@, i, j) by {
                assert(self.grid.index_has(i, j));
            }
        }
        self.handle_top_generation(keys_to_search, keys_to_remove, keys_to_add);
        keys_to_remove.clear();
    }

    /// Rebuild the world from a seed: clear everything, then mark alive
    /// every coordinate the seed flags as set.  This is how an externally
    /// edited pattern initializes or re-initializes the simulation.
    #[verifier::loop_isolation(false)]
    pub fn reset_game_world(&mut self, tiles_to_set_as_alive: &Vec<((u16, u16), bool)>)
        requires
            old(self).wf(),
            forall|x: int, y: int|
                #[trigger] seed_marks(tiles_to_set_as_alive@, x, y) ==> old(self).in_bounds(x, y),
        ensures
            final(self).wf(),
            old(self).same_setup(*final(self)),
            forall|x: int, y: int|
                #[trigger] final(self).cell_at(x, y) == seed_marks(tiles_to_set_as_alive@, x, y),
    {
        self.reset_world();
        let ghost seed = tiles_to_set_as_alive@;
        let mut k: usize = 0;
        while k < tiles_to_set_as_alive.len()
            invariant
                k <= seed.len(),
                self.wf(),
                old(self).same_setup(*self),
                forall|x: int, y: int|
                    #[trigger] self.cell_at(x, y) == seed_marks_up_to(seed, k as int, x, y),
            decreases seed.len() - k,
        {
            let entry = tiles_to_set_as_alive[k];
            let ghost prev = *self;
            if entry.1 {
                proof {
                    assert(seed_entry_is(seed, k as int, entry.0.0 as int, entry.0.1 as int));
                    assert(seed_marks(seed, entry.0.0 as int, entry.0.1 as int));
                }
                let key_post = (entry.0.0 as usize, entry.0.1 as usize);
                World::insert_position(&mut self.grid, key_post);
            }
            k = k + 1;
            proof {
                lemma_seed_up_to_step(seed, k as int - 1);
                assert forall|x: int, y: int|
                    #[trigger] self.cell_at(x, y) == seed_marks_up_to(seed, k as int, x, y) by {
                    assert(prev.cell_at(x, y) == seed_marks_up_to(seed, k as int - 1, x, y));
                    if entry.1 && x == entry.0.0 as int && y == entry.0.1 as int {
                        assert(seed_entry_is(seed, k as int - 1, x, y));
                        assert(seed_marks_up_to(seed, k as int, x, y));
                    }
                }
            }
        }
        proof {
            lemma_seed_up_to_full(seed);
        }
    }

    /// Seed the fixed blinker-box pattern near the origin.
    pub fn insert_blinker_box(grid: &mut Grid)
        requires
            old(grid).wf(),
            9 < old(grid).x_size,
            7 < old(grid).y_size,
        ensures
            final(grid).wf(),
            final(grid).x_size == old(grid).x_size,
            final(grid).y_size == old(grid).y_size,
            forall|x: int, y: int|
                #[trigger] final(grid).cell_at(x, y) == (old(grid).cell_at(x, y)
                    || blinker_box_covers(0, 0, x, y)),
    {
        World::insert_position(grid, (5, 5));
        World::insert_position(grid, (5, 6));
        World::insert_position(grid, (6, 7));
        World::insert_position(grid, (7, 7));
        World::insert_position(grid, (8, 7));
        World::insert_position(grid, (6, 5));
        World::insert_position(grid, (5, 5));
        World::insert_position(grid, (7, 5));
        World::insert_position(grid, (8, 5));
        World::insert_position(grid, (9, 5));
        World::insert_position(grid, (9, 6));
    }

    /// Seed a three-cell oscillator at `position` in the given orientation.
    pub fn insert_oscillator(
        grid: &mut Grid,
        position: (usize, usize),
        orientation: OscillatorOrientation,
    )
        requires
            old(grid).wf(),
            orientation is Vertical ==> position.1 >= 2 && position.0 + 1 < old(grid).x_size
                && position.1 < old(grid).y_size,
            orientation is Horizontal ==> position.1 >= 1 && position.0 + 2 < old(grid).x_size
                && position.1 - 1 < old(grid).y_size,
        ensures
            final(grid).wf(),
            final(grid).x_size == old(grid).x_size,
            final(grid).y_size == old(grid).y_size,
            forall|x: int, y: int|
                #[trigger] final(grid).cell_at(x, y) == (old(grid).cell_at(x, y)
                    || oscillator_covers(orientation, position.0 as int, position.1 as int, x, y)),
    {
        match orientation {
            OscillatorOrientation::Vertical => {
                World::insert_position(grid, (position.0 + 1, position.1));
                World::insert_position(grid, (position.0 + 1, position.1 - 1));
                World::insert_position(grid, (position.0 + 1, position.1 - 2));
            },
            OscillatorOrientation::Horizontal => {
                World::insert_position(grid, (position.0, position.1 - 1));
                World::insert_position(grid, (position.0 + 1, position.1 - 1));
                World::insert_position(grid, (position.0 + 2, position.1 - 1));
            },
        }
    }

    /// Seed the blinker-box pattern shifted by `position`.
    pub fn self_insert_blinker_box(&mut self, position: (usize, usize)) -> (r: &mut World)
        requires
            old(self).wf(),
            position.0 + 9 < old(self).grid.x_size,
            position.1 + 7 < old(self).grid.y_size,
        ensures
            (*r).wf(),
            old(self).same_setup(*r),
            forall|x: int, y: int|
                #[trigger] (*r).cell_at(x, y) == (old(self).cell_at(x, y) || blinker_box_covers(
                    position.0 as int,
                    position.1 as int,
                    x,
                    y,
                )),
            *final(self) == *final(r),
    {
        World::insert_position(&mut self.grid, (position.0 + 5, position.1 + 5));
        World::insert_position(&mut self.grid, (position.0 + 5, position.1 + 6));
        World::insert_position(&mut self.grid, (position.0 + 6, position.1 + 7));
        World::insert_position(&mut self.grid, (position.0 + 7, position.1 + 7));
        World::insert_position(&mut self.grid, (position.0 + 8, position.1 + 7));
        World::insert_position(&mut self.grid, (position.0 + 6, position.1 + 5));
        World::insert_position(&mut self.grid, (position.0 + 5, position.1 + 5));
        World::insert_position(&mut self.grid, (position.0 + 7, position.1 + 5));
        World::insert_position(&mut self.grid, (position.0 + 8, position.1 + 5));
        World::insert_position(&mut self.grid, (position.0 + 9, position.1 + 5));
        World::insert_position(&mut self.grid, (position.0 + 9, position.1 + 6));
        self
    }

    /// Seed an oscillator shifted by `position` in the given orientation.
    pub fn self_insert_oscillator(
        &mut self,
        position: (usize, usize),
        orientation: OscillatorOrientation,
    ) -> (r: &mut World)
        requires
            old(self).wf(),
            orientation is Vertical ==> position.1 >= 2
                && position.0 + 1 < old(self).grid.x_size
                && position.1 < old(self).grid.y_size,
            orientation is Horizontal ==> position.1 >= 1
                && position.0 + 2 < old(self).grid.x_size
                && position.1 - 1 < old(self).grid.y_size,
        ensures
            (*r).wf(),
            old(self).same_setup(*r),
            forall|x: int, y: int|
                #[trigger] (*r).cell_at(x, y) == (old(self).cell_at(x, y) || oscillator_covers(
                    orientation,
                    position.0 as int,
                    position.1 as int,
                    x,
                    y,
                )),
            *final(self) == *final(r),
    {
        match orientation {
            OscillatorOrientation::Vertical => {
                World::insert_position(&mut self.grid, (position.0 + 1, position.1));
                World::insert_position(&mut self.grid, (position.0 + 1, position.1 - 1));
                World::insert_position(&mut self.grid, (position.0 + 1, position.1 - 2));
            },
            OscillatorOrientation::Horizontal => {
                World::insert_position(&mut self.grid, (position.0, position.1 - 1));
                World::insert_position(&mut self.grid, (position.0 + 1, position.1 - 1));
                World::insert_position(&mut self.grid, (position.0 + 2, position.1 - 1));
            },
        }
        self
    }

    /// Seed the chaos-cloverleaf pattern relative to `position`.
    #[verifier::rlimit(60)]
    pub fn self_insert_chaos_cloverleaf(&mut self, position: (usize, usize)) -> (r: &mut World)
        requires
            old(self).wf(),
            position.1 >= 15,
            position.0 + 11 < old(self).grid.x_size,
            position.1 - 1 < old(self).grid.y_size,
        ensures
            (*r).wf(),
            old(self).same_setup(*r),
            forall|x: int, y: int|
                #[trigger] (*r).cell_at(x, y) == (old(self).cell_at(x, y)
                    || chaos_cloverleaf_covers(position.0 as int, position.1 as int, x, y)),
            *final(self) == *final(r),
    {
        World::insert_position(&mut self.grid, (position.0 + 10, position.1 - 4));
        World::insert_position(&mut self.grid, (position.0 + 10, position.1 - 3));
        World::insert_position(&mut self.grid, (position.0 + 9, position.1 - 2));
        World::insert_position(&mut self.grid, (position.0 + 8, position.1 - 2));
        World::insert_position(&mut self.grid, (position.0 + 7, position.1 - 2));
        World::insert_position(&mut self.grid, (position.0 + 7, position.1 - 1));
        World::insert_position(&mut self.grid, (position.0 + 6, position.1 - 3));
        World::insert_position(&mut self.grid, (position.0 + 6, position.1 - 5));
        World::insert_position(&mut self.grid, (position.0 + 6, position.1 - 7));
        World::insert_position(&mut self.grid, (position.0 + 6, position.1 - 9));
        World::insert_position(&mut self.grid, (position.0 + 8, position.1 - 8));
        World::insert_position(&mut self.grid, (position.0 + 8, position.1 - 7));
        World::insert_position(&mut self.grid, (position.0 + 9, position.1 - 7));
        World::insert_position(&mut self.grid, (position.0 + 5, position.1 - 1));
        World::insert_position(&mut self.grid, (position.0 + 5, position.1 - 2));
        World::insert_position(&mut self.grid, (position.0 + 4, position.1 - 4));
        World::insert_position(&mut self.grid, (position.0 + 4, position.1 - 5));
        World::insert_position(&mut self.grid, (position.0 + 4, position.1 - 2));
        World::insert_position(&mut self.grid, (position.0 + 3, position.1 - 5));
        World::insert_position(&mut self.grid, (position.0 + 3, position.1 - 2));
        World::insert_position(&mut self.grid, (position.0 + 2, position.1 - 3));
        World::insert_position(&mut self.grid, (position.0 + 2, position.1 - 4));
        World::insert_position(&mut self.grid, (position.0 + 2, position.1 - 8));
        World::insert_position(&mut self.grid, (position.0 + 2, position.1 - 9));
        World::insert_position(&mut self.grid, (position.0 + 3, position.1 - 10));
        World::insert_position(&mut self.grid, (position.0 + 11, position.1 - 11));
        World::insert_position(&mut self.grid, (position.0 + 3, position.1 - 11));
        World::insert_position(&mut self.grid, (position.0 + 3, position.1 - 12));
        World::insert_position(&mut self.grid, (position.0 + 4, position.1 - 12));
        World::insert_position(&mut self.grid, (position.0 + 4, position.1 - 13));
        World::insert_position(&mut self.grid, (position.0 + 4, position.1 - 14));
        World::insert_position(&mut self.grid, (position.0 + 5, position.1 - 15));
        World::insert_position(&mut self.grid, (position.0 + 7, position.1 - 14));
        World::insert_position(&mut self.grid, (position.0 + 7, position.1 - 15));
        World::insert_position(&mut self.grid, (position.0 + 8, position.1 - 14));
        World::insert_position(&mut self.grid, (position.0 + 9, position.1 - 14));
        World::insert_position(&mut self.grid, (position.0 + 10, position.1 - 13));
        World::insert_position(&mut self.grid, (position.0 + 10, position.1 - 12));
        World::insert_position(&mut self.grid, (position.0 + 9, position.1 - 11));
        World::insert_position(&mut self.grid, (position.0 + 8, position.1 - 11));
        World::insert_position(&mut self.grid, (position.0 + 8, position.1 - 12));
        self
    }

    /// Seed the cloverleaf pattern relative to `position`.
    #[verifier::rlimit(60)]
    pub fn self_insert_cloverleaf(&mut self, position: (usize, usize)) -> (r: &mut World)
        requires
            old(self).wf(),
            position.1 >= 15,
            position.0 + 10 < old(self).grid.x_size,
            position.1 - 1 < old(self).grid.y_size,
        ensures
            (*r).wf(),
            old(self).same_setup(*r),
            forall|x: int, y: int|
                #[trigger] (*r).cell_at(x, y) == (old(self).cell_at(x, y) || cloverleaf_covers(
                    position.0 as int,
                    position.1 as int,
                    x,
                    y,
                )),
            *final(self) == *final(r),
    {
        World::insert_position(&mut self.grid, (position.0 + 10, position.1 - 4));
        World::insert_position(&mut self.grid, (position.0 + 10, position.1 - 3));
        World::insert_position(&mut self.grid, (position.0 + 9, position.1 - 2));
        World::insert_position(&mut self.grid, (position.0 + 8, position.1 - 2));
        World::insert_position(&mut self.grid, (position.0 + 7, position.1 - 2));
        World::insert_position(&mut self.grid, (position.0 + 7, position.1 - 1));
        World::insert_position(&mut self.grid, (position.0 + 6, position.1 - 3));
        World::insert_position(&mut self.grid, (position.0 + 6, position.1 - 5));
        World::insert_position(&mut self.grid, (position.0 + 6, position.1 - 7));
        World::insert_position(&mut self.grid, (position.0 + 6, position.1 - 9));
        World::insert_position(&mut self.grid, (position.0 + 5, position.1 - 1));
        World::insert_position(&mut self.grid, (position.0 + 5, position.1 - 2));
        World::insert_position(&mut self.grid, (position.0 + 4, position.1 - 4));
        World::insert_position(&mut self.grid, (position.0 + 4, position.1 - 5));
        World::insert_position(&mut self.grid, (position.0 + 4, position.1 - 2));
        World::insert_position(&mut self.grid, (position.0 + 3, position.1 - 5));
        World::insert_position(&mut self.grid, (position.0 + 3, position.1 - 2));
        World::insert_position(&mut self.grid, (position.0 + 2, position.1 - 3));
        World::insert_position(&mut self.grid, (position.0 + 2, position.1 - 4));
        World::insert_position(&mut self.grid, (position.0 + 2, position.1 - 8));
        World::insert_position(&mut self.grid, (position.0 + 2, position.1 - 9));
        World::insert_position(&mut self.grid, (position.0 + 3, position.1 - 10));
        World::insert_position(&mut self.grid, (position.0 + 3, position.1 - 11));
        World::insert_position(&mut self.grid, (position.0 + 3, position.1 - 12));
        World::insert_position(&mut self.grid, (position.0 + 4, position.1 - 12));
        World::insert_position(&mut self.grid, (position.0 + 4, position.1 - 13));
        World::insert_position(&mut self.grid, (position.0 + 4, position.1 - 14));
        World::insert_position(&mut self.grid, (position.0 + 5, position.1 - 15));
        World::insert_position(&mut self.grid, (position.0 + 7, position.1 - 14));
        World::insert_position(&mut self.grid, (position.0 + 7, position.1 - 15));
        World::insert_position(&mut self.grid, (position.0 + 8, position.1 - 14));
        World::insert_position(&mut self.grid, (position.0 + 9, position.1 - 14));
        World::insert_position(&mut self.grid, (position.0 + 10, position.1 - 13));
        World::insert_position(&mut self.grid, (position.0 + 10, position.1 - 12));
        World::insert_position(&mut self.grid, (position.0 + 9, position.1 - 11));
        World::insert_position(&mut self.grid, (position.0 + 8, position.1 - 11));
        World::insert_position(&mut self.grid, (position.0 + 8, position.1 - 12));
        self
    }
}

/// Entry `i` of a seed is a set flag at exactly the coordinate `(x, y)`.
pub open spec fn seed_entry_is(s: Seq<((u16, u16), bool)>, i: int, x: int, y: int) -> bool {
    s[i].1 && s[i].0.0 as int == x && s[i].0.1 as int == y
}

/// The seed flags the coordinate `(x, y)` as set somewhere.
pub open spec fn seed_marks(s: Seq<((u16, u16), bool)>, x: int, y: int) -> bool {
    exists|i: int| 0 <= i < s.len() && #[trigger] seed_entry_is(s, i, x, y)
}

/// The first `n` seed entries flag the coordinate `(x, y)` as set.
pub open spec fn seed_marks_up_to(s: Seq<((u16, u16), bool)>, n: int, x: int, y: int) -> bool {
    exists|i: int| 0 <= i < n && i < s.len() && #[trigger] seed_entry_is(s, i, x, y)
}

/// Pushing a seed entry extends the flagged coordinates by that entry's
/// coordinate when its flag is set, and by nothing otherwise.
pub proof fn lemma_seed_push(s: Seq<((u16, u16), bool)>, e: ((u16, u16), bool))
    ensures
        forall|x: int, y: int|
            #[trigger] seed_marks(s.push(e), x, y)
                <==> seed_marks(s, x, y) || (e.1 && e.0.0 as int == x && e.0.1 as int == y),
{
    assert forall|x: int, y: int|
        #[trigger] seed_marks(s.push(e), x, y)
            <==> seed_marks(s, x, y) || (e.1 && e.0.0 as int == x && e.0.1 as int == y) by {
        if seed_marks(s.push(e), x, y) {
            let i = choose|i: int|
                0 <= i < s.push(e).len() && #[trigger] seed_entry_is(s.push(e), i, x, y);
            if i < s.len() {
                assert(seed_entry_is(s, i, x, y));
            }
        }
        if seed_marks(s, x, y) {
            let i = choose|i: int| 0 <= i < s.len() && #[trigger] seed_entry_is(s, i, x, y);
            assert(seed_entry_is(s.push(e), i, x, y));
        }
        if e.1 && e.0.0 as int == x && e.0.1 as int == y {
            assert(seed_entry_is(s.push(e), s.len() as int, x, y));
        }
    }
}

/// Taking one more seed entry into view extends the flagged coordinates by
/// at most that entry's coordinate.
pub proof fn lemma_seed_up_to_step(s: Seq<((u16, u16), bool)>, n: int)
    requires
        0 <= n < s.len(),
    ensures
        forall|x: int, y: int|
            #[trigger] seed_marks_up_to(s, n + 1, x, y)
                <==> seed_marks_up_to(s, n, x, y) || seed_entry_is(s, n, x, y),
{
    assert forall|x: int, y: int|
        #[trigger] seed_marks_up_to(s, n + 1, x, y)
            <==> seed_marks_up_to(s, n, x, y) || seed_entry_is(s, n, x, y) by {
        if seed_marks_up_to(s, n + 1, x, y) {
            let i = choose|i: int|
                0 <= i < n + 1 && i < s.len() && #[trigger] seed_entry_is(s, i, x, y);
            if i < n {
                assert(seed_marks_up_to(s, n, x, y));
            }
        }
        if seed_marks_up_to(s, n, x, y) {
            let i = choose|i: int|
                0 <= i < n && i < s.len() && #[trigger] seed_entry_is(s, i, x, y);
            assert(seed_entry_is(s, i, x, y) && 0 <= i < n + 1);
        }
    }
}

/// A prefix that covers the whole seed describes the full set of flags.
pub proof fn lemma_seed_up_to_full(s: Seq<((u16, u16), bool)>)
    ensures
        forall|x: int, y: int|
            #[trigger] seed_marks_up_to(s, s.len() as int, x, y) <==> seed_marks(s, x, y),
{
    assert forall|x: int, y: int|
        #[trigger] seed_marks_up_to(s, s.len() as int, x, y) <==> seed_marks(s, x, y) by {
        if seed_marks_up_to(s, s.len() as int, x, y) {
            let i = choose|i: int|
                0 <= i < s.len() && i < s.len() && #[trigger] seed_entry_is(s, i, x, y);
            assert(seed_entry_is(s, i, x, y));
        }
        if seed_marks(s, x, y) {
            let i = choose|i: int| 0 <= i < s.len() && #[trigger] seed_entry_is(s, i, x, y);
            assert(seed_entry_is(s, i, x, y) && 0 <= i < s.len());
        }
    }
}

/// The cells of the blinker-box seed pattern, relative to `(px, py)`.
pub open spec fn blinker_box_covers(px: int, py: int, x: int, y: int) -> bool {
    ||| (x, y) == (px + 5, py + 5)
    ||| (x, y) == (px + 5, py + 6)
    ||| (x, y) == (px + 6, py + 7)
    ||| (x, y) == (px + 7, py + 7)
    ||| (x, y) == (px + 8, py + 7)
    ||| (x, y) == (px + 6, py + 5)
    ||| (x, y) == (px + 5, py + 5)
    ||| (x, y) == (px + 7, py + 5)
    ||| (x, y) == (px + 8, py + 5)
    ||| (x, y) == (px + 9, py + 5)
    ||| (x, y) == (px + 9, py + 6)
}

/// The cells of an oscillator seed, relative to `(px, py)`.
pub open spec fn oscillator_covers(
    orientation: OscillatorOrientation,
    px: int,
    py: int,
    x: int,
    y: int,
) -> bool {
    match orientation {
        OscillatorOrientation::Vertical => {
            ||| (x, y) == (px + 1, py)
            ||| (x, y) == (px + 1, py - 1)
            ||| (x, y) == (px + 1, py - 2)
        },
        OscillatorOrientation::Horizontal => {
            ||| (x, y) == (px, py - 1)
            ||| (x, y) == (px + 1, py - 1)
            ||| (x, y) == (px + 2, py - 1)
        },
    }
}

/// The cells of the cloverleaf seed pattern, relative to `(px, py)`.
pub open spec fn cloverleaf_covers(px: int, py: int, x: int, y: int) -> bool {
    ||| (x, y) == (px + 10, py - 4)
    ||| (x, y) == (px + 10, py - 3)
    ||| (x, y) == (px + 9, py - 2)
    ||| (x, y) == (px + 8, py - 2)
    ||| (x, y) == (px + 7, py - 2)
    ||| (x, y) == (px + 7, py - 1)
    ||| (x, y) == (px + 6, py - 3)
    ||| (x, y) == (px + 6, py - 5)
    ||| (x, y) == (px + 6, py - 7)
    ||| (x, y) == (px + 6, py - 9)
    ||| (x, y) == (px + 5, py - 1)
    ||| (x, y) == (px + 5, py - 2)
    ||| (x, y) == (px + 4, py - 4)
    ||| (x, y) == (px + 4, py - 5)
    ||| (x, y) == (px + 4, py - 2)
    ||| (x, y) == (px + 3, py - 5)
    ||| (x, y) == (px + 3, py - 2)
    ||| (x, y) == (px + 2, py - 3)
    ||| (x, y) == (px + 2, py - 4)
    ||| (x, y) == (px + 2, py - 8)
    ||| (x, y) == (px + 2, py - 9)
    ||| (x, y) == (px + 3, py - 10)
    ||| (x, y) == (px + 3, py - 11)
    ||| (x, y) == (px + 3, py - 12)
    ||| (x, y) == (px + 4, py - 12)
    ||| (x, y) == (px + 4, py - 13)
    ||| (x, y) == (px + 4, py - 14)
    ||| (x, y) == (px + 5, py - 15)
    ||| (x, y) == (px + 7, py - 14)
    ||| (x, y) == (px + 7, py - 15)
    ||| (x, y) == (px + 8, py - 14)
    ||| (x, y) == (px + 9, py - 14)
    ||| (x, y) == (px + 10, py - 13)
    ||| (x, y) == (px + 10, py - 12)
    ||| (x, y) == (px + 9, py - 11)
    ||| (x, y) == (px + 8, py - 11)
    ||| (x, y) == (px + 8, py - 12)
}

/// The cells of the chaos-cloverleaf seed pattern, relative to `(px, py)`.
pub open spec fn chaos_cloverleaf_covers(px: int, py: int, x: int, y: int) -> bool {
    ||| (x, y) == (px + 10, py - 4)
    ||| (x, y) == (px + 10, py - 3)
    ||| (x, y) == (px + 9, py - 2)
    ||| (x, y) == (px + 8, py - 2)
    ||| (x, y) == (px + 7, py - 2)
    ||| (x, y) == (px + 7, py - 1)
    ||| (x, y) == (px + 6, py - 3)
    ||| (x, y) == (px + 6, py - 5)
    ||| (x, y) == (px + 6, py - 7)
    ||| (x, y) == (px + 6, py - 9)
    ||| (x, y) == (px + 8, py - 8)
    ||| (x, y) == (px + 8, py - 7)
    ||| (x, y) == (px + 9, py - 7)
    ||| (x, y) == (px + 5, py - 1)
    ||| (x, y) == (px + 5, py - 2)
    ||| (x, y) == (px + 4, py - 4)
    ||| (x, y) == (px + 4, py - 5)
    ||| (x, y) == (px + 4, py - 2)
    ||| (x, y) == (px + 3, py - 5)
    ||| (x, y) == (px + 3, py - 2)
    ||| (x, y) == (px + 2, py - 3)
    ||| (x, y) == (px + 2, py - 4)
    ||| (x, y) == (px + 2, py - 8)
    ||| (x, y) == (px + 2, py - 9)
    ||| (x, y) == (px + 3, py - 10)
    ||| (x, y) == (px + 11, py - 11)
    ||| (x, y) == (px + 3, py - 11)
    ||| (x, y) == (px + 3, py - 12)
    ||| (x, y) == (px + 4, py - 12)
    ||| (x, y) == (px + 4, py - 13)
    ||| (x, y) == (px + 4, py - 14)
    ||| (x, y) == (px + 5, py - 15)
    ||| (x, y) == (px + 7, py - 14)
    ||| (x, y) == (px + 7, py - 15)
    ||| (x, y) == (px + 8, py - 14)
    ||| (x, y) == (px + 9, py - 14)
    ||| (x, y) == (px + 10, py - 13)
    ||| (x, y) == (px + 10, py - 12)
    ||| (x, y) == (px + 9, py - 11)
    ||| (x, y) == (px + 8, py - 11)
    ||| (x, y) == (px + 8, py - 12)
}

/// Step one generation with fresh scratch buffers, as the play loop does
/// every frame.
pub fn handle_gameplay_loop(world: &mut World)
    requires
        old(world).wf(),
    ensures
        final(world).wf(),
        old(world).same_setup(*final(world)),
        forall|x: int, y: int|
            #[trigger] final(world).cell_at(x, y) == old(world).next_cell(x, y),
{
    let mut keys_to_remove: Vec<(i128, i128)> = Vec::new();
    let mut keys_to_add: Vec<(i128, i128)> = Vec::new();
    world.handle_generation(&mut keys_to_remove, &mut keys_to_add);
}

/// Stepping a world whose alive set is empty yields an empty alive set:
/// every neighbor count is zero, so nothing is born and nothing survives.
pub proof fn lemma_empty_world_step(w: World)
    requires
        w.wf(),
        forall|x: int, y: int| !(#[trigger] w.cell_at(x, y)),
    ensures
        forall|x: int, y: int| !(#[trigger] w.next_cell(x, y)),
{
    assert forall|x: int, y: int| !(#[trigger] w.next_cell(x, y)) by {
        assert(w.live_nbrs(x, y) == 0);
    }
}

/// A live cell in the corner of a world of at least 2 by 2 cells counts
/// exactly its three in-bounds neighbors; the five out-of-bounds slots
/// contribute nothing.
pub proof fn lemma_corner_neighbor_count(w: World)
    requires
        w.wf(),
        w.grid.x_size >= 2,
        w.grid.y_size >= 2,
        w.cell_at(0, 0),
    ensures
        w.live_nbrs(0, 0) == one_if(w.cell_at(1, 0)) + one_if(w.cell_at(0, 1)) + one_if(
            w.cell_at(1, 1),
        ),
{
}

/// The birth and death thresholds of the rule set, cell by cell: a dead
/// cell with exactly three live neighbors is born, with two or four it
/// stays dead; a live cell with one or four live neighbors dies, with two
/// or three it survives.
pub proof fn lemma_birth_death_thresholds(w: World, x: int, y: int)
    requires
        w.wf(),
        w.in_bounds(x, y),
    ensures
        !w.cell_at(x, y) && w.live_nbrs(x, y) == 3 ==> w.next_cell(x, y),
        !w.cell_at(x, y) && (w.live_nbrs(x, y) == 2 || w.live_nbrs(x, y) == 4) ==> !w.next_cell(
            x,
            y,
        ),
        w.cell_at(x, y) && w.live_nbrs(x, y) == 1 ==> !w.next_cell(x, y),
        w.cell_at(x, y) && w.live_nbrs(x, y) == 4 ==> !w.next_cell(x, y),
        w.cell_at(x, y) && (w.live_nbrs(x, y) == 2 || w.live_nbrs(x, y) == 3) ==> w.next_cell(
            x,
            y,
        ),
{
}

/// Panning is clamped: with a single chunk per axis every pan stays at
/// address zero, and from the far edge a further pan toward it stays at
/// the far edge.
pub proof fn lemma_viewport_clamp()
    ensures
        forall|delta: int| #[trigger] clamp_chunk(0, delta, 1) == 0,
        forall|n_chunks: int|
            n_chunks >= 1 ==> #[trigger] clamp_chunk(n_chunks - 1, 1, n_chunks) == n_chunks - 1,
{
}

/// Reseed round trip: a seed that faithfully captures a world's alive set,
/// fed back through a reseed whose cells come out equal to the seed's
/// flags, restores exactly the original cells, before any step is taken.
pub proof fn lemma_reseed_round_trip(w: World, seed: Seq<((u16, u16), bool)>, reseeded: World)
    requires
        forall|x: int, y: int| #[trigger] seed_marks(seed, x, y) == w.cell_at(x, y),
        forall|x: int, y: int| #[trigger] reseeded.cell_at(x, y) == seed_marks(seed, x, y),
    ensures
        forall|x: int, y: int| #[trigger] reseeded.cell_at(x, y) == w.cell_at(x, y),
{
    assert forall|x: int, y: int|
        #[trigger] reseeded.cell_at(x, y) == w.cell_at(x, y) by {
        assert(seed_marks(seed, x, y) == w.cell_at(x, y));
    }
}

/// Entry `i` of a decision buffer is exactly the coordinate `(x, y)`.
pub open spec fn ikey_is(s: Seq<(i128, i128)>, i: int, x: int, y: int) -> bool {
    s[i].0 as int == x && s[i].1 as int == y
}

/// The decision buffer holds the coordinate `(x, y)` somewhere.
pub open spec fn ikeys_has(s: Seq<(i128, i128)>, x: int, y: int) -> bool {
    exists|i: int| 0 <= i < s.len() && #[trigger] ikey_is(s, i, x, y)
}

/// The first `n` entries of the decision buffer hold the coordinate.
pub open spec fn ikeys_has_up_to(s: Seq<(i128, i128)>, n: int, x: int, y: int) -> bool {
    exists|i: int| 0 <= i < n && i < s.len() && #[trigger] ikey_is(s, i, x, y)
}

/// Pushing an entry extends buffer membership by exactly that coordinate.
pub proof fn lemma_ikeys_push(s: Seq<(i128, i128)>, e: (i128, i128))
    ensures
        forall|x: int, y: int|
            #[trigger] ikeys_has(s.push(e), x, y)
                <==> ikeys_has(s, x, y) || (e.0 as int == x && e.1 as int == y),
{
    assert forall|x: int, y: int|
        #[trigger] ikeys_has(s.push(e), x, y)
            <==> ikeys_has(s, x, y) || (e.0 as int == x && e.1 as int == y) by {
        if ikeys_has(s.push(e), x, y) {
            let i = choose|i: int|
                0 <= i < s.push(e).len() && #[trigger] ikey_is(s.push(e), i, x, y);
            if i < s.len() {
                assert(ikey_is(s, i, x, y));
            }
        }
        if ikeys_has(s, x, y) {
            let i = choose|i: int| 0 <= i < s.len() && #[trigger] ikey_is(s, i, x, y);
            assert(ikey_is(s.push(e), i, x, y));
        }
        if e.0 as int == x && e.1 as int == y {
            assert(ikey_is(s.push(e), s.len() as int, x, y));
        }
    }
}

/// Taking one more entry into view extends prefix membership by exactly
/// that entry's coordinate.
pub proof fn lemma_ikeys_up_to_step(s: Seq<(i128, i128)>, n: int)
    requires
        0 <= n < s.len(),
    ensures
        forall|x: int, y: int|
            #[trigger] ikeys_has_up_to(s, n + 1, x, y)
                <==> ikeys_has_up_to(s, n, x, y) || ikey_is(s, n, x, y),
{
    assert forall|x: int, y: int|
        #[trigger] ikeys_has_up_to(s, n + 1, x, y)
            <==> ikeys_has_up_to(s, n, x, y) || ikey_is(s, n, x, y) by {
        if ikeys_has_up_to(s, n + 1, x, y) {
            let i = choose|i: int| 0 <= i < n + 1 && i < s.len() && #[trigger] ikey_is(s, i, x, y);
            if i < n {
                assert(ikeys_has_up_to(s, n, x, y));
            }
        }
        if ikeys_has_up_to(s, n, x, y) {
            let i = choose|i: int| 0 <= i < n && i < s.len() && #[trigger] ikey_is(s, i, x, y);
            assert(ikey_is(s, i, x, y) && 0 <= i < n + 1);
        }
    }
}

/// A prefix that covers the whole buffer describes plain membership.
pub proof fn lemma_ikeys_up_to_full(s: Seq<(i128, i128)>)
    ensures
        forall|x: int, y: int|
            #[trigger] ikeys_has_up_to(s, s.len() as int, x, y) <==> ikeys_has(s, x, y),
{
    assert forall|x: int, y: int|
        #[trigger] ikeys_has_up_to(s, s.len() as int, x, y) <==> ikeys_has(s, x, y) by {
        if ikeys_has_up_to(s, s.len() as int, x, y) {
            let i = choose|i: int|
                0 <= i < s.len() && i < s.len() && #[trigger] ikey_is(s, i, x, y);
            assert(ikey_is(s, i, x, y));
        }
        if ikeys_has(s, x, y) {
            let i = choose|i: int| 0 <= i < s.len() && #[trigger] ikey_is(s, i, x, y);
            assert(ikey_is(s, i, x, y) && 0 <= i < s.len());
        }
    }
}

/// The `k`-th searched live cell reports `(i, j)` as a dead birth candidate.
pub open spec fn searched_candidate(
    s: Seq<(usize, usize)>,
    k: int,
    w: World,
    i: int,
    j: int,
) -> bool {
    w.step_candidate(s[k].0 as int, s[k].1 as int, i, j)
}

/// Some cell among the first `n` searched ones reports `(i, j)` as a dead
/// birth candidate.
pub open spec fn discovered(s: Seq<(usize, usize)>, n: int, w: World, i: int, j: int) -> bool {
    exists|k: int| 0 <= k < n && k < s.len() && #[trigger] searched_candidate(s, k, w, i, j)
}

/// Searching one more live cell extends the discovered candidates by
/// exactly that cell's dead neighbors.
pub proof fn lemma_discovered_step(s: Seq<(usize, usize)>, n: int, w: World)
    requires
        0 <= n < s.len(),
    ensures
        forall|i: int, j: int|
            #[trigger] discovered(s, n + 1, w, i, j)
                <==> discovered(s, n, w, i, j) || w.step_candidate(
                    s[n].0 as int,
                    s[n].1 as int,
                    i,
                    j,
                ),
{
    assert forall|i: int, j: int|
        #[trigger] discovered(s, n + 1, w, i, j)
            <==> discovered(s, n, w, i, j) || w.step_candidate(
                s[n].0 as int,
                s[n].1 as int,
                i,
                j,
            ) by {
        if discovered(s, n + 1, w, i, j) {
            let k = choose|k: int|
                0 <= k < n + 1 && k < s.len() && #[trigger] searched_candidate(s, k, w, i, j);
            if k < n {
                assert(discovered(s, n, w, i, j));
            } else {
                assert(searched_candidate(s, n, w, i, j));
            }
        }
        if discovered(s, n, w, i, j) {
            let k = choose|k: int|
                0 <= k < n && k < s.len() && #[trigger] searched_candidate(s, k, w, i, j);
            assert(searched_candidate(s, k, w, i, j) && 0 <= k < n + 1);
        }
        if w.step_candidate(s[n].0 as int, s[n].1 as int, i, j) {
            assert(searched_candidate(s, n, w, i, j));
        }
    }
}

/// Every cell that is born has at least one live neighbor, that neighbor is
/// among the searched live cells, and it reports the cell as a candidate:
/// one census pass over all live cells discovers every birth.
pub proof fn lemma_born_is_discovered(w: World, s: Seq<(usize, usize)>, i: int, j: int)
    requires
        forall|x: int, y: int| #[trigger] w.cell_at(x, y) ==> keys_has(s, x, y),
        w.born(i, j),
    ensures
        discovered(s, s.len() as int, w, i, j),
{
    let (nx, ny): (int, int) = if w.cell_at(i - 1, j - 1) {
        (i - 1, j - 1)
    } else if w.cell_at(i, j - 1) {
        (i, j - 1)
    } else if w.cell_at(i + 1, j - 1) {
        (i + 1, j - 1)
    } else if w.cell_at(i - 1, j) {
        (i - 1, j)
    } else if w.cell_at(i + 1, j) {
        (i + 1, j)
    } else if w.cell_at(i - 1, j + 1) {
        (i - 1, j + 1)
    } else if w.cell_at(i, j + 1) {
        (i, j + 1)
    } else {
        (i + 1, j + 1)
    };
    assert(w.cell_at(nx, ny));
    assert(keys_has(s, nx, ny));
    let k = choose|k: int| 0 <= k < s.len() && #[trigger] key_is(s, k, nx, ny);
    assert(w.step_candidate(s[k].0 as int, s[k].1 as int, i, j));
    assert(searched_candidate(s, k, w, i, j));
}

} // verus!
