use vstd::prelude::*;
use crate::grid::flat_index;
use crate::grid::lemma_flat_index_in_range;
use crate::grid::lemma_flat_index_distinct;
use crate::world::seed_marks;
use crate::world::lemma_seed_push;
use crate::world_display::MoveDirections;
use crate::world_display::move_delta;

verus! {

/// The pattern editor: a cursor inside a bordered rectangle of tiles, each
/// of which can be marked.  The marked tiles later seed the simulation.
///
/// The editor's missing-tile convention: a tile that was never marked (or a
/// coordinate outside the rectangle) counts as "not set".
pub struct DesignWorld {
    pub current_position: (u16, u16),
    pub max_x: u16,
    pub max_y: u16,
    pub marked_positions: Vec<bool>,
}

impl DesignWorld {
    /// The coordinate lies inside the editor rectangle.
    pub open spec fn in_bounds(self, x: int, y: int) -> bool {
        0 <= x < self.max_x && 0 <= y < self.max_y
    }

    /// Whether the tile at `(x, y)` is marked; everything outside the
    /// rectangle counts as not set.
    pub open spec fn marked(self, x: int, y: int) -> bool {
        self.in_bounds(x, y) && self.marked_positions@[flat_index(x, y, self.max_x as int)]
    }

    /// Well-formedness: the mark storage covers the rectangle, the rectangle
    /// leaves room for the border frame and fits the cursor arithmetic, and
    /// the cursor sits strictly inside the border.
    pub open spec fn wf(self) -> bool {
        &&& 3 <= self.max_x <= 0x8000
        &&& 3 <= self.max_y <= 0x8000
        &&& self.marked_positions@.len() == self.max_x as int * self.max_y as int
        &&& 1 <= self.current_position.0 <= self.max_x - 2
        &&& 1 <= self.current_position.1 <= self.max_y - 2
    }

    /// An editor of `max_x` by `max_y` tiles, none marked, with the cursor
    /// at `(1, 1)`, just inside the border.
    pub fn new(max_x: u16, max_y: u16) -> (w: DesignWorld)
        requires
            3 <= max_x <= 0x8000,
            3 <= max_y <= 0x8000,
        ensures
            w.wf(),
            w.max_x == max_x,
            w.max_y == max_y,
            w.current_position == (1u16, 1u16),
            forall|x: int, y: int| !w.marked(x, y),
    {
        proof {
            assert(max_x as int * max_y as int <= 0x4000_0000) by (nonlinear_arith)
                requires
                    max_x <= 0x8000,
                    max_y <= 0x8000,
            ;
        }
        let total: usize = (max_x as usize) * (max_y as usize);
        let mut marked_positions: Vec<bool> = Vec::new();
        let mut i: usize = 0;
        while i < total
            invariant
                i <= total,
                marked_positions@.len() == i,
                forall|k: int| 0 <= k < i ==> !(#[trigger] marked_positions@[k]),
            decreases total - i,
        {
            marked_positions.push(false);
            i = i + 1;
        }
        let w = DesignWorld { current_position: (1, 1), max_x, max_y, marked_positions };
        assert forall|x: int, y: int| !w.marked(x, y) by {
            if w.in_bounds(x, y) {
                lemma_flat_index_in_range(max_x as int, max_y as int, x, y);
            }
        }
        w
    }

    /// Move the cursor one tile; a move that would land on (or past) the
    /// border frame is ignored and the cursor stays where it is.
    pub fn move_chunk(&mut self, move_direction: MoveDirections)
        requires
            old(self).wf(),
        ensures
            final(self).wf(),
            final(self).max_x == old(self).max_x,
            final(self).max_y == old(self).max_y,
            final(self).marked_positions@ == old(self).marked_positions@,
            ({
                let nx = old(self).current_position.0 + move_delta(move_direction).0;
                let ny = old(self).current_position.1 + move_delta(move_direction).1;
                if nx == 0 || ny == 0 || nx == old(self).max_x - 1 || ny == old(self).max_y - 1 {
                    final(self).current_position == old(self).current_position
                } else {
                    final(self).current_position.0 == nx && final(self).current_position.1 == ny
                }
            }),
    {
        let mut adjustment_amount: (i32, i32) = (0, 0);
        match move_direction {
            MoveDirections::Left => {
                adjustment_amount = (adjustment_amount.0 - 1, adjustment_amount.1)
            },
            MoveDirections::Right => {
                adjustment_amount = (adjustment_amount.0 + 1, adjustment_amount.1)
            },
            MoveDirections::Up => {
                adjustment_amount = (adjustment_amount.0, adjustment_amount.1 + 1)
            },
            MoveDirections::Down => {
                adjustment_amount = (adjustment_amount.0, adjustment_amount.1 - 1)
            },
        }
        let original_chunk_x = self.current_position.0;
        let original_chunk_y = self.current_position.1;
        let new_x = (original_chunk_x as i16) + (adjustment_amount.0 as i16);
        let new_y = (original_chunk_y as i16) + (adjustment_amount.1 as i16);
        if new_x == 0 || new_y == 0 || new_x < 0 || new_y < 0 || new_x == (self.max_x - 1) as i16
            || new_y == (self.max_y - 1) as i16 {
            return ;
        }
        self.current_position = (new_x as u16, new_y as u16);
    }

    /// Whether the tile at `(x, y)` is marked.
    pub fn is_marked(&self, x: u16, y: u16) -> (m: bool)
        requires
            self.wf(),
            x < self.max_x,
            y < self.max_y,
        ensures
            m == self.marked(x as int, y as int),
    {
        proof {
            lemma_flat_index_in_range(self.max_x as int, self.max_y as int, x as int, y as int);
            assert(self.marked_positions@.len() == self.marked_positions.len());
        }
        let idx: usize = (y as usize) * (self.max_x as usize) + (x as usize);
        self.marked_positions[idx]
    }

    /// Mark or unmark the tile at `(x, y)`.
    pub fn set_mark(&mut self, x: u16, y: u16, value: bool)
        requires
            old(self).wf(),
            x < old(self).max_x,
            y < old(self).max_y,
        ensures
            final(self).wf(),
            final(self).max_x == old(self).max_x,
            final(self).max_y == old(self).max_y,
            final(self).current_position == old(self).current_position,
            final(self).marked(x as int, y as int) == value,
            forall|i: int, j: int|
                !(i == x as int && j == y as int)
                    ==> #[trigger] final(self).marked(i, j) == old(self).marked(i, j),
    {
        proof {
            lemma_flat_index_in_range(self.max_x as int, self.max_y as int, x as int, y as int);
            assert(self.marked_positions@.len() == self.marked_positions.len());
        }
        let idx: usize = (y as usize) * (self.max_x as usize) + (x as usize);
        let slot = &mut self.marked_positions[idx];
        *slot = value;
        proof {
            assert forall|i: int, j: int|
                !(i == x as int && j == y as int)
                    implies #[trigger] self.marked(i, j) == old(self).marked(i, j) by {
                if self.in_bounds(i, j) {
                    lemma_flat_index_distinct(self.max_x as int, i, j, x as int, y as int);
                    lemma_flat_index_in_range(self.max_x as int, self.max_y as int, i, j);
                }
            }
        }
    }

    /// Every tile of the rectangle with its mark flag, as a seed for the
    /// simulation: the flagged coordinates are exactly the marked tiles.
    #[verifier::loop_isolation(false)]
    pub fn marked_entries(&self) -> (r: Vec<((u16, u16), bool)>)
        requires
            self.wf(),
        ensures
            forall|x: int, y: int| #[trigger] seed_marks(r@, x, y) == self.marked(x, y),
    {
        let mut r: Vec<((u16, u16), bool)> = Vec::new();
        let mut y: u16 = 0;
        while y < self.max_y
            invariant
                y <= self.max_y,
                forall|i: int, j: int|
                    #[trigger] seed_marks(r@, i, j) == (self.marked(i, j) && j < y),
            decreases self.max_y - y,
        {
            let mut x: u16 = 0;
            while x < self.max_x
                invariant
                    x <= self.max_x,
                    y < self.max_y,
                    forall|i: int, j: int|
                        #[trigger] seed_marks(r@, i, j) == (self.marked(i, j) && (j < y || (j
                            == y && i < x))),
                decreases self.max_x - x,
            {
                let m = self.is_marked(x, y);
                let ghost pre = r@;
                r.push(((x, y), m));
                proof {
                    lemma_seed_push(pre, ((x, y), m));
                }
                x = x + 1;
            }
            y = y + 1;
        }
        r
    }
}

} // verus!
