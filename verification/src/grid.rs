use vstd::prelude::*;
use crate::tile::Tile;

verus! {

/// Row-major position of the cell `(x, y)` inside the dense tile storage.
pub open spec fn flat_index(x: int, y: int, x_size: int) -> int {
    y * x_size + x
}

/// Entry `i` of a key list is exactly the coordinate `(x, y)`.
pub open spec fn key_is(s: Seq<(usize, usize)>, i: int, x: int, y: int) -> bool {
    s[i].0 as int == x && s[i].1 as int == y
}

/// The key list holds the coordinate `(x, y)` somewhere.
pub open spec fn keys_has(s: Seq<(usize, usize)>, x: int, y: int) -> bool {
    exists|i: int| 0 <= i < s.len() && #[trigger] key_is(s, i, x, y)
}

/// The first `n` entries of the key list hold the coordinate `(x, y)`.
pub open spec fn keys_has_up_to(s: Seq<(usize, usize)>, n: int, x: int, y: int) -> bool {
    exists|i: int| 0 <= i < n && i < s.len() && #[trigger] key_is(s, i, x, y)
}

/// Pushing a key extends list membership by exactly that coordinate.
pub proof fn lemma_keys_push(s: Seq<(usize, usize)>, e: (usize, usize))
    ensures
        forall|x: int, y: int|
            #[trigger] keys_has(s.push(e), x, y)
                <==> keys_has(s, x, y) || (e.0 as int == x && e.1 as int == y),
{
    assert forall|x: int, y: int|
        #[trigger] keys_has(s.push(e), x, y)
            <==> keys_has(s, x, y) || (e.0 as int == x && e.1 as int == y) by {
        if keys_has(s.push(e), x, y) {
            let i = choose|i: int| 0 <= i < s.push(e).len() && #[trigger] key_is(s.push(e), i, x, y);
            if i < s.len() {
                assert(key_is(s, i, x, y));
            }
        }
        if keys_has(s, x, y) {
            let i = choose|i: int| 0 <= i < s.len() && #[trigger] key_is(s, i, x, y);
            assert(key_is(s.push(e), i, x, y));
        }
        if e.0 as int == x && e.1 as int == y {
            assert(key_is(s.push(e), s.len() as int, x, y));
        }
    }
}

/// Taking one more entry into view extends prefix membership by exactly
/// that entry's coordinate.
pub proof fn lemma_keys_up_to_step(s: Seq<(usize, usize)>, n: int)
    requires
        0 <= n < s.len(),
    ensures
        forall|x: int, y: int|
            #[trigger] keys_has_up_to(s, n + 1, x, y)
                <==> keys_has_up_to(s, n, x, y) || key_is(s, n, x, y),
{
    assert forall|x: int, y: int|
        #[trigger] keys_has_up_to(s, n + 1, x, y)
            <==> keys_has_up_to(s, n, x, y) || key_is(s, n, x, y) by {
        if keys_has_up_to(s, n + 1, x, y) {
            let i = choose|i: int| 0 <= i < n + 1 && i < s.len() && #[trigger] key_is(s, i, x, y);
            if i < n {
                assert(keys_has_up_to(s, n, x, y));
            }
        }
        if keys_has_up_to(s, n, x, y) {
            let i = choose|i: int| 0 <= i < n && i < s.len() && #[trigger] key_is(s, i, x, y);
            assert(key_is(s, i, x, y) && 0 <= i < n + 1);
        }
    }
}

/// A prefix that covers the whole list describes plain membership.
pub proof fn lemma_keys_up_to_full(s: Seq<(usize, usize)>)
    ensures
        forall|x: int, y: int|
            #[trigger] keys_has_up_to(s, s.len() as int, x, y) <==> keys_has(s, x, y),
{
    assert forall|x: int, y: int|
        #[trigger] keys_has_up_to(s, s.len() as int, x, y) <==> keys_has(s, x, y) by {
        if keys_has_up_to(s, s.len() as int, x, y) {
            let i = choose|i: int|
                0 <= i < s.len() && i < s.len() && #[trigger] key_is(s, i, x, y);
            assert(key_is(s, i, x, y));
        }
        if keys_has(s, x, y) {
            let i = choose|i: int| 0 <= i < s.len() && #[trigger] key_is(s, i, x, y);
            assert(key_is(s, i, x, y) && 0 <= i < s.len());
        }
    }
}

/// Whether a key list holds the coordinate `(x, y)`.
pub fn keys_contain(keys: &Vec<(usize, usize)>, x: usize, y: usize) -> (r: bool)
    ensures
        r == keys_has(keys@, x as int, y as int),
{
    let mut i: usize = 0;
    while i < keys.len()
        invariant
            i <= keys@.len(),
            forall|k: int| 0 <= k < i ==> !(#[trigger] key_is(keys@, k, x as int, y as int)),
        decreases keys@.len() - i,
    {
        let key = keys[i];
        if key.0 == x && key.1 == y {
            assert(key_is(keys@, i as int, x as int, y as int));
            return true;
        }
        i = i + 1;
    }
    false
}

/// Row-major indices of in-bounds coordinates stay below the area.
pub proof fn lemma_flat_index_in_range(x_size: int, y_size: int, x: int, y: int)
    requires
        0 <= x < x_size,
        0 <= y < y_size,
    ensures
        0 <= flat_index(x, y, x_size) < x_size * y_size,
{
    assert(0 <= y * x_size + x < x_size * y_size) by (nonlinear_arith)
        requires
            0 <= x < x_size,
            0 <= y < y_size,
    ;
}

/// Distinct in-bounds coordinates take distinct row-major indices.
pub proof fn lemma_flat_index_distinct(x_size: int, x1: int, y1: int, x2: int, y2: int)
    requires
        0 <= x1 < x_size,
        0 <= x2 < x_size,
        0 <= y1,
        0 <= y2,
        !(x1 == x2 && y1 == y2),
    ensures
        flat_index(x1, y1, x_size) != flat_index(x2, y2, x_size),
{
    assert(y1 * x_size + x1 != y2 * x_size + x2) by (nonlinear_arith)
        requires
            0 <= x1 < x_size,
            0 <= x2 < x_size,
            0 <= y1,
            0 <= y2,
            !(x1 == x2 && y1 == y2),
    ;
}

/// Dense storage of every tile of the rectangle, together with the sparse
/// index of the coordinates whose tile is currently alive.
///
/// The index mirrors the dense storage: a coordinate is listed exactly once
/// when its tile is alive, and not at all otherwise.  `set_alive` is the one
/// mutation entry point and updates both structures together, so the mirror
/// holds before and after every operation (see `wf`).
pub struct Grid {
    pub tiles: Vec<Tile>,
    pub alive_tile_keys: Vec<(usize, usize)>,
    pub x_size: usize,
    pub y_size: usize,
}

impl Grid {
    /// The coordinate lies inside the rectangle.
    pub open spec fn in_bounds(self, x: int, y: int) -> bool {
        0 <= x < self.x_size && 0 <= y < self.y_size
    }

    /// The alive state of the cell at `(x, y)`; everything outside the
    /// rectangle counts as dead.
    pub open spec fn cell_at(self, x: int, y: int) -> bool {
        self.in_bounds(x, y) && self.tiles@[flat_index(x, y, self.x_size as int)].alive
    }

    /// The sparse index lists the coordinate `(x, y)`.
    pub open spec fn index_has(self, x: int, y: int) -> bool {
        keys_has(self.alive_tile_keys@, x, y)
    }

    /// Well-formedness: the dense storage covers the whole rectangle, and the
    /// sparse index lists exactly the alive coordinates, each once.
    pub open spec fn wf(self) -> bool {
        &&& 1 <= self.x_size
        &&& 1 <= self.y_size
        &&& self.tiles@.len() == self.x_size * self.y_size
        &&& forall|i: int, j: int|
            0 <= i < j < self.alive_tile_keys@.len()
                ==> #[trigger] self.alive_tile_keys@[i] != #[trigger] self.alive_tile_keys@[j]
        &&& forall|x: int, y: int| #[trigger] self.index_has(x, y) ==> self.cell_at(x, y)
        &&& forall|x: int, y: int| #[trigger] self.cell_at(x, y) ==> self.index_has(x, y)
    }

    /// Allocate the whole rectangle with every cell dead and an empty index.
    pub fn new(x_size: usize, y_size: usize) -> (g: Grid)
        requires
            1 <= x_size,
            1 <= y_size,
            x_size * y_size <= usize::MAX,
        ensures
            g.wf(),
            g.x_size == x_size,
            g.y_size == y_size,
            g.alive_tile_keys@.len() == 0,
            forall|x: int, y: int| !g.cell_at(x, y),
    {
        let total: usize = x_size * y_size;
        let mut tiles: Vec<Tile> = Vec::new();
        let mut i: usize = 0;
        while i < total
            invariant
                i <= total,
                tiles@.len() == i,
                forall|k: int| 0 <= k < i ==> !(#[trigger] tiles@[k]).alive,
            decreases total - i,
        {
            tiles.push(Tile::default());
            i = i + 1;
        }
        let g = Grid { tiles, alive_tile_keys: Vec::new(), x_size, y_size };
        assert forall|x: int, y: int| !g.cell_at(x, y) by {
            if g.in_bounds(x, y) {
                lemma_flat_index_in_range(x_size as int, y_size as int, x, y);
            }
        }
        g
    }

    /// Clear every tile back to dead and empty the index; the dimensions are
    /// kept.
    pub fn reset(&mut self)
        requires
            old(self).wf(),
        ensures
            final(self).wf(),
            final(self).x_size == old(self).x_size,
            final(self).y_size == old(self).y_size,
            final(self).alive_tile_keys@.len() == 0,
            forall|x: int, y: int| !final(self).cell_at(x, y),
    {
        let total: usize = self.tiles.len();
        self.tiles.clear();
        self.alive_tile_keys.clear();
        let mut i: usize = 0;
        while i < total
            invariant
                i <= total,
                self.tiles@.len() == i,
                self.alive_tile_keys@.len() == 0,
                self.x_size == old(self).x_size,
                self.y_size == old(self).y_size,
                forall|k: int| 0 <= k < i ==> !(#[trigger] self.tiles@[k]).alive,
            decreases total - i,
        {
            self.tiles.push(Tile::default());
            i = i + 1;
        }
        assert forall|x: int, y: int| !self.cell_at(x, y) by {
            if self.in_bounds(x, y) {
                lemma_flat_index_in_range(self.x_size as int, self.y_size as int, x, y);
            }
        }
    }

    /// Whether the sparse index lists `(x, y)`.
    pub fn index_contains(&self, x: usize, y: usize) -> (r: bool)
        ensures
            r == self.index_has(x as int, y as int),
    {
        keys_contain(&self.alive_tile_keys, x, y)
    }

    /// Where the sparse index lists `(x, y)`, if anywhere.
    fn index_position(&self, x: usize, y: usize) -> (r: Option<usize>)
        ensures
            match r {
                Some(p) => p < self.alive_tile_keys@.len()
                    && self.alive_tile_keys@[p as int] == (x, y),
                None => !self.index_has(x as int, y as int),
            },
    {
        let mut i: usize = 0;
        while i < self.alive_tile_keys.len()
            invariant
                i <= self.alive_tile_keys@.len(),
                forall|k: int| 0 <= k < i ==> !(#[trigger] key_is(
                    self.alive_tile_keys@, k, x as int, y as int)),
            decreases self.alive_tile_keys@.len() - i,
        {
            let key = self.alive_tile_keys[i];
            if key.0 == x && key.1 == y {
                return Some(i);
            }
            i = i + 1;
        }
        None
    }

    /// Set the alive state of the cell at `(x, y)`, keeping the sparse index
    /// in lockstep: both updates happen here or neither does.
    pub fn set_alive(&mut self, x: usize, y: usize, value: bool)
        requires
            old(self).wf(),
            old(self).in_bounds(x as int, y as int),
        ensures
            final(self).wf(),
            final(self).x_size == old(self).x_size,
            final(self).y_size == old(self).y_size,
            final(self).cell_at(x as int, y as int) == value,
            forall|i: int, j: int|
                !(i == x as int && j == y as int)
                    ==> #[trigger] final(self).cell_at(i, j) == old(self).cell_at(i, j),
    {
        proof {
            lemma_flat_index_in_range(self.x_size as int, self.y_size as int, x as int, y as int);
            assert(self.tiles@.len() == self.tiles.len());
        }
        let idx: usize = y * self.x_size + x;
        let tile = &mut self.tiles[idx];
        tile.set_alive(value);
        let ghost mid = *self;
        proof {
            assert forall|i: int, j: int|
                !(i == x as int && j == y as int)
                    implies #[trigger] mid.cell_at(i, j) == old(self).cell_at(i, j) by {
                if mid.in_bounds(i, j) {
                    lemma_flat_index_distinct(self.x_size as int, i, j, x as int, y as int);
                    lemma_flat_index_in_range(self.x_size as int, self.y_size as int, i, j);
                }
            }
            assert(mid.cell_at(x as int, y as int) == value);
        }
        if value {
            if !self.index_contains(x, y) {
                let ghost pre = self.alive_tile_keys@;
                self.alive_tile_keys.push((x, y));
                proof {
                    lemma_keys_push(pre, (x, y));
                    assert forall|i: int, j: int|
                        0 <= i < j < self.alive_tile_keys@.len()
                            implies #[trigger] self.alive_tile_keys@[i]
                                != #[trigger] self.alive_tile_keys@[j] by {
                        if j == pre.len() as int {
                            assert(self.alive_tile_keys@[j] == (x, y));
                            if self.alive_tile_keys@[i] == (x, y) {
                                assert(key_is(pre, i, x as int, y as int));
                                assert(keys_has(pre, x as int, y as int));
                            }
                        }
                    }
                }
            } else {
                proof {
                    // the key was already listed, so membership is unchanged
                    // and already covers the freshly asserted coordinate
                    assert(old(self).index_has(x as int, y as int));
                }
            }
            proof {
                assert forall|i: int, j: int| #[trigger] self.index_has(i, j)
                    <==> (old(self).index_has(i, j) || (i == x as int && j == y as int)) by {}
            }
        } else {
            let pos = self.index_position(x, y);
            match pos {
                Some(p) => {
                    let ghost pre = self.alive_tile_keys@;
                    self.alive_tile_keys.remove(p);
                    proof {
                        pre.remove_ensures(p as int);
                        let post = self.alive_tile_keys@;
                        assert forall|i: int, j: int| #[trigger] keys_has(post, i, j)
                            implies keys_has(pre, i, j) && !(i == x as int && j == y as int) by {
                            let k = choose|k: int|
                                0 <= k < post.len() && #[trigger] key_is(post, k, i, j);
                            if k < p {
                                assert(key_is(pre, k, i, j));
                                if i == x as int && j == y as int {
                                    assert(pre[k] == (x, y) && pre[p as int] == (x, y));
                                }
                            } else {
                                assert(post[k] == pre[k + 1]);
                                assert(key_is(pre, k + 1, i, j));
                                if i == x as int && j == y as int {
                                    assert(pre[k + 1] == (x, y) && pre[p as int] == (x, y));
                                }
                            }
                        }
                        assert forall|i: int, j: int|
                            keys_has(pre, i, j) && !(i == x as int && j == y as int)
                                implies #[trigger] keys_has(post, i, j) by {
                            let k = choose|k: int|
                                0 <= k < pre.len() && #[trigger] key_is(pre, k, i, j);
                            if k < p {
                                assert(post[k] == pre[k]);
                                assert(key_is(post, k, i, j));
                            } else if k == p {
                                assert(pre[p as int] == (x, y));
                            } else {
                                assert(post[k - 1] == pre[k]);
                                assert(key_is(post, k - 1, i, j));
                            }
                        }
                        assert forall|i: int, j: int|
                            0 <= i < j < post.len()
                                implies #[trigger] post[i] != #[trigger] post[j] by {
                            let i0: int = if i < p { i } else { i + 1 };
                            let j0: int = if j < p { j } else { j + 1 };
                            assert(post[i] == pre[i0]);
                            assert(post[j] == pre[j0]);
                        }
                    }
                }
                None => {
                    proof {
                        // the cell was already dead, so the index already
                        // omits it and nothing needs to be removed
                        assert(!old(self).index_has(x as int, y as int));
                    }
                }
            }
            proof {
                assert forall|i: int, j: int| #[trigger] self.index_has(i, j)
                    <==> (old(self).index_has(i, j) && !(i == x as int && j == y as int)) by {}
            }
        }
        proof {
            assert(self.tiles@ == mid.tiles@);
            assert forall|i: int, j: int|
                #[trigger] self.cell_at(i, j) == mid.cell_at(i, j) by {}
            assert forall|i: int, j: int| #[trigger] self.index_has(i, j)
                implies self.cell_at(i, j) by {
                if !(i == x as int && j == y as int) {
                    assert(old(self).cell_at(i, j));
                }
            }
            assert forall|i: int, j: int| #[trigger] self.cell_at(i, j)
                implies self.index_has(i, j) by {
                if !(i == x as int && j == y as int) {
                    assert(old(self).cell_at(i, j));
                }
            }
        }
    }

    /// Point query: the alive state at `(x, y)`, or `None` as the absence
    /// signal for a coordinate outside the rectangle (never a fault).
    pub fn query(&self, x: usize, y: usize) -> (r: Option<bool>)
        requires
            self.wf(),
        ensures
            self.in_bounds(x as int, y as int) ==> r == Some(self.cell_at(x as int, y as int)),
            !self.in_bounds(x as int, y as int) ==> r is None,
    {
        if x < self.x_size && y < self.y_size {
            proof {
                lemma_flat_index_in_range(
                    self.x_size as int, self.y_size as int, x as int, y as int);
                assert(self.tiles@.len() == self.tiles.len());
            }
            let idx: usize = y * self.x_size + x;
            Some(self.tiles[idx].alive)
        } else {
            None
        }
    }
}

} // verus!
