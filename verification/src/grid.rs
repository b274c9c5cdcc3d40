use vstd::prelude::*;

verus! {

/// A fixed-size 2D grid of boolean cell liveness states, stored in
/// row-major order: the cell at `(x, y)` lives at flat index
/// `y * width + x`.
pub struct Grid {
    pub width: usize,
    pub height: usize,
    pub cells: Vec<bool>,
}

/// 1 if the condition holds, 0 otherwise; used to sum up live neighbors.
pub open spec fn count_bool(b: bool) -> int {
    if b {
        1
    } else {
        0
    }
}

impl Grid {
    /// Positive dimensions and exactly one cell per coordinate.
    pub open spec fn well_formed(&self) -> bool {
        &&& 0 < self.width
        &&& 0 < self.height
        &&& self.cells@.len() == self.width * self.height
    }

    /// The coordinate lies inside `[0, width) x [0, height)`.
    pub open spec fn in_bounds(&self, x: int, y: int) -> bool {
        0 <= x < self.width && 0 <= y < self.height
    }

    /// Liveness of the cell at `(x, y)`.
    pub open spec fn cell(&self, x: int, y: int) -> bool {
        self.cells@[y * self.width + x]
    }

    /// The neighbor at offset `(x, y)` exists (no wrapping: coordinates
    /// outside the grid have no cell) and is alive.
    pub open spec fn alive_at(&self, x: int, y: int) -> bool {
        self.in_bounds(x, y) && self.cell(x, y)
    }

    /// Number of live cells among the up-to-8 Moore neighbors of `(x, y)`.
    /// Out-of-bounds positions are absent, not dead or wrapped.
    pub open spec fn neighbor_count(&self, x: int, y: int) -> int {
        count_bool(self.alive_at(x - 1, y - 1)) + count_bool(self.alive_at(x, y - 1))
            + count_bool(self.alive_at(x + 1, y - 1)) + count_bool(self.alive_at(x - 1, y))
            + count_bool(self.alive_at(x + 1, y)) + count_bool(self.alive_at(x - 1, y + 1))
            + count_bool(self.alive_at(x, y + 1)) + count_bool(self.alive_at(x + 1, y + 1))
    }

    /// The transition rule: a live cell stays alive with more than 3 live
    /// neighbors; a dead cell becomes alive with more than 4.
    pub open spec fn next_alive(&self, x: int, y: int) -> bool {
        if self.cell(x, y) {
            self.neighbor_count(x, y) > 3
        } else {
            self.neighbor_count(x, y) > 4
        }
    }

    /// Flat index of `(x, y)` in the row-major cell array.
    fn index_of(&self, x: usize, y: usize) -> (i: usize)
        requires
            self.well_formed(),
            x < self.width,
            y < self.height,
        ensures
            i == y * self.width + x,
            i < self.cells@.len(),
    {
        // the cell array's length witnesses that width * height fits in usize
        let _len: usize = self.cells.len();
        proof {
            lemma_row_major_index_in_range(self.width as int, self.height as int, x as int, y as int);
        }
        y * self.width + x
    }

    /// Read the liveness of the cell at `(x, y)`.
    pub fn get(&self, x: usize, y: usize) -> (alive: bool)
        requires
            self.well_formed(),
            x < self.width,
            y < self.height,
        ensures
            alive == self.cell(x as int, y as int),
    {
        let i: usize = self.index_of(x, y);
        self.cells[i]
    }

    /// Overwrite the liveness of the cell at `(x, y)`; every other cell
    /// and the dimensions are unchanged.
    pub fn set(&mut self, x: usize, y: usize, alive: bool)
        requires
            old(self).well_formed(),
            x < old(self).width,
            y < old(self).height,
        ensures
            final(self).well_formed(),
            final(self).width == old(self).width,
            final(self).height == old(self).height,
            final(self).cell(x as int, y as int) == alive,
            forall|i: int, j: int|
                old(self).in_bounds(i, j) && !(i == x && j == y) ==> final(self).cell(i, j) == old(
                    self,
                ).cell(i, j),
    {
        let i: usize = self.index_of(x, y);
        self.cells.set(i, alive);
        proof {
            assert forall|i2: int, j2: int|
                old(self).in_bounds(i2, j2) && !(i2 == x && j2 == y) implies self.cell(i2, j2)
                == old(self).cell(i2, j2) by {
                lemma_row_major_index_injective(
                    self.width as int,
                    x as int,
                    y as int,
                    i2,
                    j2,
                );
                lemma_row_major_index_in_range(
                    self.width as int,
                    self.height as int,
                    i2,
                    j2,
                );
            }
        }
    }
}

/// Distinct in-bounds coordinates have distinct row-major flat indices.
proof fn lemma_row_major_index_injective(w: int, x1: int, y1: int, x2: int, y2: int)
    requires
        0 < w,
        0 <= x1 < w,
        0 <= x2 < w,
        0 <= y1,
        0 <= y2,
        !(x1 == x2 && y1 == y2),
    ensures
        y1 * w + x1 != y2 * w + x2,
{
    if y1 != y2 {
        assert(y1 * w + x1 != y2 * w + x2) by (nonlinear_arith)
            requires
                0 < w,
                0 <= x1 < w,
                0 <= x2 < w,
                y1 != y2,
        ;
    }
}

/// The row-major flat index of an in-bounds coordinate lies inside the array.
proof fn lemma_row_major_index_in_range(w: int, h: int, x: int, y: int)
    requires
        0 <= x < w,
        0 <= y < h,
    ensures
        0 <= y * w + x < w * h,
{
    assert(0 <= y * w + x < w * h) by (nonlinear_arith)
        requires
            0 <= x < w,
            0 <= y < h,
    ;
}

/// Relies on rand::random: draws one independent uniformly random boolean.
/// Nothing can be promised of the value drawn.
#[verifier::external_body]
fn random_bool() -> bool {
    rand::random::<bool>()
}

impl Grid {
    /// Allocate a `width x height` grid with every cell set by an
    /// independent fair coin flip.
    pub fn new(width: usize, height: usize) -> (g: Grid)
        requires
            0 < width,
            0 < height,
            width * height <= usize::MAX,
        ensures
            g.well_formed(),
            g.width == width,
            g.height == height,
    {
        let n: usize = width * height;
        let mut cells: Vec<bool> = Vec::new();
        let mut k: usize = 0;
        while k < n
            invariant
                k <= n,
                cells@.len() == k,
            decreases n - k,
        {
            cells.push(random_bool());
            k = k + 1;
        }
        Grid { width, height, cells }
    }
}

impl Grid {
    /// Re-randomize every cell with a fresh independent fair coin flip,
    /// keeping the dimensions. Returns whether any cell changed, so a host
    /// can decide whether to re-render.
    pub fn reset(&mut self) -> (changed: bool)
        requires
            old(self).well_formed(),
        ensures
            final(self).well_formed(),
            final(self).width == old(self).width,
            final(self).height == old(self).height,
            changed == exists|x: int, y: int|
                final(self).in_bounds(x, y) && final(self).cell(x, y) != old(self).cell(x, y),
    {
        let w: usize = self.width;
        let h: usize = self.height;
        let mut changed = false;
        let mut y: usize = 0;
        while y < h
            invariant
                self.well_formed(),
                self.width == old(self).width,
                self.height == old(self).height,
                w == self.width,
                h == self.height,
                y <= h,
                forall|i: int, j: int|
                    self.in_bounds(i, j) && j >= y ==> self.cell(i, j) == old(self).cell(i, j),
                changed == exists|i: int, j: int|
                    self.in_bounds(i, j) && j < y && self.cell(i, j) != old(self).cell(i, j),
            decreases h - y,
        {
            let mut x: usize = 0;
            while x < w
                invariant
                    self.well_formed(),
                    self.width == old(self).width,
                    self.height == old(self).height,
                    w == self.width,
                    h == self.height,
                    y < h,
                    x <= w,
                    forall|i: int, j: int|
                        self.in_bounds(i, j) && (j > y || (j == y && i >= x)) ==> self.cell(i, j)
                            == old(self).cell(i, j),
                    changed == exists|i: int, j: int|
                        self.in_bounds(i, j) && (j < y || (j == y && i < x)) && self.cell(i, j)
                            != old(self).cell(i, j),
                decreases w - x,
            {
                let previous = self.get(x, y);
                let fresh = random_bool();
                self.set(x, y, fresh);
                if fresh != previous {
                    changed = true;
                }
                x = x + 1;
            }
            y = y + 1;
        }
        changed
    }

    /// Count the live cells among the up-to-8 in-bounds Moore neighbors
    /// of `(x, y)`.
    pub fn count_neighbors_alive(&self, x: usize, y: usize) -> (count: u8)
        requires
            self.well_formed(),
            x < self.width,
            y < self.height,
        ensures
            count as int == self.neighbor_count(x as int, y as int),
    {
        let mut count: u8 = 0;
        if y > 0 {
            if x > 0 && self.get(x - 1, y - 1) {
                count = count + 1;
            }
            if self.get(x, y - 1) {
                count = count + 1;
            }
            if x + 1 < self.width && self.get(x + 1, y - 1) {
                count = count + 1;
            }
        }
        if x > 0 && self.get(x - 1, y) {
            count = count + 1;
        }
        if x + 1 < self.width && self.get(x + 1, y) {
            count = count + 1;
        }
        if y + 1 < self.height {
            if x > 0 && self.get(x - 1, y + 1) {
                count = count + 1;
            }
            if self.get(x, y + 1) {
                count = count + 1;
            }
            if x + 1 < self.width && self.get(x + 1, y + 1) {
                count = count + 1;
            }
        }
        count
    }

    /// Advance the whole grid one step: every cell's new state is the
    /// transition rule applied to a snapshot of the previous state, so the
    /// update is simultaneous, never sequential. Returns whether any cell
    /// changed, so a host can decide whether to re-render.
    #[verifier::rlimit(60)]
    pub fn step(&mut self) -> (changed: bool)
        requires
            old(self).well_formed(),
        ensures
            final(self).well_formed(),
            final(self).width == old(self).width,
            final(self).height == old(self).height,
            forall|x: int, y: int|
                old(self).in_bounds(x, y) ==> final(self).cell(x, y) == old(self).next_alive(x, y),
            changed == exists|x: int, y: int|
                old(self).in_bounds(x, y) && old(self).next_alive(x, y) != old(self).cell(x, y),
    {
        let w: usize = self.width;
        let h: usize = self.height;
        let mut next_cells: Vec<bool> = Vec::new();
        let mut changed = false;
        let mut y: usize = 0;
        while y < h
            invariant
                *self == *old(self),
                self.well_formed(),
                w == self.width,
                h == self.height,
                y <= h,
                next_cells@.len() == y * w,
                forall|i: int, j: int|
                    0 <= i < w && 0 <= j < y ==> next_cells@[j * w + i] == old(self).next_alive(
                        i,
                        j,
                    ),
                changed == exists|i: int, j: int|
                    0 <= i < w && 0 <= j < y && old(self).next_alive(i, j) != old(self).cell(i, j),
            decreases h - y,
        {
            let mut x: usize = 0;
            while x < w
                invariant
                    *self == *old(self),
                    self.well_formed(),
                    w == self.width,
                    h == self.height,
                    y < h,
                    x <= w,
                    next_cells@.len() == y * w + x,
                    forall|i: int, j: int|
                        0 <= i < w && (0 <= j < y || (j == y && 0 <= i < x))
                            ==> next_cells@[j * w + i] == old(self).next_alive(i, j),
                    changed == exists|i: int, j: int|
                        0 <= i < w && (0 <= j < y || (j == y && 0 <= i < x)) && old(
                            self,
                        ).next_alive(i, j) != old(self).cell(i, j),
                decreases w - x,
            {
                let neighbors: u8 = self.count_neighbors_alive(x, y);
                let current = self.get(x, y);
                let next = if current {
                    neighbors > 3
                } else {
                    neighbors > 4
                };
                proof {
                    assert(next == old(self).next_alive(x as int, y as int));
                }
                if next != current {
                    changed = true;
                }
                next_cells.push(next);
                proof {
                    assert(next_cells@[y * w + x] == next);
                    assert forall|i: int, j: int|
                        0 <= i < w && (0 <= j < y || (j == y && 0 <= i < x + 1))
                            implies next_cells@[j * w + i] == old(self).next_alive(i, j) by {
                        if i == x && j == y {
                            assert(next_cells@[j * w + i] == next);
                        } else {
                            lemma_row_major_flat_order(w as int, x as int, y as int, i, j);
                        }
                    }
                }
                x = x + 1;
            }
            proof {
                assert((y + 1) * w == y * w + w) by (nonlinear_arith);
            }
            y = y + 1;
        }
        proof {
            assert(h * w == w * h) by (nonlinear_arith);
        }
        self.cells = next_cells;
        changed
    }
}

/// A coordinate strictly before `(x, y)` in row-major order has a flat
/// index strictly below `y * w + x`.
proof fn lemma_row_major_flat_order(w: int, x: int, y: int, i: int, j: int)
    requires
        0 <= i < w,
        0 <= x,
        0 <= j,
        (j < y) || (j == y && i < x),
    ensures
        0 <= j * w + i < y * w + x,
{
    assert(0 <= j * w + i < y * w + x) by (nonlinear_arith)
        requires
            0 <= i < w,
            0 <= x,
            0 <= j,
            (j < y) || (j == y && i < x),
    ;
}

/// A lone cell has no neighbors at all, so one step always leaves it dead,
/// whatever its current state.
pub proof fn lemma_single_cell_dies(g: Grid)
    requires
        g.well_formed(),
        g.width == 1,
        g.height == 1,
    ensures
        !g.next_alive(0, 0),
{
    assert(g.neighbor_count(0, 0) == 0);
}

/// A corner cell counts exactly its in-bounds neighbors: positions outside
/// the grid are never wrapped around or counted.
pub proof fn lemma_corner_counts_in_bounds_only(g: Grid)
    requires
        g.well_formed(),
        2 <= g.width,
        2 <= g.height,
    ensures
        g.neighbor_count(0, 0) == count_bool(g.cell(1, 0)) + count_bool(g.cell(0, 1)) + count_bool(
            g.cell(1, 1),
        ),
{
}

/// The transition rule is deterministic: grids with equal dimensions and
/// equal cells agree on every cell's next state. Only `new` and `reset`
/// draw randomness.
pub proof fn lemma_step_deterministic(g1: Grid, g2: Grid)
    requires
        g1.width == g2.width,
        g1.height == g2.height,
        g1.cells@ == g2.cells@,
    ensures
        forall|x: int, y: int| g1.next_alive(x, y) == g2.next_alive(x, y),
{
}

} // verus!

