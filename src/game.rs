//! Conway's Game of Life on a grid whose edges wrap around (a torus).
use vstd::prelude::*;

verus! {

/// `c` wrapped into `0..m`.
pub open spec fn wrap_spec(c: int, m: int) -> int {
    c % m
}

/// A live cell with two or three live neighbours survives; a dead cell with
/// exactly three becomes alive; every other cell is dead next.
pub open spec fn next_state(alive: bool, neighbors: int) -> bool {
    (alive && (neighbors == 2 || neighbors == 3)) || (!alive && neighbors == 3)
}

pub open spec fn count(b: bool) -> int {
    if b {
        1
    } else {
        0
    }
}

/// A grid of cells, each alive or dead, stored row by row.
#[derive(Clone)]
pub struct Grid {
    pub width: usize,
    pub height: usize,
    cells: Vec<bool>,
}

impl Grid {
    /// The grid holds one cell per position.
    pub closed spec fn wf(&self) -> bool {
        self.cells_len() == self.width * self.height
    }

    /// Number of columns.
    pub closed spec fn cols(&self) -> int {
        self.width as int
    }

    /// Number of rows.
    pub closed spec fn rows(&self) -> int {
        self.height as int
    }

    pub closed spec fn cells_len(&self) -> int {
        self.cells@.len() as int
    }

    /// The state of the cell at column `x`, row `y`.
    pub closed spec fn cell(&self, x: int, y: int) -> bool {
        self.cells@[y * self.width + x]
    }

    /// The state of the cell at (`x`, `y`) once both are wrapped onto the
    /// grid.
    pub closed spec fn cell_wrapped(&self, x: int, y: int) -> bool {
        self.cell(wrap_spec(x, self.width as int), wrap_spec(y, self.height as int))
    }

    /// The number of live cells among the eight around (`x`, `y`).
    pub closed spec fn neighbors(&self, x: int, y: int) -> int {
        count(self.cell_wrapped(x - 1, y - 1)) + count(self.cell_wrapped(x - 1, y)) + count(
            self.cell_wrapped(x - 1, y + 1),
        ) + count(self.cell_wrapped(x, y - 1)) + count(self.cell_wrapped(x, y + 1)) + count(
            self.cell_wrapped(x + 1, y - 1),
        ) + count(self.cell_wrapped(x + 1, y)) + count(self.cell_wrapped(x + 1, y + 1))
    }

    /// Every position of the two grids holds the same state.
    pub closed spec fn same_cells(&self, other: &Grid) -> bool {
        forall|x: int, y: int|
            0 <= x < self.width && 0 <= y < self.height ==> #[trigger] self.cell(x, y) == other.cell(x, y)
    }
}

proof fn lemma_index_in_range(x: int, y: int, w: int, h: int)
    requires
        0 <= x < w,
        0 <= y < h,
    ensures
        0 <= y * w + x < w * h,
{
    assert(y * w + x < w * h) by (nonlinear_arith)
        requires
            0 <= x < w,
            0 <= y < h,
    ;
    assert(0 <= y * w) by (nonlinear_arith)
        requires
            0 <= y,
            0 <= w,
    ;
}

proof fn lemma_index_unique(x1: int, y1: int, x2: int, y2: int, w: int)
    requires
        0 <= x1 < w,
        0 <= x2 < w,
        0 <= y1,
        0 <= y2,
        y1 * w + x1 == y2 * w + x2,
    ensures
        x1 == x2 && y1 == y2,
{
    assert(x1 == x2 && y1 == y2) by (nonlinear_arith)
        requires
            0 <= x1 < w,
            0 <= x2 < w,
            0 <= y1,
            0 <= y2,
            y1 * w + x1 == y2 * w + x2,
    ;
}

impl Grid {
    /// An empty grid of `width` columns and `height` rows.
    pub fn new(width: usize, height: usize) -> (r: Grid)
        requires
            width * height <= usize::MAX,
        ensures
            r.wf(),
            r.cols() == width,
            r.rows() == height,
            forall|x: int, y: int| 0 <= x < width && 0 <= y < height ==> !#[trigger] r.cell(x, y),
    {
        let n = width * height;
        let mut cells: Vec<bool> = Vec::new();
        let mut i: usize = 0;
        while i < n
            invariant
                i <= n,
                cells@.len() == i,
                forall|j: int| 0 <= j < i ==> !#[trigger] cells@[j],
            decreases n - i,
        {
            cells.push(false);
            i = i + 1;
        }
        let r = Grid { width, height, cells };
        assert forall|x: int, y: int| 0 <= x < width && 0 <= y < height implies !#[trigger] r.cell(
            x,
            y,
        ) by {
            lemma_index_in_range(x, y, width as int, height as int);
        }
        r
    }

    /// Number of columns.
    pub fn width(&self) -> (r: usize)
        ensures
            r == self.cols(),
    {
        self.width
    }

    /// Number of rows.
    pub fn height(&self) -> (r: usize)
        ensures
            r == self.rows(),
    {
        self.height
    }

    /// The index of (`x`, `y`) in the row-by-row storage.
    fn index(&self, x: usize, y: usize) -> (r: usize)
        requires
            self.wf(),
            x < self.cols(),
            y < self.rows(),
        ensures
            r == y * self.width + x,
            r < self.cells_len(),
    {
        let n = self.cells.len();
        proof {
            lemma_index_in_range(x as int, y as int, self.width as int, self.height as int);
            assert(y * self.width + x < n);
        }
        y * self.width + x
    }

    /// The state of the cell at (`x`, `y`).
    pub fn get(&self, x: usize, y: usize) -> (r: bool)
        requires
            self.wf(),
            x < self.cols(),
            y < self.rows(),
        ensures
            r == self.cell(x as int, y as int),
    {
        let i = self.index(x, y);
        self.cells[i]
    }

    /// Sets the cell at (`x`, `y`). No other cell changes.
    pub fn set(&mut self, x: usize, y: usize, alive: bool)
        requires
            old(self).wf(),
            x < old(self).cols(),
            y < old(self).rows(),
        ensures
            final(self).wf(),
            final(self).cols() == old(self).cols(),
            final(self).rows() == old(self).rows(),
            final(self).cell(x as int, y as int) == alive,
            forall|i: int, j: int|
                0 <= i < old(self).cols() && 0 <= j < old(self).rows() && (i != x || j != y)
                    ==> #[trigger] final(self).cell(i, j) == old(self).cell(i, j),
    {
        let idx = self.index(x, y);
        self.cells.set(idx, alive);
        assert forall|i: int, j: int|
            0 <= i < old(self).cols() && 0 <= j < old(self).rows() && (i != x || j != y)
                implies #[trigger] self.cell(i, j) == old(self).cell(i, j) by {
            lemma_index_in_range(i, j, self.width as int, self.height as int);
            if j * self.width + i == y * self.width + x {
                lemma_index_unique(i, j, x as int, y as int, self.width as int);
            }
        }
    }

    /// Flips the cell at (`x`, `y`). No other cell changes.
    pub fn toggle(&mut self, x: usize, y: usize)
        requires
            old(self).wf(),
            x < old(self).cols(),
            y < old(self).rows(),
        ensures
            final(self).wf(),
            final(self).cols() == old(self).cols(),
            final(self).rows() == old(self).rows(),
            final(self).cell(x as int, y as int) == !old(self).cell(x as int, y as int),
            forall|i: int, j: int|
                0 <= i < old(self).cols() && 0 <= j < old(self).rows() && (i != x || j != y)
                    ==> #[trigger] final(self).cell(i, j) == old(self).cell(i, j),
    {
        let alive = self.get(x, y);
        self.set(x, y, !alive);
    }

    /// Kills every cell.
    pub fn clear(&mut self)
        requires
            old(self).wf(),
        ensures
            final(self).wf(),
            final(self).cols() == old(self).cols(),
            final(self).rows() == old(self).rows(),
            forall|x: int, y: int|
                0 <= x < final(self).cols() && 0 <= y < final(self).rows() ==> !#[trigger] final(self).cell(x, y),
    {
        let mut i: usize = 0;
        while i < self.cells.len()
            invariant
                self.wf(),
                self.width == old(self).cols(),
                self.height == old(self).rows(),
                i <= self.cells@.len(),
                forall|j: int| 0 <= j < i ==> !#[trigger] self.cells@[j],
            decreases self.cells@.len() - i,
        {
            self.cells.set(i, false);
            i = i + 1;
        }
        assert forall|x: int, y: int|
            0 <= x < self.width && 0 <= y < self.height implies !#[trigger] self.cell(x, y) by {
            lemma_index_in_range(x, y, self.width as int, self.height as int);
        }
    }

    /// `coord` wrapped into `0..max`, negative values included.
    pub fn wrap(&self, coord: isize, max: usize) -> (r: usize)
        requires
            0 < max <= isize::MAX,
        ensures
            r == wrap_spec(coord as int, max as int),
            r < max,
    {
        if coord >= 0 {
            (coord as usize) % max
        } else {
            let a = (-(coord + 1)) as usize;
            let r = a % max;
            proof {
                let q = a as int / max as int;
                vstd::arithmetic::div_mod::lemma_fundamental_div_mod(a as int, max as int);
                assert((-q - 1) * max == -(q * max) - max) by (nonlinear_arith);
                vstd::arithmetic::div_mod::lemma_fundamental_div_mod_converse(
                    coord as int,
                    max as int,
                    -q - 1,
                    max - 1 - r,
                );
            }
            max - 1 - r
        }
    }
}


/// The coordinate before `x` on a ring of `m`.
fn prev_coord(x: usize, m: usize) -> (r: usize)
    requires
        x < m,
    ensures
        r == wrap_spec(x - 1, m as int),
        r < m,
{
    if x == 0 {
        proof {
            vstd::arithmetic::div_mod::lemma_fundamental_div_mod_converse(-1, m as int, -1, m - 1);
        }
        m - 1
    } else {
        proof {
            vstd::arithmetic::div_mod::lemma_small_mod((x - 1) as nat, m as nat);
        }
        x - 1
    }
}

/// The coordinate after `x` on a ring of `m`.
fn next_coord(x: usize, m: usize) -> (r: usize)
    requires
        x < m,
    ensures
        r == wrap_spec(x + 1, m as int),
        r < m,
{
    if x + 1 == m {
        proof {
            vstd::arithmetic::div_mod::lemma_mod_self_0(m as int);
        }
        0
    } else {
        proof {
            vstd::arithmetic::div_mod::lemma_small_mod((x + 1) as nat, m as nat);
        }
        x + 1
    }
}

impl Grid {
    /// The number of live cells among the eight around (`x`, `y`), the
    /// edges wrapping around.
    pub fn count_alive_neighbors(&self, x: usize, y: usize) -> (r: usize)
        requires
            self.wf(),
            x < self.cols(),
            y < self.rows(),
        ensures
            r == self.neighbors(x as int, y as int),
            r <= 8,
    {
        let l = prev_coord(x, self.width);
        let rt = next_coord(x, self.width);
        let u = prev_coord(y, self.height);
        let d = next_coord(y, self.height);
        proof {
            vstd::arithmetic::div_mod::lemma_small_mod(x as nat, self.width as nat);
            vstd::arithmetic::div_mod::lemma_small_mod(y as nat, self.height as nat);
        }
        let cells = [
            self.get(l, u),
            self.get(l, y),
            self.get(l, d),
            self.get(x, u),
            self.get(x, d),
            self.get(rt, u),
            self.get(rt, y),
            self.get(rt, d),
        ];
        let mut n: usize = 0;
        let mut i: usize = 0;
        while i < 8
            invariant
                i <= 8,
                n <= i,
                n == count_prefix(cells@, i as int),
            decreases 8 - i,
        {
            if cells[i] {
                n = n + 1;
            }
            i = i + 1;
        }
        assert(count_prefix(cells@, 8) == self.neighbors(x as int, y as int)) by {
            reveal_with_fuel(count_prefix, 9);
        }
        n
    }

    /// The next generation: every cell follows Conway's rules from its
    /// current state and its live neighbours.
    pub fn next_generation(&self) -> (r: Grid)
        requires
            self.wf(),
        ensures
            r.wf(),
            r.cols() == self.cols(),
            r.rows() == self.rows(),
            forall|x: int, y: int|
                0 <= x < self.cols() && 0 <= y < self.rows() ==> #[trigger] r.cell(x, y) == next_state(
                    self.cell(x, y),
                    self.neighbors(x, y),
                ),
    {
        let n = self.cells.len();
        assert(self.width * self.height == n);
        let mut next = Grid::new(self.width, self.height);
        let mut y: usize = 0;
        while y < self.height
            invariant
                self.wf(),
                next.wf(),
                next.cols() == self.cols(),
                next.rows() == self.rows(),
                y <= self.height,
                forall|i: int, j: int|
                    0 <= i < self.cols() && 0 <= j < y ==> #[trigger] next.cell(i, j) == next_state(
                        self.cell(i, j),
                        self.neighbors(i, j),
                    ),
            decreases self.height - y,
        {
            let mut x: usize = 0;
            while x < self.width
                invariant
                    self.wf(),
                    next.wf(),
                    next.cols() == self.cols(),
                    next.rows() == self.rows(),
                    y < self.height,
                    x <= self.width,
                    forall|i: int, j: int|
                        0 <= i < self.cols() && 0 <= j < y ==> #[trigger] next.cell(i, j) == next_state(
                            self.cell(i, j),
                            self.neighbors(i, j),
                        ),
                    forall|i: int|
                        0 <= i < x ==> #[trigger] next.cell(i, y as int) == next_state(
                            self.cell(i, y as int),
                            self.neighbors(i, y as int),
                        ),
                decreases self.width - x,
            {
                let alive = self.get(x, y);
                let neighbors = self.count_alive_neighbors(x, y);
                let next_alive = (alive && (neighbors == 2 || neighbors == 3)) || (!alive && neighbors
                    == 3);
                next.set(x, y, next_alive);
                x = x + 1;
            }
            y = y + 1;
        }
        next
    }
}

/// The number of `true` among the first `n` entries.
pub open spec fn count_prefix(s: Seq<bool>, n: int) -> int
    decreases n,
{
    if n <= 0 {
        0
    } else {
        count_prefix(s, n - 1) + count(s[n - 1])
    }
}

} // verus!
