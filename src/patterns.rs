//! Well-known Game of Life patterns, placed on a grid at a given corner.
//! Positions past an edge wrap around.
use vstd::prelude::*;
use crate::game::Grid;

verus! {

/// Some offset of `offs`, added to (`x`, `y`) and wrapped, lands on (`i`, `j`).
pub open spec fn hits(x: int, y: int, w: int, h: int, offs: Seq<(usize, usize)>, i: int, j: int) -> bool {
    exists|k: int|
        0 <= k < offs.len() && (x + (#[trigger] offs[k]).0) % w == i && (y + offs[k].1) % h == j
}

/// `g1` is `g0` with the pattern `offs` made alive at (`x`, `y`), and no
/// other change.
pub open spec fn placed(g0: Grid, g1: Grid, x: int, y: int, offs: Seq<(usize, usize)>) -> bool {
    &&& g1.wf()
    &&& g1.cols() == g0.cols()
    &&& g1.rows() == g0.rows()
    &&& forall|i: int, j: int|
        0 <= i < g0.cols() && 0 <= j < g0.rows() ==> #[trigger] g1.cell(i, j) == (g0.cell(i, j) || hits(
            x,
            y,
            g0.cols(),
            g0.rows(),
            offs,
            i,
            j,
        ))
}

/// What every loader asks of the grid and the corner.
pub open spec fn can_place(g: Grid, x: int, y: int) -> bool {
    g.wf() && g.cols() > 0 && g.rows() > 0 && x + 12 <= usize::MAX && y + 12 <= usize::MAX
}

/// Makes each cell of `offs`, shifted by (`x`, `y`) and wrapped, alive.
fn place(grid: &mut Grid, x: usize, y: usize, offs: &[(usize, usize)])
    requires
        old(grid).wf(),
        old(grid).cols() > 0,
        old(grid).rows() > 0,
        forall|k: int| 0 <= k < offs@.len() ==> x + (#[trigger] offs@[k]).0 <= usize::MAX && y + offs@[k].1 <= usize::MAX,
    ensures
        placed(*old(grid), *final(grid), x as int, y as int, offs@),
{
    let mut k: usize = 0;
    while k < offs.len()
        invariant
            k <= offs@.len(),
            forall|k: int| 0 <= k < offs@.len() ==> x + (#[trigger] offs@[k]).0 <= usize::MAX && y + offs@[k].1 <= usize::MAX,
            placed(*old(grid), *grid, x as int, y as int, offs@.subrange(0, k as int)),
            grid.cols() == old(grid).cols() > 0,
            grid.rows() == old(grid).rows() > 0,
            grid.wf(),
        decreases offs@.len() - k,
    {
        let (dx, dy) = offs[k];
        let nx = (x + dx) % grid.width();
        let ny = (y + dy) % grid.height();
        let ghost g = *grid;
        grid.set(nx, ny, true);
        proof {
            let pre = offs@.subrange(0, k as int);
            let post = offs@.subrange(0, k + 1);
            assert forall|i: int, j: int|
                0 <= i < old(grid).cols() && 0 <= j < old(grid).rows() implies #[trigger] grid.cell(i, j)
                == (old(grid).cell(i, j) || hits(
                x as int,
                y as int,
                old(grid).cols(),
                old(grid).rows(),
                post,
                i,
                j,
            )) by {
                let w = old(grid).cols();
                let h = old(grid).rows();
                if hits(x as int, y as int, w, h, pre, i, j) {
                    let m = choose|m: int|
                        0 <= m < pre.len() && (x + (#[trigger] pre[m]).0) % w == i && (y + pre[m].1) % h == j;
                    assert(post[m] == pre[m]);
                }
                if i == nx && j == ny {
                    assert(post[k as int] == (dx, dy));
                }
                if hits(x as int, y as int, w, h, post, i, j) {
                    let m = choose|m: int|
                        0 <= m < post.len() && (x + (#[trigger] post[m]).0) % w == i && (y + post[m].1) % h == j;
                    if m < k {
                        assert(pre[m] == post[m]);
                    }
                }
            }
        }
        k = k + 1;
    }
    assert(offs@.subrange(0, offs@.len() as int) =~= offs@);
}


/// The cells of a glider, which travels diagonally, relative to its corner.
pub open spec fn glider_offsets() -> Seq<(usize, usize)> {
    seq![(1, 0), (2, 1), (0, 2), (1, 2), (2, 2)]
}

/// Places a glider, which travels diagonally.
pub fn load_glider(grid: &mut Grid, x: usize, y: usize)
    requires
        can_place(*old(grid), x as int, y as int),
    ensures
        placed(*old(grid), *final(grid), x as int, y as int, glider_offsets()),
{
    let pattern: [(usize, usize); 5] = [(1, 0), (2, 1), (0, 2), (1, 2), (2, 2)];
    assert(pattern@ =~= glider_offsets());
    place(grid, x, y, &pattern);
}

/// The cells of a blinker: three in a row, period 2, relative to its corner.
pub open spec fn blinker_offsets() -> Seq<(usize, usize)> {
    seq![(0, 0), (1, 0), (2, 0)]
}

/// Places a blinker: three in a row, period 2.
pub fn load_blinker(grid: &mut Grid, x: usize, y: usize)
    requires
        can_place(*old(grid), x as int, y as int),
    ensures
        placed(*old(grid), *final(grid), x as int, y as int, blinker_offsets()),
{
    let pattern: [(usize, usize); 3] = [(0, 0), (1, 0), (2, 0)];
    assert(pattern@ =~= blinker_offsets());
    place(grid, x, y, &pattern);
}

/// The cells of a toad oscillator, period 2, relative to its corner.
pub open spec fn toad_offsets() -> Seq<(usize, usize)> {
    seq![(1, 0), (2, 0), (3, 0), (0, 1), (1, 1), (2, 1)]
}

/// Places a toad oscillator, period 2.
pub fn load_toad(grid: &mut Grid, x: usize, y: usize)
    requires
        can_place(*old(grid), x as int, y as int),
    ensures
        placed(*old(grid), *final(grid), x as int, y as int, toad_offsets()),
{
    let pattern: [(usize, usize); 6] = [(1, 0), (2, 0), (3, 0), (0, 1), (1, 1), (2, 1)];
    assert(pattern@ =~= toad_offsets());
    place(grid, x, y, &pattern);
}

/// The cells of a beacon oscillator, period 2, relative to its corner.
pub open spec fn beacon_offsets() -> Seq<(usize, usize)> {
    seq![(0, 0), (1, 0), (0, 1), (3, 2), (2, 3), (3, 3)]
}

/// Places a beacon oscillator, period 2.
pub fn load_beacon(grid: &mut Grid, x: usize, y: usize)
    requires
        can_place(*old(grid), x as int, y as int),
    ensures
        placed(*old(grid), *final(grid), x as int, y as int, beacon_offsets()),
{
    let pattern: [(usize, usize); 6] = [(0, 0), (1, 0), (0, 1), (3, 2), (2, 3), (3, 3)];
    assert(pattern@ =~= beacon_offsets());
    place(grid, x, y, &pattern);
}

/// The cells of a lightweight spaceship, which travels horizontally, relative to its corner.
pub open spec fn lwss_offsets() -> Seq<(usize, usize)> {
    seq![(1, 0), (4, 0), (5, 1), (1, 2), (5, 2), (2, 3), (3, 3), (4, 3), (5, 3)]
}

/// Places a lightweight spaceship, which travels horizontally.
pub fn load_lwss(grid: &mut Grid, x: usize, y: usize)
    requires
        can_place(*old(grid), x as int, y as int),
    ensures
        placed(*old(grid), *final(grid), x as int, y as int, lwss_offsets()),
{
    let pattern: [(usize, usize); 9] = [(1, 0), (4, 0), (5, 1), (1, 2), (5, 2), (2, 3), (3, 3), (4, 3), (5, 3)];
    assert(pattern@ =~= lwss_offsets());
    place(grid, x, y, &pattern);
}

/// The cells of a pentadecathlon oscillator, period 15, relative to its corner.
pub open spec fn pentadecathlon_offsets() -> Seq<(usize, usize)> {
    seq![(2, 0), (3, 0), (1, 1), (4, 1), (1, 2), (4, 2), (2, 3), (3, 3), (2, 4), (3, 4), (2, 5), (3, 5), (1, 6), (4, 6), (1, 7), (4, 7), (2, 8), (3, 8)]
}

/// Places a pentadecathlon oscillator, period 15.
pub fn load_pentadecathlon(grid: &mut Grid, x: usize, y: usize)
    requires
        can_place(*old(grid), x as int, y as int),
    ensures
        placed(*old(grid), *final(grid), x as int, y as int, pentadecathlon_offsets()),
{
    let pattern: [(usize, usize); 18] = [(2, 0), (3, 0), (1, 1), (4, 1), (1, 2), (4, 2), (2, 3), (3, 3), (2, 4), (3, 4), (2, 5), (3, 5), (1, 6), (4, 6), (1, 7), (4, 7), (2, 8), (3, 8)];
    assert(pattern@ =~= pentadecathlon_offsets());
    place(grid, x, y, &pattern);
}

/// One quarter of a pulsar, relative to the pulsar's corner.
pub open spec fn pulsar_quadrant() -> Seq<(usize, usize)> {
    seq![(2, 0), (3, 0), (4, 0), (0, 2), (5, 2), (0, 3), (5, 3), (0, 4), (5, 4), (2, 5), (3, 5), (4, 5)]
}

/// An offset of the quadrant mirrored into quarter `m` (0 as it is, 1
/// mirrored left-right, 2 top-bottom, 3 both).
pub open spec fn mirrored(o: (usize, usize), m: int) -> (usize, usize) {
    if m == 0 {
        o
    } else if m == 1 {
        ((12 - o.0) as usize, o.1)
    } else if m == 2 {
        (o.0, (12 - o.1) as usize)
    } else {
        ((12 - o.0) as usize, (12 - o.1) as usize)
    }
}

/// The cells of a pulsar: each quadrant offset in its four mirrored places.
pub open spec fn pulsar_offsets() -> Seq<(usize, usize)> {
    Seq::new(48, |i: int| mirrored(pulsar_quadrant()[i / 4], i % 4))
}

/// Places a pulsar, an oscillator of period 3.
pub fn load_pulsar(grid: &mut Grid, x: usize, y: usize)
    requires
        can_place(*old(grid), x as int, y as int),
    ensures
        placed(*old(grid), *final(grid), x as int, y as int, pulsar_offsets()),
{
    let quadrant: [(usize, usize); 12] = [(2, 0), (3, 0), (4, 0), (0, 2), (5, 2), (0, 3), (5, 3), (0, 4), (5, 4), (2, 5), (3, 5), (4, 5)];
    assert(quadrant@ =~= pulsar_quadrant());
    let mut offs: Vec<(usize, usize)> = Vec::new();
    let mut i: usize = 0;
    while i < 12
        invariant
            i <= 12,
            quadrant@ == pulsar_quadrant(),
            offs@.len() == 4 * i,
            forall|j: int| 0 <= j < 4 * i ==> #[trigger] offs@[j] == pulsar_offsets()[j],
        decreases 12 - i,
    {
        let (dx, dy) = quadrant[i];
        assert(dx <= 12 && dy <= 12);
        offs.push((dx, dy));
        offs.push((12 - dx, dy));
        offs.push((dx, 12 - dy));
        offs.push((12 - dx, 12 - dy));
        proof {
            assert forall|j: int| 4 * i <= j < 4 * i + 4 implies #[trigger] offs@[j] == pulsar_offsets()[j] by {
                vstd::arithmetic::div_mod::lemma_fundamental_div_mod_converse(j, 4, i as int, j - 4 * i);
            }
        }
        i = i + 1;
    }
    assert(offs@ =~= pulsar_offsets());
    place(grid, x, y, offs.as_slice());
}

/// Whether the demonstration scene covers (`i`, `j`) on a grid of `w` by `h`.
pub open spec fn demo_hits(w: int, h: int, i: int, j: int) -> bool {
    ||| hits(10, 10, w, h, glider_offsets(), i, j)
    ||| hits(30, 10, w, h, blinker_offsets(), i, j)
    ||| hits(40, 10, w, h, toad_offsets(), i, j)
    ||| hits(55, 10, w, h, beacon_offsets(), i, j)
    ||| hits(70, 10, w, h, lwss_offsets(), i, j)
    ||| hits(20, 30, w, h, pulsar_offsets(), i, j)
    ||| hits(60, 35, w, h, pentadecathlon_offsets(), i, j)
    ||| hits(80, 80, w, h, glider_offsets(), i, j)
    ||| hits(15, 85, w, h, glider_offsets(), i, j)
}

/// Places several patterns across the grid for a demonstration.
pub fn load_demo_scene(grid: &mut Grid)
    requires
        old(grid).wf(),
        old(grid).cols() > 0,
        old(grid).rows() > 0,
    ensures
        final(grid).wf(),
        final(grid).cols() == old(grid).cols(),
        final(grid).rows() == old(grid).rows(),
        forall|i: int, j: int|
            0 <= i < old(grid).cols() && 0 <= j < old(grid).rows() ==> #[trigger] final(grid).cell(i, j) == (
            old(grid).cell(i, j) || demo_hits(old(grid).cols(), old(grid).rows(), i, j)),
{
    load_glider(grid, 10, 10);
    load_blinker(grid, 30, 10);
    load_toad(grid, 40, 10);
    load_beacon(grid, 55, 10);
    load_lwss(grid, 70, 10);
    load_pulsar(grid, 20, 30);
    load_pentadecathlon(grid, 60, 35);
    load_glider(grid, 80, 80);
    load_glider(grid, 15, 85);
}

} // verus!
