use vstd::arithmetic::div_mod::{lemma_fundamental_div_mod, lemma_div_pos_is_pos};
use vstd::prelude::*;

verus! {

/// Mathematical model of a generation: its dimensions and the alive/dead
/// state of every cell, stored row-major (`y * width + x`).
pub struct GridModel {
    pub width: nat,
    pub height: nat,
    pub cells: Seq<bool>,
}

/// The classic rule: a live cell with two or three live neighbours stays
/// alive, a dead cell with exactly three becomes alive, every other cell dies.
pub open spec fn life(alive: bool, n: int) -> bool {
    (alive && (n == 2 || n == 3)) || (!alive && n == 3)
}

impl GridModel {
    pub open spec fn wf(self) -> bool {
        self.cells.len() == self.width * self.height
    }

    pub open spec fn in_bounds(self, x: int, y: int) -> bool {
        0 <= x < self.width && 0 <= y < self.height
    }

    pub open spec fn alive(self, x: int, y: int) -> bool {
        self.cells[y * self.width + x]
    }

    /// 1 when `(x, y)` lies on the grid and holds a live cell, 0 otherwise:
    /// positions off the grid never count.
    pub open spec fn live_at(self, x: int, y: int) -> int {
        if self.in_bounds(x, y) && self.alive(x, y) {
            1
        } else {
            0
        }
    }

    /// Number of live cells among the eight positions around `(x, y)`.
    pub open spec fn neighbours(self, x: int, y: int) -> int {
        self.live_at(x - 1, y - 1) + self.live_at(x, y - 1) + self.live_at(x + 1, y - 1)
            + self.live_at(x - 1, y) + self.live_at(x + 1, y)
            + self.live_at(x - 1, y + 1) + self.live_at(x, y + 1) + self.live_at(x + 1, y + 1)
    }

    /// `n` is the generation that the classic rule makes of `self`.
    pub open spec fn is_next(self, n: GridModel) -> bool {
        &&& n.width == self.width
        &&& n.height == self.height
        &&& n.wf()
        &&& forall|x: int, y: int|
            self.in_bounds(x, y) ==> #[trigger] n.alive(x, y) == life(
                self.alive(x, y),
                self.neighbours(x, y),
            )
    }
}

/// Every index of a well-formed grid is the row-major index of a position on it.
pub proof fn lemma_index_covers(g: GridModel, i: int)
    requires
        g.wf(),
        0 <= i < g.cells.len(),
    ensures
        g.in_bounds(i % (g.width as int), i / (g.width as int)),
        (i / (g.width as int)) * g.width + i % (g.width as int) == i,
{
    let w = g.width as int;
    let h = g.height as int;
    assert(w > 0) by (nonlinear_arith)
        requires
            0 <= i < w * h,
            0 <= w,
            0 <= h,
    ;
    lemma_fundamental_div_mod(i, w);
    lemma_div_pos_is_pos(i, w);
    assert(i / w < h) by (nonlinear_arith)
        requires
            0 <= i < w * h,
            0 < w,
            i == w * (i / w) + i % w,
            0 <= i % w,
    ;
}

/// The next generation is a function of the current one: two grids with
/// the same dimensions and the same cells have the same successor.
pub proof fn lemma_advance_deterministic(a: GridModel, b: GridModel, a2: GridModel, b2: GridModel)
    requires
        a.wf(),
        b.wf(),
        a.width == b.width,
        a.height == b.height,
        a.cells == b.cells,
        a.is_next(a2),
        b.is_next(b2),
    ensures
        a2 == b2,
{
    assert(a == b);
    assert forall|i: int| 0 <= i < a2.cells.len() implies a2.cells[i] == b2.cells[i] by {
        lemma_index_covers(a2, i);
        let w = a.width as int;
        assert(a2.alive(i % w, i / w) == b2.alive(i % w, i / w));
    }
    assert(a2.cells =~= b2.cells);
}

/// At the corner `(0, 0)` only the three positions `(1, 0)`, `(0, 1)` and
/// `(1, 1)` are counted: nothing off the grid counts and nothing wraps around.
pub proof fn lemma_corner_neighbours(g: GridModel)
    requires
        g.wf(),
        g.width >= 2,
        g.height >= 2,
    ensures
        g.neighbours(0, 0) == (if g.alive(1, 0) {
            1int
        } else {
            0
        }) + (if g.alive(0, 1) {
            1int
        } else {
            0
        }) + (if g.alive(1, 1) {
            1int
        } else {
            0
        }),
{
}

/// Row-major indexing is a bijection between the grid's positions and
/// `0 .. width * height`.
pub proof fn lemma_index_bounds(w: int, h: int, x: int, y: int)
    requires
        0 <= x < w,
        0 <= y < h,
    ensures
        0 <= y * w + x < w * h,
{
    assert(0 <= y * w) by (nonlinear_arith)
        requires
            0 <= y,
            0 <= w,
    ;
    assert(y * w + x < w * h) by (nonlinear_arith)
        requires
            0 <= x < w,
            0 <= y < h,
    ;
}

/// Two positions of the grid with the same row-major index are the same position.
pub proof fn lemma_index_injective(w: int, x1: int, y1: int, x2: int, y2: int)
    requires
        0 <= x1 < w,
        0 <= x2 < w,
        0 <= y1,
        0 <= y2,
        y1 * w + x1 == y2 * w + x2,
    ensures
        x1 == x2,
        y1 == y2,
{
    if y1 < y2 {
        assert(y1 * w + x1 < y2 * w + x2) by (nonlinear_arith)
            requires
                0 <= x1 < w,
                0 <= x2,
                y1 < y2,
        ;
    } else if y2 < y1 {
        assert(y2 * w + x2 < y1 * w + x1) by (nonlinear_arith)
            requires
                0 <= x2 < w,
                0 <= x1,
                y2 < y1,
        ;
    }
}

} // verus!
