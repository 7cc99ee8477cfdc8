use crate::grid::{lemma_index_bounds, lemma_index_injective, life, GridModel};
use vstd::prelude::*;

verus! {

/// One square of the board.
pub struct Cell {
    alive: bool,
}

/// An update rule: the next state of one cell, read from the current
/// generation only.
pub trait Rule {
    /// The state that the rule gives to `(x, y)` in the generation after `g`.
    spec fn next_spec(&self, g: GridModel, x: int, y: int) -> bool;

    fn next_state(&self, game: &GameOfLife, x: u32, y: u32) -> (r: bool)
        requires
            game.wf(),
            x < game@.width,
            y < game@.height,
        ensures
            r == self.next_spec(game@, x as int, y as int),
    ;
}

/// Conway's rule (B3/S23).
pub struct ClassicRule;

impl Rule for ClassicRule {
    open spec fn next_spec(&self, g: GridModel, x: int, y: int) -> bool {
        life(g.alive(x, y), g.neighbours(x, y))
    }

    fn next_state(&self, game: &GameOfLife, x: u32, y: u32) -> (r: bool) {
        default_rule(game, x, y)
    }
}

/// Conway's rule applied to the cell at `(x, y)` of `game`.
pub fn default_rule(game: &GameOfLife, x: u32, y: u32) -> (r: bool)
    requires
        game.wf(),
        x < game@.width,
        y < game@.height,
    ensures
        r == life(game@.alive(x as int, y as int), game@.neighbours(x as int, y as int)),
{
    let neighbours = game.get_neighbours(x, y);
    let alive = game.get_cell(x, y);
    match (alive, neighbours) {
        (true, 2) | (true, 3) => true,
        (false, 3) => true,
        _ => false,
    }
}

/// Relies on rand::random::<bool>: one draw from the thread-local generator.
/// Nothing is known of the value drawn.
#[verifier::external_body]
fn random_bool() -> (r: bool) {
    rand::random::<bool>()
}

/// A Game of Life board of fixed size with hard edges (no wraparound).
pub struct GameOfLife {
    width: u32,
    height: u32,
    cells: Vec<Cell>,
}

impl View for GameOfLife {
    type V = GridModel;

    closed spec fn view(&self) -> GridModel {
        GridModel {
            width: self.width as nat,
            height: self.height as nat,
            cells: self.cells@.map_values(|c: Cell| c.alive),
        }
    }
}

impl GameOfLife {
    /// The board holds one cell per position and every row-major index fits in a `u32`.
    pub closed spec fn wf(&self) -> bool {
        &&& self.cells@.len() == self.width * self.height
        &&& self.width * self.height <= u32::MAX
    }

    pub proof fn lemma_wf(&self)
        requires
            self.wf(),
        ensures
            self@.wf(),
            self@.width * self@.height <= u32::MAX,
    {
    }

    fn index(&self, x: u32, y: u32) -> (r: usize)
        requires
            self.wf(),
            x < self.width,
            y < self.height,
        ensures
            r == y * self.width + x,
            r < self.cells@.len(),
    {
        proof {
            lemma_index_bounds(self.width as int, self.height as int, x as int, y as int);
        }
        (y * self.width + x) as usize
    }

    /// A board of `width` by `height` cells whose states are `states`, row by row.
    pub fn from_states(width: u32, height: u32, states: Vec<bool>) -> (r: GameOfLife)
        requires
            states@.len() == width * height,
            width * height <= u32::MAX,
        ensures
            r.wf(),
            r@ == (GridModel { width: width as nat, height: height as nat, cells: states@ }),
    {
        let mut cells: Vec<Cell> = Vec::new();
        let mut i: usize = 0;
        while i < states.len()
            invariant
                i <= states@.len(),
                cells@.len() == i,
                forall|j: int| 0 <= j < i ==> #[trigger] cells@[j].alive == states@[j],
            decreases states@.len() - i,
        {
            cells.push(Cell { alive: states[i] });
            i = i + 1;
        }
        let r = GameOfLife { width, height, cells };
        proof {
            assert(r@.cells =~= states@);
        }
        r
    }

    /// A board of `width` by `height` cells, each alive or dead by an
    /// independent random draw.
    pub fn new(width: u32, height: u32) -> (r: GameOfLife)
        requires
            width * height <= u32::MAX,
        ensures
            r.wf(),
            r@.width == width,
            r@.height == height,
    {
        let n: u32 = width * height;
        let mut states: Vec<bool> = Vec::new();
        let mut i: u32 = 0;
        while i < n
            invariant
                i <= n,
                states@.len() == i,
            decreases n - i,
        {
            states.push(random_bool());
            i = i + 1;
        }
        GameOfLife::from_states(width, height, states)
    }

    /// Makes alive every cell whose position is listed in `presets`;
    /// positions off the board are ignored. No cell is made dead.
    pub fn apply_presets(&mut self, presets: &Vec<(u32, u32)>)
        requires
            old(self).wf(),
        ensures
            final(self).wf(),
            final(self)@.width == old(self)@.width,
            final(self)@.height == old(self)@.height,
            forall|x: int, y: int|
                old(self)@.in_bounds(x, y) ==> #[trigger] final(self)@.alive(x, y) == (old(
                    self,
                )@.alive(x, y) || presets@.contains((x as u32, y as u32))),
    {
        let ghost g = self@;
        let mut k: usize = 0;
        while k < presets.len()
            invariant
                self.wf(),
                self@.width == g.width,
                self@.height == g.height,
                g.wf(),
                k <= presets@.len(),
                forall|x: int, y: int|
                    g.in_bounds(x, y) ==> #[trigger] self@.alive(x, y) == (g.alive(x, y) || exists|
                        j: int,
                    | 0 <= j < k && presets@[j] == (x as u32, y as u32)),
            decreases presets@.len() - k,
        {
            let (px, py) = presets[k];
            let ghost prev = self@;
            proof {
                self.lemma_wf();
            }
            if px < self.width && py < self.height {
                self.set_cell(px, py, true);
            }
            proof {
                assert forall|x: int, y: int| g.in_bounds(x, y) implies #[trigger] self@.alive(x, y)
                    == (g.alive(x, y) || exists|j: int|
                    0 <= j < k + 1 && presets@[j] == (x as u32, y as u32)) by {
                    lemma_index_bounds(g.width as int, g.height as int, x, y);
                    assert(presets@[k as int] == (px, py));
                    if presets@[k as int] == (x as u32, y as u32) {
                        assert(px == x && py == y);
                    } else {
                        if px < g.width && py < g.height {
                            if y * g.width + x == py * g.width + px {
                                lemma_index_injective(g.width as int, x, y, px as int, py as int);
                            }
                            lemma_index_bounds(g.width as int, g.height as int, px as int, py as int);
                            assert(self@.alive(x, y) == prev.alive(x, y));
                        }
                        if exists|j: int| 0 <= j < k + 1 && presets@[j] == (x as u32, y as u32) {
                            let j = choose|j: int|
                                0 <= j < k + 1 && presets@[j] == (x as u32, y as u32);
                            assert(j < k);
                        }
                    }
                }
            }
            k = k + 1;
        }
    }

    /// A random board (see `new`) on which every listed position that lies
    /// on the board is alive.
    pub fn new_with_presets(width: u32, height: u32, presets: Vec<(u32, u32)>) -> (r: GameOfLife)
        requires
            width * height <= u32::MAX,
        ensures
            r.wf(),
            r@.width == width,
            r@.height == height,
            forall|x: u32, y: u32|
                x < width && y < height && #[trigger] presets@.contains((x, y)) ==> r@.alive(
                    x as int,
                    y as int,
                ),
    {
        let mut map = GameOfLife::new(width, height);
        map.apply_presets(&presets);
        map
    }

    /// Sets the cell at `(x, y)` to `arg`, leaving every other cell as it was.
    pub fn set_cell(&mut self, x: u32, y: u32, arg: bool)
        requires
            old(self).wf(),
            x < old(self)@.width,
            y < old(self)@.height,
        ensures
            final(self).wf(),
            final(self)@ == (GridModel {
                cells: old(self)@.cells.update(y * old(self)@.width + x, arg),
                ..old(self)@
            }),
    {
        let index = self.index(x, y);
        self.cells.set(index, Cell { alive: arg });
        proof {
            assert(self@.cells =~= old(self)@.cells.update(y * old(self)@.width + x, arg));
        }
    }

    /// Whether the cell at `(x, y)` is alive.
    pub fn get_cell(&self, x: u32, y: u32) -> (r: bool)
        requires
            self.wf(),
            x < self@.width,
            y < self@.height,
        ensures
            r == self@.alive(x as int, y as int),
    {
        let index = self.index(x, y);
        self.cells[index].alive
    }

    /// 1 when the position at offset `(dx - 1, dy - 1)` from `(x, y)` lies on
    /// the board and holds a live cell, 0 otherwise.
    fn neighbour_alive(&self, x: u32, y: u32, dx: u32, dy: u32) -> (r: u32)
        requires
            self.wf(),
            x < self@.width,
            y < self@.height,
            dx <= 2,
            dy <= 2,
        ensures
            r == self@.live_at(x + dx - 1, y + dy - 1),
    {
        let i: u64 = x as u64 + dx as u64;
        let j: u64 = y as u64 + dy as u64;
        if i < 1 || j < 1 || i - 1 >= self.width as u64 || j - 1 >= self.height as u64 {
            0
        } else if self.get_cell((i - 1) as u32, (j - 1) as u32) {
            1
        } else {
            0
        }
    }

    /// Number of live cells among the eight positions around `(x, y)`;
    /// positions off the board are skipped.
    pub fn get_neighbours(&self, x: u32, y: u32) -> (r: u32)
        requires
            self.wf(),
            x < self@.width,
            y < self@.height,
        ensures
            r == self@.neighbours(x as int, y as int),
            r <= 8,
    {
        self.neighbour_alive(x, y, 0, 0) + self.neighbour_alive(x, y, 1, 0)
            + self.neighbour_alive(x, y, 2, 0) + self.neighbour_alive(x, y, 0, 1)
            + self.neighbour_alive(x, y, 2, 1) + self.neighbour_alive(x, y, 0, 2)
            + self.neighbour_alive(x, y, 1, 2) + self.neighbour_alive(x, y, 2, 2)
    }

    /// Replaces the board with the generation that `rule` makes of it. Every
    /// new state is computed from the current generation before any is stored.
    pub fn iterate_with<R: Rule>(&mut self, rule: &R)
        requires
            old(self).wf(),
        ensures
            final(self).wf(),
            final(self)@.width == old(self)@.width,
            final(self)@.height == old(self)@.height,
            forall|x: int, y: int|
                old(self)@.in_bounds(x, y) ==> #[trigger] final(self)@.alive(x, y)
                    == rule.next_spec(old(self)@, x, y),
    {
        let ghost g = self@;
        let ghost w = self.width as int;
        let mut new_cells: Vec<Cell> = Vec::new();
        let mut y: u32 = 0;
        while y < self.height
            invariant
                self.wf(),
                self@ == g,
                w == self.width,
                y <= self.height,
                new_cells@.len() == y * w,
                forall|xx: int, yy: int|
                    0 <= xx < w && 0 <= yy < y ==> #[trigger] new_cells@[yy * w + xx].alive
                        == rule.next_spec(g, xx, yy),
            decreases self.height - y,
        {
            let mut x: u32 = 0;
            while x < self.width
                invariant
                    self.wf(),
                    self@ == g,
                    w == self.width,
                    y < self.height,
                    x <= self.width,
                    new_cells@.len() == y * w + x,
                    forall|xx: int, yy: int|
                        0 <= xx < w && 0 <= yy < y ==> #[trigger] new_cells@[yy * w + xx].alive
                            == rule.next_spec(g, xx, yy),
                    forall|xx: int| 0 <= xx < x ==> #[trigger] new_cells@[y * w + xx].alive
                        == rule.next_spec(g, xx, y as int),
                decreases self.width - x,
            {
                let alive = rule.next_state(self, x, y);
                let ghost before = new_cells@;
                new_cells.push(Cell { alive });
                proof {
                    assert forall|xx: int, yy: int| 0 <= xx < w && 0 <= yy < y implies
                        #[trigger] new_cells@[yy * w + xx].alive == rule.next_spec(g, xx, yy) by {
                        assert(0 <= yy * w + xx < y * w) by (nonlinear_arith)
                            requires
                                0 <= xx < w,
                                0 <= yy < y,
                        ;
                        assert(new_cells@[yy * w + xx] == before[yy * w + xx]);
                    }
                    assert forall|xx: int| 0 <= xx < x + 1 implies #[trigger] new_cells@[y * w
                        + xx].alive == rule.next_spec(g, xx, y as int) by {
                        if xx < x {
                            assert(new_cells@[y * w + xx] == before[y * w + xx]);
                        }
                    }
                }
                x = x + 1;
            }
            proof {
                assert((y + 1) * w == y * w + w) by (nonlinear_arith);
                assert forall|xx: int, yy: int| 0 <= xx < w && 0 <= yy < y + 1 implies #[trigger] new_cells@[yy * w + xx].alive
                    == rule.next_spec(g, xx, yy) by {
                    if yy == y {
                    }
                }
            }
            y = y + 1;
        }
        proof {
            assert(y * w == w * self.height) by (nonlinear_arith)
                requires
                    y == self.height,
            ;
        }
        self.cells = new_cells;
        proof {
            assert forall|x: int, y: int| g.in_bounds(x, y) implies #[trigger] self@.alive(x, y)
                == rule.next_spec(g, x, y) by {
                lemma_index_bounds(w, g.height as int, x, y);
                assert(self@.cells[y * w + x] == self.cells@[y * w + x].alive);
            }
        }
    }

    /// Replaces the board with its next generation under Conway's rule.
    pub fn iterate(&mut self)
        requires
            old(self).wf(),
        ensures
            final(self).wf(),
            old(self)@.is_next(final(self)@),
    {
        self.iterate_with(&ClassicRule);
        proof {
            self.lemma_wf();
        }
    }

    pub fn width(&self) -> (r: u32)
        ensures
            r == self@.width,
    {
        self.width
    }

    pub fn height(&self) -> (r: u32)
        ensures
            r == self@.height,
    {
        self.height
    }
}

} // verus!
