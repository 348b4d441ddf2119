//! The automaton's data model: cells, coordinates, errors, and the
//! mathematical description of the grid and of the transition rule.

use vstd::prelude::*;

verus! {

/// The state of one grid cell.
#[derive(Debug, Clone, Copy, PartialEq, Eq, Structural)]
pub enum Cell {
    Dead,
    Alive,
}

impl Default for Cell {
    /// A cell starts out dead.
    fn default() -> (r: Self)
        ensures
            r == Cell::Dead,
    {
        Cell::Dead
    }
}

/// A position on the grid; valid positions lie in `[0, width) x [0, height)`.
#[derive(Debug, Clone, Copy, PartialEq, Eq, Structural)]
pub struct Coords {
    pub x: usize,
    pub y: usize,
}

impl Default for Coords {
    /// The default position is the top-left corner.
    fn default() -> (r: Self)
        ensures
            r.x == 0 && r.y == 0,
    {
        Coords { x: 0, y: 0 }
    }
}

/// A coordinate lay outside the grid's bounds.
#[derive(Debug, Clone, Copy, PartialEq, Eq, Structural)]
pub struct InvalidCoordsError;

/// A full-grid replacement did not hold exactly `width * height` entries.
#[derive(Debug, Clone, Copy, PartialEq, Eq, Structural)]
pub struct InvalidSizeError;

/// Whether `c` lies within a `w` by `h` grid.
pub open spec fn in_bounds(w: nat, h: nat, c: Coords) -> bool {
    c.x < w && c.y < h
}

/// The offset of coordinate `c` in the flat, row-major grid buffer.
pub open spec fn lin_index(w: nat, c: Coords) -> int {
    c.x + c.y * w
}

/// The flat offset of column `x`, row `y` in a grid of width `w`.
pub open spec fn offset_at(w: nat, x: int, y: int) -> int {
    x + y * w
}

/// The cell stored at column `x`, row `y` of a grid of width `w`.
pub open spec fn cell_at(g: Seq<Cell>, w: nat, x: int, y: int) -> Cell {
    g[x + y * w]
}

/// A coordinate component reduced into `[0, n)` by true mathematical modulo
/// (spec-mode `%` is Euclidean, so negative inputs wrap upward).
pub open spec fn wrap_index(i: int, n: int) -> int {
    i % n
}

/// The 1/0 weight of a cell when counting live neighbours or population.
pub open spec fn live_weight(c: Cell) -> nat {
    if c == Cell::Alive {
        1
    } else {
        0
    }
}

/// The weight of the neighbour of `(x, y)` at offset `(dx, dy)`, both
/// components wrapped toroidally.
pub open spec fn neighbour_weight(g: Seq<Cell>, w: nat, h: nat, x: int, y: int, dx: int, dy: int) -> nat {
    live_weight(cell_at(g, w, wrap_index(x + dx, w as int), wrap_index(y + dy, h as int)))
}

/// How many of the eight toroidal neighbours of `(x, y)` are alive.
pub open spec fn neighbour_count(g: Seq<Cell>, w: nat, h: nat, x: int, y: int) -> nat {
    neighbour_weight(g, w, h, x, y, -1, -1) + neighbour_weight(g, w, h, x, y, 0, -1)
        + neighbour_weight(g, w, h, x, y, 1, -1) + neighbour_weight(g, w, h, x, y, -1, 0)
        + neighbour_weight(g, w, h, x, y, 1, 0) + neighbour_weight(g, w, h, x, y, -1, 1)
        + neighbour_weight(g, w, h, x, y, 0, 1) + neighbour_weight(g, w, h, x, y, 1, 1)
}

/// The classic rule: a cell is alive in the next generation exactly when it
/// has three live neighbours, or two live neighbours and is itself alive.
pub open spec fn next_cell(g: Seq<Cell>, w: nat, h: nat, x: int, y: int) -> Cell {
    let n = neighbour_count(g, w, h, x, y);
    if n == 3 || (n == 2 && cell_at(g, w, x, y) == Cell::Alive) {
        Cell::Alive
    } else {
        Cell::Dead
    }
}

/// The whole next generation, every cell computed from the current grid `g`.
pub open spec fn next_grid(g: Seq<Cell>, w: nat, h: nat) -> Seq<Cell> {
    Seq::new(w * h, |k: int| next_cell(g, w, h, k % (w as int), k / (w as int)))
}

/// The symbol a cell is rendered as: `#` for a live cell, a space for a dead
/// one.
pub open spec fn symbol_of(c: Cell) -> char {
    if c == Cell::Alive {
        '#'
    } else {
        ' '
    }
}

/// Row `y` of the text rendering: the row's `w` symbols with a single space
/// between each pair, `2 * w - 1` characters in all.
pub open spec fn row_chars(g: Seq<Cell>, w: nat, y: int) -> Seq<char> {
    Seq::new(
        if w == 0 {
            0
        } else {
            (2 * w - 1) as nat
        },
        |i: int|
            if i % 2 == 0 {
                symbol_of(cell_at(g, w, i / 2, y))
            } else {
                ' '
            },
    )
}

/// The full text rendering of a grid: its `h` rows joined by single
/// newlines, with no trailing newline.
pub open spec fn render_chars(g: Seq<Cell>, w: nat, h: nat) -> Seq<char>
    decreases h,
{
    if h == 0 {
        Seq::empty()
    } else if h == 1 {
        row_chars(g, w, 0)
    } else {
        render_chars(g, w, (h - 1) as nat) + seq!['\n'] + row_chars(g, w, h - 1 as int)
    }
}

/// The rendering's state after the first `y` rows are done: those rows, and
/// the newline that separates them from the next row when one follows.
pub open spec fn render_prefix(g: Seq<Cell>, w: nat, h: nat, y: int) -> Seq<char> {
    if y == 0 {
        Seq::empty()
    } else if y == h {
        render_chars(g, w, h)
    } else {
        render_chars(g, w, y as nat) + seq!['\n']
    }
}

/// How many characters of row `y` stand after its first `x` cells: two per
/// cell (symbol and separator), except that the last cell has no separator.
pub open spec fn row_prefix_len(w: nat, x: int) -> int {
    if x == w && w > 0 {
        2 * w - 1
    } else {
        2 * x
    }
}

/// The number of live cells in a grid.
pub open spec fn population_of(g: Seq<Cell>) -> nat
    decreases g.len(),
{
    if g.len() == 0 {
        0
    } else {
        population_of(g.drop_last()) + live_weight(g.last())
    }
}

/// The `k`-th entry of the bulk state listing of a grid. The listing walks
/// the columns in the outer loop, so entry `k` describes column `k / h`,
/// row `k % h`.
pub open spec fn state_pair(g: Seq<Cell>, w: nat, h: nat, k: int) -> (Coords, Cell) {
    let c = Coords { x: (k / h as int) as usize, y: (k % h as int) as usize };
    (c, cell_at(g, w, c.x as int, c.y as int))
}

/// The `k`-th entry of the bulk listing of the *next* generation of `g`,
/// in the same column-outer order as `state_pair`.
pub open spec fn next_state_pair(g: Seq<Cell>, w: nat, h: nat, k: int) -> (Coords, Cell) {
    let c = Coords { x: (k / h as int) as usize, y: (k % h as int) as usize };
    (c, next_cell(g, w, h, c.x as int, c.y as int))
}

/// The grid after writing a sequence of `(Coords, Cell)` pairs in order;
/// where a coordinate repeats, the later pair wins.
pub open spec fn apply_pairs(s: Seq<Cell>, w: nat, pairs: Seq<(Coords, Cell)>) -> Seq<Cell>
    decreases pairs.len(),
{
    if pairs.len() == 0 {
        s
    } else {
        apply_pairs(s, w, pairs.drop_last()).update(lin_index(w, pairs.last().0), pairs.last().1)
    }
}

/// A flat offset computed from in-bounds coordinates stays below `w * h`.
pub proof fn lemma_lin_index_bound(x: int, y: int, w: int, h: int)
    requires
        0 <= x < w,
        0 <= y < h,
    ensures
        0 <= x + y * w < w * h,
{
    assert(0 <= x + y * w < w * h) by (nonlinear_arith)
        requires
            0 <= x < w,
            0 <= y < h,
    ;
}

/// Distinct in-bounds coordinates map to distinct flat offsets.
pub proof fn lemma_lin_index_injective(w: nat, h: nat, c1: Coords, c2: Coords)
    requires
        in_bounds(w, h, c1),
        in_bounds(w, h, c2),
        lin_index(w, c1) == lin_index(w, c2),
    ensures
        c1 == c2,
{
    let k = lin_index(w, c1);
    vstd::arithmetic::div_mod::lemma_fundamental_div_mod_converse(
        k,
        w as int,
        c1.y as int,
        c1.x as int,
    );
    vstd::arithmetic::div_mod::lemma_fundamental_div_mod_converse(
        k,
        w as int,
        c2.y as int,
        c2.x as int,
    );
}

/// The abstract automaton interface: construction, cell access, the
/// transition rule, bulk state access, and the step to the next generation.
///
/// Every method's contract is stated over the implementor's mathematical
/// model: its width, its height, and its grid as a sequence of cells in
/// row-major order.
pub trait LifeAlgo: Sized {
    /// The grid's width, as seen by the contracts.
    spec fn spec_width(&self) -> nat;

    /// The grid's height, as seen by the contracts.
    spec fn spec_height(&self) -> nat;

    /// The grid's cells in row-major order, as seen by the contracts.
    spec fn spec_grid(&self) -> Seq<Cell>;

    /// The implementor's internal invariant: the buffer holds exactly
    /// `width * height` cells, and that product fits the machine's limits.
    spec fn well_formed(&self) -> bool;

    /// Allocates a `width` by `height` grid with every cell dead.
    ///
    /// The precondition is a machine limit only: the flat buffer of
    /// single-byte cells cannot exceed `isize::MAX` entries.
    fn new(width: usize, height: usize) -> (r: Self)
        requires
            width * height <= isize::MAX,
        ensures
            r.well_formed(),
            r.spec_width() == width,
            r.spec_height() == height,
            r.spec_grid().len() == width * height,
            forall|i: int| 0 <= i < r.spec_grid().len() ==> r.spec_grid()[i] == Cell::Dead,
    ;

    /// Returns `(width, height)`.
    fn get_size(&self) -> (r: (usize, usize))
        ensures
            r.0 == self.spec_width(),
            r.1 == self.spec_height(),
    ;

    /// Returns the cell at `coords`, or `InvalidCoordsError` exactly when
    /// `coords` lies outside the grid.
    fn get_cell(&self, coords: Coords) -> (r: Result<Cell, InvalidCoordsError>)
        requires
            self.well_formed(),
        ensures
            (match r {
                Ok(c) => in_bounds(self.spec_width(), self.spec_height(), coords) && c == cell_at(
                    self.spec_grid(),
                    self.spec_width(),
                    coords.x as int,
                    coords.y as int,
                ),
                Err(_) => !in_bounds(self.spec_width(), self.spec_height(), coords),
            }),
    ;

    /// Overwrites the cell at `coords`, or returns `InvalidCoordsError`
    /// exactly when `coords` lies outside the grid, leaving the grid as it
    /// was.
    fn set_cell(&mut self, coords: Coords, new_state: Cell) -> (r: Result<
        (),
        InvalidCoordsError,
    >)
        requires
            old(self).well_formed(),
        ensures
            final(self).well_formed(),
            final(self).spec_width() == old(self).spec_width(),
            final(self).spec_height() == old(self).spec_height(),
            (match r {
                Ok(_) => in_bounds(old(self).spec_width(), old(self).spec_height(), coords)
                    && final(self).spec_grid() == old(self).spec_grid().update(
                    lin_index(old(self).spec_width(), coords),
                    new_state,
                ),
                Err(_) => !in_bounds(old(self).spec_width(), old(self).spec_height(), coords)
                    && final(self).spec_grid() == old(self).spec_grid(),
            }),
    ;

    /// Counts the live cells among the eight toroidal neighbours of `coords`,
    /// or returns `InvalidCoordsError` exactly when `coords` lies outside the
    /// grid.
    fn get_cell_number_neighbours(&self, coords: Coords) -> (r: Result<u8, InvalidCoordsError>)
        requires
            self.well_formed(),
        ensures
            (match r {
                Ok(n) => in_bounds(self.spec_width(), self.spec_height(), coords) && n
                    == neighbour_count(
                    self.spec_grid(),
                    self.spec_width(),
                    self.spec_height(),
                    coords.x as int,
                    coords.y as int,
                ),
                Err(_) => !in_bounds(self.spec_width(), self.spec_height(), coords),
            }),
    ;

    /// Applies the classic rule to the cell at `coords` against the current
    /// generation, or returns `InvalidCoordsError` exactly when `coords` lies
    /// outside the grid. The grid itself is not changed.
    fn get_next_cell(&self, coords: Coords) -> (r: Result<Cell, InvalidCoordsError>)
        requires
            self.well_formed(),
        ensures
            (match r {
                Ok(c) => in_bounds(self.spec_width(), self.spec_height(), coords) && c == next_cell(
                    self.spec_grid(),
                    self.spec_width(),
                    self.spec_height(),
                    coords.x as int,
                    coords.y as int,
                ),
                Err(_) => !in_bounds(self.spec_width(), self.spec_height(), coords),
            }),
    ;

    /// Lists the whole current generation as `(Coords, Cell)` pairs, one per
    /// grid position, columns in the outer loop.
    fn get_state(&self) -> (r: Vec<(Coords, Cell)>)
        requires
            self.well_formed(),
        ensures
            r@.len() == self.spec_width() * self.spec_height(),
            forall|k: int| 0 <= k < r@.len() ==> #[trigger] r@[k] == state_pair(
                self.spec_grid(),
                self.spec_width(),
                self.spec_height(),
                k,
            ),
    ;

    /// Replaces the whole grid from a sequence of `(Coords, Cell)` pairs.
    /// A sequence whose length is not exactly `width * height` is rejected
    /// with `InvalidSizeError` and the grid is left unchanged; otherwise every
    /// listed pair is written in order (a repeated coordinate keeps its last
    /// value).
    ///
    /// A full-length sequence must keep to the grid's bounds: an
    /// out-of-bounds pair in it is a caller's defect rather than a
    /// recoverable condition, so the precondition rules it out.
    fn set_state(&mut self, state: Vec<(Coords, Cell)>) -> (r: Result<(), InvalidSizeError>)
        requires
            old(self).well_formed(),
            state@.len() == old(self).spec_width() * old(self).spec_height() ==> forall|k: int|
                0 <= k < state@.len() ==> in_bounds(
                    old(self).spec_width(),
                    old(self).spec_height(),
                    (#[trigger] state@[k]).0,
                ),
        ensures
            final(self).well_formed(),
            final(self).spec_width() == old(self).spec_width(),
            final(self).spec_height() == old(self).spec_height(),
            (match r {
                Ok(_) => state@.len() == old(self).spec_width() * old(self).spec_height()
                    && final(self).spec_grid() == apply_pairs(
                    old(self).spec_grid(),
                    old(self).spec_width(),
                    state@,
                ),
                Err(_) => state@.len() != old(self).spec_width() * old(self).spec_height()
                    && final(self).spec_grid() == old(self).spec_grid(),
            }),
    ;

    /// Lists what the whole *next* generation will be, computed from the
    /// current one, without changing the grid.
    fn get_next_state(&self) -> (r: Vec<(Coords, Cell)>)
        requires
            self.well_formed(),
        ensures
            r@.len() == self.spec_width() * self.spec_height(),
            forall|k: int| 0 <= k < r@.len() ==> #[trigger] r@[k] == next_state_pair(
                self.spec_grid(),
                self.spec_width(),
                self.spec_height(),
                k,
            ),
    ;

    /// The number of live cells in the current generation.
    fn get_population(&self) -> (r: u128)
        requires
            self.well_formed(),
        ensures
            r == population_of(self.spec_grid()),
    ;

    /// Advances the grid to the next generation. Every new cell is computed
    /// from the generation as it stood before the call — no cell ever
    /// observes a neighbour that has already been updated within the same
    /// step — and the whole result is committed at once.
    fn step(&mut self)
        requires
            old(self).well_formed(),
        ensures
            final(self).well_formed(),
            final(self).spec_width() == old(self).spec_width(),
            final(self).spec_height() == old(self).spec_height(),
            final(self).spec_grid() == next_grid(
                old(self).spec_grid(),
                old(self).spec_width(),
                old(self).spec_height(),
            ),
            forall|x: int, y: int|
                0 <= x < old(self).spec_width() && 0 <= y < old(self).spec_height() ==> cell_at(
                    final(self).spec_grid(),
                    old(self).spec_width(),
                    x,
                    y,
                ) == next_cell(
                    old(self).spec_grid(),
                    old(self).spec_width(),
                    old(self).spec_height(),
                    x,
                    y,
                ),
    ;

    /// Fills every cell of the grid with `state`.
    fn set_state_with(&mut self, state: Cell)
        requires
            old(self).well_formed(),
        ensures
            final(self).well_formed(),
            final(self).spec_width() == old(self).spec_width(),
            final(self).spec_height() == old(self).spec_height(),
            final(self).spec_grid().len() == old(self).spec_grid().len(),
            forall|j: int| 0 <= j < final(self).spec_grid().len() ==> final(self).spec_grid()[j]
                == state,
    ;

    /// Sets every cell to `func` of its coordinates. `func` is consulted for
    /// each position of the grid independently; the stored cell is always a
    /// value that `func` could return for that position.
    fn set_state_fn<F: Fn(Coords) -> Cell>(&mut self, func: F)
        requires
            old(self).well_formed(),
            forall|c: Coords|
                in_bounds(old(self).spec_width(), old(self).spec_height(), c)
                    ==> #[trigger] call_requires(func, (c,)),
        ensures
            final(self).well_formed(),
            final(self).spec_width() == old(self).spec_width(),
            final(self).spec_height() == old(self).spec_height(),
            final(self).spec_grid().len() == old(self).spec_grid().len(),
            forall|c: Coords|
                in_bounds(old(self).spec_width(), old(self).spec_height(), c) ==> call_ensures(
                    func,
                    (c,),
                    final(self).spec_grid()[#[trigger] lin_index(old(self).spec_width(), c)],
                ),
    ;
}

} // verus!
