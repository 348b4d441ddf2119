//! The classic Game of Life rule on a flat, row-major cell buffer.

use vstd::prelude::*;

use crate::lifealgo::{
    apply_pairs, cell_at, in_bounds, lemma_lin_index_bound, lemma_lin_index_injective, lin_index,
    live_weight, neighbour_count, next_cell, next_grid, next_state_pair, offset_at, population_of,
    render_chars, render_prefix, row_chars, row_prefix_len, state_pair, symbol_of, wrap_index,
    Cell, Coords, InvalidCoordsError, InvalidSizeError, LifeAlgo,
};
use vstd::string::StringExecFns;

verus! {

broadcast use vstd::arithmetic::mul::lemma_mul_is_commutative;

/// A toroidal Game of Life grid: `width * height` cells in one exclusively
/// owned row-major buffer, fixed in size at construction.
pub struct GameOfLife {
    width: usize,
    height: usize,
    grid: Vec<Cell>,
}

/// Reduces `index` into `[0, num)` by true mathematical modulo, so that a
/// negative or overflowing coordinate component wraps to the opposite edge.
pub fn wrap_around(index: isize, num: isize) -> (r: usize)
    requires
        1 <= num,
    ensures
        r == wrap_index(index as int, num as int),
        r < num,
{
    let mut i: isize = index;
    while i < 0
        invariant
            1 <= num,
            i as int % num as int == index as int % num as int,
        decreases (if i < 0 { 0 - i as int } else { 0int }),
    {
        proof {
            vstd::arithmetic::div_mod::lemma_mod_add_multiples_vanish(i as int, num as int);
        }
        i = i + num;
    }
    while i >= num
        invariant
            1 <= num,
            0 <= i,
            i as int % num as int == index as int % num as int,
        decreases i,
    {
        proof {
            vstd::arithmetic::div_mod::lemma_mod_sub_multiples_vanish(i as int, num as int);
        }
        i = i - num;
    }
    proof {
        vstd::arithmetic::div_mod::lemma_small_mod(i as nat, num as nat);
    }
    i as usize
}

impl GameOfLife {
    /// The grid's width, as the contracts see it.
    pub closed spec fn width_view(&self) -> nat {
        self.width as nat
    }

    /// The grid's height, as the contracts see it.
    pub closed spec fn height_view(&self) -> nat {
        self.height as nat
    }

    /// The cell buffer, as the contracts see it.
    pub closed spec fn grid_view(&self) -> Seq<Cell> {
        self.grid@
    }

    /// The internal invariant: the buffer holds exactly `width * height`
    /// cells, and that product fits in `isize` (the buffer's cells are one
    /// byte each, so a Rust allocation could never exceed this anyway).
    pub closed spec fn valid(&self) -> bool {
        &&& self.grid@.len() == self.width * self.height
        &&& self.width * self.height <= isize::MAX
    }

    /// The flat buffer offset of `coords`, or `InvalidCoordsError` exactly
    /// when `coords` lies outside the grid.
    pub fn get_index_from_coords(&self, coords: Coords) -> (r: Result<usize, InvalidCoordsError>)
        requires
            self.valid(),
        ensures
            (match r {
                Ok(i) => in_bounds(self.width_view(), self.height_view(), coords) && i == lin_index(
                    self.width_view(),
                    coords,
                ),
                Err(_) => !in_bounds(self.width_view(), self.height_view(), coords),
            }),
    {
        if coords.x >= self.width || coords.y >= self.height {
            Err(InvalidCoordsError)
        } else {
            proof {
                lemma_lin_index_bound(
                    coords.x as int,
                    coords.y as int,
                    self.width as int,
                    self.height as int,
                );
            }
            Ok(coords.x + coords.y * self.width)
        }
    }

    /// Renders the grid as text: one line per row from top to bottom, each
    /// cell as `#` (alive) or a space (dead), with single spaces between the
    /// cells of a row and single newlines between rows.
    pub fn display_terminal(&self) -> (r: String)
        requires
            self.valid(),
        ensures
            r@ == render_chars(self.grid_view(), self.width_view(), self.height_view()),
    {
        let ghost g = self.grid_view();
        let ghost w = self.width_view();
        let ghost h = self.height_view();
        let mut out = String::new();
        let mut y: usize = 0;
        while y < self.height
            invariant
                self.valid(),
                g == self.grid_view(),
                w == self.width_view(),
                h == self.height_view(),
                y <= h,
                out@ == render_prefix(g, w, h, y as int),
            decreases h - y,
        {
            let mut x: usize = 0;
            while x < self.width
                invariant
                    self.valid(),
                    g == self.grid_view(),
                    w == self.width_view(),
                    h == self.height_view(),
                    y < h,
                    x <= w,
                    out@ == render_prefix(g, w, h, y as int) + row_chars(g, w, y as int).take(
                        row_prefix_len(w, x as int),
                    ),
                decreases w - x,
            {
                proof {
                    lemma_lin_index_bound(x as int, y as int, self.width as int, self.height as int);
                }
                let i: usize = x + y * self.width;
                let cell = self.grid[i];
                let ghost before = out@;
                if cell == Cell::Alive {
                    out.append("#");
                } else {
                    out.append(" ");
                }
                proof {
                    reveal_strlit("#");
                    reveal_strlit(" ");
                    let row = row_chars(g, w, y as int);
                    assert(row[2 * x as int] == symbol_of(cell_at(g, w, x as int, y as int)));
                    assert(out@ =~= before + seq![symbol_of(cell_at(g, w, x as int, y as int))]);
                    assert(row.take(2 * x as int + 1) =~= row.take(2 * x as int) + seq![
                        row[2 * x as int],
                    ]);
                    assert(out@ =~= render_prefix(g, w, h, y as int) + row.take(2 * x as int + 1));
                }
                if x != self.width - 1 {
                    out.append(" ");
                    proof {
                        reveal_strlit(" ");
                        let row = row_chars(g, w, y as int);
                        assert(row[2 * x as int + 1] == ' ');
                        assert(row.take(2 * x as int + 2) =~= row.take(2 * x as int + 1) + seq![
                            ' ',
                        ]);
                        assert(out@ =~= render_prefix(g, w, h, y as int) + row.take(
                            2 * x as int + 2,
                        ));
                    }
                }
                x = x + 1;
            }
            proof {
                let row = row_chars(g, w, y as int);
                assert(row.take(row_prefix_len(w, w as int)) =~= row);
            }
            if y != self.height - 1 {
                out.append("\n");
            }
            y = y + 1;
            proof {
                reveal_strlit("\n");
                assert(out@ =~= render_prefix(g, w, h, y as int));
            }
        }
        out
    }

    /// The 1/0 weight of the cell at the in-bounds position `(x, y)`.
    fn weight_at(&self, x: usize, y: usize) -> (r: u8)
        requires
            self.valid(),
            x < self.width_view(),
            y < self.height_view(),
        ensures
            r == live_weight(cell_at(self.grid_view(), self.width_view(), x as int, y as int)),
    {
        proof {
            lemma_lin_index_bound(x as int, y as int, self.width as int, self.height as int);
        }
        let i: usize = x + y * self.width;
        if self.grid[i] == Cell::Alive {
            1
        } else {
            0
        }
    }

    /// Counts the live toroidal neighbours of the in-bounds position
    /// `(x, y)`: the eight surrounding positions, wrapped at the edges.
    fn neighbours_of(&self, x: usize, y: usize) -> (r: u8)
        requires
            self.valid(),
            x < self.width_view(),
            y < self.height_view(),
        ensures
            r == neighbour_count(
                self.grid_view(),
                self.width_view(),
                self.height_view(),
                x as int,
                y as int,
            ),
    {
        proof {
            assert(self.width <= isize::MAX && self.height <= isize::MAX) by (nonlinear_arith)
                requires
                    self.width * self.height <= isize::MAX,
                    x < self.width,
                    y < self.height,
            ;
        }
        let w: isize = self.width as isize;
        let h: isize = self.height as isize;
        let xm = wrap_around(x as isize - 1, w);
        let xp = wrap_around(x as isize + 1, w);
        let ym = wrap_around(y as isize - 1, h);
        let yp = wrap_around(y as isize + 1, h);
        proof {
            // An in-bounds component is already its own wrapped value.
            vstd::arithmetic::div_mod::lemma_small_mod(x as nat, self.width as nat);
            vstd::arithmetic::div_mod::lemma_small_mod(y as nat, self.height as nat);
        }
        self.weight_at(xm, ym) + self.weight_at(x, ym) + self.weight_at(xp, ym) + self.weight_at(
            xm,
            y,
        ) + self.weight_at(xp, y) + self.weight_at(xm, yp) + self.weight_at(x, yp) + self.weight_at(
            xp,
            yp,
        )
    }

    /// The next generation's cell at the in-bounds position `(x, y)`,
    /// computed from the current generation only.
    fn next_cell_of(&self, x: usize, y: usize) -> (r: Cell)
        requires
            self.valid(),
            x < self.width_view(),
            y < self.height_view(),
        ensures
            r == next_cell(
                self.grid_view(),
                self.width_view(),
                self.height_view(),
                x as int,
                y as int,
            ),
    {
        let n = self.neighbours_of(x, y);
        proof {
            lemma_lin_index_bound(x as int, y as int, self.width as int, self.height as int);
        }
        let i: usize = x + y * self.width;
        let cur = self.grid[i];
        if n == 3 || (n == 2 && cur == Cell::Alive) {
            Cell::Alive
        } else {
            Cell::Dead
        }
    }

    /// Computes the whole next generation into a fresh buffer, reading only
    /// the current one.
    fn compute_next(&self) -> (v: Vec<Cell>)
        requires
            self.valid(),
        ensures
            v@.len() == self.width_view() * self.height_view(),
            forall|xx: int, yy: int|
                0 <= xx < self.width_view() && 0 <= yy < self.height_view() ==> v@[#[trigger] offset_at(
                    self.width_view(),
                    xx,
                    yy,
                )] == next_cell(
                    self.grid_view(),
                    self.width_view(),
                    self.height_view(),
                    xx,
                    yy,
                ),
    {
        let ghost w = self.width_view() as int;
        let mut v: Vec<Cell> = Vec::new();
        let mut y: usize = 0;
        while y < self.height
            invariant
                self.valid(),
                w == self.width_view() as int,
                y <= self.height_view(),
                v@.len() == y * w,
                forall|xx: int, yy: int|
                    0 <= xx < w && 0 <= yy < y ==> v@[#[trigger] offset_at(
                        self.width_view(),
                        xx,
                        yy,
                    )] == next_cell(
                        self.grid_view(),
                        self.width_view(),
                        self.height_view(),
                        xx,
                        yy,
                    ),
            decreases self.height_view() - y,
        {
            let mut x: usize = 0;
            while x < self.width
                invariant
                    self.valid(),
                    w == self.width_view() as int,
                    y < self.height_view(),
                    x <= self.width_view(),
                    v@.len() == y * w + x,
                    forall|xx: int, yy: int|
                        0 <= xx < w && 0 <= yy < y ==> v@[#[trigger] offset_at(
                            self.width_view(),
                            xx,
                            yy,
                        )] == next_cell(
                            self.grid_view(),
                            self.width_view(),
                            self.height_view(),
                            xx,
                            yy,
                        ),
                    forall|xx: int|
                        0 <= xx < x ==> v@[#[trigger] offset_at(self.width_view(), xx, y as int)]
                            == next_cell(
                            self.grid_view(),
                            self.width_view(),
                            self.height_view(),
                            xx,
                            y as int,
                        ),
                decreases self.width_view() - x,
            {
                proof {
                    // Every offset already filled lies strictly below the
                    // buffer's current length, so a push leaves it untouched.
                    assert forall|xx: int, yy: int|
                        0 <= xx < w && 0 <= yy < y implies 0 <= #[trigger] offset_at(
                        self.width_view(),
                        xx,
                        yy,
                    ) < y * w by {
                        lemma_lin_index_bound(xx, yy, w, y as int);
                    }
                }
                let c = self.next_cell_of(x, y);
                v.push(c);
                x = x + 1;
            }
            y = y + 1;
            proof {
                assert(v@.len() == (y - 1) * w + w);
                assert((y - 1) * w + w == y * w) by (nonlinear_arith);
            }
        }
        v
    }
}

impl LifeAlgo for GameOfLife {
    open spec fn spec_width(&self) -> nat {
        self.width_view()
    }

    open spec fn spec_height(&self) -> nat {
        self.height_view()
    }

    open spec fn spec_grid(&self) -> Seq<Cell> {
        self.grid_view()
    }

    open spec fn well_formed(&self) -> bool {
        self.valid()
    }

    fn new(width: usize, height: usize) -> (r: Self) {
        let size: usize = width * height;
        let mut grid: Vec<Cell> = Vec::new();
        let mut i: usize = 0;
        while i < size
            invariant
                i <= size,
                grid@.len() == i,
                forall|j: int| 0 <= j < i ==> grid@[j] == Cell::Dead,
            decreases size - i,
        {
            grid.push(Cell::Dead);
            i = i + 1;
        }
        GameOfLife { width, height, grid }
    }

    fn get_size(&self) -> (r: (usize, usize)) {
        (self.width, self.height)
    }

    fn get_cell(&self, coords: Coords) -> (r: Result<Cell, InvalidCoordsError>) {
        match self.get_index_from_coords(coords) {
            Ok(index) => {
                proof {
                    lemma_lin_index_bound(
                        coords.x as int,
                        coords.y as int,
                        self.width as int,
                        self.height as int,
                    );
                }
                Ok(self.grid[index])
            },
            Err(e) => Err(e),
        }
    }

    fn set_cell(&mut self, coords: Coords, new_state: Cell) -> (r: Result<(), InvalidCoordsError>) {
        match self.get_index_from_coords(coords) {
            Ok(index) => {
                proof {
                    lemma_lin_index_bound(
                        coords.x as int,
                        coords.y as int,
                        self.width as int,
                        self.height as int,
                    );
                }
                self.grid[index] = new_state;
                Ok(())
            },
            Err(e) => Err(e),
        }
    }

    fn get_cell_number_neighbours(&self, coords: Coords) -> (r: Result<u8, InvalidCoordsError>) {
        if coords.x >= self.width || coords.y >= self.height {
            Err(InvalidCoordsError)
        } else {
            Ok(self.neighbours_of(coords.x, coords.y))
        }
    }

    fn get_next_cell(&self, coords: Coords) -> (r: Result<Cell, InvalidCoordsError>) {
        if coords.x >= self.width || coords.y >= self.height {
            Err(InvalidCoordsError)
        } else {
            Ok(self.next_cell_of(coords.x, coords.y))
        }
    }

    fn get_state(&self) -> (r: Vec<(Coords, Cell)>) {
        let ghost h = self.height_view() as int;
        let mut r: Vec<(Coords, Cell)> = Vec::new();
        let mut x: usize = 0;
        while x < self.width
            invariant
                self.valid(),
                h == self.height_view() as int,
                x <= self.width_view(),
                r@.len() == x * h,
                forall|k: int| 0 <= k < r@.len() ==> #[trigger] r@[k] == state_pair(
                    self.grid_view(),
                    self.width_view(),
                    self.height_view(),
                    k,
                ),
            decreases self.width_view() - x,
        {
            let mut y: usize = 0;
            while y < self.height
                invariant
                    self.valid(),
                    h == self.height_view() as int,
                    x < self.width_view(),
                    y <= self.height_view(),
                    r@.len() == x * h + y,
                    forall|k: int| 0 <= k < r@.len() ==> #[trigger] r@[k] == state_pair(
                        self.grid_view(),
                        self.width_view(),
                        self.height_view(),
                        k,
                    ),
                decreases self.height_view() - y,
            {
                proof {
                    lemma_lin_index_bound(
                        x as int,
                        y as int,
                        self.width as int,
                        self.height as int,
                    );
                    vstd::arithmetic::div_mod::lemma_fundamental_div_mod_converse(
                        x as int * h + y,
                        h,
                        x as int,
                        y as int,
                    );
                }
                let i: usize = x + y * self.width;
                r.push((Coords { x, y }, self.grid[i]));
                y = y + 1;
            }
            x = x + 1;
            proof {
                assert((x - 1) * h + h == x * h) by (nonlinear_arith);
            }
        }
        r
    }

    fn set_state(&mut self, state: Vec<(Coords, Cell)>) -> (r: Result<(), InvalidSizeError>) {
        let total: usize = self.width * self.height;
        if state.len() != total {
            return Err(InvalidSizeError);
        }
        let mut k: usize = 0;
        while k < state.len()
            invariant
                self.valid(),
                self.width_view() == old(self).width_view(),
                self.height_view() == old(self).height_view(),
                state@.len() == old(self).width_view() * old(self).height_view(),
                forall|j: int| 0 <= j < state@.len() ==> in_bounds(
                    old(self).width_view(),
                    old(self).height_view(),
                    (#[trigger] state@[j]).0,
                ),
                k <= state@.len(),
                self.grid_view() == apply_pairs(
                    old(self).grid_view(),
                    old(self).width_view(),
                    state@.take(k as int),
                ),
            decreases state@.len() - k,
        {
            let pair = state[k];
            let c = pair.0;
            proof {
                lemma_lin_index_bound(c.x as int, c.y as int, self.width as int, self.height as int);
            }
            let i: usize = c.x + c.y * self.width;
            self.grid[i] = pair.1;
            proof {
                assert(state@.take(k as int + 1).drop_last() =~= state@.take(k as int));
                assert(state@.take(k as int + 1).last() == state@[k as int]);
            }
            k = k + 1;
        }
        proof {
            assert(state@.take(state@.len() as int) =~= state@);
        }
        Ok(())
    }

    fn get_next_state(&self) -> (r: Vec<(Coords, Cell)>) {
        let ghost h = self.height_view() as int;
        let mut r: Vec<(Coords, Cell)> = Vec::new();
        let mut x: usize = 0;
        while x < self.width
            invariant
                self.valid(),
                h == self.height_view() as int,
                x <= self.width_view(),
                r@.len() == x * h,
                forall|k: int| 0 <= k < r@.len() ==> #[trigger] r@[k] == next_state_pair(
                    self.grid_view(),
                    self.width_view(),
                    self.height_view(),
                    k,
                ),
            decreases self.width_view() - x,
        {
            let mut y: usize = 0;
            while y < self.height
                invariant
                    self.valid(),
                    h == self.height_view() as int,
                    x < self.width_view(),
                    y <= self.height_view(),
                    r@.len() == x * h + y,
                    forall|k: int| 0 <= k < r@.len() ==> #[trigger] r@[k] == next_state_pair(
                        self.grid_view(),
                        self.width_view(),
                        self.height_view(),
                        k,
                    ),
                decreases self.height_view() - y,
            {
                proof {
                    vstd::arithmetic::div_mod::lemma_fundamental_div_mod_converse(
                        x as int * h + y,
                        h,
                        x as int,
                        y as int,
                    );
                }
                let c = self.next_cell_of(x, y);
                r.push((Coords { x, y }, c));
                y = y + 1;
            }
            x = x + 1;
            proof {
                assert((x - 1) * h + h == x * h) by (nonlinear_arith);
            }
        }
        r
    }

    fn get_population(&self) -> (r: u128) {
        let mut total: u128 = 0;
        let mut i: usize = 0;
        while i < self.grid.len()
            invariant
                i <= self.grid_view().len(),
                total == population_of(self.grid_view().take(i as int)),
                total <= i,
            decreases self.grid_view().len() - i,
        {
            proof {
                assert(self.grid_view().take(i as int + 1).drop_last() =~= self.grid_view().take(
                    i as int,
                ));
                assert(self.grid_view().take(i as int + 1).last() == self.grid_view()[i as int]);
            }
            if self.grid[i] == Cell::Alive {
                total = total + 1;
            }
            i = i + 1;
        }
        proof {
            assert(self.grid_view().take(self.grid_view().len() as int) =~= self.grid_view());
        }
        total
    }

    fn step(&mut self) {
        let next_buf = self.compute_next();
        self.grid = next_buf;
        proof {
            let g = old(self).grid_view();
            let w = old(self).width_view();
            let h = old(self).height_view();
            assert forall|k: int| 0 <= k < w * h implies self.grid_view()[k] == next_grid(g, w, h)[k] by {
                vstd::arithmetic::div_mod::lemma_fundamental_div_mod(k, w as int);
                vstd::arithmetic::div_mod::lemma_mod_division_less_than_divisor(k, w as int);
                vstd::arithmetic::div_mod::lemma_multiply_divide_lt(k, w as int, h as int);
                assert(self.grid_view()[offset_at(w, k % (w as int), k / (w as int))]
                    == next_cell(g, w, h, k % (w as int), k / (w as int)));
            }
            assert(self.grid_view() =~= next_grid(g, w, h));
            assert forall|x: int, y: int|
                0 <= x < w && 0 <= y < h implies cell_at(self.grid_view(), w, x, y) == next_cell(
                g,
                w,
                h,
                x,
                y,
            ) by {
                lemma_lin_index_bound(x, y, w as int, h as int);
                assert(self.grid_view()[offset_at(w, x, y)] == next_cell(g, w, h, x, y));
            }
        }
    }

    fn set_state_with(&mut self, state: Cell) {
        let n = self.grid.len();
        let mut i: usize = 0;
        while i < n
            invariant
                self.valid(),
                self.width_view() == old(self).width_view(),
                self.height_view() == old(self).height_view(),
                n == self.grid_view().len(),
                i <= n,
                forall|j: int| 0 <= j < i ==> self.grid_view()[j] == state,
            decreases n - i,
        {
            self.grid[i] = state;
            i = i + 1;
        }
    }

    fn set_state_fn<F: Fn(Coords) -> Cell>(&mut self, func: F) {
        let mut y: usize = 0;
        while y < self.height
            invariant
                self.valid(),
                self.width_view() == old(self).width_view(),
                self.height_view() == old(self).height_view(),
                self.grid_view().len() == old(self).grid_view().len(),
                y <= self.height_view(),
                forall|c: Coords|
                    in_bounds(self.width_view(), self.height_view(), c)
                        ==> #[trigger] call_requires(func, (c,)),
                forall|c: Coords|
                    in_bounds(self.width_view(), self.height_view(), c) && c.y < y ==> call_ensures(
                        func,
                        (c,),
                        self.grid_view()[#[trigger] lin_index(self.width_view(), c)],
                    ),
            decreases self.height_view() - y,
        {
            let mut x: usize = 0;
            while x < self.width
                invariant
                    self.valid(),
                    self.width_view() == old(self).width_view(),
                    self.height_view() == old(self).height_view(),
                    self.grid_view().len() == old(self).grid_view().len(),
                    y < self.height_view(),
                    x <= self.width_view(),
                    forall|c: Coords|
                        in_bounds(self.width_view(), self.height_view(), c)
                            ==> #[trigger] call_requires(func, (c,)),
                    forall|c: Coords|
                        in_bounds(self.width_view(), self.height_view(), c) && (c.y < y || (c.y == y
                            && c.x < x)) ==> call_ensures(
                            func,
                            (c,),
                            self.grid_view()[#[trigger] lin_index(self.width_view(), c)],
                        ),
                decreases self.width_view() - x,
            {
                let here = Coords { x, y };
                let v = func(here);
                proof {
                    lemma_lin_index_bound(x as int, y as int, self.width as int, self.height as int);
                }
                let i: usize = x + y * self.width;
                self.grid[i] = v;
                proof {
                    // The one write changes only the offset of `here`; any
                    // other coordinate keeps its cell because distinct
                    // in-bounds coordinates have distinct offsets.
                    assert forall|c: Coords|
                        in_bounds(self.width_view(), self.height_view(), c) && (c.y < y || (c.y == y
                            && c.x <= x)) implies call_ensures(
                        func,
                        (c,),
                        self.grid_view()[#[trigger] lin_index(self.width_view(), c)],
                    ) by {
                        if c != here {
                            if lin_index(self.width_view(), c) == lin_index(
                                self.width_view(),
                                here,
                            ) {
                                lemma_lin_index_injective(
                                    self.width_view(),
                                    self.height_view(),
                                    c,
                                    here,
                                );
                            }
                            lemma_lin_index_bound(
                                c.x as int,
                                c.y as int,
                                self.width as int,
                                self.height as int,
                            );
                        }
                    }
                }
                x = x + 1;
            }
            y = y + 1;
        }
        proof {
            assert forall|c: Coords|
                in_bounds(old(self).width_view(), old(self).height_view(), c) implies call_ensures(
                func,
                (c,),
                self.grid_view()[lin_index(old(self).width_view(), c)],
            ) by {
                assert(c.y < self.height_view());
            }
        }
    }
}

} // verus!

