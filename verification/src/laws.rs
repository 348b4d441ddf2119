//! General properties of the automaton model, each proved once and for all:
//! the write/read round trip, exactness of bulk replacement, the population
//! of uniformly filled grids, and the stability of the two-by-two block.

use vstd::prelude::*;

use crate::lifealgo::{
    apply_pairs, cell_at, in_bounds, lemma_lin_index_bound, lemma_lin_index_injective, lin_index,
    next_cell, next_grid, offset_at, population_of, wrap_index, Cell, Coords,
};

verus! {

broadcast use vstd::arithmetic::mul::lemma_mul_is_commutative;

/// Writing a cell and reading the same in-bounds coordinate back yields
/// exactly the value written.
pub proof fn lemma_set_get_round_trip(g: Seq<Cell>, w: nat, h: nat, c: Coords, v: Cell)
    requires
        g.len() == w * h,
        in_bounds(w, h, c),
    ensures
        cell_at(g.update(lin_index(w, c), v), w, c.x as int, c.y as int) == v,
{
    lemma_lin_index_bound(c.x as int, c.y as int, w as int, h as int);
}

/// Bulk replacement is exact: when every pair addresses a distinct in-bounds
/// coordinate, every coordinate listed ends up holding its listed cell, and
/// every coordinate not listed keeps its old cell.
pub proof fn lemma_apply_pairs_exact(s: Seq<Cell>, w: nat, h: nat, pairs: Seq<(Coords, Cell)>)
    requires
        s.len() == w * h,
        forall|k: int| 0 <= k < pairs.len() ==> in_bounds(w, h, (#[trigger] pairs[k]).0),
        forall|k: int, j: int|
            0 <= k < j < pairs.len() ==> (#[trigger] pairs[k]).0 != (#[trigger] pairs[j]).0,
    ensures
        apply_pairs(s, w, pairs).len() == s.len(),
        forall|k: int|
            0 <= k < pairs.len() ==> cell_at(
                apply_pairs(s, w, pairs),
                w,
                (#[trigger] pairs[k]).0.x as int,
                pairs[k].0.y as int,
            ) == pairs[k].1,
        forall|c: Coords|
            in_bounds(w, h, c) && (forall|k: int|
                0 <= k < pairs.len() ==> (#[trigger] pairs[k]).0 != c) ==> cell_at(
                apply_pairs(s, w, pairs),
                w,
                c.x as int,
                c.y as int,
            ) == cell_at(s, w, c.x as int, c.y as int),
    decreases pairs.len(),
{
    if pairs.len() > 0 {
        let rest = pairs.drop_last();
        let last = pairs.last();
        lemma_apply_pairs_exact(s, w, h, rest);
        lemma_lin_index_bound(last.0.x as int, last.0.y as int, w as int, h as int);
        assert forall|k: int|
            0 <= k < pairs.len() implies cell_at(
            apply_pairs(s, w, pairs),
            w,
            (#[trigger] pairs[k]).0.x as int,
            pairs[k].0.y as int,
        ) == pairs[k].1 by {
            lemma_lin_index_bound(pairs[k].0.x as int, pairs[k].0.y as int, w as int, h as int);
            if k < pairs.len() - 1 {
                assert(rest[k] == pairs[k]);
                if lin_index(w, pairs[k].0) == lin_index(w, last.0) {
                    lemma_lin_index_injective(w, h, pairs[k].0, last.0);
                }
            }
        }
        assert forall|c: Coords|
            in_bounds(w, h, c) && (forall|k: int|
                0 <= k < pairs.len() ==> (#[trigger] pairs[k]).0 != c) implies cell_at(
            apply_pairs(s, w, pairs),
            w,
            c.x as int,
            c.y as int,
        ) == cell_at(s, w, c.x as int, c.y as int) by {
            lemma_lin_index_bound(c.x as int, c.y as int, w as int, h as int);
            assert(forall|k: int| 0 <= k < rest.len() ==> (#[trigger] rest[k]).0 != c);
            assert(pairs[pairs.len() - 1].0 != c);
            if lin_index(w, c) == lin_index(w, last.0) {
                lemma_lin_index_injective(w, h, c, last.0);
            }
        }
    }
}

/// A uniformly filled grid's population is its whole size when the fill is
/// alive, and zero when it is dead.
pub proof fn lemma_population_uniform(g: Seq<Cell>, c: Cell)
    requires
        forall|i: int| 0 <= i < g.len() ==> g[i] == c,
    ensures
        population_of(g) == if c == Cell::Alive {
            g.len()
        } else {
            0nat
        },
    decreases g.len(),
{
    if g.len() > 0 {
        lemma_population_uniform(g.drop_last(), c);
    }
}

/// A grid that is all dead except for a two-by-two block of live cells whose
/// top-left corner is `(x0, y0)`.
pub open spec fn is_block_grid(g: Seq<Cell>, w: nat, h: nat, x0: int, y0: int) -> bool {
    &&& g.len() == w * h
    &&& forall|x: int, y: int|
        0 <= x < w && 0 <= y < h ==> #[trigger] cell_at(g, w, x, y) == (if x0 <= x <= x0 + 1 && y0
            <= y <= y0 + 1 {
            Cell::Alive
        } else {
            Cell::Dead
        })
}

/// Wrapping a coordinate component that is off by at most one grid length
/// moves it by exactly one grid length, or not at all.
pub proof fn lemma_wrap_near(i: int, n: int)
    requires
        1 <= n,
        -1 <= i <= n,
    ensures
        wrap_index(i, n) == if i < 0 {
            i + n
        } else if i >= n {
            i - n
        } else {
            i
        },
{
    if i < 0 {
        vstd::arithmetic::div_mod::lemma_mod_add_multiples_vanish(i, n);
        vstd::arithmetic::div_mod::lemma_small_mod((i + n) as nat, n as nat);
    } else if i >= n {
        vstd::arithmetic::div_mod::lemma_mod_sub_multiples_vanish(i, n);
        vstd::arithmetic::div_mod::lemma_small_mod((i - n) as nat, n as nat);
    } else {
        vstd::arithmetic::div_mod::lemma_small_mod(i as nat, n as nat);
    }
}

/// The two-by-two block is a still life: when the block sits at least one
/// cell away from every edge, one step leaves the whole grid unchanged.
pub proof fn lemma_block_is_still_life(g: Seq<Cell>, w: nat, h: nat, x0: int, y0: int)
    requires
        is_block_grid(g, w, h, x0, y0),
        1 <= x0,
        x0 + 2 < w,
        1 <= y0,
        y0 + 2 < h,
    ensures
        forall|x: int, y: int|
            0 <= x < w && 0 <= y < h ==> #[trigger] next_cell(g, w, h, x, y) == cell_at(g, w, x, y),
        next_grid(g, w, h) == g,
{
    assert forall|x: int, y: int|
        0 <= x < w && 0 <= y < h implies #[trigger] next_cell(g, w, h, x, y) == cell_at(
        g,
        w,
        x,
        y,
    ) by {
        lemma_wrap_near(x - 1, w as int);
        lemma_wrap_near(x + 1, w as int);
        lemma_wrap_near(y - 1, h as int);
        lemma_wrap_near(y + 1, h as int);
        vstd::arithmetic::div_mod::lemma_small_mod(x as nat, w as nat);
        vstd::arithmetic::div_mod::lemma_small_mod(y as nat, h as nat);
    }
    assert forall|k: int| 0 <= k < w * h implies next_grid(g, w, h)[k] == g[k] by {
        let wi = w as int;
        vstd::arithmetic::div_mod::lemma_fundamental_div_mod(k, wi);
        vstd::arithmetic::div_mod::lemma_mod_division_less_than_divisor(k, wi);
        vstd::arithmetic::div_mod::lemma_multiply_divide_lt(k, wi, h as int);
        assert(next_cell(g, w, h, k % wi, k / wi) == cell_at(g, w, k % wi, k / wi));
        assert(g[offset_at(w, k % wi, k / wi)] == g[k]);
    }
    assert(next_grid(g, w, h) =~= g);
}

/// The grid after `n` steps of the transition rule.
pub open spec fn stepped(g: Seq<Cell>, w: nat, h: nat, n: nat) -> Seq<Cell>
    decreases n,
{
    if n == 0 {
        g
    } else {
        next_grid(stepped(g, w, h, (n - 1) as nat), w, h)
    }
}

/// The two-by-two block away from the edges stays unchanged for any number
/// of steps.
pub proof fn lemma_block_still_life_forever(
    g: Seq<Cell>,
    w: nat,
    h: nat,
    x0: int,
    y0: int,
    n: nat,
)
    requires
        is_block_grid(g, w, h, x0, y0),
        1 <= x0,
        x0 + 2 < w,
        1 <= y0,
        y0 + 2 < h,
    ensures
        stepped(g, w, h, n) == g,
    decreases n,
{
    if n > 0 {
        lemma_block_still_life_forever(g, w, h, x0, y0, (n - 1) as nat);
        lemma_block_is_still_life(g, w, h, x0, y0);
    }
}

} // verus!
