use life_rs::algorithms::gol::{wrap_around, GameOfLife};
use life_rs::lifealgo::{Cell, Coords, InvalidCoordsError, InvalidSizeError, LifeAlgo};

fn c(x: usize, y: usize) -> Coords {
    Coords { x, y }
}

#[test]
fn new_grid_is_all_dead() {
    let gol = GameOfLife::new(4, 3);
    assert_eq!(gol.get_size(), (4, 3));
    for x in 0..4 {
        for y in 0..3 {
            assert_eq!(gol.get_cell(c(x, y)).unwrap(), Cell::Dead);
        }
    }
    assert_eq!(gol.get_population(), 0);
}

#[test]
fn set_then_get_round_trip() {
    let mut gol = GameOfLife::new(5, 4);
    for x in 0..5 {
        for y in 0..4 {
            let v = if (x + y) % 2 == 0 { Cell::Alive } else { Cell::Dead };
            gol.set_cell(c(x, y), v).unwrap();
            assert_eq!(gol.get_cell(c(x, y)).unwrap(), v);
        }
    }
    assert_eq!(gol.get_cell(c(0, 0)).unwrap(), Cell::Alive);
    assert_eq!(gol.get_cell(c(1, 0)).unwrap(), Cell::Dead);
}

#[test]
fn out_of_bounds_coords_are_rejected() {
    let mut gol = GameOfLife::new(3, 3);
    assert_eq!(gol.get_cell(c(3, 0)).unwrap_err(), InvalidCoordsError);
    assert_eq!(gol.get_cell(c(0, 3)).unwrap_err(), InvalidCoordsError);
    assert_eq!(gol.get_cell(c(100, 100)).unwrap_err(), InvalidCoordsError);
    assert_eq!(gol.set_cell(c(3, 1), Cell::Alive).unwrap_err(), InvalidCoordsError);
    assert_eq!(gol.get_cell_number_neighbours(c(1, 3)).unwrap_err(), InvalidCoordsError);
    assert_eq!(gol.get_next_cell(c(4, 4)).unwrap_err(), InvalidCoordsError);
    assert_eq!(gol.get_index_from_coords(c(0, 5)).unwrap_err(), InvalidCoordsError);
}

#[test]
fn index_from_coords_is_row_major() {
    let gol = GameOfLife::new(4, 3);
    assert_eq!(gol.get_index_from_coords(c(0, 0)).unwrap(), 0);
    assert_eq!(gol.get_index_from_coords(c(3, 0)).unwrap(), 3);
    assert_eq!(gol.get_index_from_coords(c(0, 1)).unwrap(), 4);
    assert_eq!(gol.get_index_from_coords(c(2, 2)).unwrap(), 10);
}

#[test]
fn wrap_around_reduces_by_true_modulo() {
    assert_eq!(wrap_around(-1, 5), 4);
    assert_eq!(wrap_around(5, 5), 0);
    assert_eq!(wrap_around(7, 5), 2);
    assert_eq!(wrap_around(-6, 5), 4);
    assert_eq!(wrap_around(0, 1), 0);
    assert_eq!(wrap_around(-13, 1), 0);
    assert_eq!(wrap_around(3, 4), 3);
}

#[test]
fn set_state_wrong_length_leaves_grid_unchanged() {
    let mut gol = GameOfLife::new(2, 2);
    gol.set_cell(c(1, 1), Cell::Alive).unwrap();
    let err = gol.set_state(vec![(c(0, 0), Cell::Alive)]).unwrap_err();
    assert_eq!(err, InvalidSizeError);
    assert_eq!(gol.get_cell(c(0, 0)).unwrap(), Cell::Dead);
    assert_eq!(gol.get_cell(c(1, 1)).unwrap(), Cell::Alive);
    assert_eq!(gol.get_population(), 1);
}

#[test]
fn set_state_full_length_writes_every_coordinate() {
    let mut gol = GameOfLife::new(3, 2);
    let mut state = Vec::new();
    for x in 0..3 {
        for y in 0..2 {
            let v = if x == y { Cell::Alive } else { Cell::Dead };
            state.push((c(x, y), v));
        }
    }
    gol.set_state(state).unwrap();
    for x in 0..3 {
        for y in 0..2 {
            let want = if x == y { Cell::Alive } else { Cell::Dead };
            assert_eq!(gol.get_cell(c(x, y)).unwrap(), want);
        }
    }
}

#[test]
fn set_state_repeated_coordinate_keeps_last_value() {
    let mut gol = GameOfLife::new(1, 2);
    gol.set_state(vec![(c(0, 0), Cell::Alive), (c(0, 0), Cell::Dead)]).unwrap();
    assert_eq!(gol.get_cell(c(0, 0)).unwrap(), Cell::Dead);
    assert_eq!(gol.get_cell(c(0, 1)).unwrap(), Cell::Dead);
}

#[test]
fn population_of_uniform_fills() {
    let mut gol = GameOfLife::new(6, 7);
    gol.set_state_with(Cell::Alive);
    assert_eq!(gol.get_population(), 42);
    gol.set_state_with(Cell::Dead);
    assert_eq!(gol.get_population(), 0);
}

#[test]
fn population_counts_live_cells() {
    let mut gol = GameOfLife::new(4, 4);
    gol.set_cell(c(0, 0), Cell::Alive).unwrap();
    gol.set_cell(c(3, 2), Cell::Alive).unwrap();
    gol.set_cell(c(1, 3), Cell::Alive).unwrap();
    assert_eq!(gol.get_population(), 3);
}

#[test]
fn neighbour_count_wraps_toroidally() {
    let mut gol = GameOfLife::new(3, 3);
    gol.set_cell(c(0, 0), Cell::Alive).unwrap();
    // (2, 2) touches (0, 0) across the wrapped corner.
    assert_eq!(gol.get_cell_number_neighbours(c(2, 2)).unwrap(), 1);
    // (1, 1) touches (0, 0) directly, and no wrapped image adds to that.
    assert_eq!(gol.get_cell_number_neighbours(c(1, 1)).unwrap(), 1);
    // (1, 0) touches (0, 0) directly as well.
    assert_eq!(gol.get_cell_number_neighbours(c(1, 0)).unwrap(), 1);
    assert_eq!(gol.get_cell_number_neighbours(c(0, 0)).unwrap(), 0);
}

#[test]
fn one_cell_grid_is_its_own_eight_neighbours() {
    let mut gol = GameOfLife::new(1, 1);
    gol.set_cell(c(0, 0), Cell::Alive).unwrap();
    assert_eq!(gol.get_cell_number_neighbours(c(0, 0)).unwrap(), 8);
}

#[test]
fn next_cell_follows_the_classic_rule() {
    let mut gol = GameOfLife::new(5, 5);
    // Horizontal line at row 2, columns 1..=3.
    for x in 1..=3 {
        gol.set_cell(c(x, 2), Cell::Alive).unwrap();
    }
    // The centre survives with two neighbours.
    assert_eq!(gol.get_next_cell(c(2, 2)).unwrap(), Cell::Alive);
    // The ends die with one neighbour each.
    assert_eq!(gol.get_next_cell(c(1, 2)).unwrap(), Cell::Dead);
    assert_eq!(gol.get_next_cell(c(3, 2)).unwrap(), Cell::Dead);
    // The cells above and below the centre are born with three neighbours.
    assert_eq!(gol.get_next_cell(c(2, 1)).unwrap(), Cell::Alive);
    assert_eq!(gol.get_next_cell(c(2, 3)).unwrap(), Cell::Alive);
}

#[test]
fn blinker_line_turns_after_one_step() {
    let mut gol = GameOfLife::new(5, 5);
    for x in 1..=3 {
        gol.set_cell(c(x, 2), Cell::Alive).unwrap();
    }
    gol.step();
    for x in 0..5 {
        for y in 0..5 {
            let want = if x == 2 && (1..=3).contains(&y) { Cell::Alive } else { Cell::Dead };
            assert_eq!(gol.get_cell(c(x, y)).unwrap(), want, "cell ({}, {})", x, y);
        }
    }
    // A second step turns it back.
    gol.step();
    for x in 0..5 {
        for y in 0..5 {
            let want = if y == 2 && (1..=3).contains(&x) { Cell::Alive } else { Cell::Dead };
            assert_eq!(gol.get_cell(c(x, y)).unwrap(), want, "cell ({}, {})", x, y);
        }
    }
}

#[test]
fn block_is_a_still_life() {
    let mut gol = GameOfLife::new(5, 5);
    for x in 1..=2 {
        for y in 1..=2 {
            gol.set_cell(c(x, y), Cell::Alive).unwrap();
        }
    }
    for _ in 0..10 {
        gol.step();
        for x in 0..5 {
            for y in 0..5 {
                let want = if (1..=2).contains(&x) && (1..=2).contains(&y) {
                    Cell::Alive
                } else {
                    Cell::Dead
                };
                assert_eq!(gol.get_cell(c(x, y)).unwrap(), want, "cell ({}, {})", x, y);
            }
        }
    }
}

#[test]
fn step_matches_snapshot_of_next_state() {
    let mut gol = GameOfLife::new(6, 6);
    // An r-pentomino-like scatter.
    for &(x, y) in &[(2, 1), (3, 1), (1, 2), (2, 2), (2, 3), (4, 4), (5, 0)] {
        gol.set_cell(c(x, y), Cell::Alive).unwrap();
    }
    let planned = gol.get_next_state();
    gol.step();
    let actual = gol.get_state();
    assert_eq!(planned.len(), actual.len());
    for (p, a) in planned.iter().zip(actual.iter()) {
        assert_eq!(p.0, a.0);
        assert_eq!(p.1, a.1);
    }
}

#[test]
fn get_state_lists_columns_in_the_outer_loop() {
    let mut gol = GameOfLife::new(2, 2);
    gol.set_cell(c(1, 0), Cell::Alive).unwrap();
    let state = gol.get_state();
    assert_eq!(state.len(), 4);
    assert_eq!(state[0], (c(0, 0), Cell::Dead));
    assert_eq!(state[1], (c(0, 1), Cell::Dead));
    assert_eq!(state[2], (c(1, 0), Cell::Alive));
    assert_eq!(state[3], (c(1, 1), Cell::Dead));
}

#[test]
fn set_state_fn_fills_from_the_function() {
    let mut gol = GameOfLife::new(4, 4);
    gol.set_state_fn(|p: Coords| if (p.x + p.y) % 2 == 0 { Cell::Alive } else { Cell::Dead });
    for x in 0..4 {
        for y in 0..4 {
            let want = if (x + y) % 2 == 0 { Cell::Alive } else { Cell::Dead };
            assert_eq!(gol.get_cell(c(x, y)).unwrap(), want);
        }
    }
    assert_eq!(gol.get_population(), 8);
}

#[test]
fn display_renders_symbols_separators_and_rows() {
    let mut gol = GameOfLife::new(2, 2);
    gol.set_cell(c(0, 0), Cell::Alive).unwrap();
    assert_eq!(gol.display_terminal(), "#  \n   ");
    let mut line = GameOfLife::new(3, 1);
    line.set_state_with(Cell::Alive);
    assert_eq!(line.display_terminal(), "# # #");
}

#[test]
fn empty_grid_behaves() {
    let mut gol = GameOfLife::new(0, 0);
    assert_eq!(gol.get_size(), (0, 0));
    assert_eq!(gol.get_population(), 0);
    assert!(gol.get_state().is_empty());
    assert_eq!(gol.get_cell(c(0, 0)).unwrap_err(), InvalidCoordsError);
    gol.step();
    assert_eq!(gol.display_terminal(), "");
}
