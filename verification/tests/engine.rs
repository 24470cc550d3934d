use predator_prey::grid::{Cell, Grid, GridConfig, CHANCE_DENOM};

fn quiet_config() -> GridConfig {
    GridConfig {
        predator_death_chance: 0,
        predator_reproduce_chance: 0,
        death_chance: 0,
        reproduce_chance: 0,
        spawn_chance: 0,
        predator_spawn_chance: 0,
    }
}

fn empty_grid(size: usize) -> Grid {
    Grid::new(size, quiet_config())
}

fn count_occupants(grid: &Grid) -> usize {
    let mut count = 0;
    for row in grid.get_cells() {
        for cell in row {
            if *cell != Cell::Empty {
                count += 1;
            }
        }
    }
    count
}

#[test]
fn get_returns_cells_in_bounds_and_absence_outside() {
    let mut grid = empty_grid(3);
    grid.set(2, 0, Cell::Male);
    assert_eq!(grid.get(2, 0), Some(Cell::Male));
    assert_eq!(grid.get(0, 0), Some(Cell::Empty));
    assert_eq!(grid.get(3, 0), None);
    assert_eq!(grid.get(0, 3), None);
    assert_eq!(grid.get(usize::MAX, usize::MAX), None);
}

#[test]
fn set_out_of_bounds_is_a_no_op() {
    let mut grid = empty_grid(3);
    grid.set(3, 1, Cell::Predator);
    grid.set(1, 3, Cell::Predator);
    grid.set(usize::MAX, 0, Cell::Predator);
    assert_eq!(count_occupants(&grid), 0);
}

#[test]
fn neighbours_out_of_bounds_does_not_panic() {
    let grid = empty_grid(3);
    // Far outside the board the clamped block is empty.
    let far = grid.get_neighbours(7, 7);
    assert_eq!(far.len(), 0);
    // Just past the edge the clamped block still holds the border column.
    let edge = grid.get_neighbours(3, 1);
    assert_eq!(edge.len(), 3);
    for ((cx, _cy), _cell) in edge {
        assert_eq!(cx, 2);
    }
}

#[test]
fn neighbour_counts_interior_corner_edge() {
    let grid = empty_grid(3);
    assert_eq!(grid.get_neighbours(1, 1).len(), 8);
    assert_eq!(grid.get_neighbours(0, 0).len(), 3);
    assert_eq!(grid.get_neighbours(2, 2).len(), 3);
    assert_eq!(grid.get_neighbours(2, 0).len(), 3);
    assert_eq!(grid.get_neighbours(1, 0).len(), 5);
    assert_eq!(grid.get_neighbours(0, 1).len(), 5);
    assert_eq!(grid.get_neighbours(2, 1).len(), 5);
}

#[test]
fn neighbours_are_row_major_with_correct_cells() {
    let mut grid = empty_grid(3);
    grid.set(0, 0, Cell::Male);
    grid.set(2, 2, Cell::Female);
    let neighbours = grid.get_neighbours(1, 1);
    let coords: Vec<(usize, usize)> = neighbours.iter().map(|entry| entry.0).collect();
    assert_eq!(
        coords,
        vec![(0, 0), (1, 0), (2, 0), (0, 1), (2, 1), (0, 2), (1, 2), (2, 2)]
    );
    assert_eq!(neighbours[0].1, Cell::Male);
    assert_eq!(neighbours[7].1, Cell::Female);
    assert_eq!(neighbours[1].1, Cell::Empty);
}

#[test]
fn neighbours_contain_returns_first_match() {
    let mut grid = empty_grid(3);
    grid.set(2, 0, Cell::Female);
    grid.set(0, 2, Cell::Female);
    let neighbours = grid.get_neighbours(1, 1);
    // (2, 0) is scanned before (0, 2) in row-major order.
    assert_eq!(
        Grid::neighbours_contain(&neighbours, Cell::Female),
        Some((2, 0))
    );
    assert_eq!(Grid::neighbours_contain(&neighbours, Cell::Predator), None);
}

#[test]
fn move_cell_refuses_overwriting_live_cells() {
    let mut grid = empty_grid(3);
    grid.set(0, 0, Cell::Male);
    grid.set(1, 1, Cell::Female);
    grid.move_cell(Cell::Male, (0, 0), (1, 1));
    // The female is preserved and the male has not moved.
    assert_eq!(grid.get(1, 1), Some(Cell::Female));
    assert_eq!(grid.get(0, 0), Some(Cell::Male));
}

#[test]
fn move_cell_refuses_displacing_a_predator() {
    let mut grid = empty_grid(3);
    grid.set(0, 0, Cell::Predator);
    grid.set(1, 1, Cell::Predator);
    grid.move_cell(Cell::Predator, (0, 0), (1, 1));
    assert_eq!(grid.get(0, 0), Some(Cell::Predator));
    assert_eq!(grid.get(1, 1), Some(Cell::Predator));
}

#[test]
fn move_cell_lets_a_predator_take_prey() {
    let mut grid = empty_grid(3);
    grid.set(0, 0, Cell::Predator);
    grid.set(1, 1, Cell::Female);
    grid.move_cell(Cell::Predator, (0, 0), (1, 1));
    assert_eq!(grid.get(0, 0), Some(Cell::Empty));
    assert_eq!(grid.get(1, 1), Some(Cell::Predator));
    assert_eq!(count_occupants(&grid), 1);
}

#[test]
fn move_cell_onto_empty_relocates() {
    let mut grid = empty_grid(3);
    grid.set(0, 0, Cell::Male);
    grid.move_cell(Cell::Male, (0, 0), (0, 1));
    assert_eq!(grid.get(0, 0), Some(Cell::Empty));
    assert_eq!(grid.get(0, 1), Some(Cell::Male));
}

#[test]
fn prey_jump_prefers_a_female() {
    let mut grid = empty_grid(3);
    grid.set(0, 0, Cell::Male);
    grid.set(2, 2, Cell::Female);
    assert_eq!(Grid::prey_jump(&grid, (1, 1)), Some((2, 2)));
    grid.set(2, 2, Cell::Empty);
    assert_eq!(Grid::prey_jump(&grid, (1, 1)), Some((0, 0)));
    grid.set(0, 0, Cell::Empty);
    assert_eq!(Grid::prey_jump(&grid, (1, 1)), None);
}

#[test]
fn can_reproduce_pairs_males_with_females() {
    let mut grid = empty_grid(3);
    grid.set(0, 0, Cell::Male);
    grid.set(0, 1, Cell::Female);
    assert_eq!(Grid::can_reproduce(&grid, (0, 0)), Some((0, 1)));
    assert_eq!(Grid::can_reproduce(&grid, (0, 1)), Some((0, 0)));
    assert_eq!(Grid::can_reproduce(&grid, (1, 1)), None);
    grid.set(1, 1, Cell::Predator);
    assert_eq!(Grid::can_reproduce(&grid, (1, 1)), None);
}

#[test]
fn random_adjacent_target_stays_in_the_clamped_block() {
    let grid = empty_grid(3);
    let mut generator = rand::thread_rng();
    for _ in 0..200 {
        let (tx, ty) = grid.random_adjacent_target(&mut generator, 1, 1);
        assert!(tx <= 2 && ty <= 2);
        assert_ne!((tx, ty), (1, 1));
        let (cx, cy) = grid.random_adjacent_target(&mut generator, 0, 0);
        assert!(cx <= 1 && cy <= 1);
        assert_ne!((cx, cy), (0, 0));
        let (ex, ey) = grid.random_adjacent_target(&mut generator, 2, 2);
        assert!(ex >= 1 && ex <= 2 && ey >= 1 && ey <= 2);
        assert_ne!((ex, ey), (2, 2));
    }
    // On a one-slot board only the centre exists, so bounds force it.
    let tiny = empty_grid(1);
    assert_eq!(tiny.random_adjacent_target(&mut generator, 0, 0), (0, 0));
}

#[test]
fn move_cell_refuses_an_out_of_bounds_destination() {
    let mut grid = empty_grid(3);
    grid.set(2, 2, Cell::Female);
    grid.move_cell(Cell::Female, (2, 2), (3, 2));
    grid.move_cell(Cell::Female, (2, 2), (2, 3));
    // The move is refused outright: the female is not silently destroyed.
    assert_eq!(grid.get(2, 2), Some(Cell::Female));
    assert_eq!(count_occupants(&grid), 1);
}

#[test]
fn occupants_are_conserved_without_predators_or_reproduction() {
    let mut grid = empty_grid(4);
    grid.set(0, 0, Cell::Male);
    grid.set(3, 3, Cell::Female);
    grid.set(1, 2, Cell::Male);
    for _ in 0..10 {
        grid = grid.advance();
        assert_eq!(count_occupants(&grid), 3);
    }
}

#[test]
fn new_spawns_nothing_at_zero_chance_and_everything_at_full_chance() {
    let empty = Grid::new(4, quiet_config());
    assert_eq!(count_occupants(&empty), 0);
    let mut config = quiet_config();
    config.spawn_chance = CHANCE_DENOM;
    config.predator_spawn_chance = CHANCE_DENOM;
    let full = Grid::new(4, config);
    for row in full.get_cells() {
        for cell in row {
            assert_eq!(*cell, Cell::Predator);
        }
    }
}

#[test]
fn predator_takes_adjacent_female_without_reproducing() {
    let mut config = quiet_config();
    config.predator_death_chance = 0;
    config.predator_reproduce_chance = 0;
    let mut grid = Grid::new(3, config);
    grid.set(1, 1, Cell::Predator);
    grid.set(0, 1, Cell::Female);
    assert_eq!(Grid::prey_jump(&grid, (1, 1)), Some((0, 1)));
    let next = grid.advance();
    assert_eq!(next.get(0, 1), Some(Cell::Predator));
    assert_eq!(next.get(1, 1), Some(Cell::Empty));
    // Whatever else happened, only the fleeing female may appear elsewhere,
    // and only next to her old slot.
    for (y, row) in next.get_cells().iter().enumerate() {
        for (x, cell) in row.iter().enumerate() {
            if (x, y) == (0, 1) || *cell == Cell::Empty {
                continue;
            }
            assert_eq!(*cell, Cell::Female);
            assert!(x <= 1 && (y as i64 - 1).abs() <= 1);
        }
    }
}

#[test]
fn predator_takes_adjacent_female_and_reproduces() {
    let mut config = quiet_config();
    config.predator_death_chance = 0;
    config.predator_reproduce_chance = CHANCE_DENOM;
    let mut grid = Grid::new(3, config);
    grid.set(1, 1, Cell::Predator);
    grid.set(0, 1, Cell::Female);
    let next = grid.advance();
    assert_eq!(next.get(0, 1), Some(Cell::Predator));
    assert_eq!(next.get(1, 1), Some(Cell::Predator));
}

#[test]
fn certain_predator_death_empties_the_slot() {
    let mut config = quiet_config();
    config.predator_death_chance = CHANCE_DENOM;
    let mut grid = Grid::new(3, config);
    grid.set(1, 1, Cell::Predator);
    let next = grid.advance();
    assert_eq!(count_occupants(&next), 0);
}

#[test]
fn parents_stay_and_offspring_appears_next_to_them() {
    let mut config = quiet_config();
    config.reproduce_chance = CHANCE_DENOM;
    let mut grid = Grid::new(3, config);
    grid.set(0, 0, Cell::Male);
    grid.set(0, 1, Cell::Female);
    let next = grid.advance();
    assert_eq!(next.get(0, 0), Some(Cell::Male));
    assert_eq!(next.get(0, 1), Some(Cell::Female));
    let mut newborns = 0;
    for (y, row) in next.get_cells().iter().enumerate() {
        for (x, cell) in row.iter().enumerate() {
            if (x, y) == (0, 0) || (x, y) == (0, 1) || *cell == Cell::Empty {
                continue;
            }
            // Every new occupant is a Male or Female on a slot that was
            // Empty and adjacent to one of the parents.
            assert!(*cell == Cell::Male || *cell == Cell::Female);
            assert!(matches!((x, y), (1, 0) | (1, 1) | (0, 2) | (1, 2)));
            newborns += 1;
        }
    }
    assert!(newborns >= 1);
}

#[test]
fn an_empty_grid_stays_empty_forever() {
    let mut grid = empty_grid(4);
    for _ in 0..5 {
        grid = grid.advance();
        assert_eq!(count_occupants(&grid), 0);
        assert_eq!(grid.get_cells().len(), 4);
    }
}

#[test]
fn advance_keeps_size_and_config() {
    let mut config = quiet_config();
    config.spawn_chance = CHANCE_DENOM / 2;
    config.predator_spawn_chance = CHANCE_DENOM / 10;
    config.reproduce_chance = CHANCE_DENOM / 10;
    config.predator_death_chance = CHANCE_DENOM / 10;
    let mut grid = Grid::new(5, config);
    for _ in 0..10 {
        grid = grid.advance();
        assert_eq!(grid.get_cells().len(), 5);
        for row in grid.get_cells() {
            assert_eq!(row.len(), 5);
        }
        assert_eq!(grid.config.reproduce_chance, CHANCE_DENOM / 10);
    }
}
