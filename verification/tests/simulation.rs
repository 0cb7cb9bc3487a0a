use casim::ca::{
    coord_to_idx, idx_to_coord, von_neuman, ConfigError, NeighborhoodRule, Simulation,
    TransitionRule, Unchanged, VonNeuman,
};

/// Copies the value of one neighbor to the cell.
struct CopyNeighbor {
    which: usize,
}

impl<C: Clone> TransitionRule<C> for CopyNeighbor {
    fn apply(&mut self, cell: &mut C, neighbors: &[&C]) {
        *cell = neighbors[self.which].clone();
    }
}

/// Adds one to the cell.
struct Increment;

impl TransitionRule<i64> for Increment {
    fn apply(&mut self, cell: &mut i64, _neighbors: &[&i64]) {
        *cell += 1;
    }
}

/// Adds the first neighbor to the cell.
struct AddFirstNeighbor;

impl TransitionRule<i64> for AddFirstNeighbor {
    fn apply(&mut self, cell: &mut i64, neighbors: &[&i64]) {
        *cell += *neighbors[0];
    }
}

/// Appends the length of the first neighbor to the cell.
struct Append;

impl TransitionRule<Vec<i32>> for Append {
    fn apply(&mut self, cell: &mut Vec<i32>, neighbors: &[&Vec<i32>]) {
        cell.push(neighbors[0].len() as i32);
    }
}

/// Writes the sum of the neighbors.
struct SumOfNeighbors;

impl TransitionRule<i64> for SumOfNeighbors {
    fn apply(&mut self, cell: &mut i64, neighbors: &[&i64]) {
        *cell = neighbors.iter().map(|n| **n).sum();
    }
}

/// Writes into each cell how many cells were written before it.
struct Counter {
    seen: u32,
}

impl TransitionRule<u32> for Counter {
    fn apply(&mut self, cell: &mut u32, _neighbors: &[&u32]) {
        *cell = self.seen;
        self.seen += 1;
    }
}

/// Writes the neighbors as it is handed them.
struct Collect;

impl TransitionRule<Vec<i32>> for Collect {
    fn apply(&mut self, cell: &mut Vec<i32>, neighbors: &[&Vec<i32>]) {
        *cell = neighbors.iter().map(|n| n[0]).collect();
    }
}

/// The cell to the right, around the end of the row.
struct RightOnRing;

impl NeighborhoodRule for RightOnRing {
    fn neighbors(&self, x: i32, y: i32, width: i32, _height: i32) -> Vec<(i32, i32)> {
        vec![((x + 1) % width, y)]
    }
}

/// The cell itself and the four corners of the grid.
struct SelfAndCorners;

impl NeighborhoodRule for SelfAndCorners {
    fn neighbors(&self, x: i32, y: i32, width: i32, height: i32) -> Vec<(i32, i32)> {
        vec![
            (x, y),
            (0, 0),
            (width - 1, 0),
            (0, height - 1),
            (width - 1, height - 1),
        ]
    }
}

/// A transition rule that calls a closure.
struct Calling<F>(F);

impl<C, F: FnMut(&mut C, &[&C])> TransitionRule<C> for Calling<F> {
    fn apply(&mut self, cell: &mut C, neighbors: &[&C]) {
        (self.0)(cell, neighbors)
    }
}

fn located(width: i32, height: i32) -> Vec<(i32, i32)> {
    (0..(width * height) as usize)
        .map(|idx| idx_to_coord(width as usize, idx))
        .collect()
}

#[test]
fn new_fills_the_grid_with_default_cells() {
    let sim: Simulation<i64, Unchanged, VonNeuman> = Simulation::new(4, 3, Unchanged, VonNeuman);
    assert_eq!(sim.cells(), &[0i64; 12][..]);
    let sim: Simulation<(i32, bool), Unchanged, VonNeuman> =
        Simulation::new(2, 2, Unchanged, VonNeuman);
    assert_eq!(sim.cells(), &[(0, false); 4][..]);
}

#[test]
fn new_on_an_empty_grid() {
    let mut sim: Simulation<i64, Increment, VonNeuman> = Simulation::new(0, 0, Increment, VonNeuman);
    assert!(sim.cells().is_empty());
    sim.step();
    assert!(sim.cells().is_empty());
    let mut sim: Simulation<i64, Increment, VonNeuman> = Simulation::new(0, 7, Increment, VonNeuman);
    assert!(sim.cells().is_empty());
    sim.step_until(3);
    assert!(sim.cells().is_empty());
    let sim: Simulation<i64, Increment, VonNeuman> = Simulation::new(7, 0, Increment, VonNeuman);
    assert!(sim.cells().is_empty());
}

#[test]
fn new_starts_every_cell_from_its_default_value() {
    let mut sim: Simulation<i64, Increment, VonNeuman> = Simulation::new(3, 2, Increment, VonNeuman);
    sim.step();
    assert_eq!(sim.cells(), &[1i64; 6][..]);
    sim.step();
    assert_eq!(sim.cells(), &[2i64; 6][..]);
    sim.step();
    assert_eq!(sim.cells(), &[3i64; 6][..]);
}

#[test]
fn from_cells_keeps_the_cells_in_order() {
    let cells: Vec<i64> = (0..12).collect();
    let sim = Simulation::from_cells(4, 3, Unchanged, VonNeuman, cells.clone()).unwrap();
    assert_eq!(sim.cells(), &cells[..]);
    assert_eq!(sim.cells().len(), 12);
}

#[test]
fn from_cells_rejects_a_wrong_number_of_cells() {
    let made = Simulation::from_cells(4, 3, Unchanged, VonNeuman, vec![0i64; 11]);
    assert_eq!(
        made.err(),
        Some(ConfigError::CellCountMismatch { expected: 12, found: 11 })
    );
    let made = Simulation::from_cells(4, 3, Unchanged, VonNeuman, vec![0i64; 13]);
    assert_eq!(
        made.err(),
        Some(ConfigError::CellCountMismatch { expected: 12, found: 13 })
    );
    let made = Simulation::from_cells(4, 3, Unchanged, VonNeuman, Vec::<i64>::new());
    assert_eq!(
        made.err(),
        Some(ConfigError::CellCountMismatch { expected: 12, found: 0 })
    );
    let made = Simulation::from_cells(0, 3, Unchanged, VonNeuman, vec![0i64; 3]);
    assert_eq!(
        made.err(),
        Some(ConfigError::CellCountMismatch { expected: 0, found: 3 })
    );
}

#[test]
fn from_cells_rejects_a_grid_that_cannot_be() {
    let made = Simulation::from_cells(-1, 3, Unchanged, VonNeuman, vec![0i64; 3]);
    assert_eq!(made.err(), Some(ConfigError::InvalidDimensions));
    let made = Simulation::from_cells(3, -1, Unchanged, VonNeuman, Vec::<i64>::new());
    assert_eq!(made.err(), Some(ConfigError::InvalidDimensions));
    let made = Simulation::from_cells(-2, -3, Unchanged, VonNeuman, vec![0i64; 6]);
    assert_eq!(made.err(), Some(ConfigError::InvalidDimensions));
    let made = Simulation::from_cells(65_536, 32_768, Unchanged, VonNeuman, Vec::<i64>::new());
    assert_eq!(made.err(), Some(ConfigError::InvalidDimensions));
    let made = Simulation::from_cells(i32::MAX, i32::MAX, Unchanged, VonNeuman, Vec::<i64>::new());
    assert_eq!(made.err(), Some(ConfigError::InvalidDimensions));
}

#[test]
fn from_cells_takes_the_largest_count_that_fits() {
    // 65_536 * 32_767 = i32::MAX - 65_535: the size is fine, the cells are
    // missing.
    let made = Simulation::from_cells(65_536, 32_767, Unchanged, VonNeuman, Vec::<i64>::new());
    assert_eq!(
        made.err(),
        Some(ConfigError::CellCountMismatch { expected: 2_147_418_112, found: 0 })
    );
    let made = Simulation::from_cells(0, 0, Unchanged, VonNeuman, Vec::<i64>::new());
    assert!(made.is_ok());
    let made = Simulation::from_cells(0, i32::MAX, Unchanged, VonNeuman, Vec::<i64>::new());
    assert!(made.is_ok());
}

#[test]
fn identity_step_leaves_located_cells_unchanged() {
    let cells = located(3, 3);
    assert_eq!(cells[5], (2, 1));
    let mut sim = Simulation::from_cells(3, 3, Unchanged, VonNeuman, cells.clone()).unwrap();
    sim.step();
    assert_eq!(sim.cells(), &cells[..]);
    for (idx, cell) in sim.cells().iter().enumerate() {
        assert_eq!(coord_to_idx(3, cell.0, cell.1), idx);
    }
    sim.step();
    assert_eq!(sim.cells(), &cells[..]);
    sim.step_until(5);
    assert_eq!(sim.cells(), &cells[..]);
}

#[test]
fn step_reads_the_state_from_before_the_step() {
    // Every cell takes the value of its first neighbor. Were the step to
    // read what it has written, a value would run along a row within one step.
    let width = 4;
    let height = 3;
    let cells: Vec<i64> = (100..112).collect();
    let mut sim =
        Simulation::from_cells(width, height, CopyNeighbor { which: 0 }, VonNeuman, cells.clone())
            .unwrap();
    sim.step();
    for y in 0..height {
        for x in 0..width {
            let first = von_neuman(x, y, width, height)[0];
            assert_eq!(
                sim.cells()[coord_to_idx(width, x, y)],
                cells[coord_to_idx(width, first.0, first.1)]
            );
        }
    }
    assert_eq!(
        sim.cells(),
        &[101i64, 100, 101, 102, 100, 104, 105, 106, 104, 108, 109, 110][..]
    );
}

#[test]
fn step_reads_the_state_from_before_the_step_second_neighbor() {
    let cells: Vec<i64> = (0..9).collect();
    let mut sim =
        Simulation::from_cells(3, 3, CopyNeighbor { which: 1 }, VonNeuman, cells).unwrap();
    sim.step();
    assert_eq!(sim.cells(), &[3i64, 2, 5, 4, 1, 2, 7, 4, 5][..]);
}

#[test]
fn step_on_a_ring_shifts_by_one_cell_each_step() {
    let cells: Vec<i64> = vec![1, 2, 3, 4, 5];
    let mut sim =
        Simulation::from_cells(5, 1, CopyNeighbor { which: 0 }, RightOnRing, cells).unwrap();
    sim.step();
    assert_eq!(sim.cells(), &[2i64, 3, 4, 5, 1][..]);
    sim.step();
    assert_eq!(sim.cells(), &[3i64, 4, 5, 1, 2][..]);
    sim.step_until(3);
    assert_eq!(sim.cells(), &[1i64, 2, 3, 4, 5][..]);
}

#[test]
fn step_hands_the_neighbors_in_the_order_of_the_rule() {
    let cells: Vec<Vec<i32>> = (0..9).map(|v| vec![v]).collect();
    let mut sim = Simulation::from_cells(3, 3, Collect, VonNeuman, cells).unwrap();
    sim.step();
    assert_eq!(sim.cells()[4], vec![3, 1, 5, 7]);
    assert_eq!(sim.cells()[0], vec![1, 3]);
    assert_eq!(sim.cells()[8], vec![7, 5]);
    assert_eq!(sim.cells()[5], vec![4, 2, 8]);
}

#[test]
fn step_with_a_rule_that_names_the_cell_itself() {
    let cells: Vec<i64> = vec![1, 10, 100, 1_000, 10_000, 100_000];
    let mut sim = Simulation::from_cells(3, 2, SumOfNeighbors, SelfAndCorners, cells).unwrap();
    sim.step();
    let corners: i64 = 1 + 100 + 1_000 + 100_000;
    assert_eq!(
        sim.cells(),
        &[
            corners + 1,
            corners + 10,
            corners + 100,
            corners + 1_000,
            corners + 10_000,
            corners + 100_000
        ][..]
    );
}

#[test]
fn step_sums_the_neighbors() {
    let cells: Vec<i64> = vec![1, 2, 3, 4, 5, 6, 7, 8, 9];
    let mut sim = Simulation::from_cells(3, 3, SumOfNeighbors, VonNeuman, cells).unwrap();
    sim.step();
    assert_eq!(sim.cells(), &[6i64, 9, 8, 13, 20, 17, 12, 21, 14][..]);
    sim.step();
    assert_eq!(sim.cells(), &[22i64, 34, 26, 38, 60, 42, 34, 46, 38][..]);
}

#[test]
fn step_on_a_single_cell_grid() {
    let mut sim = Simulation::from_cells(1, 1, SumOfNeighbors, VonNeuman, vec![42i64]).unwrap();
    sim.step();
    assert_eq!(sim.cells(), &[0i64][..]);
    let mut sim = Simulation::from_cells(1, 1, Collect, VonNeuman, vec![vec![7]]).unwrap();
    sim.step();
    assert_eq!(sim.cells(), &[Vec::<i32>::new()][..]);
}

#[test]
fn step_goes_over_the_grid_row_by_row() {
    let mut sim: Simulation<u32, Counter, VonNeuman> =
        Simulation::new(3, 2, Counter { seen: 0 }, VonNeuman);
    sim.step();
    assert_eq!(sim.cells(), &[0u32, 1, 2, 3, 4, 5][..]);
    for y in 0..2 {
        for x in 0..3 {
            assert_eq!(sim.cells()[coord_to_idx(3, x, y)], (y * 3 + x) as u32);
        }
    }
    sim.step();
    assert_eq!(sim.cells(), &[6u32, 7, 8, 9, 10, 11][..]);
}

#[test]
fn step_hands_the_rule_the_current_value_of_the_cell() {
    let cells: Vec<i64> = vec![10, 20, 30, 40];
    let mut sim = Simulation::from_cells(2, 2, Increment, VonNeuman, cells).unwrap();
    sim.step();
    assert_eq!(sim.cells(), &[11i64, 21, 31, 41][..]);
    sim.step();
    assert_eq!(sim.cells(), &[12i64, 22, 32, 42][..]);
    sim.step();
    assert_eq!(sim.cells(), &[13i64, 23, 33, 43][..]);
    sim.step_until(4);
    assert_eq!(sim.cells(), &[17i64, 27, 37, 47][..]);
}

#[test]
fn step_counts_up_on_a_single_cell() {
    let mut sim = Simulation::from_cells(1, 1, Increment, VonNeuman, vec![0i64]).unwrap();
    sim.step();
    assert_eq!(sim.cells(), &[1i64][..]);
    sim.step();
    assert_eq!(sim.cells(), &[2i64][..]);
    sim.step();
    assert_eq!(sim.cells(), &[3i64][..]);
}

#[test]
fn step_adds_the_neighbor_to_the_current_value() {
    let mut sim =
        Simulation::from_cells(3, 1, AddFirstNeighbor, RightOnRing, vec![1i64, 2, 3]).unwrap();
    sim.step();
    assert_eq!(sim.cells(), &[3i64, 5, 4][..]);
    sim.step();
    assert_eq!(sim.cells(), &[8i64, 9, 7][..]);
    sim.step();
    assert_eq!(sim.cells(), &[17i64, 16, 15][..]);
}

#[test]
fn step_hands_a_clone_of_a_cell_that_is_no_plain_value() {
    let cells: Vec<Vec<i32>> = vec![vec![], vec![7], vec![8, 9]];
    let mut sim = Simulation::from_cells(3, 1, Append, RightOnRing, cells).unwrap();
    sim.step();
    assert_eq!(sim.cells(), &[vec![1], vec![7, 2], vec![8, 9, 0]][..]);
    sim.step();
    assert_eq!(sim.cells(), &[vec![1, 2], vec![7, 2, 3], vec![8, 9, 0, 1]][..]);
}

#[test]
fn step_keeps_the_number_of_cells() {
    let mut sim: Simulation<i64, SumOfNeighbors, VonNeuman> =
        Simulation::new(5, 7, SumOfNeighbors, VonNeuman);
    assert_eq!(sim.cells().len(), 35);
    for _ in 0..4 {
        sim.step();
        assert_eq!(sim.cells().len(), 35);
    }
    sim.step_until(3);
    assert_eq!(sim.cells().len(), 35);
}

#[test]
fn step_until_makes_as_many_steps() {
    let cells: Vec<i64> = vec![1, 2, 3, 4, 5, 6, 7, 8, 9];
    let mut by_one = Simulation::from_cells(3, 3, SumOfNeighbors, VonNeuman, cells.clone()).unwrap();
    let mut at_once = Simulation::from_cells(3, 3, SumOfNeighbors, VonNeuman, cells).unwrap();
    for _ in 0..5 {
        by_one.step();
    }
    at_once.step_until(5);
    assert_eq!(by_one.cells(), at_once.cells());

    let mut counted: Simulation<u32, Counter, VonNeuman> =
        Simulation::new(3, 2, Counter { seen: 0 }, VonNeuman);
    counted.step_until(4);
    assert_eq!(counted.cells(), &[18u32, 19, 20, 21, 22, 23][..]);
}

#[test]
fn step_until_zero_or_less_makes_no_step() {
    let cells: Vec<i64> = vec![10, 20, 30, 40];
    let mut sim = Simulation::from_cells(2, 2, Increment, VonNeuman, cells.clone()).unwrap();
    sim.step_until(0);
    assert_eq!(sim.cells(), &cells[..]);
    sim.step_until(-1);
    assert_eq!(sim.cells(), &cells[..]);
    sim.step_until(i32::MIN);
    assert_eq!(sim.cells(), &cells[..]);
    sim.step_until(1);
    assert_eq!(sim.cells(), &[11i64, 21, 31, 41][..]);
}

#[test]
fn neighbors_line_up_on_grids_of_many_sizes() {
    // Every cell holds its own coordinates; each neighbor that a rule is
    // handed must lie beside the cell of the same position in the state.
    struct LinedUp {
        width: i32,
        at: usize,
    }
    impl TransitionRule<(i32, i32)> for LinedUp {
        fn apply(&mut self, cell: &mut (i32, i32), neighbors: &[&(i32, i32)]) {
            assert_eq!(*cell, idx_to_coord(self.width as usize, self.at));
            let mut found: Vec<(i32, i32)> = Vec::new();
            for n in neighbors {
                assert!(
                    (cell.0 == n.0 && (cell.1 == n.1 - 1 || cell.1 == n.1 + 1))
                        || (cell.1 == n.1 && (cell.0 == n.0 - 1 || cell.0 == n.0 + 1))
                );
                assert!(!found.contains(*n));
                found.push(**n);
            }
            self.at += 1;
        }
    }
    for height in 0..12 {
        for width in 0..12 {
            let rule = LinedUp { width, at: 0 };
            let mut sim =
                Simulation::from_cells(width, height, rule, VonNeuman, located(width, height))
                    .unwrap();
            sim.step();
            assert_eq!(sim.cells(), &located(width, height)[..]);
        }
    }
}

#[test]
fn a_closure_with_a_state_of_its_own_can_be_the_rule() {
    let mut calls: usize = 0;
    let mut most: usize = 0;
    {
        let rule = Calling(|cell: &mut i64, neighbors: &[&i64]| {
            calls += 1;
            most = most.max(neighbors.len());
            *cell = neighbors.len() as i64;
        });
        let mut sim: Simulation<i64, _, VonNeuman> = Simulation::new(4, 3, rule, VonNeuman);
        sim.step_until(2);
        assert_eq!(sim.cells(), &[2i64, 3, 3, 2, 3, 4, 4, 3, 2, 3, 3, 2][..]);
    }
    assert_eq!(calls, 24);
    assert_eq!(most, 4);
}
