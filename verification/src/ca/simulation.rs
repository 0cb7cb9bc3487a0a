//! The simulation: a grid of cells that a transition rule carries from one
//! state to the next.
//!
//! A simulation holds two buffers of equal length. For every cell, a step
//! puts a clone of the cell's current value into the cell's slot of the
//! second buffer, reads the cell's neighbors in the first, and lets the
//! transition rule turn the clone into the cell's next value. Then it swaps
//! the two buffers. So every cell sees the grid as it was before the step,
//! whatever the step has already written.

use vstd::prelude::*;
use crate::ca::coords::{
    cell_count,
    coord_index,
    coord_to_idx,
    in_grid,
    index_coord,
    lemma_coord_round_trip,
    lemma_index_in_buffer,
    lemma_index_round_trip,
    valid_dims,
};
use crate::ca::neighborhood::{names_cells_only, NeighborhoodRule};

verus! {

/// The cells behind a list of references.
pub open spec fn cells_of<C>(refs: Seq<&C>) -> Seq<C> {
    Seq::new(refs.len(), |k: int| *refs[k])
}

/// A rule that gives a cell its next value.
///
/// The rule is handed the cell's current value and the current values of the
/// cell's neighbors, and leaves the cell's next value in the place of the
/// first. It may keep a state of its own from one cell to the next: what it
/// does is a function of that state, of the cell's current value and of the
/// neighbors.
pub trait TransitionRule<C>: Sized {
    /// The cells and neighbors that the rule can be applied to. A rule that
    /// does not say otherwise takes them all.
    open spec fn accepts(&self, cell: C, neighbors: Seq<C>) -> bool {
        true
    }

    /// The next value of a cell whose current value is `cell`. A rule that
    /// does not say otherwise leaves the cell as it is.
    open spec fn cell_after(&self, cell: C, neighbors: Seq<C>) -> C {
        cell
    }

    /// The rule's own state after it was applied. A rule that does not say
    /// otherwise keeps none.
    open spec fn rule_after(&self, cell: C, neighbors: Seq<C>) -> Self {
        *self
    }

    /// Turns the current value of `cell` into its next value, given the
    /// current values of its neighbors.
    fn apply(&mut self, cell: &mut C, neighbors: &[&C])
        requires
            old(self).accepts(*old(cell), cells_of(neighbors@)),
        ensures
            *final(cell) == old(self).cell_after(*old(cell), cells_of(neighbors@)),
            *final(self) == old(self).rule_after(*old(cell), cells_of(neighbors@)),
    ;
}

/// The rule that leaves every cell as it is.
pub struct Unchanged;

impl<C> TransitionRule<C> for Unchanged {
    fn apply(&mut self, _cell: &mut C, _neighbors: &[&C]) {
    }
}

/// What a simulation is made of: the size of the grid, the two rules, the
/// cells of the current state and the cells of the buffer that the next step
/// writes.
pub struct Grid<C, T, N> {
    pub width: int,
    pub height: int,
    pub transition: T,
    pub neighborhood: N,
    pub state: Seq<C>,
    pub buffer: Seq<C>,
}

impl<C: Clone, T: TransitionRule<C>, N: NeighborhoodRule> Grid<C, T, N> {
    /// The grid has a size that a simulation can have, and each of the two
    /// buffers holds one cell for every position.
    pub open spec fn wf(self) -> bool {
        &&& valid_dims(self.width, self.height)
        &&& self.state.len() == self.width * self.height
        &&& self.buffer.len() == self.width * self.height
    }

    /// The coordinates that the neighborhood rule names for the cell at
    /// position `i`.
    pub open spec fn neighbor_coords(self, i: int) -> Seq<(int, int)> {
        let at = index_coord(self.width, i);
        self.neighborhood.cells(at.0, at.1, self.width, self.height)
    }

    /// The position of neighbor `k` of the cell at position `i`.
    pub open spec fn neighbor_index(self, i: int, k: int) -> int {
        coord_index(self.width, self.neighbor_coords(i)[k].0, self.neighbor_coords(i)[k].1)
    }

    /// The current values of the neighbors of the cell at position `i`.
    pub open spec fn neighbors_at(self, i: int) -> Seq<C> {
        Seq::new(self.neighbor_coords(i).len(), |k: int| self.state[self.neighbor_index(i, k)])
    }

    /// Whether `handed` can be what a step hands to the transition rule: for
    /// every position a clone of the cell's current value.
    pub open spec fn hands(self, handed: Seq<C>) -> bool {
        &&& handed.len() == self.width * self.height
        &&& forall|i: int| 0 <= i < handed.len() ==> cloned(self.state[i], #[trigger] handed[i])
    }

    /// The transition rule as it stands when a step that hands it `handed`
    /// has gone through the first `n` positions, row by row.
    pub open spec fn rule_at(self, handed: Seq<C>, n: nat) -> T
        decreases n,
    {
        if n == 0 {
            self.transition
        } else {
            let i: nat = (n - 1) as nat;
            self.rule_at(handed, i).rule_after(handed[i as int], self.neighbors_at(i as int))
        }
    }

    /// The value that a step which hands the rule `handed` writes for the
    /// cell at position `i`.
    pub open spec fn cell_at(self, handed: Seq<C>, i: int) -> C {
        self.rule_at(handed, i as nat).cell_after(handed[i], self.neighbors_at(i))
    }

    /// Whether a step can be made: whatever clones of the current cells the
    /// step hands to the transition rule, the rule, as it stands when the
    /// step comes to a position, accepts the cell and the neighbors that it
    /// is handed there.
    pub open spec fn steppable(self) -> bool {
        forall|handed: Seq<C>, i: int|
            self.hands(handed) && 0 <= i < self.width * self.height ==> #[trigger] self.rule_at(
                handed,
                i as nat,
            ).accepts(handed[i], self.neighbors_at(i))
    }

    /// The simulation after a step that hands the transition rule `handed`.
    pub open spec fn step(self, handed: Seq<C>) -> Self {
        Grid {
            width: self.width,
            height: self.height,
            transition: self.rule_at(handed, (self.width * self.height) as nat),
            neighborhood: self.neighborhood,
            state: Seq::new((self.width * self.height) as nat, |i: int| self.cell_at(handed, i)),
            buffer: self.state,
        }
    }

    /// Whether one step can lead from this simulation to `next`.
    pub open spec fn steps_to(self, next: Self) -> bool {
        exists|handed: Seq<C>| self.hands(handed) && next == #[trigger] self.step(handed)
    }

    /// Whether `n` steps, one after the other, can lead from this simulation
    /// to `end`.
    pub open spec fn reaches(self, n: nat, end: Self) -> bool
        decreases n,
    {
        if n == 0 {
            end == self
        } else {
            exists|last: Self|
                self.reaches((n - 1) as nat, last) && #[trigger] last.steps_to(end)
        }
    }

    /// Whether `n` steps can be made, one after the other, wherever the
    /// earlier ones lead.
    pub open spec fn steppable_for(self, n: nat) -> bool {
        forall|k: nat, so_far: Self|
            k < n && #[trigger] self.reaches(k, so_far) ==> so_far.steppable()
    }
}

/// The number of steps that a count asks for: a count below zero asks for
/// none.
pub open spec fn step_total(step_count: i32) -> nat {
    if step_count > 0 {
        step_count as nat
    } else {
        0
    }
}

/// What the transition rule has become after `n` positions depends on the
/// cells that it was handed at these positions, and on no others.
pub proof fn lemma_rule_at_prefix<C: Clone, T: TransitionRule<C>, N: NeighborhoodRule>(
    grid: Grid<C, T, N>,
    handed: Seq<C>,
    other: Seq<C>,
    n: nat,
)
    requires
        forall|j: int| 0 <= j < n ==> handed[j] == other[j],
    ensures
        grid.rule_at(handed, n) == grid.rule_at(other, n),
    decreases n,
{
    if n > 0 {
        lemma_rule_at_prefix(grid, handed, other, (n - 1) as nat);
    }
}

/// Whether a clone of a cell is always the cell again, as it is for the
/// integers.
pub open spec fn clones_exactly<C: Clone>() -> bool {
    forall|a: C, b: C| #[trigger] cloned(a, b) ==> a == b
}

/// Where a clone of a cell is the cell again, a step hands the transition
/// rule the current state itself.
pub proof fn lemma_exact_clones<C: Clone, T: TransitionRule<C>, N: NeighborhoodRule>(
    grid: Grid<C, T, N>,
    handed: Seq<C>,
)
    requires
        grid.wf(),
        grid.hands(handed),
        clones_exactly::<C>(),
    ensures
        handed == grid.state,
{
    assert(handed =~= grid.state);
}

/// Where a clone of a cell is the cell again, a step can lead to one
/// simulation only: the rule is handed the current state.
pub proof fn lemma_exact_step<C: Clone, T: TransitionRule<C>, N: NeighborhoodRule>(
    grid: Grid<C, T, N>,
    next: Grid<C, T, N>,
)
    requires
        grid.wf(),
        grid.steps_to(next),
        clones_exactly::<C>(),
    ensures
        next == grid.step(grid.state),
{
    let handed = choose|handed: Seq<C>| grid.hands(handed) && next == #[trigger] grid.step(handed);
    lemma_exact_clones(grid, handed);
}

/// Where a clone of a cell is the cell again, a step can be made if the
/// transition rule accepts the current state, cell by cell.
pub proof fn lemma_exact_steppable<C: Clone, T: TransitionRule<C>, N: NeighborhoodRule>(
    grid: Grid<C, T, N>,
)
    requires
        grid.wf(),
        clones_exactly::<C>(),
        forall|i: int|
            0 <= i < grid.width * grid.height ==> #[trigger] grid.rule_at(
                grid.state,
                i as nat,
            ).accepts(grid.state[i], grid.neighbors_at(i)),
    ensures
        grid.steppable(),
{
    assert forall|handed: Seq<C>, i: int|
        grid.hands(handed) && 0 <= i < grid.width * grid.height implies #[trigger] grid.rule_at(
        handed,
        i as nat,
    ).accepts(handed[i], grid.neighbors_at(i)) by {
        lemma_exact_clones(grid, handed);
    }
}

/// Both buffers keep their length through a step: each holds one cell for
/// every position of the grid before it and after it.
pub proof fn lemma_step_keeps_lengths<C: Clone, T: TransitionRule<C>, N: NeighborhoodRule>(
    grid: Grid<C, T, N>,
    next: Grid<C, T, N>,
)
    requires
        grid.wf(),
        grid.steps_to(next),
    ensures
        next.wf(),
        next.width == grid.width,
        next.height == grid.height,
        next.state.len() == grid.width * grid.height,
        next.buffer.len() == grid.width * grid.height,
{
}

/// Both buffers keep their length through any number of steps, and the grid
/// keeps its size.
pub proof fn lemma_steps_keep_lengths<C: Clone, T: TransitionRule<C>, N: NeighborhoodRule>(
    grid: Grid<C, T, N>,
    n: nat,
    end: Grid<C, T, N>,
)
    requires
        grid.wf(),
        grid.reaches(n, end),
    ensures
        end.wf(),
        end.width == grid.width,
        end.height == grid.height,
        end.state.len() == grid.width * grid.height,
        end.buffer.len() == grid.width * grid.height,
    decreases n,
{
    if n > 0 {
        let last = choose|last: Grid<C, T, N>|
            grid.reaches((n - 1) as nat, last) && #[trigger] last.steps_to(end);
        lemma_steps_keep_lengths(grid, (n - 1) as nat, last);
        lemma_step_keeps_lengths(last, end);
    }
}

/// A step reads the state as it was before the step. Under a transition rule
/// that copies the value of neighbor `k` to the cell, whatever its own state
/// and whatever the cell held, the cell at position `i` holds after the step
/// what its neighbor `k` held before it.
pub proof fn lemma_step_reads_old_state<C: Clone, T: TransitionRule<C>, N: NeighborhoodRule>(
    grid: Grid<C, T, N>,
    next: Grid<C, T, N>,
    i: int,
    k: int,
)
    requires
        grid.wf(),
        grid.steps_to(next),
        0 <= i < grid.width * grid.height,
        0 <= k < grid.neighbor_coords(i).len(),
        forall|rule: T, cell: C, neighbors: Seq<C>|
            0 <= k < neighbors.len() ==> #[trigger] rule.cell_after(cell, neighbors)
                == neighbors[k],
    ensures
        next.state[i] == grid.state[grid.neighbor_index(i, k)],
{
}

/// Where the neighborhood rule names cells of the grid only, every neighbor
/// of a cell has its place in the buffer.
pub proof fn lemma_neighbor_index_in_buffer<C: Clone, T: TransitionRule<C>, N: NeighborhoodRule>(
    grid: Grid<C, T, N>,
    i: int,
    k: int,
)
    requires
        grid.wf(),
        names_cells_only(grid.neighborhood, grid.width, grid.height),
        0 <= i < grid.width * grid.height,
        0 <= k < grid.neighbor_coords(i).len(),
    ensures
        0 <= grid.neighbor_index(i, k) < grid.width * grid.height,
{
    let to = grid.neighbor_coords(i)[k];
    assert(grid.width >= 1) by (nonlinear_arith)
        requires
            0 <= grid.width,
            0 <= i < grid.width * grid.height,
    ;
    lemma_index_round_trip(grid.width, grid.height, i);
    assert(in_grid(to.0, to.1, grid.width, grid.height));
    lemma_index_in_buffer(grid.width, grid.height, to.0, to.1);
}

/// Under a transition rule that keeps no state, the order in which a step
/// goes over the cells does not matter: every cell is written by the rule as
/// it stood before the step.
pub proof fn lemma_stateless_rule_stays<C: Clone, T: TransitionRule<C>, N: NeighborhoodRule>(
    grid: Grid<C, T, N>,
    handed: Seq<C>,
    n: nat,
)
    requires
        forall|rule: T, cell: C, neighbors: Seq<C>| #[trigger]
            rule.rule_after(cell, neighbors) == rule,
    ensures
        grid.rule_at(handed, n) == grid.transition,
        n < grid.width * grid.height ==> grid.step(handed).state[n as int]
            == grid.transition.cell_after(handed[n as int], grid.neighbors_at(n as int)),
    decreases n,
{
    if n > 0 {
        lemma_stateless_rule_stays(grid, handed, (n - 1) as nat);
    }
}

/// Under the rule that leaves every cell as it is, a step can always be
/// made, and it leaves in every cell a clone of what the cell held. The cells
/// from before the step are those of the second buffer after it.
pub proof fn lemma_unchanged_step_keeps_cells<C: Clone, N: NeighborhoodRule>(
    grid: Grid<C, Unchanged, N>,
    next: Grid<C, Unchanged, N>,
)
    requires
        grid.wf(),
        grid.steps_to(next),
    ensures
        grid.steppable(),
        next.state.len() == grid.state.len(),
        forall|i: int| 0 <= i < grid.state.len() ==> cloned(grid.state[i], #[trigger] next.state[i]),
        next.buffer == grid.state,
{
}

/// Whether `cell` is a default value of its type, or a clone of one.
pub open spec fn default_valued<C: Clone + Default>(cell: C) -> bool {
    exists|d: C| call_ensures(C::default, (), d) && cloned(d, cell)
}

/// Why a simulation could not be made from the values given.
#[derive(Debug, Clone, Copy, PartialEq, Eq, Structural)]
pub enum ConfigError {
    /// A side of the grid is negative, or the grid has more cells than an
    /// `i32` can count.
    InvalidDimensions,
    /// The grid has `expected` cells, and `found` were given.
    CellCountMismatch { expected: usize, found: usize },
}

/// A cellular automaton on a grid of fixed size.
///
/// `C` is the type of a cell, `T` the transition rule that gives a cell its
/// next value, `N` the neighborhood rule that names the neighbors of a cell.
pub struct Simulation<C: Send, T, N> {
    width: i32,
    height: i32,
    transition: T,
    neighborhood: N,
    state: Vec<C>,
    buffer: Vec<C>,
}

impl<C: Send, T, N> View for Simulation<C, T, N> {
    type V = Grid<C, T, N>;

    closed spec fn view(&self) -> Grid<C, T, N> {
        Grid {
            width: self.width as int,
            height: self.height as int,
            transition: self.transition,
            neighborhood: self.neighborhood,
            state: self.state@,
            buffer: self.buffer@,
        }
    }
}

/// References to the cells of `state` at the coordinates `around`, which are
/// cells of the grid.
fn gather<'a, C>(state: &'a Vec<C>, width: i32, height: i32, around: &Vec<(i32, i32)>) -> (found:
    Vec<&'a C>)
    requires
        valid_dims(width as int, height as int),
        state@.len() == width * height,
        forall|k: int|
            0 <= k < around@.len() ==> in_grid(
                (#[trigger] around@[k]).0 as int,
                around@[k].1 as int,
                width as int,
                height as int,
            ),
    ensures
        found@.len() == around@.len(),
        forall|k: int|
            0 <= k < around@.len() ==> *(#[trigger] found@[k]) == state@[coord_index(
                width as int,
                around@[k].0 as int,
                around@[k].1 as int,
            )],
{
    let mut found: Vec<&'a C> = Vec::new();
    let mut k: usize = 0;
    while k < around.len()
        invariant
            0 <= k <= around@.len(),
            valid_dims(width as int, height as int),
            state@.len() == width * height,
            forall|k: int|
                0 <= k < around@.len() ==> in_grid(
                    (#[trigger] around@[k]).0 as int,
                    around@[k].1 as int,
                    width as int,
                    height as int,
                ),
            found@.len() == k,
            forall|j: int|
                0 <= j < k ==> *(#[trigger] found@[j]) == state@[coord_index(
                    width as int,
                    around@[j].0 as int,
                    around@[j].1 as int,
                )],
        decreases around@.len() - k,
    {
        let at: (i32, i32) = around[k];
        proof {
            lemma_index_in_buffer(width as int, height as int, at.0 as int, at.1 as int);
        }
        let idx: usize = coord_to_idx(width, at.0, at.1);
        found.push(&state[idx]);
        k = k + 1;
    }
    found
}

impl<C, T, N> Simulation<C, T, N> where
    C: Send + Clone + Default + core::fmt::Debug,
    T: TransitionRule<C>,
    N: NeighborhoodRule,
 {
    /// The grid has a size that a simulation can have, and each of the two
    /// buffers holds one cell for every position.
    pub open spec fn wf(&self) -> bool {
        self@.wf()
    }

    /// A simulation on a grid of the given size, in which every cell of both
    /// buffers has its default value. No step has been made.
    pub fn new(width: i32, height: i32, trans_fn: T, neighbor_fn: N) -> (made: Self)
        requires
            valid_dims(width as int, height as int),
        ensures
            made.wf(),
            made@.width == width,
            made@.height == height,
            made@.transition == trans_fn,
            made@.neighborhood == neighbor_fn,
            forall|i: int| 0 <= i < width * height ==> default_valued(#[trigger] made@.state[i]),
            forall|i: int| 0 <= i < width * height ==> default_valued(#[trigger] made@.buffer[i]),
    {
        let capacity: usize = (width * height) as usize;
        let state: Vec<C> = vec![C::default(); capacity];
        let buffer: Vec<C> = vec![C::default(); capacity];
        Simulation { width, height, transition: trans_fn, neighborhood: neighbor_fn, state, buffer }
    }

    /// A simulation on a grid of the given size whose cells are clones of
    /// `cells`, row by row. The second buffer, which the first step writes,
    /// holds `cells` themselves. No step has been made.
    ///
    /// Fails with [`ConfigError::InvalidDimensions`] if the grid has a size
    /// that no simulation can have, and else with
    /// [`ConfigError::CellCountMismatch`] if `cells` does not hold one cell
    /// for every position.
    pub fn from_cells(
        width: i32,
        height: i32,
        trans_fn: T,
        neighbor_fn: N,
        cells: Vec<C>,
    ) -> (made: Result<Self, ConfigError>)
        ensures
            match made {
                Ok(sim) => {
                    &&& valid_dims(width as int, height as int)
                    &&& cells@.len() == width * height
                    &&& sim.wf()
                    &&& sim@.width == width
                    &&& sim@.height == height
                    &&& sim@.transition == trans_fn
                    &&& sim@.neighborhood == neighbor_fn
                    &&& sim@.buffer == cells@
                    &&& forall|i: int|
                        0 <= i < cells@.len() ==> cloned(cells@[i], #[trigger] sim@.state[i])
                },
                Err(ConfigError::InvalidDimensions) => !valid_dims(width as int, height as int),
                Err(ConfigError::CellCountMismatch { expected, found }) => {
                    &&& valid_dims(width as int, height as int)
                    &&& cells@.len() != width * height
                    &&& expected == width * height
                    &&& found == cells@.len()
                },
            },
    {
        let expected: usize = match cell_count(width, height) {
            Some(count) => count,
            None => {
                return Err(ConfigError::InvalidDimensions);
            },
        };
        if cells.len() != expected {
            return Err(ConfigError::CellCountMismatch { expected, found: cells.len() });
        }
        let state: Vec<C> = cells.clone();
        Ok(
            Simulation {
                width,
                height,
                transition: trans_fn,
                neighborhood: neighbor_fn,
                state,
                buffer: cells,
            },
        )
    }

    /// What holds while a step that began in `before` goes over the grid:
    /// the rule was handed `handed` at the first `n` positions, these
    /// positions of the buffer hold their next values, and the current state
    /// is as it was.
    spec fn scanned(&self, before: Grid<C, T, N>, handed: Seq<C>, n: int) -> bool {
        &&& before.wf()
        &&& before.steppable()
        &&& 0 <= n <= before.width * before.height
        &&& self@.width == before.width
        &&& self@.height == before.height
        &&& self@.neighborhood == before.neighborhood
        &&& self@.state == before.state
        &&& self@.buffer.len() == before.buffer.len()
        &&& handed.len() == n
        &&& forall|j: int| 0 <= j < n ==> cloned(before.state[j], #[trigger] handed[j])
        &&& self@.transition == before.rule_at(handed, n as nat)
        &&& forall|j: int| 0 <= j < n ==> #[trigger] self@.buffer[j] == before.cell_at(handed, j)
    }

    /// Makes one step: the transition rule turns the current value of every
    /// cell into its next value, and sees the neighbors as they were before
    /// the step.
    ///
    /// The rule is applied to the cells row by row, and in each row from left
    /// to right. What it is handed for a cell is a clone of the cell's current
    /// value.
    pub fn step(&mut self)
        requires
            old(self).wf(),
            old(self)@.steppable(),
        ensures
            final(self).wf(),
            old(self)@.steps_to(final(self)@),
    {
        let width: i32 = self.width;
        let height: i32 = self.height;
        let ghost before = self@;
        let ghost mut handed: Seq<C> = Seq::empty();
        let mut y: i32 = 0;
        while y < height
            invariant
                width == self.width,
                height == self.height,
                0 <= y <= height,
                self.scanned(before, handed, y * width),
            decreases height - y,
        {
            let mut x: i32 = 0;
            while x < width
                invariant
                    width == self.width,
                    height == self.height,
                    0 <= y < height,
                    0 <= x <= width,
                    self.scanned(before, handed, y * width + x),
                decreases width - x,
            {
                let ghost n: int = y * width + x;
                proof {
                    lemma_index_in_buffer(width as int, height as int, x as int, y as int);
                    lemma_coord_round_trip(width as int, x as int, y as int);
                }
                let idx: usize = coord_to_idx(width, x, y);
                let current: C = self.state[idx].clone();
                let ghost grown = handed.push(current);
                self.buffer[idx] = current;
                let around: Vec<(i32, i32)> = self.neighborhood.neighbors(x, y, width, height);
                let neighbors: Vec<&C> = gather(&self.state, width, height, &around);
                proof {
                    assert(cells_of(neighbors@) =~= before.neighbors_at(n));
                    let rest = Seq::new(
                        before.state.len(),
                        |j: int|
                            if j <= n {
                                grown[j]
                            } else {
                                before.state[j]
                            },
                    );
                    assert(before.hands(rest));
                    lemma_rule_at_prefix(before, rest, handed, n as nat);
                    lemma_rule_at_prefix(before, grown, handed, n as nat);
                    assert(before.rule_at(rest, n as nat).accepts(rest[n], before.neighbors_at(n)));
                    assert forall|j: int| 0 <= j < n implies before.cell_at(grown, j)
                        == before.cell_at(handed, j) by {
                        lemma_rule_at_prefix(before, grown, handed, j as nat);
                    }
                }
                self.transition.apply(&mut self.buffer[idx], neighbors.as_slice());
                proof {
                    handed = grown;
                }
                x = x + 1;
            }
            proof {
                assert((y + 1) * width == y * width + width) by (nonlinear_arith);
            }
            y = y + 1;
        }
        proof {
            assert(y * width == before.width * before.height) by (nonlinear_arith)
                requires
                    y == before.height,
                    width == before.width,
            ;
        }
        core::mem::swap(&mut self.state, &mut self.buffer);
        proof {
            assert(self@.state =~= before.step(handed).state);
            assert(before.hands(handed));
            assert(self@ == before.step(handed));
        }
    }

    /// Makes `step_count` steps, one after the other; none if `step_count`
    /// is not positive.
    pub fn step_until(&mut self, step_count: i32)
        requires
            old(self).wf(),
            old(self)@.steppable_for(step_total(step_count)),
        ensures
            final(self).wf(),
            old(self)@.reaches(step_total(step_count), final(self)@),
    {
        let ghost before = self@;
        let mut done: i32 = 0;
        while done < step_count
            invariant
                0 <= done,
                done <= step_total(step_count),
                self.wf(),
                before.reaches(done as nat, self@),
                before.steppable_for(step_total(step_count)),
            decreases step_count - done,
        {
            let ghost last = self@;
            self.step();
            done = done + 1;
            proof {
                assert(before.reaches((done - 1) as nat, last) && last.steps_to(self@));
            }
        }
    }

    /// The cells of the current state, row by row.
    pub fn cells(&self) -> (cells: &[C])
        ensures
            cells@ == self@.state,
    {
        self.state.as_slice()
    }
}

} // verus!
