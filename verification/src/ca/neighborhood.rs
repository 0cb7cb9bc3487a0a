//! Neighborhood rules: which cells count as the neighbors of a cell.

use vstd::prelude::*;
use crate::ca::coords::{coord_index, in_grid, lemma_index_in_buffer, valid_dims};

verus! {

/// A list of coordinates as mathematical pairs.
pub open spec fn coords(cells: Seq<(i32, i32)>) -> Seq<(int, int)> {
    cells.map_values(|c: (i32, i32)| (c.0 as int, c.1 as int))
}

/// A rule that names the neighbors of a cell.
///
/// A rule is a pure function of the cell's coordinates and of the size of the
/// grid. It names cells of the grid only: the simulation reads the cells that
/// the rule names as they are named.
pub trait NeighborhoodRule {
    /// The neighbors of the cell `(x, y)` in a grid of the given size, in the
    /// order in which [`NeighborhoodRule::neighbors`] lists them. A rule that
    /// does not say otherwise names none.
    open spec fn cells(&self, x: int, y: int, width: int, height: int) -> Seq<(int, int)> {
        Seq::empty()
    }

    /// Lists the neighbors of the cell `(x, y)`, which is a cell of the grid.
    fn neighbors(&self, x: i32, y: i32, width: i32, height: i32) -> (found: Vec<(i32, i32)>)
        requires
            in_grid(x as int, y as int, width as int, height as int),
        ensures
            coords(found@) == self.cells(x as int, y as int, width as int, height as int),
            forall|k: int|
                0 <= k < found@.len() ==> in_grid(
                    (#[trigger] found@[k]).0 as int,
                    found@[k].1 as int,
                    width as int,
                    height as int,
                ),
    ;
}

/// Whether the rule names cells of the grid only, whichever cell of the
/// grid it is asked about.
pub open spec fn names_cells_only<N: NeighborhoodRule>(rule: N, width: int, height: int) -> bool {
    forall|x: int, y: int, k: int|
        in_grid(x, y, width, height) && 0 <= k < rule.cells(x, y, width, height).len()
            ==> in_grid(
            (#[trigger] rule.cells(x, y, width, height)[k]).0,
            rule.cells(x, y, width, height)[k].1,
            width,
            height,
        )
}

/// In a grid of one cell, a rule that names cells of the grid only and never
/// the cell itself names no neighbor at all.
pub proof fn lemma_single_cell_has_no_neighbors<N: NeighborhoodRule>(rule: N)
    requires
        names_cells_only(rule, 1, 1),
        !rule.cells(0, 0, 1, 1).contains((0, 0)),
    ensures
        rule.cells(0, 0, 1, 1).len() == 0,
{
    if rule.cells(0, 0, 1, 1).len() > 0 {
        assert(rule.cells(0, 0, 1, 1)[0] == (0int, 0int));
    }
}

/// The list that holds `(x, y)` if it is a cell of the grid, and nothing if
/// it is not.
pub open spec fn within(x: int, y: int, width: int, height: int) -> Seq<(int, int)> {
    if in_grid(x, y, width, height) {
        seq![(x, y)]
    } else {
        Seq::empty()
    }
}

/// The four-connected neighborhood of `(x, y)`: the cells to the left, above,
/// to the right and below, in this order, without those that lie outside the
/// grid.
pub open spec fn von_neuman_cells(x: int, y: int, width: int, height: int) -> Seq<(int, int)> {
    within(x - 1, y, width, height) + within(x, y - 1, width, height) + within(
        x + 1,
        y,
        width,
        height,
    ) + within(x, y + 1, width, height)
}

/// Whether the cells `p` and `q` lie side by side in a row or in a column.
pub open spec fn adjacent(p: (int, int), q: (int, int)) -> bool {
    ||| p.0 == q.0 && (p.1 == q.1 - 1 || p.1 == q.1 + 1)
    ||| p.1 == q.1 && (p.0 == q.0 - 1 || p.0 == q.0 + 1)
}

/// The four-connected neighborhood of `(x, y)` holds exactly the cells of the
/// grid that lie side by side with `(x, y)`.
pub proof fn lemma_von_neuman_members(x: int, y: int, width: int, height: int, p: (int, int))
    ensures
        von_neuman_cells(x, y, width, height).contains(p) <==> in_grid(p.0, p.1, width, height)
            && adjacent(p, (x, y)),
{
    let a = within(x - 1, y, width, height);
    let b = within(x, y - 1, width, height);
    let c = within(x + 1, y, width, height);
    let all = von_neuman_cells(x, y, width, height);
    if in_grid(p.0, p.1, width, height) && adjacent(p, (x, y)) {
        if p == (x - 1, y) {
            assert(all[0] == p);
        } else if p == (x, y - 1) {
            assert(all[a.len() as int] == p);
        } else if p == (x + 1, y) {
            assert(all[(a.len() + b.len()) as int] == p);
        } else {
            assert(all[(a.len() + b.len() + c.len()) as int] == p);
        }
    }
}

/// The four-connected neighborhood is symmetric inside the grid: a cell
/// `p` that is a neighbor of a cell `q` of the grid has `q` as a neighbor. (A
/// point `q` outside the grid can have neighbors, and is itself nobody's.)
pub proof fn lemma_von_neuman_symmetric(p: (int, int), q: (int, int), width: int, height: int)
    requires
        in_grid(q.0, q.1, width, height),
        von_neuman_cells(q.0, q.1, width, height).contains(p),
    ensures
        von_neuman_cells(p.0, p.1, width, height).contains(q),
{
    lemma_von_neuman_members(q.0, q.1, width, height, p);
    lemma_von_neuman_members(p.0, p.1, width, height, q);
}

/// Which cell stands at place `k` of a four-connected neighborhood: the
/// places go to the left, the upper, the right and the lower neighbor, in
/// this order, as far as each is a cell of the grid.
proof fn lemma_von_neuman_places(x: int, y: int, width: int, height: int, k: int)
    requires
        0 <= k < von_neuman_cells(x, y, width, height).len(),
    ensures
        ({
            let left: nat = within(x - 1, y, width, height).len();
            let upper: nat = left + within(x, y - 1, width, height).len();
            let right: nat = upper + within(x + 1, y, width, height).len();
            let cell = von_neuman_cells(x, y, width, height)[k];
            &&& k < left ==> cell == (x - 1, y)
            &&& left <= k < upper ==> cell == (x, y - 1)
            &&& upper <= k < right ==> cell == (x + 1, y)
            &&& right <= k ==> cell == (x, y + 1)
            &&& left <= 1 && upper <= left + 1 && right <= upper + 1
        }),
{
}

/// No cell occurs twice in a four-connected neighborhood.
pub proof fn lemma_von_neuman_distinct(x: int, y: int, width: int, height: int)
    ensures
        von_neuman_cells(x, y, width, height).no_duplicates(),
{
    let all = von_neuman_cells(x, y, width, height);
    assert forall|i: int, j: int| 0 <= i < all.len() && 0 <= j < all.len() && i != j implies all[i]
        != all[j] by {
        lemma_von_neuman_places(x, y, width, height, i);
        lemma_von_neuman_places(x, y, width, height, j);
    }
}

/// How many of the four sides of the grid the cell `(x, y)` lies on.
pub open spec fn sides_touched(x: int, y: int, width: int, height: int) -> int {
    (if x == 0 { 1int } else { 0int }) + (if x == width - 1 { 1int } else { 0int })
        + (if y == 0 { 1int } else { 0int }) + (if y == height - 1 { 1int } else { 0int })
}

/// In a grid with at least two columns and two rows, a cell inside has four
/// neighbors, a cell on one side has three, and a cell in a corner has two.
pub proof fn lemma_von_neuman_count(x: int, y: int, width: int, height: int)
    requires
        width >= 2,
        height >= 2,
        in_grid(x, y, width, height),
    ensures
        von_neuman_cells(x, y, width, height).len() == 4 - sides_touched(x, y, width, height),
        0 < x < width - 1 && 0 < y < height - 1 ==> von_neuman_cells(x, y, width, height).len()
            == 4,
        (x == 0 || x == width - 1) != (y == 0 || y == height - 1) ==> von_neuman_cells(
            x,
            y,
            width,
            height,
        ).len() == 3,
        (x == 0 || x == width - 1) && (y == 0 || y == height - 1) ==> von_neuman_cells(
            x,
            y,
            width,
            height,
        ).len() == 2,
{
}

/// Every cell of a four-connected neighborhood is a cell of the grid.
pub proof fn lemma_von_neuman_in_grid(x: int, y: int, width: int, height: int)
    ensures
        forall|k: int|
            0 <= k < von_neuman_cells(x, y, width, height).len() ==> in_grid(
                (#[trigger] von_neuman_cells(x, y, width, height)[k]).0,
                von_neuman_cells(x, y, width, height)[k].1,
                width,
                height,
            ),
{
    let all = von_neuman_cells(x, y, width, height);
    assert forall|k: int| 0 <= k < all.len() implies in_grid(
        (#[trigger] all[k]).0,
        all[k].1,
        width,
        height,
    ) by {
        lemma_von_neuman_members(x, y, width, height, all[k]);
    }
}

/// The four-connected rule names cells of the grid only.
pub proof fn lemma_von_neuman_names_cells_only(width: int, height: int)
    ensures
        names_cells_only(VonNeuman, width, height),
{
    assert forall|x: int, y: int, k: int|
        in_grid(x, y, width, height) && 0 <= k < VonNeuman.cells(
            x,
            y,
            width,
            height,
        ).len() implies in_grid(
        (#[trigger] VonNeuman.cells(x, y, width, height)[k]).0,
        VonNeuman.cells(x, y, width, height)[k].1,
        width,
        height,
    ) by {
        lemma_von_neuman_in_grid(x, y, width, height);
    }
}

/// The four-connected neighborhood of `(x, y)` in a grid of the given size:
/// the cells to the left, above, to the right and below, in this order,
/// without those that lie outside the grid.
pub fn von_neuman(x: i32, y: i32, width: i32, height: i32) -> (found: Vec<(i32, i32)>)
    ensures
        coords(found@) == von_neuman_cells(x as int, y as int, width as int, height as int),
{
    let in_row: bool = 0 <= y && y < height;
    let in_column: bool = 0 <= x && x < width;
    let mut found: Vec<(i32, i32)> = Vec::new();
    if in_row && 1 <= x && x <= width {
        found.push((x - 1, y));
    }
    if in_column && 1 <= y && y <= height {
        found.push((x, y - 1));
    }
    if in_row && -1 <= x && x < width && x + 1 < width {
        found.push((x + 1, y));
    }
    if in_column && -1 <= y && y < height && y + 1 < height {
        found.push((x, y + 1));
    }
    found
}

/// The four-connected neighborhood as a rule for a simulation.
pub struct VonNeuman;

impl NeighborhoodRule for VonNeuman {
    open spec fn cells(&self, x: int, y: int, width: int, height: int) -> Seq<(int, int)> {
        von_neuman_cells(x, y, width, height)
    }

    fn neighbors(&self, x: i32, y: i32, width: i32, height: i32) -> (found: Vec<(i32, i32)>) {
        let found = von_neuman(x, y, width, height);
        proof {
            lemma_von_neuman_in_grid(x as int, y as int, width as int, height as int);
            assert forall|k: int| 0 <= k < found@.len() implies in_grid(
                (#[trigger] found@[k]).0 as int,
                found@[k].1 as int,
                width as int,
                height as int,
            ) by {
                assert(coords(found@)[k] == (found@[k].0 as int, found@[k].1 as int));
            }
        }
        found
    }
}

/// The offsets of the four-connected neighborhood: left, above, right, below.
pub const VON_NEUMAN_NEIGHBORHOOD: [(i32, i32); 4] = [(-1, 0), (0, -1), (1, 0), (0, 1)];

/// A cursor over the neighbors of one cell, given as offsets from the cell.
///
/// The cursor hands out the buffer position of one neighbor at a time. An
/// offset that leads out of the grid names no neighbor: the cursor passes it
/// over, as the four-connected neighborhood leaves out what lies beyond a
/// side of the grid.
pub struct Neighborhood {
    count: usize,
    bounds: &'static [(i32, i32)],
    ca_bounds: (i32, i32),
    cell_coords: Option<(i32, i32)>,
}

impl Neighborhood {
    /// The offsets that the cursor goes through.
    pub closed spec fn offsets(&self) -> Seq<(int, int)> {
        coords(self.bounds@)
    }

    /// The width and the height of the grid.
    pub closed spec fn grid(&self) -> (int, int) {
        (self.ca_bounds.0 as int, self.ca_bounds.1 as int)
    }

    /// The cell whose neighbors the cursor hands out, once one was set.
    pub closed spec fn cell(&self) -> Option<(int, int)> {
        match self.cell_coords {
            Some(c) => Some((c.0 as int, c.1 as int)),
            None => None,
        }
    }

    /// How many offsets the cursor has gone past.
    pub closed spec fn position(&self) -> int {
        self.count as int
    }

    /// The grid has a size that a simulation can have, and the cursor has
    /// not gone past more offsets than there are.
    pub open spec fn wf(&self) -> bool {
        &&& valid_dims(self.grid().0, self.grid().1)
        &&& 0 <= self.position() <= self.offsets().len()
    }

    /// The buffer position of the neighbor that offset `k` gives to the cell:
    /// the offset is added to the cell's coordinates, and the sum counts if it
    /// is a cell of the grid.
    pub open spec fn neighbor(&self, k: int) -> Option<int> {
        match self.cell() {
            Some(c) => {
                let x: int = c.0 + self.offsets()[k].0;
                let y: int = c.1 + self.offsets()[k].1;
                if 0 <= k < self.offsets().len() && in_grid(x, y, self.grid().0, self.grid().1) {
                    Some(coord_index(self.grid().0, x, y))
                } else {
                    None
                }
            },
            None => None,
        }
    }

    /// The buffer positions of the neighbors that the offsets from place
    /// `from` on give to the cell, in the order of the offsets.
    pub open spec fn remaining_from(&self, from: int) -> Seq<int>
        decreases self.offsets().len() - from,
    {
        if from < 0 || from >= self.offsets().len() {
            Seq::empty()
        } else {
            match self.neighbor(from) {
                Some(idx) => seq![idx] + self.remaining_from(from + 1),
                None => self.remaining_from(from + 1),
            }
        }
    }

    /// The buffer positions that the cursor has yet to hand out, in order.
    pub open spec fn remaining(&self) -> Seq<int> {
        self.remaining_from(self.position())
    }

    /// What is left from a place on depends on the offsets, the grid and the
    /// cell, not on where the cursor stands.
    proof fn lemma_remaining_from_same(&self, other: Neighborhood, from: int)
        requires
            self.offsets() == other.offsets(),
            self.grid() == other.grid(),
            self.cell() == other.cell(),
        ensures
            self.remaining_from(from) == other.remaining_from(from),
        decreases self.offsets().len() - from,
    {
        if 0 <= from < self.offsets().len() {
            self.lemma_remaining_from_same(other, from + 1);
        }
    }

    /// A cursor over `bounds` in a grid of width `ca_bounds.0` and height
    /// `ca_bounds.1`, at its start and with no cell set.
    pub fn new(bounds: &'static [(i32, i32)], ca_bounds: (i32, i32)) -> (made: Self)
        ensures
            made.wf() <==> valid_dims(ca_bounds.0 as int, ca_bounds.1 as int),
            made.offsets() == coords(bounds@),
            made.grid() == (ca_bounds.0 as int, ca_bounds.1 as int),
            made.cell() is None,
            made.position() == 0,
    {
        Neighborhood { count: 0, bounds, ca_bounds, cell_coords: None }
    }

    /// Sets the cell whose neighbors are handed out. The cursor stays where
    /// it is.
    pub fn init_with_cell(&mut self, cell: (i32, i32))
        ensures
            final(self).cell() == Some((cell.0 as int, cell.1 as int)),
            final(self).offsets() == old(self).offsets(),
            final(self).grid() == old(self).grid(),
            final(self).position() == old(self).position(),
    {
        self.cell_coords = Some(cell);
    }

    /// Puts the cursor back to its start.
    pub fn reset(&mut self)
        ensures
            final(self).position() == 0,
            final(self).offsets() == old(self).offsets(),
            final(self).grid() == old(self).grid(),
            final(self).cell() == old(self).cell(),
    {
        self.count = 0;
    }

    /// Hands out the buffer position of the next neighbor, or `None` when
    /// none is left. The cursor goes past the offsets that lead out of the
    /// grid and past the one whose neighbor it hands out.
    ///
    /// The grid must have a size that a simulation can have, and a cell must
    /// have been set, unless the cursor is at its end.
    pub fn next(&mut self) -> (found: Option<usize>)
        requires
            old(self).wf(),
            old(self).cell() is Some || old(self).position() == old(self).offsets().len(),
        ensures
            final(self).wf(),
            final(self).offsets() == old(self).offsets(),
            final(self).grid() == old(self).grid(),
            final(self).cell() == old(self).cell(),
            forall|k: int|
                old(self).position() <= k < final(self).position() - 1 ==> old(self).neighbor(k)
                    is None,
            match found {
                Some(idx) => {
                    &&& old(self).position() < final(self).position() <= old(self).offsets().len()
                    &&& old(self).neighbor(final(self).position() - 1) == Some(idx as int)
                    &&& old(self).remaining().len() > 0
                    &&& old(self).remaining()[0] == idx
                    &&& final(self).remaining() == old(self).remaining().drop_first()
                },
                None => {
                    &&& final(self).position() == old(self).offsets().len()
                    &&& old(self).position() < final(self).position() ==> old(self).neighbor(
                        final(self).position() - 1,
                    ) is None
                    &&& old(self).remaining().len() == 0
                    &&& final(self).remaining().len() == 0
                },
            },
    {
        let width: i64 = self.ca_bounds.0 as i64;
        let height: i64 = self.ca_bounds.1 as i64;
        while self.count < self.bounds.len()
            invariant
                self.wf(),
                self.cell() is Some || self.position() == self.offsets().len(),
                self.offsets() == old(self).offsets(),
                self.grid() == old(self).grid(),
                self.cell() == old(self).cell(),
                self.remaining() == old(self).remaining(),
                old(self).position() <= self.position(),
                forall|k: int|
                    old(self).position() <= k < self.position() ==> old(self).neighbor(k) is None,
                width == self.grid().0,
                height == self.grid().1,
            decreases self.bounds.len() - self.count,
        {
            let cell: (i32, i32) = self.cell_coords.unwrap();
            let offset: (i32, i32) = self.bounds[self.count];
            let x: i64 = cell.0 as i64 + offset.0 as i64;
            let y: i64 = cell.1 as i64 + offset.1 as i64;
            let ghost before = *self;
            self.count = self.count + 1;
            proof {
                self.lemma_remaining_from_same(before, self.position());
            }
            if 0 <= x && x < width && 0 <= y && y < height {
                proof {
                    lemma_index_in_buffer(width as int, height as int, x as int, y as int);
                }
                return Some((y * width + x) as usize);
            }
        }
        None
    }
}

/// A cursor over the offsets of the four-connected neighborhood hands out,
/// from its start, the four-connected neighbors of its cell, in their order.
pub proof fn lemma_von_neuman_offsets(cursor: Neighborhood, x: int, y: int)
    requires
        cursor.offsets() == coords(VON_NEUMAN_NEIGHBORHOOD@),
        cursor.cell() == Some((x, y)),
    ensures
        cursor.remaining_from(0) == von_neuman_cells(
            x,
            y,
            cursor.grid().0,
            cursor.grid().1,
        ).map_values(|p: (int, int)| coord_index(cursor.grid().0, p.0, p.1)),
{
    let width: int = cursor.grid().0;
    let height: int = cursor.grid().1;
    let index = |p: (int, int)| coord_index(width, p.0, p.1);
    let upper = within(x, y - 1, width, height);
    let right = within(x + 1, y, width, height);
    let lower = within(x, y + 1, width, height);
    assert(cursor.remaining_from(4) =~= Seq::empty());
    assert(cursor.remaining_from(3) =~= lower.map_values(index));
    assert(cursor.remaining_from(2) =~= (right + lower).map_values(index));
    assert(cursor.remaining_from(1) =~= (upper + right + lower).map_values(index));
}

} // verus!
