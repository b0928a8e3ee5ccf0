//! The mathematical model of a board, and the jump rule stated over it.

use vstd::prelude::*;
use crate::point::{sign, Piece, Point};

verus! {

/// One row of cells.
pub type Cells = Seq<Option<Piece>>;

/// What a board is: its rows of cells and the number of pieces it reports.
pub struct Board {
    pub grid: Seq<Cells>,
    pub count: nat,
}

/// The number of occupied cells in a row.
pub open spec fn row_occupied(row: Cells) -> nat
    decreases row.len(),
{
    if row.len() == 0 {
        0
    } else {
        row_occupied(row.drop_last()) + if row.last() is Some { 1nat } else { 0nat }
    }
}

/// The number of occupied cells in a grid.
pub open spec fn grid_occupied(grid: Seq<Cells>) -> nat
    decreases grid.len(),
{
    if grid.len() == 0 {
        0
    } else {
        grid_occupied(grid.drop_last()) + row_occupied(grid.last())
    }
}

/// One if the cell holds a piece, zero if not.
pub open spec fn weight(cell: Option<Piece>) -> nat {
    if cell is Some { 1 } else { 0 }
}

impl Board {
    /// The triangle of `size` rows with every cell empty.
    pub open spec fn empty(size: nat) -> Board {
        Board {
            grid: Seq::new(size, |i: int| Seq::new((i + 1) as nat, |j: int| None::<Piece>)),
            count: 0,
        }
    }

    /// Row `i` holds `i + 1` cells.
    pub open spec fn triangular(self) -> bool {
        forall|i: int| 0 <= i < self.grid.len() ==> (#[trigger] self.grid[i]).len() == i + 1
    }

    /// The number of occupied cells.
    pub open spec fn occupied(self) -> nat {
        grid_occupied(self.grid)
    }

    /// A board is well formed when it is a triangle whose coordinates, two
    /// steps beyond the last row included, fit a signed word, and which
    /// reports no fewer pieces than it holds.
    pub open spec fn wf(self) -> bool {
        &&& self.triangular()
        &&& self.grid.len() + 2 <= isize::MAX
        &&& self.occupied() <= self.count
    }

    /// The piece count invariant: the reported count is the number of
    /// occupied cells.
    pub open spec fn consistent(self) -> bool {
        self.count == self.occupied()
    }

    /// Whether `p` is a cell of the triangle.
    pub open spec fn inside(self, p: Point) -> bool {
        0 <= p.1 <= p.0 < self.grid.len()
    }

    /// Whether the storage has a cell at `p`.
    pub open spec fn stored(self, p: Point) -> bool {
        0 <= p.0 < self.grid.len() && 0 <= p.1 < self.grid[p.0 as int].len()
    }

    /// What the cell at `p` holds; nothing where the storage has no such cell.
    pub open spec fn at(self, p: Point) -> Option<Piece> {
        if self.stored(p) {
            self.grid[p.0 as int][p.1 as int]
        } else {
            None
        }
    }

    /// The board with the cell at `p` replaced and the count as it was.
    pub open spec fn with(self, p: Point, cell: Option<Piece>) -> Board {
        Board {
            grid: self.grid.update(p.0 as int, self.grid[p.0 as int].update(p.1 as int, cell)),
            count: self.count,
        }
    }

    /// The board after `piece` was placed at `p`: the count goes up by one,
    /// whatever the cell held.
    pub open spec fn put(self, p: Point, piece: Piece) -> Board {
        Board { grid: self.with(p, Some(piece)).grid, count: self.count + 1 }
    }

    /// Equality by occupancy: the same rows, the same count and, cell by cell,
    /// the same pattern of occupied and empty. The pieces' identifiers are not
    /// compared.
    pub open spec fn same_occupancy(self, other: Board) -> bool {
        &&& self.grid.len() == other.grid.len()
        &&& self.count == other.count
        &&& forall|i: int|
            0 <= i < self.grid.len() ==> (#[trigger] self.grid[i]).len() == other.grid[i].len()
        &&& forall|i: int, j: int|
            0 <= i < self.grid.len() && 0 <= j < self.grid[i].len() ==> (
            #[trigger] self.grid[i][j] is Some <==> other.grid[i][j] is Some)
    }

    /// The six jumps: two cells along a row, a column or the main diagonal.
    pub open spec fn is_jump(dr: int, dc: int) -> bool {
        ||| (dr == 2 && dc == 0)
        ||| (dr == -2 && dc == 0)
        ||| (dr == 0 && dc == 2)
        ||| (dr == 0 && dc == -2)
        ||| (dr == 2 && dc == 2)
        ||| (dr == -2 && dc == -2)
    }

    /// The cell between `o` and `d`: one step from `o` towards `d`.
    pub open spec fn middle(o: Point, d: Point) -> Point {
        Point((o.0 + sign(d.0 - o.0)) as isize, (o.1 + sign(d.1 - o.1)) as isize)
    }

    /// The jump rule: the destination is a free cell of the triangle, the
    /// origin is occupied, the displacement is one of the six jumps, and the
    /// cell in between is occupied.
    pub open spec fn legal(self, o: Point, d: Point) -> bool {
        &&& self.inside(d)
        &&& self.at(d) is None
        &&& self.at(o) is Some
        &&& Self::is_jump(d.0 - o.0, d.1 - o.1)
        &&& self.at(Self::middle(o, d)) is Some
    }

    /// The board after the jump from `o` to `d`: the cell in between and the
    /// origin are cleared and the origin's piece is placed at the destination.
    /// Two pieces are lifted, which lowers the count by two, and one of them is
    /// placed again, which raises it by one.
    pub open spec fn jump(self, o: Point, d: Point) -> Board {
        let lifted = self.with(Self::middle(o, d), None).with(o, None);
        Board { grid: lifted.with(d, self.at(o)).grid, count: (self.count - 2 + 1) as nat }
    }
}

/// Replacing one cell of a row changes the row's number of occupied cells by
/// the difference of the two cells' weights.
pub proof fn lemma_row_update(row: Cells, i: int, cell: Option<Piece>)
    requires
        0 <= i < row.len(),
    ensures
        row_occupied(row.update(i, cell)) + weight(row[i]) == row_occupied(row) + weight(cell),
    decreases row.len(),
{
    let next = row.update(i, cell);
    if i == row.len() - 1 {
        assert(next.drop_last() =~= row.drop_last());
    } else {
        assert(next.drop_last() =~= row.drop_last().update(i, cell));
        lemma_row_update(row.drop_last(), i, cell);
    }
}

/// Replacing one row of a grid changes the grid's number of occupied cells by
/// the difference of the two rows' numbers.
pub proof fn lemma_grid_update(grid: Seq<Cells>, i: int, row: Cells)
    requires
        0 <= i < grid.len(),
    ensures
        grid_occupied(grid.update(i, row)) + row_occupied(grid[i]) == grid_occupied(grid)
            + row_occupied(row),
    decreases grid.len(),
{
    let next = grid.update(i, row);
    if i == grid.len() - 1 {
        assert(next.drop_last() =~= grid.drop_last());
    } else {
        assert(next.drop_last() =~= grid.drop_last().update(i, row));
        lemma_grid_update(grid.drop_last(), i, row);
    }
}

/// A row of empty cells holds no piece.
pub proof fn lemma_row_empty(row: Cells)
    requires
        forall|j: int| 0 <= j < row.len() ==> row[j] is None,
    ensures
        row_occupied(row) == 0,
    decreases row.len(),
{
    if row.len() > 0 {
        lemma_row_empty(row.drop_last());
    }
}

/// A grid of empty rows holds no piece.
pub proof fn lemma_grid_empty(grid: Seq<Cells>)
    requires
        forall|i: int, j: int| 0 <= i < grid.len() && 0 <= j < grid[i].len() ==> grid[i][j] is None,
    ensures
        grid_occupied(grid) == 0,
    decreases grid.len(),
{
    if grid.len() > 0 {
        lemma_grid_empty(grid.drop_last());
        lemma_row_empty(grid.last());
    }
}

impl Board {
    /// Replacing a stored cell keeps the shape, leaves every other cell as it
    /// was, and changes the number of occupied cells by the difference of the
    /// two cells' weights.
    pub proof fn lemma_with(self, p: Point, cell: Option<Piece>)
        requires
            self.stored(p),
        ensures
            self.with(p, cell).grid.len() == self.grid.len(),
            forall|i: int|
                0 <= i < self.grid.len() ==> (#[trigger] self.with(p, cell).grid[i]).len()
                    == self.grid[i].len(),
            self.triangular() ==> self.with(p, cell).triangular(),
            self.with(p, cell).at(p) == cell,
            forall|q: Point| q != p ==> #[trigger] self.with(p, cell).at(q) == self.at(q),
            forall|q: Point| #[trigger] self.with(p, cell).stored(q) == self.stored(q),
            forall|q: Point| #[trigger] self.with(p, cell).inside(q) == self.inside(q),
            self.with(p, cell).occupied() + weight(self.at(p)) == self.occupied() + weight(cell),
    {
        let row = self.grid[p.0 as int];
        lemma_row_update(row, p.1 as int, cell);
        lemma_grid_update(self.grid, p.0 as int, row.update(p.1 as int, cell));
    }

    /// The empty triangle is well formed and consistent.
    pub proof fn lemma_empty(size: nat)
        requires
            size + 2 <= isize::MAX,
        ensures
            Self::empty(size).wf(),
            Self::empty(size).consistent(),
            Self::empty(size).grid.len() == size,
            forall|p: Point| (#[trigger] Self::empty(size).at(p)) is None,
    {
        lemma_grid_empty(Self::empty(size).grid);
    }
}

impl Board {
    /// On a well-formed board every occupied cell lies in the triangle, and the
    /// cell between the two ends of a legal jump is a third cell of it.
    pub proof fn lemma_legal_cells(self, o: Point, d: Point)
        requires
            self.wf(),
            self.legal(o, d),
        ensures
            self.inside(o) && self.stored(o),
            self.inside(d) && self.stored(d),
            self.inside(Self::middle(o, d)) && self.stored(Self::middle(o, d)),
            Self::middle(o, d).0 == o.0 + sign(d.0 - o.0),
            Self::middle(o, d).1 == o.1 + sign(d.1 - o.1),
            Self::middle(o, d) != o && Self::middle(o, d) != d && o != d,
    {
    }

    /// What a legal jump does to a well-formed board. The piece of the origin
    /// stands at the destination; the origin and the cell in between are empty;
    /// every other cell is as it was; the count, lowered by two for the pieces
    /// lifted and raised by one for the piece placed, is one lower; the board
    /// stays well formed, and consistent if it was.
    pub proof fn lemma_jump(self, o: Point, d: Point)
        requires
            self.wf(),
            self.legal(o, d),
        ensures
            self.jump(o, d).wf(),
            self.jump(o, d).grid.len() == self.grid.len(),
            self.count >= 2,
            self.jump(o, d).count == self.count - 2 + 1,
            self.jump(o, d).occupied() == self.occupied() - 1,
            self.consistent() ==> self.jump(o, d).consistent(),
            self.jump(o, d).at(d) == self.at(o),
            self.jump(o, d).at(o) is None,
            self.jump(o, d).at(Self::middle(o, d)) is None,
            forall|q: Point|
                q != o && q != d && q != Self::middle(o, d) ==> #[trigger] self.jump(o, d).at(q)
                    == self.at(q),
            forall|q: Point| #[trigger] self.jump(o, d).inside(q) == self.inside(q),
    {
        let m = Self::middle(o, d);
        self.lemma_legal_cells(o, d);
        let b1 = self.with(m, None);
        self.lemma_with(m, None);
        let b2 = b1.with(o, None);
        b1.lemma_with(o, None);
        let b3 = b2.with(d, self.at(o));
        b2.lemma_with(d, self.at(o));
        assert(self.jump(o, d).grid == b3.grid);
    }
}

impl Board {
    /// Equality by occupancy does not see identifiers: placing one piece or
    /// another in the same stored cell gives equal boards.
    pub proof fn lemma_identifier_not_compared(self, p: Point, one: Piece, other: Piece)
        requires
            self.stored(p),
        ensures
            self.put(p, one).same_occupancy(self.put(p, other)),
    {
    }

    /// Two boards with the same row lengths, the same count and the same
    /// pattern of occupied and empty cells are equal by occupancy, whatever the
    /// identifiers of their pieces; and boards that are equal by occupancy
    /// agree on whether any given cell is occupied.
    pub proof fn lemma_same_occupancy(self, other: Board)
        requires
            self.grid.len() == other.grid.len(),
            forall|i: int| 0 <= i < self.grid.len() ==> self.grid[i].len() == other.grid[i].len(),
            self.count == other.count,
            forall|p: Point| self.at(p) is Some <==> other.at(p) is Some,
            self.wf(),
            other.wf(),
        ensures
            self.same_occupancy(other),
    {
        assert forall|i: int, j: int|
            0 <= i < self.grid.len() && 0 <= j < self.grid[i].len() implies (
        #[trigger] self.grid[i][j] is Some <==> other.grid[i][j] is Some) by {
            let p = Point(i as isize, j as isize);
            assert(self.stored(p) && other.stored(p));
            assert(self.at(p) is Some <==> other.at(p) is Some);
        }
    }

    /// Equality by occupancy is an equivalence.
    pub proof fn lemma_same_occupancy_equivalence(self, second: Board, third: Board)
        ensures
            self.same_occupancy(self),
            self.same_occupancy(second) ==> second.same_occupancy(self),
            self.same_occupancy(second) && second.same_occupancy(third) ==> self.same_occupancy(
                third,
            ),
    {
        if self.same_occupancy(second) {
            assert forall|i: int, j: int|
                0 <= i < second.grid.len() && 0 <= j < second.grid[i].len() implies (
            #[trigger] second.grid[i][j] is Some <==> self.grid[i][j] is Some) by {
                assert(self.grid[i].len() == second.grid[i].len());
                assert(self.grid[i][j] is Some <==> second.grid[i][j] is Some);
            }
            assert(second.same_occupancy(self));
            if second.same_occupancy(third) {
                assert forall|i: int, j: int|
                    0 <= i < self.grid.len() && 0 <= j < self.grid[i].len() implies (
                #[trigger] self.grid[i][j] is Some <==> third.grid[i][j] is Some) by {
                    assert(self.grid[i].len() == second.grid[i].len());
                    assert(self.grid[i][j] is Some <==> second.grid[i][j] is Some);
                    assert(second.grid[i][j] is Some <==> third.grid[i][j] is Some);
                }
                assert forall|i: int| 0 <= i < self.grid.len() implies (#[trigger] self.grid[i]).len()
                    == third.grid[i].len() by {
                    assert(self.grid[i].len() == second.grid[i].len());
                    assert(second.grid[i].len() == third.grid[i].len());
                }
            }
        }
    }
}

} // verus!
