//! The board as stored: rows of optional pieces with a cached piece count.

use vstd::prelude::*;
use vstd::std_specs::cmp::PartialEqSpecImpl;
use crate::board::{weight, Board};
use crate::point::get_sign;
pub use crate::point::{Piece, Point};

verus! {

/// A triangular board of pegs.
pub struct Graph {
    rows: Vec<Vec<Option<Piece>>>,
    count: usize,
}

impl View for Graph {
    type V = Board;

    closed spec fn view(&self) -> Board {
        Board {
            grid: Seq::new(self.rows@.len(), |i: int| self.rows@[i]@),
            count: self.count as nat,
        }
    }
}

impl Clone for Graph {
    /// An independent copy: the same cells and the same count.
    fn clone(&self) -> (copy: Graph)
        ensures
            copy@ == self@,
    {
        let mut rows: Vec<Vec<Option<Piece>>> = Vec::new();
        let mut i: usize = 0;
        while i < self.rows.len()
            invariant
                i <= self.rows.len(),
                rows@.len() == i,
                forall|k: int| 0 <= k < i ==> (#[trigger] rows@[k])@ == self.rows@[k]@,
            decreases self.rows.len() - i,
        {
            let mut row: Vec<Option<Piece>> = Vec::new();
            let mut j: usize = 0;
            while j < self.rows[i].len()
                invariant
                    i < self.rows.len(),
                    j <= self.rows@[i as int]@.len(),
                    row@.len() == j,
                    forall|k: int| 0 <= k < j ==> #[trigger] row@[k] == self.rows@[i as int]@[k],
                decreases self.rows@[i as int]@.len() - j,
            {
                row.push(self.rows[i][j]);
                j += 1;
            }
            assert(row@ =~= self.rows@[i as int]@);
            rows.push(row);
            i += 1;
        }
        let copy = Graph { rows, count: self.count };
        assert(copy@.grid =~= self@.grid);
        copy
    }
}

impl PartialEqSpecImpl<Graph> for Graph {
    open spec fn obeys_eq_spec() -> bool {
        true
    }

    open spec fn eq_spec(&self, rhs: &Graph) -> bool {
        self@.same_occupancy(rhs@)
    }
}

impl PartialEq<Graph> for Graph {
    /// Equality by occupancy: which piece stands in a cell is not compared.
    fn eq(&self, rhs: &Graph) -> (same: bool) {
        if self.rows.len() != rhs.rows.len() {
            return false;
        }
        if self.count != rhs.count {
            return false;
        }
        let mut i: usize = 0;
        while i < self.rows.len()
            invariant
                i <= self.rows.len(),
                self.rows.len() == rhs.rows.len(),
                forall|k: int| 0 <= k < i ==> (#[trigger] self@.grid[k]).len() == rhs@.grid[k].len(),
                forall|k: int, l: int|
                    0 <= k < i && 0 <= l < self@.grid[k].len() ==> (
                    #[trigger] self@.grid[k][l] is Some <==> rhs@.grid[k][l] is Some),
            decreases self.rows.len() - i,
        {
            if self.rows[i].len() != rhs.rows[i].len() {
                assert(self@.grid[i as int].len() != rhs@.grid[i as int].len());
                return false;
            }
            let mut j: usize = 0;
            while j < self.rows[i].len()
                invariant
                    i < self.rows.len(),
                    self.rows.len() == rhs.rows.len(),
                    self.rows@[i as int]@.len() == rhs.rows@[i as int]@.len(),
                    j <= self.rows@[i as int]@.len(),
                    forall|l: int|
                        0 <= l < j ==> (#[trigger] self@.grid[i as int][l] is Some
                            <==> rhs@.grid[i as int][l] is Some),
                decreases self.rows@[i as int]@.len() - j,
            {
                let col1 = self.rows[i][j];
                let col2 = rhs.rows[i][j];
                if col1.is_some() && col2.is_none() {
                    assert(self@.grid[i as int][j as int] is Some);
                    return false;
                }
                if col1.is_none() && col2.is_some() {
                    assert(self@.grid[i as int][j as int] is None);
                    return false;
                }
                j += 1;
            }
            i += 1;
        }
        true
    }
}

impl Eq for Graph {

}

impl Graph {
    /// A board without rows.
    pub fn new() -> (g: Graph)
        ensures
            g@ == Board::empty(0),
            g@.wf(),
            g@.consistent(),
    {
        let g = Graph { rows: Vec::new(), count: 0 };
        proof {
            assert(g@.grid =~= Board::empty(0).grid);
            Board::lemma_empty(0);
        }
        g
    }

    /// The number of pieces that the board reports.
    #[inline]
    pub fn pieces(&self) -> (n: usize)
        ensures
            n == self@.count,
    {
        self.count
    }

    /// The number of rows.
    #[inline]
    pub fn size(&self) -> (n: usize)
        ensures
            n == self@.grid.len(),
    {
        self.rows.len()
    }

    /// The empty triangle of `size` rows.
    pub fn triangle_from_size(size: usize) -> (g: Graph)
        requires
            size + 2 <= isize::MAX,
        ensures
            g@ == Board::empty(size as nat),
            g@.wf(),
            g@.consistent(),
    {
        let mut g = Graph { rows: Vec::new(), count: 0 };
        let mut i: usize = 1;
        while i < size + 1
            invariant
                1 <= i <= size + 1,
                size + 2 <= isize::MAX,
                g.count == 0,
                g.rows@.len() == i - 1,
                forall|k: int|
                    0 <= k < i - 1 ==> (#[trigger] g.rows@[k])@ == Seq::new(
                        (k + 1) as nat,
                        |j: int| None::<Piece>,
                    ),
            decreases size + 1 - i,
        {
            let mut row: Vec<Option<Piece>> = Vec::new();
            let mut j: usize = 0;
            while j < i
                invariant
                    j <= i,
                    row@.len() == j,
                    forall|k: int| 0 <= k < j ==> (#[trigger] row@[k]) is None,
                decreases i - j,
            {
                row.push(None);
                j += 1;
            }
            assert(row@ =~= Seq::new(i as nat, |j: int| None::<Piece>));
            g.rows.push(row);
            i += 1;
        }
        proof {
            assert(g@.grid =~= Board::empty(size as nat).grid);
            Board::lemma_empty(size as nat);
        }
        g
    }

    /// Places a piece with the identifier `value` at `pos` and raises the
    /// count by one. The cell must exist in the storage.
    pub fn add_piece(&mut self, pos: Point, value: usize)
        requires
            old(self)@.stored(pos),
            old(self)@.count < usize::MAX,
        ensures
            final(self)@ == old(self)@.put(pos, Piece(value)),
            final(self)@.count == old(self)@.count + 1,
            final(self)@.at(pos) == Some(Piece(value)),
            forall|q: Point| q != pos ==> #[trigger] final(self)@.at(q) == old(self)@.at(q),
            old(self)@.wf() ==> final(self)@.wf(),
            old(self)@.consistent() && old(self)@.at(pos) is None ==> final(self)@.consistent(),
    {
        let Point(row, column) = pos;
        self.rows[row as usize][column as usize] = Some(Piece(value));
        self.count += 1;
        proof {
            assert(final(self)@.grid =~= old(self)@.put(pos, Piece(value)).grid);
            old(self)@.lemma_with(pos, Some(Piece(value)));
        }
    }

    /// Whether `pos` is a cell of the triangle: its column is not negative and
    /// not beyond its row, and its row is one of the board's.
    pub fn in_bounds(&self, pos: Point) -> (b: bool)
        ensures
            b == self@.inside(pos),
            b <==> 0 <= pos.1 <= pos.0 < self@.grid.len(),
    {
        let Point(x, y) = pos;
        if y < 0 || x < 0 {
            return false;
        }
        if y > x {
            return false;
        }
        return (x as usize) < self.rows.len();
    }

    /// What the cell at `pos` holds. The cell must exist in the storage; no
    /// bounds are tested.
    pub fn contains_piece_unchecked(&self, pos: Point) -> (cell: Option<Piece>)
        requires
            self@.stored(pos),
        ensures
            cell == self@.at(pos),
    {
        let Point(row, col) = pos;
        self.rows[row as usize][col as usize]
    }

    /// What the cell at `pos` holds, and nothing where the storage has no such
    /// cell.
    pub fn contains_piece(&self, pos: Point) -> (cell: Option<Piece>)
        ensures
            cell == self@.at(pos),
    {
        let Point(row, column) = pos;
        if row < 0 || column < 0 {
            return None;
        }
        if (row as usize) >= self.rows.len() {
            return None;
        }
        if (column as usize) >= self.rows[row as usize].len() {
            return None;
        }
        self.rows[row as usize][column as usize]
    }

    /// Removes and returns what the cell at `pos` holds, if `pos` is a cell of
    /// the triangle; otherwise returns nothing and changes nothing. The count
    /// is left as it was: to lower it is the caller's part.
    pub fn take(&mut self, pos: Point) -> (cell: Option<Piece>)
        requires
            old(self)@.wf(),
        ensures
            old(self)@.inside(pos) ==> cell == old(self)@.at(pos) && final(self)@ == old(self)@.with(
                pos,
                None,
            ),
            !old(self)@.inside(pos) ==> cell is None && final(self)@ == old(self)@,
            final(self)@.wf(),
            final(self)@.count == old(self)@.count,
            final(self)@.occupied() + weight(cell) == old(self)@.occupied(),
    {
        if self.in_bounds(pos) {
            self.take_unchecked(pos)
        } else {
            None
        }
    }

    /// Removes and returns what the stored cell at `pos` holds.
    fn take_unchecked(&mut self, pos: Point) -> (cell: Option<Piece>)
        requires
            old(self)@.stored(pos),
        ensures
            cell == old(self)@.at(pos),
            final(self)@ == old(self)@.with(pos, None),
            final(self)@.occupied() + weight(cell) == old(self)@.occupied(),
            old(self)@.wf() ==> final(self)@.wf(),
    {
        let cell = self.rows[pos.0 as usize][pos.1 as usize];
        self.rows[pos.0 as usize][pos.1 as usize] = None;
        proof {
            assert(final(self)@.grid =~= old(self)@.with(pos, None).grid);
            old(self)@.lemma_with(pos, None);
        }
        cell
    }

    /// Tests the jump rule for the move from `old_pos` to `new_pos`, and
    /// returns the cell in between where the move is legal.
    pub fn jumped_over(&self, old_pos: Point, new_pos: Point) -> (mid: Option<Point>)
        requires
            self@.wf(),
        ensures
            mid is Some <==> self@.legal(old_pos, new_pos),
            mid matches Some(p) ==> p == Board::middle(old_pos, new_pos),
    {
        if !self.in_bounds(new_pos) {
            return None;
        }
        if let Some(_) = self.contains_piece_unchecked(new_pos) {
            return None;
        }
        if let Some(_) = self.contains_piece(old_pos) {
            let diff = new_pos - old_pos;
            let Point(x, y) = diff;
            if (x == 2 && y == 0) || (x == -2 && y == 0) || (x == 0 && y == 2) || (x == 0 && y
                == -2) || (x == 2 && y == 2) || (x == -2 && y == -2) {
                let sign_x = get_sign(x);
                let sign_y = get_sign(y);
                let p = Point(sign_x, sign_y) + old_pos;
                if let None = self.contains_piece_unchecked(p) {
                    return None;
                }
                Some(p)
            } else {
                None
            }
        } else {
            None
        }
    }

    /// The functional move: the board after the jump from `old_pos` to
    /// `new_pos`, as a copy of its own, where the jump is legal, and nothing
    /// where it is not. The board itself is not changed.
    pub fn move_piece(&self, old_pos: Point, new_pos: Point) -> (next: Option<Graph>)
        requires
            self@.wf(),
        ensures
            next is Some <==> self@.legal(old_pos, new_pos),
            !self@.inside(new_pos) ==> next is None,
            self@.at(new_pos) is Some ==> next is None,
            self@.at(old_pos) is None ==> next is None,
            !Board::is_jump(new_pos.0 - old_pos.0, new_pos.1 - old_pos.1) ==> next is None,
            self@.at(Board::middle(old_pos, new_pos)) is None ==> next is None,
            next matches Some(g) ==> {
                &&& g@ == self@.jump(old_pos, new_pos)
                &&& g@.wf()
                &&& g@.grid.len() == self@.grid.len()
                &&& g@.count == self@.count - 2 + 1
                &&& g@.at(new_pos) == self@.at(old_pos)
                &&& g@.at(old_pos) is None
                &&& g@.at(Board::middle(old_pos, new_pos)) is None
                &&& (self@.consistent() ==> g@.consistent())
            },
    {
        match self.jumped_over(old_pos, new_pos) {
            None => None,
            Some(p) => {
                proof {
                    self@.lemma_legal_cells(old_pos, new_pos);
                    self@.lemma_jump(old_pos, new_pos);
                }
                let mut temp = self.clone();
                temp.settle(p, old_pos, new_pos);
                Some(temp)
            },
        }
    }

    /// The in-place move: performs the jump from `old_pos` to `new_pos` where
    /// it is legal and returns `true`; otherwise changes nothing and returns
    /// `false`.
    pub fn move_piece_mut(&mut self, old_pos: Point, new_pos: Point) -> (done: bool)
        requires
            old(self)@.wf(),
        ensures
            done <==> old(self)@.legal(old_pos, new_pos),
            done ==> final(self)@ == old(self)@.jump(old_pos, new_pos),
            done ==> final(self)@.count == old(self)@.count - 2 + 1,
            !done ==> final(self)@ == old(self)@,
            final(self)@.wf(),
            old(self)@.consistent() ==> final(self)@.consistent(),
    {
        match self.jumped_over(old_pos, new_pos) {
            None => false,
            Some(p) => {
                proof {
                    self@.lemma_legal_cells(old_pos, new_pos);
                    self@.lemma_jump(old_pos, new_pos);
                }
                self.settle(p, old_pos, new_pos);
                true
            },
        }
    }

    /// Carries out a legal jump: deletes the piece that is jumped over, lifts
    /// the piece at the origin, lowers the count by two and places the piece
    /// at the destination.
    fn settle(&mut self, p: Point, old_pos: Point, new_pos: Point)
        requires
            old(self)@.wf(),
            old(self)@.legal(old_pos, new_pos),
            p == Board::middle(old_pos, new_pos),
        ensures
            final(self)@ == old(self)@.jump(old_pos, new_pos),
    {
        proof {
            old(self)@.lemma_legal_cells(old_pos, new_pos);
            old(self)@.lemma_jump(old_pos, new_pos);
            old(self)@.lemma_with(p, None);
            old(self)@.with(p, None).lemma_with(old_pos, None);
        }
        self.take_unchecked(p);
        let piece = self.take_unchecked(old_pos).unwrap();
        self.count -= 2;
        self.add_piece(new_pos, piece.0);
        proof {
            assert(final(self)@.grid =~= old(self)@.jump(old_pos, new_pos).grid);
        }
    }
}

} // verus!
