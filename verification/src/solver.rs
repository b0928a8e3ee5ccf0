//! The search: depth first, in a fixed order, without memory of visited boards.

use vstd::prelude::*;
use crate::board::Board;
use crate::graph::Graph;
use crate::point::Point;

verus! {

/// The six jump vectors in the order in which the search tries them.
pub open spec fn jumps() -> Seq<Point> {
    seq![
        Point(2, 0),
        Point(-2isize, 0),
        Point(0, 2),
        Point(0, -2isize),
        Point(-2isize, -2isize),
        Point(2, 2),
    ]
}

/// The board that the `m`-th jump from the cell `(i, j)` leads to, where that
/// jump is legal. A well-formed board on which a jump is legal reports at
/// least the two pieces that the jump lifts.
pub open spec fn attempt(b: Board, i: int, j: int, m: int) -> Option<Board> {
    let o = Point(i as isize, j as isize);
    let d = Point((i + jumps()[m].0) as isize, (j + jumps()[m].1) as isize);
    if b.count >= 2 && b.at(o) is Some && b.legal(o, d) {
        Some(b.jump(o, d))
    } else {
        None
    }
}

/// What the search returns on `b`: the board alone where it reports at most
/// one piece; otherwise the first path found from the first candidate on.
pub open spec fn search(b: Board, dim: int) -> Option<Seq<Board>>
    decreases b.count, 1nat, 0nat, 0nat, 0nat,
{
    if b.count <= 1 {
        Some(seq![b])
    } else {
        search_from(b, dim, 0, 0, 0)
    }
}

/// What the search returns on `b` once every candidate before the `m`-th jump
/// from the cell `(i, j)` has failed. The candidates are the cells of the
/// first `dim` rows in row-major order, with the six jumps in their order for
/// each. The first legal jump whose board has a path decides: that path, with
/// `b` behind it.
pub open spec fn search_from(b: Board, dim: int, i: int, j: int, m: int) -> Option<Seq<Board>>
    decreases b.count, 0nat, dim - i, i + 1 - j, 6 - m,
{
    if i < 0 || j < 0 || m < 0 || i >= dim {
        None
    } else if j > i {
        search_from(b, dim, i + 1, 0, 0)
    } else if m >= 6 {
        search_from(b, dim, i, j + 1, 0)
    } else {
        match attempt(b, i, j, m) {
            Some(next) => match search(next, dim) {
                Some(path) => Some(path.push(b)),
                None => search_from(b, dim, i, j, m + 1),
            },
            None => search_from(b, dim, i, j, m + 1),
        }
    }
}

/// The boards that a path of stored boards stands for.
pub open spec fn boards(path: Seq<Graph>) -> Seq<Board> {
    Seq::new(path.len(), |k: int| path[k]@)
}

/// The `m`-th jump vector.
fn jump_vector(m: usize) -> (v: Point)
    requires
        m < 6,
    ensures
        v == jumps()[m as int],
{
    if m == 0 {
        Point(2, 0)
    } else if m == 1 {
        Point(-2, 0)
    } else if m == 2 {
        Point(0, 2)
    } else if m == 3 {
        Point(0, -2)
    } else if m == 4 {
        Point(-2, -2)
    } else {
        Point(2, 2)
    }
}

/// Searches for a chain of jumps from `current` to a board that reports at
/// most one piece, and returns the boards of the first chain found, the last
/// board first and `current` last; or nothing where no candidate leads to one.
///
/// A board that reports at most one piece is its own path, wherever its piece
/// stands: `target` is not consulted. Origins are taken from the first `dim`
/// rows.
pub fn solve_triangle(current: Graph, target: &Graph, dim: isize) -> (found: Option<Vec<Graph>>)
    requires
        current@.wf(),
    ensures
        found is Some <==> search(current@, dim as int) is Some,
        found matches Some(path) ==> search(current@, dim as int) == Some(boards(path@)),
        found matches Some(path) ==> path@.len() >= 1 && path@.last()@ == current@,
        found matches Some(path) ==> chain(boards(path@), current@),
        found matches Some(path) ==> sound(boards(path@), current@),
        found matches Some(path) ==> path@.len() + path@[0]@.count == current@.count + 1,
        current@.count <= 1 ==> found is Some,
        dim >= current@.grid.len() ==> (found is Some <==> solvable(current@)),
    decreases current@.count,
{
    proof {
        lemma_search_sound(current@, dim as int);
        if dim >= current@.grid.len() {
            lemma_search_decides(current@, dim as int);
        }
    }
    if current.pieces() <= 1 {
        let ghost b = current@;
        let path = vec![current];
        assert(boards(path@) =~= seq![b]);
        return Some(path);
    }
    let mut i: isize = 0;
    while i < dim
        invariant
            0 <= i,
            current@.wf(),
            current@.count >= 2,
            i >= dim ==> search(current@, dim as int) is None,
            i < dim ==> search(current@, dim as int) == search_from(
                current@,
                dim as int,
                i as int,
                0,
                0,
            ),
        decreases dim - i,
    {
        let mut j: isize = 0;
        while j < i + 1
            invariant
                0 <= i < dim,
                0 <= j <= i + 1,
                current@.wf(),
                current@.count >= 2,
                search(current@, dim as int) == search_from(
                    current@,
                    dim as int,
                    i as int,
                    j as int,
                    0,
                ),
            decreases i + 1 - j,
        {
            let p = Point(i, j);
            if let Some(_) = current.contains_piece(p) {
                let mut m: usize = 0;
                while m < 6
                    invariant
                        0 <= j <= i < dim,
                        m <= 6,
                        p == Point(i, j),
                        current@.wf(),
                        current@.count >= 2,
                        current@.at(p) is Some,
                        search(current@, dim as int) == search_from(
                            current@,
                            dim as int,
                            i as int,
                            j as int,
                            m as int,
                        ),
                    decreases 6 - m,
                {
                    let v = jump_vector(m);
                    if let Some(g) = current.move_piece(p, p + v) {
                        let solution = solve_triangle(g, target, dim);
                        if let Some(mut path) = solution {
                            let ghost before = boards(path@);
                            let ghost b = current@;
                            path.push(current);
                            assert(boards(path@) =~= before.push(b));
                            return Some(path);
                        }
                    }
                    m += 1;
                }
            } else {
                // No jump starts from an empty cell: the six candidates fall through.
                assert(search_from(current@, dim as int, i as int, j as int, 6) == search_from(
                    current@,
                    dim as int,
                    i as int,
                    j as int,
                    0,
                )) by {
                    reveal_with_fuel(search_from, 8);
                }
            }
            j += 1;
        }
        i += 1;
    }
    None
}

/// One legal jump leads from `from` to `to`.
pub open spec fn step(from: Board, to: Board) -> bool {
    exists|o: Point, d: Point| #[trigger] from.legal(o, d) && to == from.jump(o, d)
}

/// `path` is a solution of `start`: it ends in `start`, begins with a board
/// that reports at most one piece, and each board comes from the one behind it
/// by one legal jump.
pub open spec fn chain(path: Seq<Board>, start: Board) -> bool {
    &&& path.len() >= 1
    &&& path.last() == start
    &&& path[0].count <= 1
    &&& forall|k: int| 0 <= k < path.len() - 1 ==> step(#[trigger] path[k + 1], path[k])
}

/// Every board of `path` is well formed and has the rows of `start`, and is
/// consistent if `start` is.
pub open spec fn sound(path: Seq<Board>, start: Board) -> bool {
    forall|k: int|
        0 <= k < path.len() ==> {
            &&& (#[trigger] path[k]).wf()
            &&& path[k].grid.len() == start.grid.len()
            &&& (start.consistent() ==> path[k].consistent())
        }
}

/// Whether the board has a solution.
pub open spec fn solvable(b: Board) -> bool {
    exists|path: Seq<Board>| chain(path, b)
}

/// Whether the candidate `(i0, j0, m0)` comes no later than `(i, j, m)`.
pub open spec fn no_later(i0: int, j0: int, m0: int, i: int, j: int, m: int) -> bool {
    i0 < i || (i0 == i && (j0 < j || (j0 == j && m0 <= m)))
}

/// A path that the search returns is a solution of the board it was asked
/// for, made of well-formed boards, and holds one board for each piece that
/// the board reports beyond those of the path's first board.
pub proof fn lemma_search_sound(b: Board, dim: int)
    requires
        b.wf(),
    ensures
        search(b, dim) matches Some(path) ==> chain(path, b) && sound(path, b) && path.len()
            + path[0].count == b.count + 1,
    decreases b.count, 1nat, 0nat, 0nat, 0nat,
{
    if b.count > 1 {
        lemma_search_from_sound(b, dim, 0, 0, 0);
    }
}

/// The same of a search that starts later among the candidates.
pub proof fn lemma_search_from_sound(b: Board, dim: int, i: int, j: int, m: int)
    requires
        b.wf(),
    ensures
        search_from(b, dim, i, j, m) matches Some(path) ==> chain(path, b) && sound(path, b)
            && path.len() + path[0].count == b.count + 1,
    decreases b.count, 0nat, dim - i, i + 1 - j, 6 - m,
{
    if i < 0 || j < 0 || m < 0 || i >= dim {
    } else if j > i {
        lemma_search_from_sound(b, dim, i + 1, 0, 0);
    } else if m >= 6 {
        lemma_search_from_sound(b, dim, i, j + 1, 0);
    } else {
        lemma_search_from_sound(b, dim, i, j, m + 1);
        if let Some(next) = attempt(b, i, j, m) {
            let o = Point(i as isize, j as isize);
            let d = Point((i + jumps()[m].0) as isize, (j + jumps()[m].1) as isize);
            b.lemma_jump(o, d);
            lemma_search_sound(next, dim);
            if let Some(path) = search(next, dim) {
                let longer = path.push(b);
                assert(b.legal(o, d) && next == b.jump(o, d));
                assert(step(b, next));
                assert forall|k: int| 0 <= k < longer.len() - 1 implies step(
                    #[trigger] longer[k + 1],
                    longer[k],
                ) by {
                    if k < path.len() - 1 {
                        assert(longer[k + 1] == path[k + 1]);
                        assert(longer[k] == path[k]);
                    } else {
                        assert(longer[k + 1] == b);
                        assert(longer[k] == next);
                    }
                }
                assert(longer[0] == path[0]);
                assert forall|k: int| 0 <= k < longer.len() implies {
                    &&& (#[trigger] longer[k]).wf()
                    &&& longer[k].grid.len() == b.grid.len()
                    &&& (b.consistent() ==> longer[k].consistent())
                } by {
                    if k < path.len() {
                        assert(longer[k] == path[k]);
                    }
                }
            }
        }
    }
}

/// Where a search comes back empty, every candidate from its start on either
/// is no legal jump or leads to a board on which the search comes back empty.
pub proof fn lemma_search_from_none(
    b: Board,
    dim: int,
    i0: int,
    j0: int,
    m0: int,
    i: int,
    j: int,
    m: int,
)
    requires
        search_from(b, dim, i0, j0, m0) is None,
        0 <= i0 && 0 <= j0 && 0 <= m0,
        0 <= i < dim && 0 <= j <= i && 0 <= m < 6,
        no_later(i0, j0, m0, i, j, m),
    ensures
        attempt(b, i, j, m) matches Some(next) ==> search(next, dim) is None,
    decreases dim - i0, i0 + 1 - j0, 6 - m0,
{
    if j0 > i0 {
        lemma_search_from_none(b, dim, i0 + 1, 0, 0, i, j, m);
    } else if m0 >= 6 {
        lemma_search_from_none(b, dim, i0, j0 + 1, 0, i, j, m);
    } else if !(i0 == i && j0 == j && m0 == m) {
        lemma_search_from_none(b, dim, i0, j0, m0 + 1, i, j, m);
    }
}

/// A legal jump on a well-formed board is one of the search's candidates, if
/// the search takes origins from every row of the board.
pub proof fn lemma_jump_is_candidate(b: Board, dim: int, o: Point, d: Point) -> (c: (int, int, int))
    requires
        b.wf(),
        b.legal(o, d),
        dim >= b.grid.len(),
    ensures
        0 <= c.0 < dim && 0 <= c.1 <= c.0 && 0 <= c.2 < 6,
        attempt(b, c.0, c.1, c.2) == Some(b.jump(o, d)),
{
    b.lemma_legal_cells(o, d);
    b.lemma_jump(o, d);
    let dr = d.0 - o.0;
    let dc = d.1 - o.1;
    let m: int = if dr == 2 && dc == 0 {
        0
    } else if dr == -2 && dc == 0 {
        1
    } else if dr == 0 && dc == 2 {
        2
    } else if dr == 0 && dc == -2 {
        3
    } else if dr == -2 && dc == -2 {
        4
    } else {
        5
    };
    let i = o.0 as int;
    let j = o.1 as int;
    assert(Point(i as isize, j as isize) == o);
    assert(Point((i + jumps()[m].0) as isize, (j + jumps()[m].1) as isize) == d);
    (i, j, m)
}

/// The search is complete: where a board has a solution at all, and origins
/// are taken from every row, the search returns a path.
pub proof fn lemma_search_complete(b: Board, dim: int, path: Seq<Board>)
    requires
        b.wf(),
        dim >= b.grid.len(),
        chain(path, b),
    ensures
        search(b, dim) is Some,
    decreases path.len(),
{
    if b.count > 1 {
        let n = path.len() - 1;
        let next = path[n - 1];
        assert(step(path[n - 1 + 1], path[n - 1]));
        let (o, d) = choose|o: Point, d: Point| #[trigger] b.legal(o, d) && next == b.jump(o, d);
        b.lemma_jump(o, d);
        let rest = path.drop_last();
        assert forall|k: int| 0 <= k < rest.len() - 1 implies step(
            #[trigger] rest[k + 1],
            rest[k],
        ) by {
            assert(rest[k + 1] == path[k + 1]);
            assert(rest[k] == path[k]);
        }
        lemma_search_complete(next, dim, rest);
        let c = lemma_jump_is_candidate(b, dim, o, d);
        if search(b, dim) is None {
            lemma_search_from_none(b, dim, 0, 0, 0, c.0, c.1, c.2);
        }
    }
}

/// Where origins are taken from every row, the search returns a path exactly
/// on the boards that have a solution.
pub proof fn lemma_search_decides(b: Board, dim: int)
    requires
        b.wf(),
        dim >= b.grid.len(),
    ensures
        search(b, dim) is Some <==> solvable(b),
{
    lemma_search_sound(b, dim);
    if solvable(b) {
        let path = choose|path: Seq<Board>| chain(path, b);
        lemma_search_complete(b, dim, path);
    }
}

} // verus!
