//! A board as text: one line per row, indented to a triangle.

use vstd::prelude::*;
use crate::board::{Board, Cells};
use crate::graph::Graph;
use crate::point::{Piece, Point};

verus! {

/// The character of the decimal digit `d`.
pub open spec fn digit(d: nat) -> char {
    if d == 0 {
        '0'
    } else if d == 1 {
        '1'
    } else if d == 2 {
        '2'
    } else if d == 3 {
        '3'
    } else if d == 4 {
        '4'
    } else if d == 5 {
        '5'
    } else if d == 6 {
        '6'
    } else if d == 7 {
        '7'
    } else if d == 8 {
        '8'
    } else {
        '9'
    }
}

/// The decimal numeral of `n`, without leading zeros.
pub open spec fn decimal(n: nat) -> Seq<char>
    decreases n,
{
    if n < 10 {
        seq![digit(n)]
    } else {
        decimal(n / 10).push(digit(n % 10))
    }
}

/// A cell as text: the identifier in brackets, padded on the left to two
/// characters, or two spaces in brackets; then one space.
pub open spec fn cell_text(cell: Option<Piece>) -> Seq<char> {
    match cell {
        Some(piece) => {
            let pad = if piece.0 < 10 { seq![' '] } else { Seq::<char>::empty() };
            seq!['['] + pad + decimal(piece.0 as nat) + seq![']', ' ']
        },
        None => seq!['[', ' ', ' ', ']', ' '],
    }
}

/// The cells of a row as text, one after the other.
pub open spec fn cells_text(row: Cells) -> Seq<char>
    decreases row.len(),
{
    if row.len() == 0 {
        Seq::<char>::empty()
    } else {
        cells_text(row.drop_last()) + cell_text(row.last())
    }
}

/// Row `i` of a grid as a line: two spaces for each row from `i` to the last,
/// then the cells, then a line feed.
pub open spec fn row_text(grid: Seq<Cells>, i: int) -> Seq<char> {
    Seq::new((2 * (grid.len() - i)) as nat, |k: int| ' ') + cells_text(grid[i]) + seq!['\n']
}

/// The lines of the first `upto` rows of a grid.
pub open spec fn rows_text(grid: Seq<Cells>, upto: nat) -> Seq<char>
    decreases upto,
{
    if upto == 0 {
        Seq::<char>::empty()
    } else {
        rows_text(grid, (upto - 1) as nat) + row_text(grid, upto - 1)
    }
}

impl Board {
    /// The board as text: the lines of its rows and an empty line.
    pub open spec fn text(self) -> Seq<char> {
        rows_text(self.grid, self.grid.len()) + seq!['\n']
    }
}

/// Collects characters into a string with std's `String::from_iter`: the
/// string holds those characters in their order.
#[verifier::external_body]
fn collect(chars: &Vec<char>) -> (text: String)
    ensures
        text@ == chars@,
{
    String::from_iter(chars.iter())
}

/// The character of the decimal digit `d`.
fn digit_char(d: usize) -> (c: char)
    requires
        d < 10,
    ensures
        c == digit(d as nat),
{
    if d == 0 {
        '0'
    } else if d == 1 {
        '1'
    } else if d == 2 {
        '2'
    } else if d == 3 {
        '3'
    } else if d == 4 {
        '4'
    } else if d == 5 {
        '5'
    } else if d == 6 {
        '6'
    } else if d == 7 {
        '7'
    } else if d == 8 {
        '8'
    } else {
        '9'
    }
}

/// Appends the decimal numeral of `n`.
fn push_decimal(out: &mut Vec<char>, n: usize)
    ensures
        final(out)@ == old(out)@ + decimal(n as nat),
    decreases n,
{
    if n < 10 {
        out.push(digit_char(n));
    } else {
        push_decimal(out, n / 10);
        out.push(digit_char(n % 10));
    }
    assert(final(out)@ =~= old(out)@ + decimal(n as nat));
}

/// Appends a cell as text.
fn push_cell(out: &mut Vec<char>, cell: Option<Piece>)
    ensures
        final(out)@ == old(out)@ + cell_text(cell),
{
    out.push('[');
    match cell {
        Some(Piece(id)) => {
            if id < 10 {
                out.push(' ');
            }
            push_decimal(out, id);
        },
        None => {
            out.push(' ');
            out.push(' ');
        },
    }
    out.push(']');
    out.push(' ');
    assert(final(out)@ =~= old(out)@ + cell_text(cell));
}

impl Graph {
    /// The board as text. Each row is a line: two spaces for each row from it
    /// to the last, then its cells, each as the piece's identifier in
    /// brackets, padded on the left to two characters, or as two spaces in
    /// brackets, and each followed by one space. An empty line ends the text.
    pub fn render(&self) -> (text: String)
        requires
            self@.wf(),
        ensures
            text@ == self@.text(),
    {
        let mut out: Vec<char> = Vec::new();
        let rows = self.size();
        let mut i: usize = 0;
        while i < rows
            invariant
                self@.wf(),
                rows == self@.grid.len(),
                i <= rows,
                out@ == rows_text(self@.grid, i as nat),
            decreases rows - i,
        {
            let ghost done = out@;
            let mut k: usize = 0;
            while k < rows - i
                invariant
                    i < rows,
                    k <= rows - i,
                    out@ == done + Seq::new((2 * k) as nat, |k: int| ' '),
                decreases rows - i - k,
            {
                out.push(' ');
                out.push(' ');
                k += 1;
                assert(out@ =~= done + Seq::new((2 * k) as nat, |k: int| ' '));
            }
            let ghost indented = out@;
            let mut j: usize = 0;
            while j < i + 1
                invariant
                    self@.wf(),
                    rows == self@.grid.len(),
                    i < rows,
                    j <= i + 1,
                    out@ == indented + cells_text(self@.grid[i as int].take(j as int)),
                decreases i + 1 - j,
            {
                let cell = self.contains_piece_unchecked(Point(i as isize, j as isize));
                push_cell(&mut out, cell);
                proof {
                    let row = self@.grid[i as int];
                    assert(row.take(j + 1).drop_last() =~= row.take(j as int));
                    assert(row.take(j + 1).last() == cell);
                    assert(out@ =~= indented + cells_text(row.take(j + 1)));
                }
                j += 1;
            }
            out.push('\n');
            proof {
                let row = self@.grid[i as int];
                assert(row.take(i + 1) =~= row);
                assert(out@ =~= done + row_text(self@.grid, i as int));
            }
            i += 1;
        }
        out.push('\n');
        collect(&out)
    }
}

} // verus!
