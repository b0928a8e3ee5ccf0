//! Triangular peg solitaire: the board, the jump rule and a depth-first solver.
//!
//! A board is a triangle whose row `r` holds `r + 1` cells. A jump moves a peg
//! two cells along a row, a column or the main diagonal over an occupied cell,
//! which is captured. The solver searches, depth first and in a fixed order,
//! for a chain of jumps that leaves at most one peg.

pub mod point;
pub mod board;
pub mod graph;
pub mod solver;
pub mod render;

pub use graph::Graph;
pub use solver::solve_triangle;
pub use point::{Piece, Point};
