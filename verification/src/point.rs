//! Cell coordinates and the pegs that sit in cells.

use vstd::prelude::*;
use vstd::std_specs::ops::{AddSpecImpl, SubSpecImpl};

verus! {

/// A peg. The identifier serves display only: the rules never read it.
#[derive(Copy, Clone, Debug, PartialEq, Eq, Structural)]
pub struct Piece(pub usize);

/// A cell `(row, column)`, or a displacement between two cells.
///
/// The components are signed so that the difference of two cells can be taken
/// before any bounds test.
#[derive(Copy, Clone, Debug, PartialEq, Eq, Structural)]
pub struct Point(pub isize, pub isize);

impl Point {
    /// Component-wise sum, as mathematical integers.
    pub open spec fn plus(self, other: Point) -> (int, int) {
        (self.0 + other.0, self.1 + other.1)
    }

    /// Component-wise difference, as mathematical integers.
    pub open spec fn minus(self, other: Point) -> (int, int) {
        (self.0 - other.0, self.1 - other.1)
    }

    /// Whether both components of `v` fit the machine's signed word.
    pub open spec fn fits(v: (int, int)) -> bool {
        isize::MIN <= v.0 <= isize::MAX && isize::MIN <= v.1 <= isize::MAX
    }
}

impl AddSpecImpl<Point> for Point {
    open spec fn obeys_add_spec() -> bool {
        true
    }

    open spec fn add_req(self, other: Point) -> bool {
        Point::fits(self.plus(other))
    }

    open spec fn add_spec(self, other: Point) -> Point {
        Point((self.0 + other.0) as isize, (self.1 + other.1) as isize)
    }
}

impl std::ops::Add<Point> for Point {
    type Output = Point;

    fn add(self, other: Point) -> Point {
        Point(self.0 + other.0, self.1 + other.1)
    }
}

impl SubSpecImpl<Point> for Point {
    open spec fn obeys_sub_spec() -> bool {
        true
    }

    open spec fn sub_req(self, other: Point) -> bool {
        Point::fits(self.minus(other))
    }

    open spec fn sub_spec(self, other: Point) -> Point {
        Point((self.0 - other.0) as isize, (self.1 - other.1) as isize)
    }
}

impl std::ops::Sub<Point> for Point {
    type Output = Point;

    fn sub(self, other: Point) -> Point {
        Point(self.0 - other.0, self.1 - other.1)
    }
}

/// The sign of `i`: `-1`, `0` or `1`.
pub fn get_sign(i: isize) -> (s: isize)
    ensures
        s == sign(i as int),
{
    if i == 0 {
        0
    } else if i > 0 {
        1
    } else {
        -1
    }
}

/// The sign of an integer.
pub open spec fn sign(i: int) -> int {
    if i == 0 {
        0
    } else if i > 0 {
        1
    } else {
        -1
    }
}

} // verus!
