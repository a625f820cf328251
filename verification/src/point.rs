//! Conversion of a position to the point type of the `tree-sitter` crate,
//! which names the column `column`.

use crate::position::Position;
use tree_sitter::Point;
use vstd::prelude::*;
use vstd::std_specs::convert::FromSpecImpl;

verus! {

/// `tree_sitter::Point`, a plain pair of the public fields `row` and
/// `column`, which are read here as they are.
#[verifier::external_type_specification]
pub struct ExPoint(Point);

/// `Point::new` builds the point with the given row and column.
pub assume_specification[ Point::new ](row: usize, column: usize) -> (point: Point)
    ensures
        point.row == row,
        point.column == column,
;

impl From<Position> for Point {
    fn from(pos: Position) -> (point: Point) {
        Point::new(pos.row, pos.col)
    }
}

impl FromSpecImpl<Position> for Point {
    open spec fn obeys_from_spec() -> bool {
        true
    }

    open spec fn from_spec(pos: Position) -> Point {
        Point { row: pos.row, column: pos.col }
    }
}

} // verus!
