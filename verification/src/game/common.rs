//! What most kinds of entity share.

use vstd::prelude::*;
use crate::game::math::Vec2i;

verus! {

/// The tile an entity stands on.
#[derive(PartialEq, Eq, Structural, Clone, Copy, Debug)]
pub struct Cell {
    pub value: Vec2i,
}

impl Cell {
    pub fn new(x: i32, y: i32) -> (cell: Self)
        ensures
            cell == (Cell { value: Vec2i { x, y } }),
    {
        Self { value: Vec2i::new(x, y) }
    }

    /// The column of the tile.
    pub open spec fn spec_x(&self) -> i32 {
        self.value.x
    }

    /// The column of the tile.
    #[verifier::when_used_as_spec(spec_x)]
    pub fn x(&self) -> (x: i32)
        ensures
            x == self.x(),
    {
        self.value.x
    }

    /// The row of the tile.
    pub open spec fn spec_y(&self) -> i32 {
        self.value.y
    }

    /// The row of the tile.
    #[verifier::when_used_as_spec(spec_y)]
    pub fn y(&self) -> (y: i32)
        ensures
            y == self.y(),
    {
        self.value.y
    }
}

} // verus!
