//! Boxes that the player and the clones push.

use vstd::prelude::*;
use crate::game::common::Cell;

verus! {

/// Who can push a box.
#[derive(PartialEq, Eq, Structural, Clone, Copy, Debug)]
pub enum BoxType {
    /// Only the player or clone of this colour.
    Color(u8),
    /// Anyone.
    Any,
}

/// A box, which goes back to the cell it started on when a loop restarts.
#[derive(Clone, Copy, Debug)]
pub struct PushBox {
    pub start_cell: Cell,
}

} // verus!
