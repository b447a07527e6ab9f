//! What is drawn for an entity.

use vstd::prelude::*;

verus! {

/// The side of a tile, in pixels.
pub const SPRITE_SIZE: u32 = 16;

/// The tile of the sprite sheet that is drawn for an entity.
#[derive(PartialEq, Eq, Structural, Clone, Copy, Debug)]
pub struct Sprite {
    pub index_x: u32,
    pub index_y: u32,
    pub flip_x: bool,
    pub layer: i8,
    pub render: bool,
}

impl Sprite {
    /// A visible, unflipped sprite.
    pub fn new(index_x: u32, index_y: u32, layer: i8) -> (sprite: Self)
        ensures
            sprite == (Sprite { index_x, index_y, flip_x: false, layer, render: true }),
    {
        Self { index_x, index_y, flip_x: false, layer, render: true }
    }
}

} // verus!
