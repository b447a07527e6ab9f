//! What the player asks for in one frame.

use vstd::prelude::*;
use crate::game::math::Vec2i;

verus! {

/// The keys of one frame, as far as the game reads them.
#[derive(PartialEq, Eq, Structural, Clone, Copy, Debug)]
pub struct Input {
    pub up_pressed: bool,
    pub down_pressed: bool,
    pub left_pressed: bool,
    pub right_pressed: bool,
    pub one_pressed: bool,
    pub two_pressed: bool,
    pub three_pressed: bool,
    pub four_pressed: bool,
    pub five_pressed: bool,
    pub skip_pressed: bool,
    pub skip_level: bool,
}

impl Input {
    /// The step that the keys ask for: up before down, down before right,
    /// right before left, and no step where none of them is held.
    pub open spec fn spec_direction(&self) -> Vec2i {
        if self.up_pressed {
            Vec2i { x: 0, y: 1 }
        } else if self.down_pressed {
            Vec2i { x: 0, y: -1i32 }
        } else if self.right_pressed {
            Vec2i { x: 1, y: 0 }
        } else if self.left_pressed {
            Vec2i { x: -1i32, y: 0 }
        } else {
            Vec2i { x: 0, y: 0 }
        }
    }

    /// The step that the keys ask for.
    #[verifier::when_used_as_spec(spec_direction)]
    pub fn direction(&self) -> (step: Vec2i)
        ensures
            step == self.direction(),
    {
        if self.up_pressed {
            Vec2i::new(0, 1)
        } else if self.down_pressed {
            Vec2i::new(0, -1)
        } else if self.right_pressed {
            Vec2i::new(1, 0)
        } else if self.left_pressed {
            Vec2i::new(-1, 0)
        } else {
            Vec2i::zero()
        }
    }

    /// The clone that the number keys pick: the lowest key that is pressed.
    pub open spec fn spec_loop_num(&self) -> Option<usize> {
        if self.one_pressed {
            Some(0usize)
        } else if self.two_pressed {
            Some(1usize)
        } else if self.three_pressed {
            Some(2usize)
        } else if self.four_pressed {
            Some(3usize)
        } else if self.five_pressed {
            Some(4usize)
        } else {
            None
        }
    }

    /// The clone that the number keys pick.
    #[verifier::when_used_as_spec(spec_loop_num)]
    pub fn loop_num(&self) -> (picked: Option<usize>)
        ensures
            picked == self.loop_num(),
    {
        if self.one_pressed {
            Some(0)
        } else if self.two_pressed {
            Some(1)
        } else if self.three_pressed {
            Some(2)
        } else if self.four_pressed {
            Some(3)
        } else if self.five_pressed {
            Some(4)
        } else {
            None
        }
    }

    /// No key at all.
    pub fn none() -> (input: Self)
        ensures
            input == (Input {
                up_pressed: false,
                down_pressed: false,
                left_pressed: false,
                right_pressed: false,
                one_pressed: false,
                two_pressed: false,
                three_pressed: false,
                four_pressed: false,
                five_pressed: false,
                skip_pressed: false,
                skip_level: false,
            }),
    {
        Self {
            up_pressed: false,
            down_pressed: false,
            left_pressed: false,
            right_pressed: false,
            one_pressed: false,
            two_pressed: false,
            three_pressed: false,
            four_pressed: false,
            five_pressed: false,
            skip_pressed: false,
            skip_level: false,
        }
    }
}

} // verus!
