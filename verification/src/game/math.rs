//! Integer vectors on the tile grid.

use vstd::prelude::*;
use vstd::std_specs::ops::{AddSpecImpl, SubSpecImpl};

verus! {

/// A pair of grid coordinates, or a step between two cells.
#[derive(PartialEq, Eq, Structural, Clone, Copy, Debug)]
pub struct Vec2i {
    pub x: i32,
    pub y: i32,
}

impl Vec2i {
    pub fn new(x: i32, y: i32) -> (v: Self)
        ensures
            v == (Vec2i { x, y }),
    {
        Self { x, y }
    }

    pub fn zero() -> (v: Self)
        ensures
            v == (Vec2i { x: 0, y: 0 }),
    {
        Self { x: 0, y: 0 }
    }

    /// Both coordinates of the sum fit in an `i32`.
    pub open spec fn can_add(self, rhs: Vec2i) -> bool {
        &&& i32::MIN <= self.x + rhs.x <= i32::MAX
        &&& i32::MIN <= self.y + rhs.y <= i32::MAX
    }

    /// Both coordinates of the difference fit in an `i32`.
    pub open spec fn can_sub(self, rhs: Vec2i) -> bool {
        &&& i32::MIN <= self.x - rhs.x <= i32::MAX
        &&& i32::MIN <= self.y - rhs.y <= i32::MAX
    }

    /// The sum, coordinate by coordinate.
    pub open spec fn plus(self, rhs: Vec2i) -> Vec2i {
        Vec2i { x: (self.x + rhs.x) as i32, y: (self.y + rhs.y) as i32 }
    }

    /// The difference, coordinate by coordinate.
    pub open spec fn minus(self, rhs: Vec2i) -> Vec2i {
        Vec2i { x: (self.x - rhs.x) as i32, y: (self.y - rhs.y) as i32 }
    }

    /// The sum, where both coordinates of it fit.
    pub fn sum(self, rhs: Vec2i) -> (sum: Vec2i)
        requires
            self.can_add(rhs),
        ensures
            sum == self.plus(rhs),
    {
        Vec2i { x: self.x + rhs.x, y: self.y + rhs.y }
    }

    /// The sum, or `None` where a coordinate of it does not fit.
    pub fn checked_add(self, rhs: Vec2i) -> (sum: Option<Vec2i>)
        ensures
            sum == if self.can_add(rhs) {
                Some(self.plus(rhs))
            } else {
                None
            },
    {
        match (self.x.checked_add(rhs.x), self.y.checked_add(rhs.y)) {
            (Some(x), Some(y)) => Some(Vec2i { x, y }),
            _ => None,
        }
    }
}

impl core::ops::Add<Vec2i> for Vec2i {
    type Output = Vec2i;

    fn add(self, rhs: Vec2i) -> (sum: Vec2i) {
        Vec2i { x: self.x + rhs.x, y: self.y + rhs.y }
    }
}

impl AddSpecImpl<Vec2i> for Vec2i {
    open spec fn obeys_add_spec() -> bool {
        true
    }

    open spec fn add_req(self, rhs: Vec2i) -> bool {
        self.can_add(rhs)
    }

    open spec fn add_spec(self, rhs: Vec2i) -> Vec2i {
        self.plus(rhs)
    }
}

impl core::ops::Sub<Vec2i> for Vec2i {
    type Output = Vec2i;

    fn sub(self, rhs: Vec2i) -> (difference: Vec2i) {
        Vec2i::new(self.x - rhs.x, self.y - rhs.y)
    }
}

impl SubSpecImpl<Vec2i> for Vec2i {
    open spec fn obeys_sub_spec() -> bool {
        true
    }

    open spec fn sub_req(self, rhs: Vec2i) -> bool {
        self.can_sub(rhs)
    }

    open spec fn sub_spec(self, rhs: Vec2i) -> Vec2i {
        self.minus(rhs)
    }
}

} // verus!
