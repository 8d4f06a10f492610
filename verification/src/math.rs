//! Points and directions in the plane.

use vstd::prelude::*;
use vstd::std_specs::ops::{AddSpecImpl, NegSpecImpl, SubSpecImpl};

verus! {

/// A pair of coordinates.
#[derive(Copy, Clone, Debug, Hash, PartialEq, Eq, Structural)]
pub struct Vector2<T> {
    pub x: T,
    pub y: T,
}

impl<T> Vector2<T> {
    /// The vector with these coordinates.
    pub fn new(x: T, y: T) -> (vector: Self)
        ensures
            vector.x == x,
            vector.y == y,
    {
        Self { x, y }
    }
}

impl Default for Vector2<isize> {
    /// The origin.
    fn default() -> (vector: Self)
        ensures
            vector.x == 0,
            vector.y == 0,
    {
        Self { x: 0, y: 0 }
    }
}

impl core::ops::Add for Vector2<isize> {
    type Output = Vector2<isize>;

    fn add(self, rhs: Vector2<isize>) -> (sum: Vector2<isize>) {
        Vector2 { x: self.x + rhs.x, y: self.y + rhs.y }
    }
}

impl AddSpecImpl for Vector2<isize> {
    open spec fn obeys_add_spec() -> bool {
        true
    }

    open spec fn add_req(self, rhs: Vector2<isize>) -> bool {
        &&& isize::MIN <= self.x + rhs.x <= isize::MAX
        &&& isize::MIN <= self.y + rhs.y <= isize::MAX
    }

    open spec fn add_spec(self, rhs: Vector2<isize>) -> Vector2<isize> {
        Vector2 { x: (self.x + rhs.x) as isize, y: (self.y + rhs.y) as isize }
    }
}

impl core::ops::Sub for Vector2<isize> {
    type Output = Vector2<isize>;

    fn sub(self, rhs: Vector2<isize>) -> (difference: Vector2<isize>) {
        Vector2 { x: self.x - rhs.x, y: self.y - rhs.y }
    }
}

impl SubSpecImpl for Vector2<isize> {
    open spec fn obeys_sub_spec() -> bool {
        true
    }

    open spec fn sub_req(self, rhs: Vector2<isize>) -> bool {
        &&& isize::MIN <= self.x - rhs.x <= isize::MAX
        &&& isize::MIN <= self.y - rhs.y <= isize::MAX
    }

    open spec fn sub_spec(self, rhs: Vector2<isize>) -> Vector2<isize> {
        Vector2 { x: (self.x - rhs.x) as isize, y: (self.y - rhs.y) as isize }
    }
}

impl core::ops::Neg for Vector2<isize> {
    type Output = Vector2<isize>;

    fn neg(self) -> (negated: Vector2<isize>) {
        Vector2 { x: -self.x, y: -self.y }
    }
}

impl NegSpecImpl for Vector2<isize> {
    open spec fn obeys_neg_spec() -> bool {
        true
    }

    open spec fn neg_req(self) -> bool {
        self.x > isize::MIN && self.y > isize::MIN
    }

    open spec fn neg_spec(self) -> Vector2<isize> {
        Vector2 { x: (-self.x) as isize, y: (-self.y) as isize }
    }
}

/// The distance of a number from zero.
pub open spec fn spec_abs(value: int) -> int {
    if value < 0 {
        -value
    } else {
        value
    }
}

/// Numbers that have an absolute value.
pub trait Abs: Sized {
    type Output;

    /// Whether the absolute value can be represented.
    spec fn abs_req(self) -> bool;

    /// The absolute value.
    spec fn abs_spec(self) -> Self::Output;

    /// The absolute value.
    fn abs(self) -> (magnitude: Self::Output)
        requires
            self.abs_req(),
        ensures
            magnitude == self.abs_spec(),
    ;
}

impl Abs for isize {
    type Output = isize;

    open spec fn abs_req(self) -> bool {
        self > isize::MIN
    }

    open spec fn abs_spec(self) -> isize {
        spec_abs(self as int) as isize
    }

    fn abs(self) -> (magnitude: isize) {
        if self < 0 {
            -self
        } else {
            self
        }
    }
}

/// The number of steps along the axes from one point to another.
pub open spec fn spec_manhattan_distance(from: Vector2<isize>, to: Vector2<isize>) -> int {
    spec_abs(from.x - to.x) + spec_abs(from.y - to.y)
}

impl Vector2<isize> {
    /// The number of steps along the axes from this point to `other`.
    pub fn manhattan_distance(self, other: Self) -> (distance: isize)
        requires
            spec_manhattan_distance(self, other) <= isize::MAX,
        ensures
            distance == spec_manhattan_distance(self, other),
    {
        Abs::abs(self.x - other.x) + Abs::abs(self.y - other.y)
    }
}

} // verus!
