//! The planar vector used for positions, velocities and accelerations.

use crate::math::fixed::{
    clamp_to_limit, div_toward_zero, divide_toward_zero, in_range, lemma_product_bound, saturate,
    ONE,
};
use vstd::prelude::*;

verus! {

/// A pair of fixed-point coordinates. It is a plain value: it has no
/// identity and is freely copied.
#[derive(Debug, Clone, Copy, PartialEq, Eq, Structural)]
pub struct Vec2 {
    pub x: i64,
    pub y: i64,
}

impl Vec2 {
    /// Both coordinates can be stored without saturating.
    pub open spec fn in_range(self) -> bool {
        in_range(self.x as int) && in_range(self.y as int)
    }

    /// Each coordinate brought into the storable range.
    pub open spec fn saturated(self) -> Vec2 {
        Vec2 { x: saturate(self.x as int), y: saturate(self.y as int) }
    }

    /// The component-wise sum, each coordinate saturated.
    pub open spec fn plus(self, other: Vec2) -> Vec2 {
        Vec2 { x: saturate(self.x + other.x), y: saturate(self.y + other.y) }
    }

    /// The component-wise difference, each coordinate saturated.
    pub open spec fn minus(self, other: Vec2) -> Vec2 {
        Vec2 { x: saturate(self.x - other.x), y: saturate(self.y - other.y) }
    }

    /// Each coordinate multiplied by the fixed-point scalar `k`, rounded
    /// toward zero and saturated.
    pub open spec fn scaled(self, k: i64) -> Vec2 {
        Vec2 {
            x: saturate(div_toward_zero(self.x * k, ONE as int)),
            y: saturate(div_toward_zero(self.y * k, ONE as int)),
        }
    }

    /// Builds the vector with the given coordinates.
    pub fn new(x: i64, y: i64) -> (v: Vec2)
        ensures
            v.x == x,
            v.y == y,
    {
        Vec2 { x, y }
    }

    /// Returns this vector with each coordinate brought into the storable
    /// range.
    pub fn clamp(self) -> (v: Vec2)
        ensures
            v == self.saturated(),
            v.in_range(),
            self.in_range() ==> v == self,
    {
        Vec2 { x: clamp_to_limit(self.x as i128), y: clamp_to_limit(self.y as i128) }
    }

    /// Returns the sum of two vectors.
    pub fn add(self, other: Vec2) -> (v: Vec2)
        ensures
            v == self.plus(other),
            v.in_range(),
    {
        Vec2 {
            x: clamp_to_limit(self.x as i128 + other.x as i128),
            y: clamp_to_limit(self.y as i128 + other.y as i128),
        }
    }

    /// Adds `other` to this vector in place.
    pub fn accumulate(&mut self, other: Vec2)
        ensures
            *final(self) == old(self).plus(other),
            final(self).in_range(),
    {
        self.x = clamp_to_limit(self.x as i128 + other.x as i128);
        self.y = clamp_to_limit(self.y as i128 + other.y as i128);
    }

    /// Returns this vector multiplied by the fixed-point scalar `k`.
    pub fn scale(self, k: i64) -> (v: Vec2)
        ensures
            v == self.scaled(k),
            v.in_range(),
    {
        proof {
            lemma_product_bound(self.x as int, k as int, 0x8000_0000_0000_0000, 0x8000_0000_0000_0000);
            lemma_product_bound(self.y as int, k as int, 0x8000_0000_0000_0000, 0x8000_0000_0000_0000);
        }
        let px: i128 = self.x as i128 * k as i128;
        let py: i128 = self.y as i128 * k as i128;
        Vec2 {
            x: clamp_to_limit(divide_toward_zero(px, ONE as i128)),
            y: clamp_to_limit(divide_toward_zero(py, ONE as i128)),
        }
    }
}

} // verus!
