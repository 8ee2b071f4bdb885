//! Four-component vectors.

use crate::config::Size;
use vstd::prelude::*;

verus! {

/// Four components of one type; as a rectangle, `(x, y)` is the far corner
/// and `(z, w)` the near one.
#[derive(Clone, Copy, Debug)]
pub struct Vector4T<T> {
    pub x: T,
    pub y: T,
    pub z: T,
    pub w: T,
}

impl<T> Vector4T<T> {
    pub fn new(x: T, y: T, z: T, w: T) -> (v: Self)
        ensures
            v.x == x && v.y == y && v.z == z && v.w == w,
    {
        Vector4T { x, y, z, w }
    }
}

impl Vector4T<u32> {
    /// Width `x - z` and height `y - w` of the rectangle.
    pub fn size(&self) -> (s: Size)
        requires
            self.x >= self.z,
            self.y >= self.w,
        ensures
            s.w == self.x - self.z,
            s.h == self.y - self.w,
    {
        Size { w: self.x - self.z, h: self.y - self.w }
    }
}

} // verus!
