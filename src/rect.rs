use vstd::prelude::*;

use crate::vec2::{Vec2, fits_i32, trunc_div};

verus! {

/// An axis-aligned rectangle, from its least corner `min` to its greatest
/// corner `max`, both included.
#[derive(Clone, Copy, Debug, PartialEq, Eq)]
pub struct Rect<T> {
    pub min: Vec2<T>,
    pub max: Vec2<T>,
}

impl<T> Rect<T> {
    pub fn new(min: Vec2<T>, max: Vec2<T>) -> (r: Rect<T>)
        ensures
            r.min == min,
            r.max == max,
    {
        Rect { min, max }
    }

    /// The rectangle whose least corner is `(min_x, min_y)` and whose
    /// greatest corner is `(max_x, max_y)`.
    pub fn from_bounds(min_x: T, min_y: T, max_x: T, max_y: T) -> (r: Rect<T>)
        ensures
            r.min.x == min_x,
            r.min.y == min_y,
            r.max.x == max_x,
            r.max.y == max_y,
    {
        Rect { min: Vec2::new(min_x, min_y), max: Vec2::new(max_x, max_y) }
    }
}

impl Rect<i32> {
    /// The rectangle from `min` spanning `size`.
    pub fn with_size(min: Vec2<i32>, size: Vec2<i32>) -> (r: Rect<i32>)
        requires
            fits_i32(min.x + size.x),
            fits_i32(min.y + size.y),
        ensures
            r.min == min,
            r.max.x == min.x + size.x,
            r.max.y == min.y + size.y,
    {
        Rect { min, max: min + size }
    }

    /// The extent from `min` to `max`.
    pub fn size(&self) -> (s: Vec2<i32>)
        requires
            fits_i32(self.max.x - self.min.x),
            fits_i32(self.max.y - self.min.y),
        ensures
            s.x == self.max.x - self.min.x,
            s.y == self.max.y - self.min.y,
    {
        self.max - self.min
    }

    /// The rectangle centred on `center` spanning `size`; each half extent
    /// is `size / 2`, rounded toward zero.
    pub fn with_center(center: Vec2<i32>, size: Vec2<i32>) -> (r: Rect<i32>)
        requires
            fits_i32(center.x - trunc_div(size.x as int, 2)),
            fits_i32(center.y - trunc_div(size.y as int, 2)),
            fits_i32(center.x + trunc_div(size.x as int, 2)),
            fits_i32(center.y + trunc_div(size.y as int, 2)),
        ensures
            r.min.x == center.x - trunc_div(size.x as int, 2),
            r.min.y == center.y - trunc_div(size.y as int, 2),
            r.max.x == center.x + trunc_div(size.x as int, 2),
            r.max.y == center.y + trunc_div(size.y as int, 2),
    {
        let half_size = size / 2;
        Rect { min: center - half_size, max: center + half_size }
    }

    /// Moves both corners by `v`.
    pub fn translate(&mut self, v: Vec2<i32>) -> (r: &mut Self)
        requires
            fits_i32(old(self).min.x + v.x),
            fits_i32(old(self).min.y + v.y),
            fits_i32(old(self).max.x + v.x),
            fits_i32(old(self).max.y + v.y),
        ensures
            r.min.x == old(self).min.x + v.x,
            r.min.y == old(self).min.y + v.y,
            r.max.x == old(self).max.x + v.x,
            r.max.y == old(self).max.y + v.y,
            *final(self) == *final(r),
    {
        self.min = self.min + v;
        self.max = self.max + v;
        self
    }

    /// Multiplies both corners component-wise by `v`.
    pub fn scale(&mut self, v: Vec2<i32>) -> (r: &mut Self)
        requires
            fits_i32(old(self).min.x * v.x),
            fits_i32(old(self).min.y * v.y),
            fits_i32(old(self).max.x * v.x),
            fits_i32(old(self).max.y * v.y),
        ensures
            r.min.x == old(self).min.x * v.x,
            r.min.y == old(self).min.y * v.y,
            r.max.x == old(self).max.x * v.x,
            r.max.y == old(self).max.y * v.y,
            *final(self) == *final(r),
    {
        self.min = self.min * v;
        self.max = self.max * v;
        self
    }

    /// Whether `v` lies in the rectangle, edges included.
    pub fn contains(&self, v: Vec2<i32>) -> (r: bool)
        ensures
            r == (self.min.x <= v.x <= self.max.x && self.min.y <= v.y <= self.max.y),
    {
        !(v.x < self.min.x || v.y < self.min.y || v.x > self.max.x || v.y > self.max.y)
    }

    /// Whether the two rectangles share at least one point, edges included.
    pub fn overlaps(&self, r: Rect<i32>) -> (b: bool)
        ensures
            b == (self.min.x <= r.max.x && r.min.x <= self.max.x && self.min.y <= r.max.y
                && r.min.y <= self.max.y),
    {
        !(r.max.x < self.min.x || r.max.y < self.min.y || r.min.x > self.max.x || r.min.y
            > self.max.y)
    }
}

} // verus!
