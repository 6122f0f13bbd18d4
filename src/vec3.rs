use vstd::prelude::*;

use crate::vec2::{div_ok, fits_i32, trunc_div};

verus! {

/// A three-dimensional vector.
#[derive(Clone, Copy, Debug, PartialEq, Eq)]
pub struct Vec3<T> {
    pub x: T,
    pub y: T,
    pub z: T,
}

impl<T> Vec3<T> {
    pub fn new(x: T, y: T, z: T) -> (v: Vec3<T>)
        ensures
            v.x == x,
            v.y == y,
            v.z == z,
    {
        Vec3 { x, y, z }
    }
}

impl Vec3<i32> {
    pub fn zero() -> (v: Vec3<i32>)
        ensures
            v.x == 0,
            v.y == 0,
            v.z == 0,
    {
        Vec3 { x: 0, y: 0, z: 0 }
    }
}

impl std::ops::Add for Vec3<i32> {
    type Output = Vec3<i32>;

    fn add(self, rhs: Vec3<i32>) -> Vec3<i32> {
        Vec3 { x: self.x + rhs.x, y: self.y + rhs.y, z: self.z + rhs.z }
    }
}

impl vstd::std_specs::ops::AddSpecImpl for Vec3<i32> {
    open spec fn obeys_add_spec() -> bool {
        true
    }

    open spec fn add_req(self, rhs: Vec3<i32>) -> bool {
        fits_i32(self.x + rhs.x) && fits_i32(self.y + rhs.y) && fits_i32(self.z + rhs.z)
    }

    open spec fn add_spec(self, rhs: Vec3<i32>) -> Vec3<i32> {
        Vec3 { x: (self.x + rhs.x) as i32, y: (self.y + rhs.y) as i32, z: (self.z + rhs.z) as i32 }
    }
}

impl std::ops::Sub for Vec3<i32> {
    type Output = Vec3<i32>;

    fn sub(self, rhs: Vec3<i32>) -> Vec3<i32> {
        Vec3 { x: self.x - rhs.x, y: self.y - rhs.y, z: self.z - rhs.z }
    }
}

impl vstd::std_specs::ops::SubSpecImpl for Vec3<i32> {
    open spec fn obeys_sub_spec() -> bool {
        true
    }

    open spec fn sub_req(self, rhs: Vec3<i32>) -> bool {
        fits_i32(self.x - rhs.x) && fits_i32(self.y - rhs.y) && fits_i32(self.z - rhs.z)
    }

    open spec fn sub_spec(self, rhs: Vec3<i32>) -> Vec3<i32> {
        Vec3 { x: (self.x - rhs.x) as i32, y: (self.y - rhs.y) as i32, z: (self.z - rhs.z) as i32 }
    }
}

impl std::ops::Mul for Vec3<i32> {
    type Output = Vec3<i32>;

    fn mul(self, rhs: Vec3<i32>) -> Vec3<i32> {
        Vec3 { x: self.x * rhs.x, y: self.y * rhs.y, z: self.z * rhs.z }
    }
}

impl vstd::std_specs::ops::MulSpecImpl for Vec3<i32> {
    open spec fn obeys_mul_spec() -> bool {
        true
    }

    open spec fn mul_req(self, rhs: Vec3<i32>) -> bool {
        fits_i32(self.x * rhs.x) && fits_i32(self.y * rhs.y) && fits_i32(self.z * rhs.z)
    }

    open spec fn mul_spec(self, rhs: Vec3<i32>) -> Vec3<i32> {
        Vec3 { x: (self.x * rhs.x) as i32, y: (self.y * rhs.y) as i32, z: (self.z * rhs.z) as i32 }
    }
}

impl std::ops::Mul<i32> for Vec3<i32> {
    type Output = Vec3<i32>;

    fn mul(self, rhs: i32) -> Vec3<i32> {
        Vec3 { x: self.x * rhs, y: self.y * rhs, z: self.z * rhs }
    }
}

impl vstd::std_specs::ops::MulSpecImpl<i32> for Vec3<i32> {
    open spec fn obeys_mul_spec() -> bool {
        true
    }

    open spec fn mul_req(self, rhs: i32) -> bool {
        fits_i32(self.x * rhs) && fits_i32(self.y * rhs) && fits_i32(self.z * rhs)
    }

    open spec fn mul_spec(self, rhs: i32) -> Vec3<i32> {
        Vec3 { x: (self.x * rhs) as i32, y: (self.y * rhs) as i32, z: (self.z * rhs) as i32 }
    }
}

impl std::ops::Div for Vec3<i32> {
    type Output = Vec3<i32>;

    fn div(self, rhs: Vec3<i32>) -> Vec3<i32> {
        Vec3 { x: self.x / rhs.x, y: self.y / rhs.y, z: self.z / rhs.z }
    }
}

impl vstd::std_specs::ops::DivSpecImpl for Vec3<i32> {
    open spec fn obeys_div_spec() -> bool {
        true
    }

    open spec fn div_req(self, rhs: Vec3<i32>) -> bool {
        div_ok(self.x, rhs.x) && div_ok(self.y, rhs.y) && div_ok(self.z, rhs.z)
    }

    open spec fn div_spec(self, rhs: Vec3<i32>) -> Vec3<i32> {
        Vec3 { x: trunc_div(self.x as int, rhs.x as int) as i32, y: trunc_div(self.y as int, rhs.y as int) as i32, z: trunc_div(self.z as int, rhs.z as int) as i32 }
    }
}

impl std::ops::Div<i32> for Vec3<i32> {
    type Output = Vec3<i32>;

    fn div(self, rhs: i32) -> Vec3<i32> {
        Vec3 { x: self.x / rhs, y: self.y / rhs, z: self.z / rhs }
    }
}

impl vstd::std_specs::ops::DivSpecImpl<i32> for Vec3<i32> {
    open spec fn obeys_div_spec() -> bool {
        true
    }

    open spec fn div_req(self, rhs: i32) -> bool {
        div_ok(self.x, rhs) && div_ok(self.y, rhs) && div_ok(self.z, rhs)
    }

    open spec fn div_spec(self, rhs: i32) -> Vec3<i32> {
        Vec3 { x: trunc_div(self.x as int, rhs as int) as i32, y: trunc_div(self.y as int, rhs as int) as i32, z: trunc_div(self.z as int, rhs as int) as i32 }
    }
}

// The compound assignments wrap around on overflow, as they do on `i32` in
// a release build: a trait impl cannot require that the result fits.

impl std::ops::AddAssign for Vec3<i32> {
    fn add_assign(&mut self, rhs: Vec3<i32>)
        ensures
            final(self).x == old(self).x.wrapping_add(rhs.x),
            final(self).y == old(self).y.wrapping_add(rhs.y),
            final(self).z == old(self).z.wrapping_add(rhs.z),
    {
        self.x = self.x.wrapping_add(rhs.x);
        self.y = self.y.wrapping_add(rhs.y);
        self.z = self.z.wrapping_add(rhs.z);
    }
}

impl std::ops::SubAssign for Vec3<i32> {
    fn sub_assign(&mut self, rhs: Vec3<i32>)
        ensures
            final(self).x == old(self).x.wrapping_sub(rhs.x),
            final(self).y == old(self).y.wrapping_sub(rhs.y),
            final(self).z == old(self).z.wrapping_sub(rhs.z),
    {
        self.x = self.x.wrapping_sub(rhs.x);
        self.y = self.y.wrapping_sub(rhs.y);
        self.z = self.z.wrapping_sub(rhs.z);
    }
}

impl std::ops::MulAssign for Vec3<i32> {
    fn mul_assign(&mut self, rhs: Vec3<i32>)
        ensures
            final(self).x == old(self).x.wrapping_mul(rhs.x),
            final(self).y == old(self).y.wrapping_mul(rhs.y),
            final(self).z == old(self).z.wrapping_mul(rhs.z),
    {
        self.x = self.x.wrapping_mul(rhs.x);
        self.y = self.y.wrapping_mul(rhs.y);
        self.z = self.z.wrapping_mul(rhs.z);
    }
}

impl std::ops::MulAssign<i32> for Vec3<i32> {
    fn mul_assign(&mut self, rhs: i32)
        ensures
            final(self).x == old(self).x.wrapping_mul(rhs),
            final(self).y == old(self).y.wrapping_mul(rhs),
            final(self).z == old(self).z.wrapping_mul(rhs),
    {
        self.x = self.x.wrapping_mul(rhs);
        self.y = self.y.wrapping_mul(rhs);
        self.z = self.z.wrapping_mul(rhs);
    }
}

} // verus!
