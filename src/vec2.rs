use vstd::prelude::*;

verus! {

/// Whether `n` is a value of `i32`.
pub open spec fn fits_i32(n: int) -> bool {
    i32::MIN <= n <= i32::MAX
}

/// Whether `a / b` is defined on `i32`: no division by zero and no
/// overflow.
pub open spec fn div_ok(a: i32, b: i32) -> bool {
    b != 0 && !(a == i32::MIN && b == -1)
}

/// Integer division rounding toward zero, as Rust's `/` does.
pub open spec fn trunc_div(a: int, b: int) -> int {
    if a >= 0 {
        a / b
    } else {
        -((-a) / b)
    }
}

/// A two-dimensional vector.
#[derive(Clone, Copy, Debug, PartialEq, Eq)]
pub struct Vec2<T> {
    pub x: T,
    pub y: T,
}

impl<T> Vec2<T> {
    pub fn new(x: T, y: T) -> (v: Vec2<T>)
        ensures
            v.x == x,
            v.y == y,
    {
        Vec2 { x, y }
    }
}

impl Vec2<i32> {
    pub fn zero() -> (v: Vec2<i32>)
        ensures
            v.x == 0,
            v.y == 0,
    {
        Vec2 { x: 0, y: 0 }
    }
}

impl std::ops::Add for Vec2<i32> {
    type Output = Vec2<i32>;

    fn add(self, rhs: Vec2<i32>) -> Vec2<i32> {
        Vec2 { x: self.x + rhs.x, y: self.y + rhs.y }
    }
}

impl vstd::std_specs::ops::AddSpecImpl for Vec2<i32> {
    open spec fn obeys_add_spec() -> bool {
        true
    }

    open spec fn add_req(self, rhs: Vec2<i32>) -> bool {
        fits_i32(self.x + rhs.x) && fits_i32(self.y + rhs.y)
    }

    open spec fn add_spec(self, rhs: Vec2<i32>) -> Vec2<i32> {
        Vec2 { x: (self.x + rhs.x) as i32, y: (self.y + rhs.y) as i32 }
    }
}

impl std::ops::Sub for Vec2<i32> {
    type Output = Vec2<i32>;

    fn sub(self, rhs: Vec2<i32>) -> Vec2<i32> {
        Vec2 { x: self.x - rhs.x, y: self.y - rhs.y }
    }
}

impl vstd::std_specs::ops::SubSpecImpl for Vec2<i32> {
    open spec fn obeys_sub_spec() -> bool {
        true
    }

    open spec fn sub_req(self, rhs: Vec2<i32>) -> bool {
        fits_i32(self.x - rhs.x) && fits_i32(self.y - rhs.y)
    }

    open spec fn sub_spec(self, rhs: Vec2<i32>) -> Vec2<i32> {
        Vec2 { x: (self.x - rhs.x) as i32, y: (self.y - rhs.y) as i32 }
    }
}

impl std::ops::Mul for Vec2<i32> {
    type Output = Vec2<i32>;

    fn mul(self, rhs: Vec2<i32>) -> Vec2<i32> {
        Vec2 { x: self.x * rhs.x, y: self.y * rhs.y }
    }
}

impl vstd::std_specs::ops::MulSpecImpl for Vec2<i32> {
    open spec fn obeys_mul_spec() -> bool {
        true
    }

    open spec fn mul_req(self, rhs: Vec2<i32>) -> bool {
        fits_i32(self.x * rhs.x) && fits_i32(self.y * rhs.y)
    }

    open spec fn mul_spec(self, rhs: Vec2<i32>) -> Vec2<i32> {
        Vec2 { x: (self.x * rhs.x) as i32, y: (self.y * rhs.y) as i32 }
    }
}

impl std::ops::Mul<i32> for Vec2<i32> {
    type Output = Vec2<i32>;

    fn mul(self, rhs: i32) -> Vec2<i32> {
        Vec2 { x: self.x * rhs, y: self.y * rhs }
    }
}

impl vstd::std_specs::ops::MulSpecImpl<i32> for Vec2<i32> {
    open spec fn obeys_mul_spec() -> bool {
        true
    }

    open spec fn mul_req(self, rhs: i32) -> bool {
        fits_i32(self.x * rhs) && fits_i32(self.y * rhs)
    }

    open spec fn mul_spec(self, rhs: i32) -> Vec2<i32> {
        Vec2 { x: (self.x * rhs) as i32, y: (self.y * rhs) as i32 }
    }
}

impl std::ops::Div for Vec2<i32> {
    type Output = Vec2<i32>;

    fn div(self, rhs: Vec2<i32>) -> Vec2<i32> {
        Vec2 { x: self.x / rhs.x, y: self.y / rhs.y }
    }
}

impl vstd::std_specs::ops::DivSpecImpl for Vec2<i32> {
    open spec fn obeys_div_spec() -> bool {
        true
    }

    open spec fn div_req(self, rhs: Vec2<i32>) -> bool {
        div_ok(self.x, rhs.x) && div_ok(self.y, rhs.y)
    }

    open spec fn div_spec(self, rhs: Vec2<i32>) -> Vec2<i32> {
        Vec2 { x: trunc_div(self.x as int, rhs.x as int) as i32, y: trunc_div(self.y as int, rhs.y as int) as i32 }
    }
}

impl std::ops::Div<i32> for Vec2<i32> {
    type Output = Vec2<i32>;

    fn div(self, rhs: i32) -> Vec2<i32> {
        Vec2 { x: self.x / rhs, y: self.y / rhs }
    }
}

impl vstd::std_specs::ops::DivSpecImpl<i32> for Vec2<i32> {
    open spec fn obeys_div_spec() -> bool {
        true
    }

    open spec fn div_req(self, rhs: i32) -> bool {
        div_ok(self.x, rhs) && div_ok(self.y, rhs)
    }

    open spec fn div_spec(self, rhs: i32) -> Vec2<i32> {
        Vec2 { x: trunc_div(self.x as int, rhs as int) as i32, y: trunc_div(self.y as int, rhs as int) as i32 }
    }
}

// The compound assignments wrap around on overflow, as they do on `i32` in
// a release build: a trait impl cannot require that the result fits.

impl std::ops::AddAssign for Vec2<i32> {
    fn add_assign(&mut self, rhs: Vec2<i32>)
        ensures
            final(self).x == old(self).x.wrapping_add(rhs.x),
            final(self).y == old(self).y.wrapping_add(rhs.y),
    {
        self.x = self.x.wrapping_add(rhs.x);
        self.y = self.y.wrapping_add(rhs.y);
    }
}

impl std::ops::SubAssign for Vec2<i32> {
    fn sub_assign(&mut self, rhs: Vec2<i32>)
        ensures
            final(self).x == old(self).x.wrapping_sub(rhs.x),
            final(self).y == old(self).y.wrapping_sub(rhs.y),
    {
        self.x = self.x.wrapping_sub(rhs.x);
        self.y = self.y.wrapping_sub(rhs.y);
    }
}

impl std::ops::MulAssign for Vec2<i32> {
    fn mul_assign(&mut self, rhs: Vec2<i32>)
        ensures
            final(self).x == old(self).x.wrapping_mul(rhs.x),
            final(self).y == old(self).y.wrapping_mul(rhs.y),
    {
        self.x = self.x.wrapping_mul(rhs.x);
        self.y = self.y.wrapping_mul(rhs.y);
    }
}

impl std::ops::MulAssign<i32> for Vec2<i32> {
    fn mul_assign(&mut self, rhs: i32)
        ensures
            final(self).x == old(self).x.wrapping_mul(rhs),
            final(self).y == old(self).y.wrapping_mul(rhs),
    {
        self.x = self.x.wrapping_mul(rhs);
        self.y = self.y.wrapping_mul(rhs);
    }
}

} // verus!
