//! A small generic three-component vector with component-wise addition and
//! subtraction and scalar multiplication.

use vstd::prelude::*;
use vstd::std_specs::ops::{AddSpec, AddSpecImpl, MulSpec, MulSpecImpl, SubSpec, SubSpecImpl};

verus! {

#[derive(Clone, Copy, Debug, PartialEq)]
pub struct Vec2<T> {
    pub x: T,
    pub y: T,
    pub z: T,
}

impl<T: core::ops::Add<Output = T>> core::ops::Add for Vec2<T> {
    type Output = Vec2<T>;

    fn add(self, other: Vec2<T>) -> (r: Vec2<T>) {
        Vec2 { x: self.x + other.x, y: self.y + other.y, z: self.z + other.z }
    }
}

impl<T: core::ops::Add<Output = T>> AddSpecImpl for Vec2<T> {
    open spec fn obeys_add_spec() -> bool {
        T::obeys_add_spec()
    }

    open spec fn add_req(self, other: Vec2<T>) -> bool {
        self.x.add_req(other.x) && self.y.add_req(other.y) && self.z.add_req(other.z)
    }

    open spec fn add_spec(self, other: Vec2<T>) -> Vec2<T> {
        Vec2 { x: self.x.add_spec(other.x), y: self.y.add_spec(other.y), z: self.z.add_spec(other.z) }
    }
}

impl<T: core::ops::Sub<Output = T>> core::ops::Sub for Vec2<T> {
    type Output = Vec2<T>;

    fn sub(self, other: Vec2<T>) -> (r: Vec2<T>) {
        Vec2 { x: self.x - other.x, y: self.y - other.y, z: self.z - other.z }
    }
}

impl<T: core::ops::Sub<Output = T>> SubSpecImpl for Vec2<T> {
    open spec fn obeys_sub_spec() -> bool {
        T::obeys_sub_spec()
    }

    open spec fn sub_req(self, other: Vec2<T>) -> bool {
        self.x.sub_req(other.x) && self.y.sub_req(other.y) && self.z.sub_req(other.z)
    }

    open spec fn sub_spec(self, other: Vec2<T>) -> Vec2<T> {
        Vec2 { x: self.x.sub_spec(other.x), y: self.y.sub_spec(other.y), z: self.z.sub_spec(other.z) }
    }
}

impl<T: core::ops::Mul<Output = T> + Copy> core::ops::Mul<T> for Vec2<T> {
    type Output = Vec2<T>;

    fn mul(self, s: T) -> (r: Vec2<T>) {
        Vec2 { x: self.x * s, y: self.y * s, z: self.z * s }
    }
}

impl<T: core::ops::Mul<Output = T> + Copy> MulSpecImpl<T> for Vec2<T> {
    open spec fn obeys_mul_spec() -> bool {
        T::obeys_mul_spec()
    }

    open spec fn mul_req(self, s: T) -> bool {
        self.x.mul_req(s) && self.y.mul_req(s) && self.z.mul_req(s)
    }

    open spec fn mul_spec(self, s: T) -> Vec2<T> {
        Vec2 { x: self.x.mul_spec(s), y: self.y.mul_spec(s), z: self.z.mul_spec(s) }
    }
}

} // verus!
