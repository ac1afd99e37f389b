//! Three-component vectors of fixed-point coordinates, their unbounded
//! integer model, and the component-product bounds that the overflow and
//! containment proofs rest on.

use vstd::prelude::*;
use crate::num::lemma_mul_interval;

verus! {

/// A point or direction in space; each component is an `i64` count of
/// fixed-point units (`crate::SCALE` units per world unit).
#[derive(Clone, Copy, Debug, PartialEq, Eq, Structural)]
pub struct Vec3 {
    pub x: i64,
    pub y: i64,
    pub z: i64,
}

/// The mathematical value of a vector: three unbounded integers.
pub struct V3 {
    pub x: int,
    pub y: int,
    pub z: int,
}

impl View for Vec3 {
    type V = V3;

    open spec fn view(&self) -> V3 {
        V3 { x: self.x as int, y: self.y as int, z: self.z as int }
    }
}

impl Vec3 {
    /// The zero vector.
    pub fn zero() -> (r: Vec3)
        ensures
            r@ == (V3 { x: 0, y: 0, z: 0 }),
    {
        Vec3 { x: 0, y: 0, z: 0 }
    }

    /// A vector from its three components.
    pub fn new(x: i64, y: i64, z: i64) -> (r: Vec3)
        ensures
            r@ == (V3 { x: x as int, y: y as int, z: z as int }),
    {
        Vec3 { x, y, z }
    }
}

impl V3 {
    /// Componentwise sum.
    pub open spec fn plus(self, o: V3) -> V3 {
        V3 { x: self.x + o.x, y: self.y + o.y, z: self.z + o.z }
    }

    /// Componentwise difference.
    pub open spec fn minus(self, o: V3) -> V3 {
        V3 { x: self.x - o.x, y: self.y - o.y, z: self.z - o.z }
    }

    /// Inner product.
    pub open spec fn dot(self, o: V3) -> int {
        self.x * o.x + self.y * o.y + self.z * o.z
    }

    /// Squared Euclidean length.
    pub open spec fn norm2(self) -> int {
        self.dot(self)
    }

    /// Every component lies in `[-m, m]`.
    pub open spec fn in_range(self, m: int) -> bool {
        &&& -m <= self.x <= m
        &&& -m <= self.y <= m
        &&& -m <= self.z <= m
    }
}

/// The squared norm dominates every product of two components:
/// `|d_i * d_j| <= d.norm2()` for all axes `i`, `j`.
pub proof fn lemma_component_products(d: V3)
    ensures
        0 <= d.norm2(),
        d.x * d.x <= d.norm2(),
        d.y * d.y <= d.norm2(),
        d.z * d.z <= d.norm2(),
        -d.norm2() <= d.x * d.y <= d.norm2(),
        -d.norm2() <= d.x * d.z <= d.norm2(),
        -d.norm2() <= d.y * d.z <= d.norm2(),
        -d.norm2() <= d.y * d.x <= d.norm2(),
        -d.norm2() <= d.z * d.x <= d.norm2(),
        -d.norm2() <= d.z * d.y <= d.norm2(),
{
    assert(0 <= d.x * d.x && 0 <= d.y * d.y && 0 <= d.z * d.z) by (nonlinear_arith);
    assert(-(d.x * d.x + d.y * d.y) <= 2 * (d.x * d.y) <= d.x * d.x + d.y * d.y)
        by (nonlinear_arith);
    assert(-(d.x * d.x + d.z * d.z) <= 2 * (d.x * d.z) <= d.x * d.x + d.z * d.z)
        by (nonlinear_arith);
    assert(-(d.y * d.y + d.z * d.z) <= 2 * (d.y * d.z) <= d.y * d.y + d.z * d.z)
        by (nonlinear_arith);
    assert(d.x * d.y == d.y * d.x && d.x * d.z == d.z * d.x && d.y * d.z == d.z * d.y)
        by (nonlinear_arith);
}

/// For `v` with components in `[-m, m]`, the product of `v.dot(d)` with any
/// component of `d` is dominated by `3 * m * d.norm2()`.
pub proof fn lemma_dot_times_component(v: V3, d: V3, m: int)
    requires
        0 <= m,
        v.in_range(m),
    ensures
        -(3 * m * d.norm2()) <= v.dot(d) * d.x <= 3 * m * d.norm2(),
        -(3 * m * d.norm2()) <= v.dot(d) * d.y <= 3 * m * d.norm2(),
        -(3 * m * d.norm2()) <= v.dot(d) * d.z <= 3 * m * d.norm2(),
{
    lemma_component_products(d);
    let n2 = d.norm2();
    lemma_dot_times_one(v, d, m, d.x);
    lemma_dot_times_one(v, d, m, d.y);
    lemma_dot_times_one(v, d, m, d.z);
}

/// Helper for `lemma_dot_times_component`: the bound for one component
/// value `c` with `|d_j * c| <= d.norm2()` on every axis `j`.
proof fn lemma_dot_times_one(v: V3, d: V3, m: int, c: int)
    requires
        0 <= m,
        v.in_range(m),
        -d.norm2() <= d.x * c <= d.norm2(),
        -d.norm2() <= d.y * c <= d.norm2(),
        -d.norm2() <= d.z * c <= d.norm2(),
        0 <= d.norm2(),
    ensures
        -(3 * m * d.norm2()) <= v.dot(d) * c <= 3 * m * d.norm2(),
{
    let n2 = d.norm2();
    assert((v.x * d.x + v.y * d.y + v.z * d.z) * c
        == v.x * (d.x * c) + v.y * (d.y * c) + v.z * (d.z * c)) by (nonlinear_arith);
    assert(v.dot(d) == v.x * d.x + v.y * d.y + v.z * d.z);
    lemma_mul_interval(v.x, d.x * c, m, n2);
    lemma_mul_interval(v.y, d.y * c, m, n2);
    lemma_mul_interval(v.z, d.z * c, m, n2);
    assert(3 * m * n2 == m * n2 + m * n2 + m * n2) by (nonlinear_arith);
}

} // verus!
