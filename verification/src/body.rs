//! The dynamic body: its state, the mathematical mirror of each mutation
//! the solver performs on it (gravity integration, border confinement,
//! pairwise impulse resolution), and the verified executable operations.

use vstd::prelude::*;
use crate::num::{
    div_tr, isqrt, isqrt_up, lemma_abs_sq, lemma_mul_comm, lemma_mul_interval, lemma_scale_bound,
    lemma_sqrt_down, lemma_sqrt_down_is_max, lemma_sqrt_up, lemma_tdiv, lemma_tdiv_bounded,
    sqrt_down, sqrt_up, tdiv,
};
use crate::vec3::{lemma_component_products, lemma_dot_times_component, V3, Vec3};
use crate::{COORD_LIMIT, GRAVITY, RESTITUTION_DEN, RESTITUTION_NUM, SCALE};

verus! {

/// One dynamic sphere: center position, radius, velocity and mass, all in
/// fixed-point units.  Radius and mass are fixed at construction; position
/// and velocity change only inside a simulation step.
#[derive(Clone, Copy, Debug, PartialEq, Eq, Structural)]
pub struct PhysicsBody {
    pub pos: Vec3,
    pub radius: i64,
    pub velocity: Vec3,
    pub mass: i64,
}

/// The mathematical value of a body.
pub struct BodyM {
    pub pos: V3,
    pub radius: int,
    pub vel: V3,
    pub mass: int,
}

impl View for PhysicsBody {
    type V = BodyM;

    open spec fn view(&self) -> BodyM {
        BodyM {
            pos: self.pos@,
            radius: self.radius as int,
            vel: self.velocity@,
            mass: self.mass as int,
        }
    }
}

/// The envelope inside which a solver pass is provably free of machine
/// overflow: coordinates within `COORD_LIMIT`, radius and mass positive
/// and within it too.
pub open spec fn body_in_range(b: BodyM) -> bool {
    &&& b.pos.in_range(COORD_LIMIT as int)
    &&& b.vel.in_range(COORD_LIMIT as int)
    &&& 0 < b.radius <= COORD_LIMIT
    &&& 0 < b.mass <= COORD_LIMIT
}

/// A body after one gravity integration of length `dt`: the velocity
/// gains `GRAVITY * dt` downward (the body's weight divided by its own
/// mass, so the mass cancels), and the position then advances by the
/// updated velocity — semi-implicit Euler.
pub open spec fn integrate_m(b: BodyM, dt: int) -> BodyM {
    let g = tdiv(GRAVITY * dt, SCALE as int);
    let vel = V3 { x: b.vel.x, y: b.vel.y - g, z: b.vel.z };
    let pos = V3 {
        x: b.pos.x + tdiv(vel.x * dt, SCALE as int),
        y: b.pos.y + tdiv(vel.y * dt, SCALE as int),
        z: b.pos.z + tdiv(vel.z * dt, SCALE as int),
    };
    BodyM { pos, vel, ..b }
}

/// A body after the border constraint against the boundary of center `c`
/// and radius `rb`.  If the body's surface pokes out of the boundary
/// (floor distance from `c` plus body radius exceeds `rb`), it is moved
/// back along the outward direction until tangent, its velocity is
/// mirrored across the tangent plane, and the whole velocity is scaled by
/// the restitution factor.  A body exactly at the center has no outward
/// direction and is left alone.
pub open spec fn border_m(b: BodyM, c: V3, rb: int) -> BodyM {
    let d = b.pos.minus(c);
    let n2 = d.norm2();
    let dist = sqrt_down(n2);
    if dist + b.radius > rb && dist > 0 {
        let du = sqrt_up(n2);
        let k = rb - b.radius;
        let pos = V3 {
            x: c.x + tdiv(d.x * k, du),
            y: c.y + tdiv(d.y * k, du),
            z: c.z + tdiv(d.z * k, du),
        };
        let dot = b.vel.dot(d);
        let refl = V3 {
            x: b.vel.x - tdiv(2 * dot * d.x, n2),
            y: b.vel.y - tdiv(2 * dot * d.y, n2),
            z: b.vel.z - tdiv(2 * dot * d.z, n2),
        };
        let vel = V3 {
            x: tdiv(refl.x * RESTITUTION_NUM, RESTITUTION_DEN as int),
            y: tdiv(refl.y * RESTITUTION_NUM, RESTITUTION_DEN as int),
            z: tdiv(refl.z * RESTITUTION_NUM, RESTITUTION_DEN as int),
        };
        BodyM { pos, vel, ..b }
    } else {
        b
    }
}

/// A pair of bodies after one pairwise resolution.  Overlapping bodies
/// (floor distance below the radius sum, and positive so a normal exists)
/// whose relative velocity along the normal is approaching exchange a
/// mass-weighted restitution impulse and are pushed apart by half the
/// penetration each; a separating pair is left untouched, and so is a
/// non-overlapping one.
pub open spec fn collide_m(a: BodyM, b: BodyM) -> (BodyM, BodyM) {
    let d = b.pos.minus(a.pos);
    let n2 = d.norm2();
    let dist = sqrt_down(n2);
    if dist < a.radius + b.radius && dist > 0 {
        let dot = b.vel.minus(a.vel).dot(d);
        if dot > 0 {
            (a, b)
        } else {
            let msum = a.mass + b.mass;
            let s1 = tdiv((RESTITUTION_DEN + RESTITUTION_NUM) * (-dot), RESTITUTION_DEN as int);
            let sa = tdiv(s1 * b.mass, msum);
            let sb = tdiv(s1 * a.mass, msum);
            let va = V3 {
                x: a.vel.x - tdiv(sa * d.x, n2),
                y: a.vel.y - tdiv(sa * d.y, n2),
                z: a.vel.z - tdiv(sa * d.z, n2),
            };
            let vb = V3 {
                x: b.vel.x + tdiv(sb * d.x, n2),
                y: b.vel.y + tdiv(sb * d.y, n2),
                z: b.vel.z + tdiv(sb * d.z, n2),
            };
            let ov = a.radius + b.radius - dist;
            let du = sqrt_up(n2);
            let sh = V3 {
                x: tdiv(d.x * ov, 2 * du),
                y: tdiv(d.y * ov, 2 * du),
                z: tdiv(d.z * ov, 2 * du),
            };
            let pa = a.pos.minus(sh);
            let pb = b.pos.plus(sh);
            (BodyM { pos: pa, vel: va, ..a }, BodyM { pos: pb, vel: vb, ..b })
        }
    } else {
        (a, b)
    }
}

impl PhysicsBody {
    /// A body at `pos` with the given radius, at rest, with unit mass.
    pub fn new(pos: Vec3, radius: i64) -> (r: PhysicsBody)
        requires
            0 < radius,
        ensures
            r@ == (BodyM {
                pos: pos@,
                radius: radius as int,
                vel: V3 { x: 0, y: 0, z: 0 },
                mass: SCALE as int,
            }),
    {
        PhysicsBody { pos, radius, velocity: Vec3::zero(), mass: SCALE }
    }

    /// Whether this body lies inside the solver's arithmetic envelope;
    /// the step checks it before every operation that reads the body.
    pub fn in_envelope(&self) -> (r: bool)
        ensures
            r == body_in_range(self@),
    {
        let cl: i64 = COORD_LIMIT;
        -cl <= self.pos.x && self.pos.x <= cl && -cl <= self.pos.y && self.pos.y <= cl
            && -cl <= self.pos.z && self.pos.z <= cl && -cl <= self.velocity.x
            && self.velocity.x <= cl && -cl <= self.velocity.y && self.velocity.y <= cl
            && -cl <= self.velocity.z && self.velocity.z <= cl && 0 < self.radius
            && self.radius <= cl && 0 < self.mass && self.mass <= cl
    }

    /// Advances this body by `dt` under gravity, exactly as `integrate_m`
    /// describes.
    pub fn integrate(&mut self, dt: i64)
        requires
            body_in_range(old(self)@),
            0 < dt <= SCALE,
        ensures
            final(self)@ == integrate_m(old(self)@, dt as int),
    {
        proof {
            lemma_tdiv_bounded(GRAVITY as int * dt as int, SCALE as int, GRAVITY as int);
        }
        let g: i64 = div_tr((GRAVITY as i128) * (dt as i128), SCALE as i128) as i64;
        let vx: i64 = self.velocity.x;
        let vy: i64 = self.velocity.y - g;
        let vz: i64 = self.velocity.z;
        proof {
            lemma_mul_interval(vx as int, dt as int, COORD_LIMIT as int, SCALE as int);
            lemma_mul_interval(vy as int, dt as int, COORD_LIMIT as int + GRAVITY as int, SCALE as int);
            lemma_mul_interval(vz as int, dt as int, COORD_LIMIT as int, SCALE as int);
            lemma_tdiv_bounded(vx as int * dt as int, SCALE as int, COORD_LIMIT as int);
            lemma_tdiv_bounded(
                vy as int * dt as int,
                SCALE as int,
                COORD_LIMIT as int + GRAVITY as int,
            );
            lemma_tdiv_bounded(vz as int * dt as int, SCALE as int, COORD_LIMIT as int);
        }
        let px: i64 = self.pos.x + div_tr((vx as i128) * (dt as i128), SCALE as i128) as i64;
        let py: i64 = self.pos.y + div_tr((vy as i128) * (dt as i128), SCALE as i128) as i64;
        let pz: i64 = self.pos.z + div_tr((vz as i128) * (dt as i128), SCALE as i128) as i64;
        self.velocity = Vec3::new(vx, vy, vz);
        self.pos = Vec3::new(px, py, pz);
    }

    /// Confines this body to the boundary, exactly as `border_m` describes.
    pub fn keep_within_border(&mut self, border_center: Vec3, border_radius: i64)
        requires
            body_in_range(old(self)@),
            border_center@.in_range(COORD_LIMIT as int),
            0 < border_radius <= COORD_LIMIT,
        ensures
            final(self)@ == border_m(old(self)@, border_center@, border_radius as int),
    {
        let cl: i64 = COORD_LIMIT;
        let dx: i64 = self.pos.x - border_center.x;
        let dy: i64 = self.pos.y - border_center.y;
        let dz: i64 = self.pos.z - border_center.z;
        let ghost d = old(self)@.pos.minus(border_center@);
        proof {
            assert(d == (V3 { x: dx as int, y: dy as int, z: dz as int }));
            lemma_component_products(d);
            assert(dx as int * (dx as int) <= 0x40000000000000000000) by (nonlinear_arith)
                requires -0x8000000000 <= dx as int <= 0x8000000000;
            assert(dy as int * (dy as int) <= 0x40000000000000000000) by (nonlinear_arith)
                requires -0x8000000000 <= dy as int <= 0x8000000000;
            assert(dz as int * (dz as int) <= 0x40000000000000000000) by (nonlinear_arith)
                requires -0x8000000000 <= dz as int <= 0x8000000000;
        }
        let n2: i128 = (dx as i128) * (dx as i128) + (dy as i128) * (dy as i128)
            + (dz as i128) * (dz as i128);
        proof {
            assert(n2 == d.norm2());
        }
        let dist: i128 = isqrt(n2);
        if dist + (self.radius as i128) > (border_radius as i128) && dist > 0 {
            proof {
                lemma_sqrt_down(n2 as int);
                lemma_sqrt_up(n2 as int);
                assert(1 <= n2) by (nonlinear_arith)
                    requires
                        1 <= dist as int,
                        dist as int * (dist as int) <= n2 as int;
                lemma_abs_sq(dx as int);
                lemma_abs_sq(dy as int);
                lemma_abs_sq(dz as int);
                lemma_sqrt_down_is_max(n2 as int, if dx >= 0 { dx as int } else { -(dx as int) });
                lemma_sqrt_down_is_max(n2 as int, if dy >= 0 { dy as int } else { -(dy as int) });
                lemma_sqrt_down_is_max(n2 as int, if dz >= 0 { dz as int } else { -(dz as int) });
            }
            let du: i128 = isqrt_up(n2);
            let k: i64 = border_radius - self.radius;
            let ghost kab: int = if k >= 0 { k as int } else { -(k as int) };
            proof {
                lemma_mul_interval(dx as int, k as int, 2 * cl as int, cl as int);
                lemma_mul_interval(dy as int, k as int, 2 * cl as int, cl as int);
                lemma_mul_interval(dz as int, k as int, 2 * cl as int, cl as int);
                lemma_mul_interval(dx as int, k as int, du as int, kab);
                lemma_mul_interval(dy as int, k as int, du as int, kab);
                lemma_mul_interval(dz as int, k as int, du as int, kab);
                lemma_tdiv_bounded(dx as int * (k as int), du as int, kab);
                lemma_tdiv_bounded(dy as int * (k as int), du as int, kab);
                lemma_tdiv_bounded(dz as int * (k as int), du as int, kab);
            }
            let px: i64 = border_center.x + div_tr((dx as i128) * (k as i128), du) as i64;
            let py: i64 = border_center.y + div_tr((dy as i128) * (k as i128), du) as i64;
            let pz: i64 = border_center.z + div_tr((dz as i128) * (k as i128), du) as i64;
            let vx0: i64 = self.velocity.x;
            let vy0: i64 = self.velocity.y;
            let vz0: i64 = self.velocity.z;
            proof {
                lemma_mul_interval(vx0 as int, dx as int, cl as int, 2 * cl as int);
                lemma_mul_interval(vy0 as int, dy as int, cl as int, 2 * cl as int);
                lemma_mul_interval(vz0 as int, dz as int, cl as int, 2 * cl as int);
            }
            let dot: i128 = (vx0 as i128) * (dx as i128) + (vy0 as i128) * (dy as i128)
                + (vz0 as i128) * (dz as i128);
            proof {
                assert(dot == old(self)@.vel.dot(d));
                lemma_dot_times_component(old(self)@.vel, d, cl as int);
                lemma_mul_interval(2 * dot as int, dx as int, 12 * cl as int * (cl as int), 2 * cl as int);
                lemma_mul_interval(2 * dot as int, dy as int, 12 * cl as int * (cl as int), 2 * cl as int);
                lemma_mul_interval(2 * dot as int, dz as int, 12 * cl as int * (cl as int), 2 * cl as int);
                assert((2 * dot as int) * (dx as int) == 2 * (dot as int * (dx as int)))
                    by (nonlinear_arith);
                assert((2 * dot as int) * (dy as int) == 2 * (dot as int * (dy as int)))
                    by (nonlinear_arith);
                assert((2 * dot as int) * (dz as int) == 2 * (dot as int * (dz as int)))
                    by (nonlinear_arith);
                lemma_tdiv_bounded((2 * dot as int) * (dx as int), n2 as int, 6 * cl as int);
                lemma_tdiv_bounded((2 * dot as int) * (dy as int), n2 as int, 6 * cl as int);
                lemma_tdiv_bounded((2 * dot as int) * (dz as int), n2 as int, 6 * cl as int);
            }
            let tx: i64 = div_tr(2 * dot * (dx as i128), n2) as i64;
            let ty: i64 = div_tr(2 * dot * (dy as i128), n2) as i64;
            let tz: i64 = div_tr(2 * dot * (dz as i128), n2) as i64;
            let rx: i64 = vx0 - tx;
            let ry: i64 = vy0 - ty;
            let rz: i64 = vz0 - tz;
            proof {
                lemma_tdiv_bounded(rx as int * (RESTITUTION_NUM as int), RESTITUTION_DEN as int, 7 * cl as int);
                lemma_tdiv_bounded(ry as int * (RESTITUTION_NUM as int), RESTITUTION_DEN as int, 7 * cl as int);
                lemma_tdiv_bounded(rz as int * (RESTITUTION_NUM as int), RESTITUTION_DEN as int, 7 * cl as int);
            }
            let wx: i64 = div_tr((rx as i128) * (RESTITUTION_NUM as i128), RESTITUTION_DEN as i128) as i64;
            let wy: i64 = div_tr((ry as i128) * (RESTITUTION_NUM as i128), RESTITUTION_DEN as i128) as i64;
            let wz: i64 = div_tr((rz as i128) * (RESTITUTION_NUM as i128), RESTITUTION_DEN as i128) as i64;
            self.pos = Vec3::new(px, py, pz);
            self.velocity = Vec3::new(wx, wy, wz);
        }
    }

    /// Resolves this body against `other`, exactly as `collide_m`
    /// describes.  The second clause states on its own that an overlapping
    /// pair that is already separating is left entirely untouched.
    pub fn collide_with(&mut self, other: &mut PhysicsBody)
        requires
            body_in_range(old(self)@),
            body_in_range(old(other)@),
        ensures
            (final(self)@, final(other)@) == collide_m(old(self)@, old(other)@),
            ({
                let d = old(other)@.pos.minus(old(self)@.pos);
                let dist = sqrt_down(d.norm2());
                (dist < old(self)@.radius + old(other)@.radius && dist > 0
                    && old(other)@.vel.minus(old(self)@.vel).dot(d) > 0) ==> {
                    &&& final(self)@ == old(self)@
                    &&& final(other)@ == old(other)@
                }
            }),
    {
        let cl: i64 = COORD_LIMIT;
        let dx: i64 = other.pos.x - self.pos.x;
        let dy: i64 = other.pos.y - self.pos.y;
        let dz: i64 = other.pos.z - self.pos.z;
        let ghost d = old(other)@.pos.minus(old(self)@.pos);
        proof {
            assert(d == (V3 { x: dx as int, y: dy as int, z: dz as int }));
            lemma_component_products(d);
            assert(dx as int * (dx as int) <= 0x40000000000000000000) by (nonlinear_arith)
                requires -0x8000000000 <= dx as int <= 0x8000000000;
            assert(dy as int * (dy as int) <= 0x40000000000000000000) by (nonlinear_arith)
                requires -0x8000000000 <= dy as int <= 0x8000000000;
            assert(dz as int * (dz as int) <= 0x40000000000000000000) by (nonlinear_arith)
                requires -0x8000000000 <= dz as int <= 0x8000000000;
        }
        let n2: i128 = (dx as i128) * (dx as i128) + (dy as i128) * (dy as i128)
            + (dz as i128) * (dz as i128);
        proof {
            assert(n2 == d.norm2());
        }
        let dist: i128 = isqrt(n2);
        let rsum: i64 = self.radius + other.radius;
        if dist < (rsum as i128) && dist > 0 {
            let rvx: i64 = other.velocity.x - self.velocity.x;
            let rvy: i64 = other.velocity.y - self.velocity.y;
            let rvz: i64 = other.velocity.z - self.velocity.z;
            let ghost dv = old(other)@.vel.minus(old(self)@.vel);
            proof {
                assert(dv == (V3 { x: rvx as int, y: rvy as int, z: rvz as int }));
                lemma_mul_interval(rvx as int, dx as int, 0x8000000000, 0x8000000000);
                lemma_mul_interval(rvy as int, dy as int, 0x8000000000, 0x8000000000);
                lemma_mul_interval(rvz as int, dz as int, 0x8000000000, 0x8000000000);
            }
            let dot: i128 = (rvx as i128) * (dx as i128) + (rvy as i128) * (dy as i128)
                + (rvz as i128) * (dz as i128);
            proof {
                assert(dot == dv.dot(d));
            }
            if dot <= 0 {
                proof {
                    lemma_sqrt_down(n2 as int);
                    lemma_sqrt_up(n2 as int);
                    assert(1 <= n2) by (nonlinear_arith)
                        requires
                            1 <= dist as int,
                            dist as int * (dist as int) <= n2 as int;
                    lemma_dot_times_component(dv, d, 2 * cl as int);
                }
                let msum: i128 = self.mass as i128 + other.mass as i128;
                proof {
                    lemma_tdiv(
                        (RESTITUTION_DEN as int + RESTITUTION_NUM as int) * (-dot as int),
                        RESTITUTION_DEN as int,
                    );
                    lemma_tdiv_bounded(
                        (RESTITUTION_DEN as int + RESTITUTION_NUM as int) * (-dot as int),
                        RESTITUTION_DEN as int,
                        2 * (-dot as int),
                    );
                }
                let s1: i128 = div_tr(
                    (RESTITUTION_DEN as i128 + RESTITUTION_NUM as i128) * (-dot),
                    RESTITUTION_DEN as i128,
                );
                proof {
                    let ma = old(self)@.mass;
                    let mb = old(other)@.mass;
                    assert(0 <= s1 * mb) by (nonlinear_arith)
                        requires 0 <= s1 && 0 < mb;
                    assert(0 <= s1 * ma) by (nonlinear_arith)
                        requires 0 <= s1 && 0 < ma;
                    lemma_mul_interval(s1 as int, mb, s1 as int, msum as int);
                    lemma_mul_interval(s1 as int, ma, s1 as int, msum as int);
                    lemma_mul_interval(s1 as int, mb, 0x180000000000000000000, 0x4000000000);
                    lemma_mul_interval(s1 as int, ma, 0x180000000000000000000, 0x4000000000);
                    lemma_mul_comm(s1 as int, msum as int);
                    lemma_tdiv_bounded(s1 as int * old(other)@.mass, msum as int, s1 as int);
                    lemma_tdiv_bounded(s1 as int * old(self)@.mass, msum as int, s1 as int);
                }
                let sa: i128 = div_tr(s1 * (other.mass as i128), msum);
                let sb: i128 = div_tr(s1 * (self.mass as i128), msum);
                proof {
                    lemma_tdiv(s1 as int * old(other)@.mass, msum as int);
                    lemma_tdiv(s1 as int * old(self)@.mass, msum as int);
                    let cap = 3 * (2 * cl as int) * (n2 as int);
                    lemma_scale_bound(sa as int, dot as int, dx as int, cap);
                    lemma_scale_bound(sa as int, dot as int, dy as int, cap);
                    lemma_scale_bound(sa as int, dot as int, dz as int, cap);
                    lemma_scale_bound(sb as int, dot as int, dx as int, cap);
                    lemma_scale_bound(sb as int, dot as int, dy as int, cap);
                    lemma_scale_bound(sb as int, dot as int, dz as int, cap);
                    lemma_tdiv_bounded(sa as int * (dx as int), n2 as int, 12 * cl as int);
                    lemma_tdiv_bounded(sa as int * (dy as int), n2 as int, 12 * cl as int);
                    lemma_tdiv_bounded(sa as int * (dz as int), n2 as int, 12 * cl as int);
                    lemma_tdiv_bounded(sb as int * (dx as int), n2 as int, 12 * cl as int);
                    lemma_tdiv_bounded(sb as int * (dy as int), n2 as int, 12 * cl as int);
                    lemma_tdiv_bounded(sb as int * (dz as int), n2 as int, 12 * cl as int);
                }
                let tax: i64 = div_tr(sa * (dx as i128), n2) as i64;
                let tay: i64 = div_tr(sa * (dy as i128), n2) as i64;
                let taz: i64 = div_tr(sa * (dz as i128), n2) as i64;
                let tbx: i64 = div_tr(sb * (dx as i128), n2) as i64;
                let tby: i64 = div_tr(sb * (dy as i128), n2) as i64;
                let tbz: i64 = div_tr(sb * (dz as i128), n2) as i64;
                let vax: i64 = self.velocity.x - tax;
                let vay: i64 = self.velocity.y - tay;
                let vaz: i64 = self.velocity.z - taz;
                let vbx: i64 = other.velocity.x + tbx;
                let vby: i64 = other.velocity.y + tby;
                let vbz: i64 = other.velocity.z + tbz;
                let ov: i128 = (rsum as i128) - dist;
                let du: i128 = isqrt_up(n2);
                proof {
                    lemma_abs_sq(dx as int);
                    lemma_abs_sq(dy as int);
                    lemma_abs_sq(dz as int);
                    lemma_sqrt_down_is_max(
                        n2 as int,
                        if dx >= 0 { dx as int } else { -(dx as int) },
                    );
                    lemma_sqrt_down_is_max(
                        n2 as int,
                        if dy >= 0 { dy as int } else { -(dy as int) },
                    );
                    lemma_sqrt_down_is_max(
                        n2 as int,
                        if dz >= 0 { dz as int } else { -(dz as int) },
                    );
                    lemma_mul_interval(dx as int, ov as int, du as int, ov as int);
                    lemma_mul_interval(dy as int, ov as int, du as int, ov as int);
                    lemma_mul_interval(dz as int, ov as int, du as int, ov as int);
                    lemma_mul_interval(dx as int, ov as int, 0x8000000000, 0x8000000000);
                    lemma_mul_interval(dy as int, ov as int, 0x8000000000, 0x8000000000);
                    lemma_mul_interval(dz as int, ov as int, 0x8000000000, 0x8000000000);
                    assert((2 * du as int) * (ov as int) == 2 * (du as int * (ov as int)))
                        by (nonlinear_arith);
                    assert(0 <= du as int * (ov as int)) by (nonlinear_arith)
                        requires 0 <= du as int && 0 <= ov as int;
                    lemma_tdiv_bounded(dx as int * (ov as int), 2 * du as int, ov as int);
                    lemma_tdiv_bounded(dy as int * (ov as int), 2 * du as int, ov as int);
                    lemma_tdiv_bounded(dz as int * (ov as int), 2 * du as int, ov as int);
                }
                let shx: i64 = div_tr((dx as i128) * ov, 2 * du) as i64;
                let shy: i64 = div_tr((dy as i128) * ov, 2 * du) as i64;
                let shz: i64 = div_tr((dz as i128) * ov, 2 * du) as i64;
                let pax: i64 = self.pos.x - shx;
                let pay: i64 = self.pos.y - shy;
                let paz: i64 = self.pos.z - shz;
                let pbx: i64 = other.pos.x + shx;
                let pby: i64 = other.pos.y + shy;
                let pbz: i64 = other.pos.z + shz;
                self.velocity = Vec3::new(vax, vay, vaz);
                other.velocity = Vec3::new(vbx, vby, vbz);
                self.pos = Vec3::new(pax, pay, paz);
                other.pos = Vec3::new(pbx, pby, pbz);
            }
        }
    }
}

} // verus!
