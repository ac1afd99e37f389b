//! The laws of the solver, proved against the mathematical mirrors of its
//! operations: boundary containment, separation under the pairwise
//! resolver, and the restitution bound on contact velocity.

use vstd::prelude::*;
use crate::body::{body_in_range, border_m, collide_m, BodyM};
use crate::scene::{all_in_range, border_all_m, integrate_all_m, pairs_from_m, pass_m, passes_m,
    step_m};
use crate::num::{
    lemma_abs_sq, lemma_mul_interval, lemma_sq_le, lemma_sqrt_down, lemma_sqrt_down_is_max,
    lemma_sqrt_up, lemma_tdiv, lemma_tdiv_mul_bound, sqrt_down, sqrt_up, tdiv,
};
use crate::vec3::{lemma_component_products, V3};
use crate::COORD_LIMIT;

verus! {

/// Boundary containment: a body whose radius fits the boundary lies
/// entirely within it after the border constraint — the floor distance of
/// its center from the boundary center, plus its radius, is at most the
/// boundary radius.  Exact: the ceiling square root used to normalize the
/// outward direction absorbs all rounding.
pub proof fn lemma_border_containment(b: BodyM, c: V3, rb: int)
    requires
        body_in_range(b),
        c.in_range(COORD_LIMIT as int),
        0 < rb <= COORD_LIMIT,
        b.radius <= rb,
    ensures
        ({
            let b2 = border_m(b, c, rb);
            sqrt_down(b2.pos.minus(c).norm2()) + b.radius <= rb
        }),
{
    let d = b.pos.minus(c);
    let n2 = d.norm2();
    let dist = sqrt_down(n2);
    lemma_component_products(d);
    lemma_sqrt_down(n2);
    if dist + b.radius > rb && dist > 0 {
        let du = sqrt_up(n2);
        lemma_sqrt_up(n2);
        let k = rb - b.radius;
        let nx = tdiv(d.x * k, du);
        let ny = tdiv(d.y * k, du);
        let nz = tdiv(d.z * k, du);
        let nd = V3 { x: nx, y: ny, z: nz };
        let b2 = border_m(b, c, rb);
        assert(b2.pos.minus(c) == nd);
        lemma_tdiv_mul_bound(d.x * k, du);
        lemma_tdiv_mul_bound(d.y * k, du);
        lemma_tdiv_mul_bound(d.z * k, du);
        assert((du * nx) * (du * nx) <= (d.x * k) * (d.x * k)) by (nonlinear_arith)
            requires
                0 <= d.x * k ==> 0 <= du * nx <= d.x * k,
                d.x * k < 0 ==> d.x * k <= du * nx <= 0,
                du * nx == du * tdiv(d.x * k, du) && nx == tdiv(d.x * k, du);
        assert((du * ny) * (du * ny) <= (d.y * k) * (d.y * k)) by (nonlinear_arith)
            requires
                0 <= d.y * k ==> 0 <= du * ny <= d.y * k,
                d.y * k < 0 ==> d.y * k <= du * ny <= 0,
                du * ny == du * tdiv(d.y * k, du) && ny == tdiv(d.y * k, du);
        assert((du * nz) * (du * nz) <= (d.z * k) * (d.z * k)) by (nonlinear_arith)
            requires
                0 <= d.z * k ==> 0 <= du * nz <= d.z * k,
                d.z * k < 0 ==> d.z * k <= du * nz <= 0,
                du * nz == du * tdiv(d.z * k, du) && nz == tdiv(d.z * k, du);
        assert(nd.norm2() == nx * nx + ny * ny + nz * nz);
        assert((du * nx) * (du * nx) == (du * du) * (nx * nx)) by (nonlinear_arith);
        assert((du * ny) * (du * ny) == (du * du) * (ny * ny)) by (nonlinear_arith);
        assert((du * nz) * (du * nz) == (du * du) * (nz * nz)) by (nonlinear_arith);
        assert((du * du) * (nx * nx) + (du * du) * (ny * ny) + (du * du) * (nz * nz) == (du * du)
            * (nx * nx + ny * ny + nz * nz)) by (nonlinear_arith);
        assert((d.x * k) * (d.x * k) == (d.x * d.x) * (k * k)) by (nonlinear_arith);
        assert((d.y * k) * (d.y * k) == (d.y * d.y) * (k * k)) by (nonlinear_arith);
        assert((d.z * k) * (d.z * k) == (d.z * d.z) * (k * k)) by (nonlinear_arith);
        assert((d.x * d.x) * (k * k) + (d.y * d.y) * (k * k) + (d.z * d.z) * (k * k) == (d.x * d.x
            + d.y * d.y + d.z * d.z) * (k * k)) by (nonlinear_arith);
        assert(n2 * (k * k) == (d.x * d.x + d.y * d.y + d.z * d.z) * (k * k));
        assert(n2 * (k * k) <= (du * du) * (k * k)) by (nonlinear_arith)
            requires 0 <= n2 <= du * du && 0 <= k * k;
        assert(nd.norm2() <= k * k) by (nonlinear_arith)
            requires
                (du * du) * (nd.norm2()) <= (du * du) * (k * k),
                1 <= du;
        lemma_component_products(nd);
        lemma_sqrt_down(nd.norm2());
        let s = sqrt_down(nd.norm2());
        if s > k {
            lemma_sq_le(k + 1, s);
            assert(k * k < (k + 1) * (k + 1)) by (nonlinear_arith)
                requires 0 <= k;
        }
    }
}

/// For a lone body the pair sweep of a relaxation pass has nothing to
/// do, so each pass ends in the border constraint's outcome: after any
/// number of passes (at least one), a lone body whose radius fits the
/// boundary is contained.
pub proof fn lemma_single_body_passes_containment(bs: Seq<BodyM>, c: V3, rb: int, k: nat)
    requires
        bs.len() == 1,
        1 <= k,
        passes_m(bs, c, rb, k).is_some(),
        c.in_range(COORD_LIMIT as int),
        0 < rb <= COORD_LIMIT,
        bs[0].radius <= rb,
    ensures
        ({
            let r = passes_m(bs, c, rb, k).unwrap();
            &&& r.len() == 1
            &&& r[0].radius == bs[0].radius
            &&& sqrt_down(r[0].pos.minus(c).norm2()) + r[0].radius <= rb
        }),
    decreases k,
{
    let b2 = border_all_m(bs, c, rb);
    assert(pairs_from_m(b2, 0, 1) == pairs_from_m(b2, 1, 2));
    assert(pairs_from_m(b2, 1, 2) == Some(b2));
    assert(pass_m(bs, c, rb) == Some(b2));
    assert(b2[0] == border_m(bs[0], c, rb));
    if k == 1 {
        assert(passes_m(b2, c, rb, 0) == Some(b2));
        lemma_border_containment(bs[0], c, rb);
    } else {
        lemma_single_body_passes_containment(b2, c, rb, (k - 1) as nat);
    }
}

/// Every relaxation pass opens by re-establishing containment for the
/// whole store: after the border phase, every body whose radius fits the
/// boundary lies within it (the pair sweep that follows may then trade a
/// little of that slack for separation, which the next pass wins back).
pub proof fn lemma_border_phase_containment(bs: Seq<BodyM>, c: V3, rb: int)
    requires
        all_in_range(bs),
        c.in_range(COORD_LIMIT as int),
        0 < rb <= COORD_LIMIT,
        forall|i: int| 0 <= i < bs.len() ==> (#[trigger] bs[i]).radius <= rb,
    ensures
        forall|i: int|
            0 <= i < bs.len() ==> sqrt_down(
                (#[trigger] border_all_m(bs, c, rb)[i]).pos.minus(c).norm2(),
            ) + bs[i].radius <= rb,
{
    let b2 = border_all_m(bs, c, rb);
    assert forall|i: int|
        0 <= i < bs.len() implies sqrt_down((#[trigger] b2[i]).pos.minus(c).norm2()) + bs[i].radius
        <= rb by {
        assert(b2[i] == border_m(bs[i], c, rb));
        lemma_border_containment(bs[i], c, rb);
    }
}

/// Boundary containment after a whole step: a lone body whose radius
/// fits the boundary ends every successful `step` inside it, since the
/// last thing a step does to a lone body is the border constraint of its
/// final relaxation pass.
pub proof fn lemma_single_body_step_containment(bs: Seq<BodyM>, c: V3, rb: int, dt: int)
    requires
        bs.len() == 1,
        step_m(bs, c, rb, dt).is_some(),
        bs[0].radius <= rb,
    ensures
        ({
            let r = step_m(bs, c, rb, dt).unwrap();
            &&& r.len() == 1
            &&& sqrt_down(r[0].pos.minus(c).norm2()) + r[0].radius <= rb
        }),
{
    let b1 = integrate_all_m(bs, dt);
    assert(b1[0].radius == bs[0].radius);
    lemma_single_body_passes_containment(b1, c, rb, crate::SOLVER_ITERATIONS as nat);
}

/// After a pairwise resolution, the two bodies never stand closer than
/// before: the positional correction pushes each component of their
/// separation outward, never inward.
pub proof fn lemma_collision_never_closer(a: BodyM, b: BodyM)
    requires
        body_in_range(a),
        body_in_range(b),
    ensures
        ({
            let (a2, b2) = collide_m(a, b);
            b2.pos.minus(a2.pos).norm2() >= b.pos.minus(a.pos).norm2()
        }),
{
    let d = b.pos.minus(a.pos);
    let n2 = d.norm2();
    let dist = sqrt_down(n2);
    lemma_component_products(d);
    if dist < a.radius + b.radius && dist > 0 {
        let dot = b.vel.minus(a.vel).dot(d);
        if !(dot > 0) {
            lemma_sqrt_down(n2);
            let du = sqrt_up(n2);
            lemma_sqrt_up(n2);
            let ov = a.radius + b.radius - dist;
            let tx = tdiv(d.x * ov, 2 * du);
            let ty = tdiv(d.y * ov, 2 * du);
            let tz = tdiv(d.z * ov, 2 * du);
            let (a2, b2) = collide_m(a, b);
            let d2 = b2.pos.minus(a2.pos);
            assert(d2 == (V3 { x: d.x + 2 * tx, y: d.y + 2 * ty, z: d.z + 2 * tz }));
            assert(1 <= du) by {
                assert(1 <= dist * dist) by (nonlinear_arith)
                    requires 1 <= dist;
            }
            lemma_tdiv(d.x * ov, 2 * du);
            lemma_tdiv(d.y * ov, 2 * du);
            lemma_tdiv(d.z * ov, 2 * du);
            lemma_shift_outward(d.x, ov, du, tx);
            lemma_shift_outward(d.y, ov, du, ty);
            lemma_shift_outward(d.z, ov, du, tz);
            assert(d2.norm2() == n2 + 4 * (d.x * tx + d.y * ty + d.z * tz) + 4 * (tx * tx + ty
                * ty + tz * tz)) by (nonlinear_arith)
                requires
                    d2.x == d.x + 2 * tx && d2.y == d.y + 2 * ty && d2.z == d.z + 2 * tz,
                    d2.norm2() == d2.x * d2.x + d2.y * d2.y + d2.z * d2.z,
                    n2 == d.x * d.x + d.y * d.y + d.z * d.z;
            assert(0 <= tx * tx + ty * ty + tz * tz) by (nonlinear_arith);
        }
    }
}

/// When the penetration of an approaching pair exceeds the rounding
/// quantum of the positional correction (30 fixed-point units), one
/// resolution strictly increases the floor distance between the centers:
/// repeated passes drain any such penetration rather than sustaining it.
pub proof fn lemma_collision_strictly_separates(a: BodyM, b: BodyM)
    requires
        body_in_range(a),
        body_in_range(b),
        ({
            let d = b.pos.minus(a.pos);
            let dist = sqrt_down(d.norm2());
            &&& dist < a.radius + b.radius - 30
            &&& dist > 0
            &&& b.vel.minus(a.vel).dot(d) <= 0
        }),
    ensures
        ({
            let r2 = collide_m(a, b);
            sqrt_down(r2.1.pos.minus(r2.0.pos).norm2()) > sqrt_down(b.pos.minus(a.pos).norm2())
        }),
{
    let d = b.pos.minus(a.pos);
    let n2 = d.norm2();
    let dist = sqrt_down(n2);
    lemma_component_products(d);
    lemma_sqrt_down(n2);
    lemma_sqrt_up(n2);
    let du = sqrt_up(n2);
    assert(1 <= n2) by (nonlinear_arith)
        requires 1 <= dist && dist * dist <= n2;
    lemma_abs_sq(d.x);
    lemma_abs_sq(d.y);
    lemma_abs_sq(d.z);
    lemma_sqrt_down_is_max(n2, if d.x >= 0 { d.x } else { -d.x });
    lemma_sqrt_down_is_max(n2, if d.y >= 0 { d.y } else { -d.y });
    lemma_sqrt_down_is_max(n2, if d.z >= 0 { d.z } else { -d.z });
    let ov = a.radius + b.radius - dist;
    let tx = tdiv(d.x * ov, 2 * du);
    let ty = tdiv(d.y * ov, 2 * du);
    let tz = tdiv(d.z * ov, 2 * du);
    assert(d.x * ov == ov * d.x && d.y * ov == ov * d.y && d.z * ov == ov * d.z)
        by (nonlinear_arith);
    lemma_proj_term(ov, d.x, 2 * du, du, tx);
    lemma_proj_term(ov, d.y, 2 * du, du, ty);
    lemma_proj_term(ov, d.z, 2 * du, du, tz);
    let aa = d.x * tx + d.y * ty + d.z * tz;
    assert(ov * (d.x * d.x) + ov * (d.y * d.y) + ov * (d.z * d.z) == ov * n2) by (nonlinear_arith)
        requires n2 == d.x * d.x + d.y * d.y + d.z * d.z;
    assert((2 * du) * (d.x * tx) + (2 * du) * (d.y * ty) + (2 * du) * (d.z * tz) == (2 * du)
        * aa) by (nonlinear_arith)
        requires aa == d.x * tx + d.y * ty + d.z * tz;
    assert((2 * du) * aa >= ov * n2 - 3 * (du * (2 * du)));
    assert(du * (2 * du) == 2 * (du * du)) by (nonlinear_arith);
    assert(ov * n2 >= 31 * (dist * dist)) by (nonlinear_arith)
        requires 31 <= ov && dist * dist <= n2 && 0 <= dist * dist;
    lemma_sq_le(du, dist + 1);
    assert(124 * (dist * dist) >= 24 * ((dist + 1) * (dist + 1)) + 2 * ((dist + 1) * (2 * dist
        + 1))) by (nonlinear_arith)
        requires 1 <= dist;
    assert(2 * (du * (2 * dist + 1)) <= 2 * ((dist + 1) * (2 * dist + 1))) by (nonlinear_arith)
        requires 0 <= du <= dist + 1 && 1 <= dist;
    assert((2 * du) * (4 * aa) == 4 * ((2 * du) * aa)) by (nonlinear_arith);
    assert((2 * du) * (2 * dist + 1) == 2 * (du * (2 * dist + 1))) by (nonlinear_arith);
    assert(4 * (ov * n2) - 24 * (du * du) >= (2 * du) * (2 * dist + 1)) by {
        assert(du * du <= (dist + 1) * (dist + 1));
        assert(4 * (ov * n2) >= 124 * (dist * dist));
    }
    assert(4 * aa >= 2 * dist + 1) by (nonlinear_arith)
        requires
            1 <= du,
            (2 * du) * (4 * aa) >= (2 * du) * (2 * dist + 1);
    let r2 = collide_m(a, b);
    let d2 = r2.1.pos.minus(r2.0.pos);
    assert(d2 == (V3 { x: d.x + 2 * tx, y: d.y + 2 * ty, z: d.z + 2 * tz }));
    assert(d2.norm2() == n2 + 4 * aa + 4 * (tx * tx + ty * ty + tz * tz)) by (nonlinear_arith)
        requires
            d2.x == d.x + 2 * tx && d2.y == d.y + 2 * ty && d2.z == d.z + 2 * tz,
            d2.norm2() == d2.x * d2.x + d2.y * d2.y + d2.z * d2.z,
            n2 == d.x * d.x + d.y * d.y + d.z * d.z,
            aa == d.x * tx + d.y * ty + d.z * tz;
    assert(0 <= tx * tx + ty * ty + tz * tz) by (nonlinear_arith);
    assert(d2.norm2() >= (dist + 1) * (dist + 1)) by (nonlinear_arith)
        requires
            d2.norm2() >= dist * dist + (2 * dist + 1),
            0 <= dist;
    lemma_component_products(d2);
    lemma_sqrt_down_is_max(d2.norm2(), dist + 1);
}

/// One component of a projected impulse: with `t = tdiv(s * di, n2)`, the
/// product `di * t` recovers `s * di * di / n2` up to one `du`-sized
/// rounding step, scaled back by `n2`.
proof fn lemma_proj_term(s: int, di: int, n2: int, du: int, t: int)
    requires
        1 <= n2,
        -du <= di <= du,
        0 <= du,
        t == tdiv(s * di, n2),
    ensures
        s * (di * di) - du * n2 <= n2 * (di * t) <= s * (di * di) + du * n2,
{
    lemma_tdiv(s * di, n2);
    if s * di >= 0 {
        if di >= 0 {
            assert(s * (di * di) - du * n2 <= n2 * (di * t) <= s * (di * di) + du * n2)
                by (nonlinear_arith)
                requires
                    0 <= di <= du,
                    1 <= n2,
                    n2 * t <= s * di < n2 * (t + 1);
        } else {
            assert(s * (di * di) - du * n2 <= n2 * (di * t) <= s * (di * di) + du * n2)
                by (nonlinear_arith)
                requires
                    -du <= di < 0,
                    1 <= n2,
                    n2 * t <= s * di < n2 * (t + 1);
        }
    } else {
        if di >= 0 {
            assert(s * (di * di) - du * n2 <= n2 * (di * t) <= s * (di * di) + du * n2)
                by (nonlinear_arith)
                requires
                    0 <= di <= du,
                    1 <= n2,
                    n2 * (t - 1) < s * di <= n2 * t;
        } else {
            assert(s * (di * di) - du * n2 <= n2 * (di * t) <= s * (di * di) + du * n2)
                by (nonlinear_arith)
                requires
                    -du <= di < 0,
                    1 <= n2,
                    n2 * (t - 1) < s * di <= n2 * t;
        }
    }
}

/// Summing `lemma_proj_term` over the three axes: the projection of a
/// scaled impulse onto `d` lands within `3 * du` of the scale itself.
proof fn lemma_proj_sum(s: int, d: V3, n2: int, du: int)
    requires
        1 <= n2,
        n2 == d.norm2(),
        -du <= d.x <= du,
        -du <= d.y <= du,
        -du <= d.z <= du,
        0 <= du,
    ensures
        ({
            let px = d.x * tdiv(s * d.x, n2);
            let py = d.y * tdiv(s * d.y, n2);
            let pz = d.z * tdiv(s * d.z, n2);
            s - 3 * du <= px + py + pz <= s + 3 * du
        }),
{
    let tx = tdiv(s * d.x, n2);
    let ty = tdiv(s * d.y, n2);
    let tz = tdiv(s * d.z, n2);
    lemma_proj_term(s, d.x, n2, du, tx);
    lemma_proj_term(s, d.y, n2, du, ty);
    lemma_proj_term(s, d.z, n2, du, tz);
    assert(s * (d.x * d.x) + s * (d.y * d.y) + s * (d.z * d.z) == s * n2) by (nonlinear_arith)
        requires n2 == d.x * d.x + d.y * d.y + d.z * d.z;
    assert(n2 * (d.x * tx) + n2 * (d.y * ty) + n2 * (d.z * tz) == n2 * (d.x * tx + d.y * ty + d.z
        * tz)) by (nonlinear_arith);
    assert(n2 * (s - 3 * du) == s * n2 - 3 * (du * n2) && n2 * (s + 3 * du) == s * n2 + 3 * (du
        * n2)) by (nonlinear_arith);
    assert(s - 3 * du <= d.x * tx + d.y * ty + d.z * tz <= s + 3 * du) by (nonlinear_arith)
        requires
            1 <= n2,
            n2 * (s - 3 * du) <= n2 * (d.x * tx + d.y * ty + d.z * tz) <= n2 * (s + 3 * du);
}

/// Energy non-increase on pairwise contact: after a resolution, the
/// relative velocity projected on the contact direction is the approach
/// speed scaled by the restitution factor, within a rounding band of a
/// few fixed-point units (all terms carry the factor `|d|`, since the
/// contact direction `d` is unnormalized).
pub proof fn lemma_collision_restitution(a: BodyM, b: BodyM)
    requires
        body_in_range(a),
        body_in_range(b),
        ({
            let d = b.pos.minus(a.pos);
            let dist = sqrt_down(d.norm2());
            &&& dist < a.radius + b.radius
            &&& dist > 0
            &&& b.vel.minus(a.vel).dot(d) <= 0
        }),
    ensures
        ({
            let d = b.pos.minus(a.pos);
            let dot = b.vel.minus(a.vel).dot(d);
            let r2 = collide_m(a, b);
            let dot2 = r2.1.vel.minus(r2.0.vel).dot(d);
            let du = sqrt_up(d.norm2());
            &&& 100 * dot2 <= 95 * (-dot) + 600 * du
            &&& 100 * dot2 >= 95 * (-dot) - 600 * du - 300
        }),
{
    let d = b.pos.minus(a.pos);
    let n2 = d.norm2();
    let dist = sqrt_down(n2);
    let dot = b.vel.minus(a.vel).dot(d);
    lemma_component_products(d);
    lemma_sqrt_down(n2);
    lemma_sqrt_up(n2);
    let du = sqrt_up(n2);
    assert(1 <= n2) by (nonlinear_arith)
        requires 1 <= dist && dist * dist <= n2;
    lemma_abs_sq(d.x);
    lemma_abs_sq(d.y);
    lemma_abs_sq(d.z);
    lemma_sqrt_down_is_max(n2, if d.x >= 0 { d.x } else { -d.x });
    lemma_sqrt_down_is_max(n2, if d.y >= 0 { d.y } else { -d.y });
    lemma_sqrt_down_is_max(n2, if d.z >= 0 { d.z } else { -d.z });
    let ms = a.mass + b.mass;
    let s1 = tdiv((crate::RESTITUTION_DEN + crate::RESTITUTION_NUM) * (-dot),
        crate::RESTITUTION_DEN as int);
    let sa = tdiv(s1 * b.mass, ms);
    let sb = tdiv(s1 * a.mass, ms);
    lemma_tdiv(195 * (-dot), 100);
    assert(0 <= s1 * b.mass) by (nonlinear_arith)
        requires 0 <= s1 && 0 < b.mass;
    assert(0 <= s1 * a.mass) by (nonlinear_arith)
        requires 0 <= s1 && 0 < a.mass;
    lemma_tdiv(s1 * b.mass, ms);
    lemma_tdiv(s1 * a.mass, ms);
    assert(s1 * b.mass + s1 * a.mass == s1 * ms) by (nonlinear_arith)
        requires ms == a.mass + b.mass;
    assert(sa + sb <= s1 && s1 < sa + sb + 2) by (nonlinear_arith)
        requires
            1 <= ms,
            ms * sa <= s1 * b.mass && s1 * b.mass < ms * (sa + 1),
            ms * sb <= s1 * a.mass && s1 * a.mass < ms * (sb + 1),
            s1 * b.mass + s1 * a.mass == s1 * ms;
    lemma_proj_sum(sa, d, n2, du);
    lemma_proj_sum(sb, d, n2, du);
    let r2 = collide_m(a, b);
    let dot2 = r2.1.vel.minus(r2.0.vel).dot(d);
    let tax = tdiv(sa * d.x, n2);
    let tay = tdiv(sa * d.y, n2);
    let taz = tdiv(sa * d.z, n2);
    let tbx = tdiv(sb * d.x, n2);
    let tby = tdiv(sb * d.y, n2);
    let tbz = tdiv(sb * d.z, n2);
    assert(dot2 == dot + (d.x * tax + d.y * tay + d.z * taz) + (d.x * tbx + d.y * tby + d.z
        * tbz)) by (nonlinear_arith)
        requires
            dot2 == (b.vel.x + tbx - (a.vel.x - tax)) * d.x + (b.vel.y + tby - (a.vel.y - tay))
                * d.y + (b.vel.z + tbz - (a.vel.z - taz)) * d.z,
            dot == (b.vel.x - a.vel.x) * d.x + (b.vel.y - a.vel.y) * d.y + (b.vel.z - a.vel.z)
                * d.z;
}

/// Energy non-increase on border contact: when the constraint reflects a
/// body, the velocity component along the outward direction afterwards is
/// the pre-contact one, sign flipped and scaled by the restitution
/// factor, within a rounding band of a few fixed-point units (all terms
/// carry the factor `|d|`, since the outward direction `d` is
/// unnormalized).
pub proof fn lemma_border_restitution(b: BodyM, c: V3, rb: int)
    requires
        body_in_range(b),
        c.in_range(COORD_LIMIT as int),
        0 < rb <= COORD_LIMIT,
        ({
            let d = b.pos.minus(c);
            let dist = sqrt_down(d.norm2());
            dist + b.radius > rb && dist > 0
        }),
    ensures
        ({
            let d = b.pos.minus(c);
            let dot = b.vel.dot(d);
            let b2 = border_m(b, c, rb);
            let dot2 = b2.vel.dot(d);
            let du = sqrt_up(d.norm2());
            -(600 * du) <= 100 * dot2 + 95 * dot <= 600 * du
        }),
{
    let d = b.pos.minus(c);
    let n2 = d.norm2();
    let dist = sqrt_down(n2);
    let dot = b.vel.dot(d);
    lemma_component_products(d);
    lemma_sqrt_down(n2);
    lemma_sqrt_up(n2);
    let du = sqrt_up(n2);
    assert(1 <= n2) by (nonlinear_arith)
        requires 1 <= dist && dist * dist <= n2;
    lemma_abs_sq(d.x);
    lemma_abs_sq(d.y);
    lemma_abs_sq(d.z);
    lemma_sqrt_down_is_max(n2, if d.x >= 0 { d.x } else { -d.x });
    lemma_sqrt_down_is_max(n2, if d.y >= 0 { d.y } else { -d.y });
    lemma_sqrt_down_is_max(n2, if d.z >= 0 { d.z } else { -d.z });
    lemma_proj_sum(2 * dot, d, n2, du);
    let tx = tdiv(2 * dot * d.x, n2);
    let ty = tdiv(2 * dot * d.y, n2);
    let tz = tdiv(2 * dot * d.z, n2);
    let rx = b.vel.x - tx;
    let ry = b.vel.y - ty;
    let rz = b.vel.z - tz;
    let wx = tdiv(rx * 95, 100);
    let wy = tdiv(ry * 95, 100);
    let wz = tdiv(rz * 95, 100);
    lemma_tdiv(rx * 95, 100);
    lemma_tdiv(ry * 95, 100);
    lemma_tdiv(rz * 95, 100);
    let b2 = border_m(b, c, rb);
    let dot2 = b2.vel.dot(d);
    assert(dot2 == wx * d.x + wy * d.y + wz * d.z);
    assert(rx * d.x + ry * d.y + rz * d.z == dot - (d.x * tx + d.y * ty + d.z * tz))
        by (nonlinear_arith)
        requires
            rx == b.vel.x - tx && ry == b.vel.y - ty && rz == b.vel.z - tz,
            dot == b.vel.x * d.x + b.vel.y * d.y + b.vel.z * d.z;
    lemma_mul_interval(100 * wx - 95 * rx, d.x, 100, du);
    lemma_mul_interval(100 * wy - 95 * ry, d.y, 100, du);
    lemma_mul_interval(100 * wz - 95 * rz, d.z, 100, du);
    assert((100 * wx - 95 * rx) * d.x == 100 * (wx * d.x) - 95 * (rx * d.x)) by (nonlinear_arith);
    assert((100 * wy - 95 * ry) * d.y == 100 * (wy * d.y) - 95 * (ry * d.y)) by (nonlinear_arith);
    assert((100 * wz - 95 * rz) * d.z == 100 * (wz * d.z) - 95 * (rz * d.z)) by (nonlinear_arith);
}

/// The shift of one separation component points outward: the component
/// and its shift never have opposite signs.
proof fn lemma_shift_outward(di: int, ov: int, du: int, t: int)
    requires
        1 <= du,
        0 < ov,
        t == tdiv(di * ov, 2 * du),
    ensures
        0 <= di * t,
{
    lemma_tdiv(di * ov, 2 * du);
    if di >= 0 {
        assert(0 <= di * ov) by (nonlinear_arith)
            requires 0 <= di && 0 < ov;
        assert(0 <= di * t) by (nonlinear_arith)
            requires 0 <= di && 0 <= t;
    } else {
        assert(di * ov < 0) by (nonlinear_arith)
            requires di < 0 && 0 < ov;
        assert(0 <= di * t) by (nonlinear_arith)
            requires di < 0 && t <= 0;
    }
}

} // verus!
