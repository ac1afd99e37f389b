//! The scene aggregate: the body store, the static and dynamic mesh
//! buffers with their append bookkeeping, the simulation step with its
//! fixed relaxation passes, and the geometry sync that projects body
//! motion onto the renderable meshes.

use vstd::prelude::*;
use crate::body::{body_in_range, border_m, collide_m, integrate_m, BodyM, PhysicsBody};
use crate::mesh::{Mesh, Vertex};
use crate::vec3::{V3, Vec3};
use crate::{COORD_LIMIT, SCALE, SOLVER_ITERATIONS};

verus! {

/// Why a scene operation was refused.
#[derive(Clone, Copy, Debug, PartialEq, Eq, Structural)]
pub enum SimError {
    /// A radius that must be positive was not.
    InvalidRadius,
    /// A mesh index addressed a vertex outside its own mesh.
    IndexOutOfBounds,
    /// A shared-buffer offset would no longer fit its integer type.
    CapacityOverflow,
    /// A coordinate stood outside the arithmetic envelope of the solver.
    OutOfRange,
}

/// The mathematical values of a body store.
pub open spec fn views_of(v: Seq<PhysicsBody>) -> Seq<BodyM> {
    v.map_values(|b: PhysicsBody| b@)
}

/// Every body of the store lies in the solver's arithmetic envelope.
pub open spec fn all_in_range(bs: Seq<BodyM>) -> bool {
    forall|i: int| 0 <= i < bs.len() ==> body_in_range(#[trigger] bs[i])
}

/// The integration phase: every body advances independently under
/// gravity.
pub open spec fn integrate_all_m(bs: Seq<BodyM>, dt: int) -> Seq<BodyM> {
    bs.map_values(|b: BodyM| integrate_m(b, dt))
}

/// The border phase of one pass: every body is confined independently.
pub open spec fn border_all_m(bs: Seq<BodyM>, c: V3, rb: int) -> Seq<BodyM> {
    bs.map_values(|b: BodyM| border_m(b, c, rb))
}

/// The pair sweep from pair `(i, j)` onward, in ascending index order,
/// each resolution feeding the next in the same sweep (Gauss–Seidel);
/// `None` when a pair stands outside the arithmetic envelope when its
/// turn comes.
pub open spec fn pairs_from_m(bs: Seq<BodyM>, i: nat, j: nat) -> Option<Seq<BodyM>>
    decreases bs.len() + 1 - i, bs.len() + 2 - j,
{
    if i >= bs.len() {
        Some(bs)
    } else if j >= bs.len() {
        pairs_from_m(bs, i + 1, i + 2)
    } else if body_in_range(bs[i as int]) && body_in_range(bs[j as int]) {
        let r = collide_m(bs[i as int], bs[j as int]);
        pairs_from_m(bs.update(i as int, r.0).update(j as int, r.1), i, j + 1)
    } else {
        None
    }
}

/// One relaxation pass: the border constraint over every body in store
/// order, then the pair sweep over every unordered pair exactly once.
pub open spec fn pass_m(bs: Seq<BodyM>, c: V3, rb: int) -> Option<Seq<BodyM>> {
    if all_in_range(bs) {
        pairs_from_m(border_all_m(bs, c, rb), 0, 1)
    } else {
        None
    }
}

/// `k` relaxation passes in sequence.
pub open spec fn passes_m(bs: Seq<BodyM>, c: V3, rb: int, k: nat) -> Option<Seq<BodyM>>
    decreases k,
{
    if k == 0 {
        Some(bs)
    } else {
        match pass_m(bs, c, rb) {
            Some(nxt) => passes_m(nxt, c, rb, (k - 1) as nat),
            None => None,
        }
    }
}

/// The whole simulation step on a body store: one integration, then
/// `SOLVER_ITERATIONS` relaxation passes.  `None` exactly where the
/// step's parameters, or a body at the moment an operation reads it,
/// stand outside the arithmetic envelope.
pub open spec fn step_m(bs: Seq<BodyM>, c: V3, rb: int, dt: int) -> Option<Seq<BodyM>> {
    if 0 < dt <= SCALE && 0 < rb <= COORD_LIMIT && c.in_range(COORD_LIMIT as int)
        && all_in_range(bs) {
        passes_m(integrate_all_m(bs, dt), c, rb, SOLVER_ITERATIONS as nat)
    } else {
        None
    }
}

/// The pair sweep never changes a body's radius or mass.
proof fn lemma_pairs_keep_shape(bs: Seq<BodyM>, i: nat, j: nat)
    requires
        pairs_from_m(bs, i, j).is_some(),
    ensures
        ({
            let r = pairs_from_m(bs, i, j).unwrap();
            &&& r.len() == bs.len()
            &&& forall|k: int|
                0 <= k < bs.len() ==> (#[trigger] r[k]).radius == bs[k].radius && r[k].mass
                    == bs[k].mass
        }),
    decreases bs.len() + 1 - i, bs.len() + 2 - j,
{
    if i >= bs.len() {
    } else if j >= bs.len() {
        lemma_pairs_keep_shape(bs, i + 1, i + 2);
    } else if body_in_range(bs[i as int]) && body_in_range(bs[j as int]) {
        let r2 = collide_m(bs[i as int], bs[j as int]);
        let nxt = bs.update(i as int, r2.0).update(j as int, r2.1);
        assert(r2.0.radius == bs[i as int].radius && r2.0.mass == bs[i as int].mass);
        assert(r2.1.radius == bs[j as int].radius && r2.1.mass == bs[j as int].mass);
        lemma_pairs_keep_shape(nxt, i, j + 1);
    }
}

/// Relaxation passes never change a body's radius or mass.
proof fn lemma_passes_keep_shape(bs: Seq<BodyM>, c: V3, rb: int, k: nat)
    requires
        passes_m(bs, c, rb, k).is_some(),
    ensures
        ({
            let r = passes_m(bs, c, rb, k).unwrap();
            &&& r.len() == bs.len()
            &&& forall|t: int|
                0 <= t < bs.len() ==> (#[trigger] r[t]).radius == bs[t].radius && r[t].mass
                    == bs[t].mass
        }),
    decreases k,
{
    if k == 0 {
    } else {
        let b2 = border_all_m(bs, c, rb);
        assert(forall|t: int|
            0 <= t < bs.len() ==> (#[trigger] b2[t]).radius == bs[t].radius && b2[t].mass
                == bs[t].mass);
        lemma_pairs_keep_shape(b2, 0, 1);
        let after = pairs_from_m(b2, 0, 1).unwrap();
        lemma_passes_keep_shape(after, c, rb, (k - 1) as nat);
    }
}

/// A whole step never changes a body's radius or mass, nor the number of
/// bodies.
pub proof fn lemma_step_keeps_shape(bs: Seq<BodyM>, c: V3, rb: int, dt: int)
    requires
        step_m(bs, c, rb, dt).is_some(),
    ensures
        ({
            let r = step_m(bs, c, rb, dt).unwrap();
            &&& r.len() == bs.len()
            &&& forall|t: int|
                0 <= t < bs.len() ==> (#[trigger] r[t]).radius == bs[t].radius && r[t].mass
                    == bs[t].mass
        }),
{
    let b1 = integrate_all_m(bs, dt);
    assert(forall|t: int|
        0 <= t < bs.len() ==> (#[trigger] b1[t]).radius == bs[t].radius && b1[t].mass
            == bs[t].mass);
    lemma_passes_keep_shape(b1, c, rb, SOLVER_ITERATIONS as nat);
}

/// Total vertex count of the first `i` meshes.
pub open spec fn vcount(ms: Seq<Mesh>, i: int) -> int
    decreases i,
{
    if i <= 0 {
        0
    } else {
        vcount(ms, i - 1) + ms[i - 1].vertices@.len()
    }
}

/// Total index count of the first `i` meshes.
pub open spec fn icount(ms: Seq<Mesh>, i: int) -> int
    decreases i,
{
    if i <= 0 {
        0
    } else {
        icount(ms, i - 1) + ms[i - 1].indices@.len()
    }
}

/// Meshes appended one after another into a shared pair of buffers: each
/// mesh's indices address its own vertex slice (no two overlap), and its
/// index-buffer offset is the total index count of the meshes before it.
pub open spec fn buffers_wf(ms: Seq<Mesh>) -> bool {
    forall|i: int|
        0 <= i < ms.len() ==> {
            &&& (#[trigger] ms[i]).indices_within(vcount(ms, i))
            &&& ms[i].buffer_offset == icount(ms, i)
        }
}

/// Appending a mesh leaves the counts of every earlier prefix alone.
proof fn lemma_vcount_push(ms: Seq<Mesh>, m: Mesh, i: int)
    requires
        0 <= i <= ms.len(),
    ensures
        vcount(ms.push(m), i) == vcount(ms, i),
        icount(ms.push(m), i) == icount(ms, i),
    decreases i,
{
    if i > 0 {
        lemma_vcount_push(ms, m, i - 1);
        assert(ms.push(m)[i - 1] == ms[i - 1]);
    }
}

/// Prefix counts only grow with the prefix.
proof fn lemma_count_monotone(ms: Seq<Mesh>, i: int, j: int)
    requires
        0 <= i <= j <= ms.len(),
    ensures
        vcount(ms, i) <= vcount(ms, j),
        icount(ms, i) <= icount(ms, j),
    decreases j - i,
{
    if i < j {
        lemma_count_monotone(ms, i, j - 1);
    }
}

/// Counts are never negative.
proof fn lemma_count_nonneg(ms: Seq<Mesh>, i: int)
    requires
        0 <= i <= ms.len(),
    ensures
        0 <= vcount(ms, i),
        0 <= icount(ms, i),
{
    lemma_count_monotone(ms, 0, i);
}

/// Counts only read the lengths, so two pointwise length-equal mesh
/// sequences count the same.
proof fn lemma_counts_same(ms1: Seq<Mesh>, ms2: Seq<Mesh>, i: int)
    requires
        ms1.len() == ms2.len(),
        0 <= i <= ms1.len(),
        forall|k: int|
            0 <= k < ms1.len() ==> (#[trigger] ms1[k]).vertices@.len() == ms2[k].vertices@.len()
                && ms1[k].indices@.len() == ms2[k].indices@.len(),
    ensures
        vcount(ms1, i) == vcount(ms2, i),
        icount(ms1, i) == icount(ms2, i),
    decreases i,
{
    if i > 0 {
        lemma_counts_same(ms1, ms2, i - 1);
    }
}

/// Geometry sync is defined when every body position, cached mesh center
/// and vertex position lies in the arithmetic envelope.
pub open spec fn sync_ready(ms: Seq<Mesh>, bodies: Seq<PhysicsBody>) -> bool {
    forall|i: int|
        0 <= i < ms.len() ==> {
            &&& bodies[i]@.pos.in_range(COORD_LIMIT as int)
            &&& (#[trigger] ms[i]).center@.in_range(COORD_LIMIT as int)
            &&& forall|k: int|
                0 <= k < ms[i].vertices@.len() ==> (
                #[trigger] ms[i].vertices@[k]).position@.in_range(COORD_LIMIT as int)
        }
}

/// The vertices of the first `i` meshes, flattened in order.
pub open spec fn cat_vertices(ms: Seq<Mesh>, i: int) -> Seq<Vertex>
    decreases i,
{
    if i <= 0 {
        Seq::empty()
    } else {
        cat_vertices(ms, i - 1) + ms[i - 1].vertices@
    }
}

/// The indices of the first `i` meshes, flattened in order.
pub open spec fn cat_indices(ms: Seq<Mesh>, i: int) -> Seq<u32>
    decreases i,
{
    if i <= 0 {
        Seq::empty()
    } else {
        cat_indices(ms, i - 1) + ms[i - 1].indices@
    }
}

/// Flattens the vertices of a mesh family into one buffer, in order.
#[verifier::loop_isolation(false)]
fn flatten_vertices(ms: &Vec<Mesh>) -> (r: Vec<Vertex>)
    ensures
        r@ == cat_vertices(ms@, ms@.len() as int),
{
    let mut r: Vec<Vertex> = Vec::new();
    let n: usize = ms.len();
    let mut i: usize = 0;
    proof {
        assert(r@ =~= cat_vertices(ms@, 0));
    }
    while i < n
        invariant
            0 <= i <= n,
            r@ == cat_vertices(ms@, i as int),
        decreases n - i,
    {
        let vl: usize = ms[i].vertices.len();
        let ghost r0 = r@;
        let mut k: usize = 0;
        proof {
            assert(r@ =~= r0 + ms@[i as int].vertices@.subrange(0, 0));
        }
        while k < vl
            invariant
                0 <= k <= vl,
                0 <= i < n,
                vl == ms@[i as int].vertices@.len(),
                r@ == r0 + ms@[i as int].vertices@.subrange(0, k as int),
            decreases vl - k,
        {
            let v: Vertex = ms[i].vertices[k];
            r.push(v);
            proof {
                assert(r@ =~= r0 + ms@[i as int].vertices@.subrange(0, k as int + 1));
            }
            k += 1;
        }
        proof {
            assert(ms@[i as int].vertices@.subrange(0, vl as int) =~= ms@[i as int].vertices@);
            assert(r@ =~= cat_vertices(ms@, i as int + 1));
        }
        i += 1;
    }
    r
}

/// Flattens the indices of a mesh family into one buffer, in order.
#[verifier::loop_isolation(false)]
fn flatten_indices(ms: &Vec<Mesh>) -> (r: Vec<u32>)
    ensures
        r@ == cat_indices(ms@, ms@.len() as int),
{
    let mut r: Vec<u32> = Vec::new();
    let n: usize = ms.len();
    let mut i: usize = 0;
    proof {
        assert(r@ =~= cat_indices(ms@, 0));
    }
    while i < n
        invariant
            0 <= i <= n,
            r@ == cat_indices(ms@, i as int),
        decreases n - i,
    {
        let il: usize = ms[i].indices.len();
        let ghost r0 = r@;
        let mut k: usize = 0;
        proof {
            assert(r@ =~= r0 + ms@[i as int].indices@.subrange(0, 0));
        }
        while k < il
            invariant
                0 <= k <= il,
                0 <= i < n,
                il == ms@[i as int].indices@.len(),
                r@ == r0 + ms@[i as int].indices@.subrange(0, k as int),
            decreases il - k,
        {
            let v: u32 = ms[i].indices[k];
            r.push(v);
            proof {
                assert(r@ =~= r0 + ms@[i as int].indices@.subrange(0, k as int + 1));
            }
            k += 1;
        }
        proof {
            assert(ms@[i as int].indices@.subrange(0, il as int) =~= ms@[i as int].indices@);
            assert(r@ =~= cat_indices(ms@, i as int + 1));
        }
        i += 1;
    }
    r
}

/// A copy of the body store, to run a step on and commit only when the
/// whole step went through.
#[verifier::loop_isolation(false)]
fn clone_bodies(v: &Vec<PhysicsBody>) -> (r: Vec<PhysicsBody>)
    ensures
        r@ == v@,
{
    let mut r: Vec<PhysicsBody> = Vec::new();
    let mut i: usize = 0;
    while i < v.len()
        invariant
            0 <= i <= v@.len(),
            r@.len() == i,
            forall|k: int| 0 <= k < i ==> r@[k] == v@[k],
        decreases v@.len() - i,
    {
        let b: PhysicsBody = v[i];
        r.push(b);
        i += 1;
    }
    proof {
        assert(r@ =~= v@);
    }
    r
}

/// Whether every body of the store lies in the arithmetic envelope.
#[verifier::loop_isolation(false)]
fn all_in_envelope(v: &Vec<PhysicsBody>) -> (r: bool)
    ensures
        r == all_in_range(views_of(v@)),
{
    let ghost bs = views_of(v@);
    let mut i: usize = 0;
    while i < v.len()
        invariant
            0 <= i <= v@.len(),
            forall|k: int| 0 <= k < i ==> body_in_range(#[trigger] bs[k]),
        decreases v@.len() - i,
    {
        let ok: bool = v[i].in_envelope();
        if !ok {
            proof {
                assert(!body_in_range(bs[i as int]));
            }
            return false;
        }
        i += 1;
    }
    true
}

/// The integration phase: advances every body of the store under gravity.
#[verifier::loop_isolation(false)]
fn integrate_bodies(work: &mut Vec<PhysicsBody>, dt: i64)
    requires
        all_in_range(views_of(old(work)@)),
        0 < dt <= SCALE,
    ensures
        views_of(final(work)@) == integrate_all_m(views_of(old(work)@), dt as int),
        final(work)@.len() == old(work)@.len(),
{
    let ghost bs = views_of(old(work)@);
    let n: usize = work.len();
    let mut i: usize = 0;
    while i < n
        invariant
            0 <= i <= n,
            work@.len() == n,
            forall|k: int| 0 <= k < i ==> (#[trigger] work@[k])@ == integrate_all_m(
                bs,
                dt as int,
            )[k],
            forall|k: int| i <= k < n ==> (#[trigger] work@[k])@ == bs[k],
        decreases n - i,
    {
        let mut b: PhysicsBody = work[i];
        b.integrate(dt);
        work.set(i, b);
        i += 1;
    }
    proof {
        assert(views_of(work@) =~= integrate_all_m(bs, dt as int));
    }
}

/// One relaxation pass over the store: returns whether the pass stayed
/// inside the arithmetic envelope; when it did not, the store's content
/// is scratch and the caller discards it.
#[verifier::loop_isolation(false)]
fn run_pass(work: &mut Vec<PhysicsBody>, border_center: Vec3, border_radius: i64) -> (r: bool)
    requires
        0 < border_radius <= COORD_LIMIT,
        border_center@.in_range(COORD_LIMIT as int),
    ensures
        r == pass_m(views_of(old(work)@), border_center@, border_radius as int).is_some(),
        r ==> views_of(final(work)@) == pass_m(
            views_of(old(work)@),
            border_center@,
            border_radius as int,
        ).unwrap(),
        final(work)@.len() == old(work)@.len(),
{
    let ghost cur0 = views_of(old(work)@);
    let ghost c = border_center@;
    let ghost rbi = border_radius as int;
    let n: usize = work.len();
    if !all_in_envelope(work) {
        return false;
    }
    let mut i: usize = 0;
    while i < n
        invariant
            0 <= i <= n,
            work@.len() == n,
            forall|k: int| 0 <= k < i ==> (#[trigger] work@[k])@ == border_all_m(cur0, c, rbi)[k],
            forall|k: int| i <= k < n ==> (#[trigger] work@[k])@ == cur0[k],
        decreases n - i,
    {
        let mut b: PhysicsBody = work[i];
        b.keep_within_border(border_center, border_radius);
        work.set(i, b);
        i += 1;
    }
    let ghost bordered = border_all_m(cur0, c, rbi);
    proof {
        assert(views_of(work@) =~= bordered);
    }
    let ghost target = pairs_from_m(bordered, 0, 1);
    let mut i: usize = 0;
    while i < n
        invariant
            0 <= i <= n,
            work@.len() == n,
            pairs_from_m(views_of(work@), i as nat, (i + 1) as nat) == target,
        decreases n - i,
    {
        let mut j: usize = i + 1;
        while j < n
            invariant
                0 <= i < n,
                i + 1 <= j <= n,
                work@.len() == n,
                pairs_from_m(views_of(work@), i as nat, j as nat) == target,
            decreases n - j,
        {
            let ghost prev = views_of(work@);
            let a_ok: bool = work[i].in_envelope();
            let b_ok: bool = work[j].in_envelope();
            if !(a_ok && b_ok) {
                proof {
                    assert(pairs_from_m(prev, i as nat, j as nat) == None::<Seq<BodyM>>);
                }
                return false;
            }
            let mut a: PhysicsBody = work[i];
            let mut b: PhysicsBody = work[j];
            a.collide_with(&mut b);
            work.set(i, a);
            work.set(j, b);
            proof {
                let r2 = collide_m(prev[i as int], prev[j as int]);
                assert(views_of(work@) =~= prev.update(i as int, r2.0).update(j as int, r2.1));
                assert(pairs_from_m(prev, i as nat, j as nat) == pairs_from_m(
                    views_of(work@),
                    i as nat,
                    (j + 1) as nat,
                ));
            }
            j += 1;
        }
        proof {
            assert(pairs_from_m(views_of(work@), i as nat, j as nat) == pairs_from_m(
                views_of(work@),
                (i + 1) as nat,
                (i + 2) as nat,
            ));
        }
        i += 1;
    }
    proof {
        assert(pairs_from_m(views_of(work@), n as nat, (n + 1) as nat) == Some(views_of(work@)));
    }
    true
}

/// The whole simulation state: the body store, the static decoration
/// meshes, the dynamic ball meshes (one per body, in creation order), and
/// the append cursors of the two shared buffer pairs.
#[derive(Debug)]
pub struct Scene {
    pub physics_bodies: Vec<PhysicsBody>,
    pub static_meshes: Vec<Mesh>,
    pub dynamic_meshes: Vec<Mesh>,
    pub next_static_vertex: usize,
    pub next_static_index: usize,
    pub next_dynamic_vertex: usize,
    pub next_dynamic_index: usize,
}

impl Scene {
    /// The structural invariant: both buffer families are well appended,
    /// the cursors sit at their totals, dynamic meshes pair 1:1 with
    /// bodies by creation order, and every body has positive radius and
    /// mass.
    pub open spec fn wf(self) -> bool {
        &&& buffers_wf(self.static_meshes@)
        &&& buffers_wf(self.dynamic_meshes@)
        &&& self.next_static_vertex == vcount(
            self.static_meshes@,
            self.static_meshes@.len() as int,
        )
        &&& self.next_static_index == icount(
            self.static_meshes@,
            self.static_meshes@.len() as int,
        )
        &&& self.next_dynamic_vertex == vcount(
            self.dynamic_meshes@,
            self.dynamic_meshes@.len() as int,
        )
        &&& self.next_dynamic_index == icount(
            self.dynamic_meshes@,
            self.dynamic_meshes@.len() as int,
        )
        &&& self.next_static_vertex <= u32::MAX
        &&& self.next_dynamic_vertex <= u32::MAX
        &&& self.dynamic_meshes@.len() == self.physics_bodies@.len()
        &&& forall|i: int|
            0 <= i < self.physics_bodies@.len() ==> 0 < (
            #[trigger] self.physics_bodies@[i])@.radius
                && 0 < self.physics_bodies@[i]@.mass
    }

    /// Advances the simulation by one step of length `dt` against the
    /// boundary of center `border_center` and radius `border_radius`: one
    /// gravity integration, then `SOLVER_ITERATIONS` relaxation passes,
    /// each applying the border constraint to every body in store order
    /// and the pairwise resolver to every unordered pair in ascending
    /// index order.  The whole step lands, or nothing does: where a
    /// parameter, or a body at the moment an operation reads it, stands
    /// outside the arithmetic envelope, the scene is left exactly as it
    /// was and `OutOfRange` comes back.
    #[verifier::loop_isolation(false)]
    #[verifier::rlimit(50)]
    pub fn update_physics(&mut self, dt: i64, border_center: Vec3, border_radius: i64) -> (r:
        Result<(), SimError>)
        requires
            old(self).wf(),
        ensures
            final(self).wf(),
            r.is_ok() <==> step_m(
                views_of(old(self).physics_bodies@),
                border_center@,
                border_radius as int,
                dt as int,
            ).is_some(),
            r.is_ok() ==> views_of(final(self).physics_bodies@) == step_m(
                views_of(old(self).physics_bodies@),
                border_center@,
                border_radius as int,
                dt as int,
            ).unwrap(),
            r.is_err() ==> *final(self) == *old(self) && r == Err::<(), SimError>(
                SimError::OutOfRange,
            ),
            final(self).static_meshes@ == old(self).static_meshes@,
            final(self).dynamic_meshes@ == old(self).dynamic_meshes@,
            final(self).physics_bodies@.len() == old(self).physics_bodies@.len(),
    {
        let ghost bs0 = views_of(old(self).physics_bodies@);
        let ghost c = border_center@;
        let ghost rbi = border_radius as int;
        let cl: i64 = COORD_LIMIT;
        if !(0 < dt && dt <= SCALE && 0 < border_radius && border_radius <= cl && -cl
            <= border_center.x && border_center.x <= cl && -cl <= border_center.y
            && border_center.y <= cl && -cl <= border_center.z && border_center.z <= cl) {
            return Err(SimError::OutOfRange);
        }
        if !all_in_envelope(&self.physics_bodies) {
            return Err(SimError::OutOfRange);
        }
        let mut work: Vec<PhysicsBody> = clone_bodies(&self.physics_bodies);
        let n: usize = work.len();
        integrate_bodies(&mut work, dt);
        let ghost bs1 = integrate_all_m(bs0, dt as int);
        let mut p: usize = 0;
        while p < SOLVER_ITERATIONS
            invariant
                0 <= p <= SOLVER_ITERATIONS,
                work@.len() == n,
                passes_m(bs1, c, rbi, SOLVER_ITERATIONS as nat) == passes_m(
                    views_of(work@),
                    c,
                    rbi,
                    (SOLVER_ITERATIONS - p) as nat,
                ),
            decreases SOLVER_ITERATIONS - p,
        {
            let ghost cur0 = views_of(work@);
            let ok: bool = run_pass(&mut work, border_center, border_radius);
            if !ok {
                proof {
                    assert(passes_m(cur0, c, rbi, (SOLVER_ITERATIONS - p) as nat)
                        == None::<Seq<BodyM>>);
                }
                return Err(SimError::OutOfRange);
            }
            proof {
                assert(passes_m(cur0, c, rbi, (SOLVER_ITERATIONS - p) as nat) == passes_m(
                    views_of(work@),
                    c,
                    rbi,
                    (SOLVER_ITERATIONS - (p + 1)) as nat,
                ));
            }
            p += 1;
        }
        proof {
            assert(passes_m(views_of(work@), c, rbi, 0) == Some(views_of(work@)));
            assert(step_m(bs0, c, rbi, dt as int) == Some(views_of(work@)));
            lemma_step_keeps_shape(bs0, c, rbi, dt as int);
            let res = views_of(work@);
            assert forall|t: int|
                0 <= t < n implies 0 < (#[trigger] work@[t])@.radius
                && 0 < work@[t]@.mass by {
                assert(res[t] == work@[t]@);
                assert(bs0[t] == old(self).physics_bodies@[t]@);
                assert(0 < old(self).physics_bodies@[t]@.radius);
                assert(res[t].radius == bs0[t].radius && res[t].mass == bs0[t].mass);
            }
        }
        self.physics_bodies = work;
        Ok(())
    }

    /// Appends one ball at scene setup: a body of the given radius
    /// centered at `center`, at rest with unit mass, paired with its
    /// renderable mesh, whose vertices and local (zero-based) indices the
    /// tessellation collaborator hands over.  The indices are shifted
    /// onto this scene's shared dynamic buffers.  On `Err` nothing
    /// changes: a radius that is not positive, an index outside the
    /// handed vertices, or a buffer cursor that would outgrow its type is
    /// refused.
    #[verifier::loop_isolation(false)]
    pub fn add_ball(
        &mut self,
        radius: i64,
        center: Vec3,
        vertices: Vec<Vertex>,
        indices: Vec<u32>,
    ) -> (r: Result<(), SimError>)
        requires
            old(self).wf(),
        ensures
            final(self).wf(),
            r.is_ok() <==> {
                &&& 0 < radius
                &&& forall|k: int|
                    0 <= k < indices@.len() ==> (#[trigger] indices@[k] as int) < vertices@.len()
                &&& old(self).next_dynamic_vertex + vertices@.len() <= u32::MAX
                &&& old(self).next_dynamic_index + indices@.len() <= usize::MAX
            },
            radius <= 0 ==> r == Err::<(), SimError>(SimError::InvalidRadius),
            (0 < radius && !(forall|k: int|
                0 <= k < indices@.len() ==> (#[trigger] indices@[k] as int) < vertices@.len()))
                ==> r == Err::<(), SimError>(SimError::IndexOutOfBounds),
            r.is_err() ==> *final(self) == *old(self),
            r.is_ok() ==> {
                &&& final(self).physics_bodies@.len() == old(self).physics_bodies@.len() + 1
                &&& forall|k: int|
                    0 <= k < old(self).physics_bodies@.len() ==> final(self).physics_bodies@[k]
                        == old(self).physics_bodies@[k]
                &&& final(self).physics_bodies@.last()@ == (BodyM {
                    pos: center@,
                    radius: radius as int,
                    vel: V3 { x: 0, y: 0, z: 0 },
                    mass: SCALE as int,
                })
                &&& final(self).dynamic_meshes@.len() == old(self).dynamic_meshes@.len() + 1
                &&& forall|k: int|
                    0 <= k < old(self).dynamic_meshes@.len() ==> final(self).dynamic_meshes@[k]
                        == old(self).dynamic_meshes@[k]
                &&& final(self).dynamic_meshes@.last().vertices@ == vertices@
                &&& final(self).dynamic_meshes@.last().center == center
                &&& final(self).dynamic_meshes@.last().buffer_offset == old(
                    self,
                ).next_dynamic_index
                &&& final(self).dynamic_meshes@.last().indices@.len() == indices@.len()
                &&& forall|k: int|
                    0 <= k < indices@.len() ==> final(self).dynamic_meshes@.last().indices@[k]
                        == indices@[k] + old(self).next_dynamic_vertex
                &&& final(self).static_meshes@ == old(self).static_meshes@
            },
    {
        if radius <= 0 {
            return Err(SimError::InvalidRadius);
        }
        let mut mesh: Mesh = Mesh::new(vertices, indices, center);
        let local_ok: bool = mesh.indices_are_local();
        if !local_ok {
            return Err(SimError::IndexOutOfBounds);
        }
        let vlen: usize = mesh.vertices.len();
        let ilen: usize = mesh.indices.len();
        let u32max: usize = u32::MAX as usize;
        if vlen > u32max || self.next_dynamic_vertex > u32max - vlen {
            return Err(SimError::CapacityOverflow);
        }
        if ilen > usize::MAX - self.next_dynamic_index {
            return Err(SimError::CapacityOverflow);
        }
        let off32: u32 = self.next_dynamic_vertex as u32;
        let ghost idx0 = mesh.indices@;
        let mut k: usize = 0;
        while k < ilen
            invariant
                0 <= k <= ilen,
                mesh.indices@.len() == ilen,
                idx0.len() == ilen,
                forall|t: int| 0 <= t < k ==> (#[trigger] mesh.indices@[t]) as int == idx0[t]
                    + off32,
                forall|t: int| k <= t < ilen ==> (#[trigger] mesh.indices@[t]) == idx0[t],
                mesh.vertices@ == vertices@,
                mesh.center == center,
                mesh.buffer_offset == 0,
            decreases ilen - k,
        {
            let v: u32 = mesh.indices[k] + off32;
            mesh.indices.set(k, v);
            k += 1;
        }
        mesh.buffer_offset = self.next_dynamic_index;
        let ghost meshv = mesh;
        self.next_dynamic_vertex = self.next_dynamic_vertex + vlen;
        self.next_dynamic_index = self.next_dynamic_index + ilen;
        self.dynamic_meshes.push(mesh);
        let body: PhysicsBody = PhysicsBody::new(center, radius);
        self.physics_bodies.push(body);
        proof {
            let oldms = old(self).dynamic_meshes@;
            let newms = self.dynamic_meshes@;
            let ghost ll = oldms.len() as int;
            assert(newms == oldms.push(meshv));
            lemma_vcount_push(oldms, meshv, ll);
            assert forall|i2: int| 0 <= i2 < newms.len() implies {
                &&& (#[trigger] newms[i2]).indices_within(vcount(newms, i2))
                &&& newms[i2].buffer_offset == icount(newms, i2)
            } by {
                lemma_vcount_push(oldms, meshv, i2);
                if i2 < ll {
                    assert(newms[i2] == oldms[i2]);
                    assert(oldms[i2].indices_within(vcount(oldms, i2)));
                } else {
                    assert(newms[i2] == meshv);
                    assert(vcount(newms, i2) == old(self).next_dynamic_vertex as int);
                    assert(icount(newms, i2) == old(self).next_dynamic_index as int);
                }
            }
            assert(vcount(newms, ll + 1) == vcount(newms, ll) + meshv.vertices@.len());
            assert(icount(newms, ll + 1) == icount(newms, ll) + meshv.indices@.len());
            assert(self.physics_bodies@ == old(self).physics_bodies@.push(body));
        }
        Ok(())
    }

    /// Appends one decoration mesh to the static buffers; the caller has
    /// already checked index locality and buffer capacity.
    #[verifier::loop_isolation(false)]
    fn append_static(&mut self, mesh: Mesh)
        requires
            old(self).wf(),
            mesh.indices_within(0),
            old(self).next_static_vertex + mesh.vertices@.len() <= u32::MAX,
            old(self).next_static_index + mesh.indices@.len() <= usize::MAX,
        ensures
            final(self).wf(),
            final(self).static_meshes@.len() == old(self).static_meshes@.len() + 1,
            forall|k: int|
                0 <= k < old(self).static_meshes@.len() ==> final(self).static_meshes@[k] == old(
                    self,
                ).static_meshes@[k],
            final(self).static_meshes@.last().vertices@ == mesh.vertices@,
            final(self).static_meshes@.last().center == mesh.center,
            final(self).static_meshes@.last().buffer_offset == old(self).next_static_index,
            final(self).static_meshes@.last().indices@.len() == mesh.indices@.len(),
            forall|k: int|
                0 <= k < mesh.indices@.len() ==> final(self).static_meshes@.last().indices@[k]
                    == mesh.indices@[k] + old(self).next_static_vertex,
            final(self).next_static_vertex == old(self).next_static_vertex
                + mesh.vertices@.len(),
            final(self).next_static_index == old(self).next_static_index + mesh.indices@.len(),
            final(self).next_dynamic_vertex == old(self).next_dynamic_vertex,
            final(self).next_dynamic_index == old(self).next_dynamic_index,
            final(self).dynamic_meshes@ == old(self).dynamic_meshes@,
            final(self).physics_bodies@ == old(self).physics_bodies@,
    {
        let mut mesh: Mesh = mesh;
        let ghost m0 = mesh;
        let vlen: usize = mesh.vertices.len();
        let ilen: usize = mesh.indices.len();
        let off32: u32 = self.next_static_vertex as u32;
        let ghost idx0 = mesh.indices@;
        let mut k: usize = 0;
        while k < ilen
            invariant
                0 <= k <= ilen,
                mesh.indices@.len() == ilen,
                idx0.len() == ilen,
                forall|t: int| 0 <= t < k ==> (#[trigger] mesh.indices@[t]) as int == idx0[t]
                    + off32,
                forall|t: int| k <= t < ilen ==> (#[trigger] mesh.indices@[t]) == idx0[t],
                mesh.vertices@ == m0.vertices@,
                mesh.center == m0.center,
            decreases ilen - k,
        {
            let v: u32 = mesh.indices[k] + off32;
            mesh.indices.set(k, v);
            k += 1;
        }
        mesh.buffer_offset = self.next_static_index;
        let ghost meshv = mesh;
        self.next_static_vertex = self.next_static_vertex + vlen;
        self.next_static_index = self.next_static_index + ilen;
        self.static_meshes.push(mesh);
        proof {
            let oldms = old(self).static_meshes@;
            let newms = self.static_meshes@;
            let ghost ll = oldms.len() as int;
            assert(newms == oldms.push(meshv));
            lemma_vcount_push(oldms, meshv, ll);
            assert forall|i2: int| 0 <= i2 < newms.len() implies {
                &&& (#[trigger] newms[i2]).indices_within(vcount(newms, i2))
                &&& newms[i2].buffer_offset == icount(newms, i2)
            } by {
                lemma_vcount_push(oldms, meshv, i2);
                if i2 < ll {
                    assert(newms[i2] == oldms[i2]);
                    assert(oldms[i2].indices_within(vcount(oldms, i2)));
                } else {
                    assert(newms[i2] == meshv);
                    assert(vcount(newms, i2) == old(self).next_static_vertex as int);
                    assert(icount(newms, i2) == old(self).next_static_index as int);
                }
            }
            assert(vcount(newms, ll + 1) == vcount(newms, ll) + meshv.vertices@.len());
            assert(icount(newms, ll + 1) == icount(newms, ll) + meshv.indices@.len());
        }
    }

    /// Populates the static decoration meshes that trace the boundary:
    /// the tessellation collaborator hands over the dot meshes (with
    /// local, zero-based indices), and each is appended in order to the
    /// shared static buffers.  On `Err` nothing changes: first every
    /// mesh's indices are held to its own vertices, then the two buffer
    /// cursors are checked against their types.
    #[verifier::loop_isolation(false)]
    pub fn create_3d_border(&mut self, dots: Vec<Mesh>) -> (r: Result<(), SimError>)
        requires
            old(self).wf(),
        ensures
            final(self).wf(),
            r.is_ok() <==> {
                &&& forall|k: int|
                    0 <= k < dots@.len() ==> (#[trigger] dots@[k]).indices_within(0)
                &&& old(self).next_static_vertex + vcount(dots@, dots@.len() as int)
                    <= u32::MAX
                &&& old(self).next_static_index + icount(dots@, dots@.len() as int)
                    <= usize::MAX
            },
            !(forall|k: int| 0 <= k < dots@.len() ==> (#[trigger] dots@[k]).indices_within(0))
                ==> r == Err::<(), SimError>(SimError::IndexOutOfBounds),
            r.is_err() ==> *final(self) == *old(self) && (r == Err::<(), SimError>(
                SimError::IndexOutOfBounds,
            ) || r == Err::<(), SimError>(SimError::CapacityOverflow)),
            r.is_ok() ==> {
                &&& final(self).static_meshes@.len() == old(self).static_meshes@.len()
                    + dots@.len()
                &&& forall|k: int|
                    0 <= k < old(self).static_meshes@.len() ==> final(self).static_meshes@[k]
                        == old(self).static_meshes@[k]
                &&& forall|k: int|
                    0 <= k < dots@.len() ==> {
                        let e = #[trigger] final(self).static_meshes@[old(
                            self,
                        ).static_meshes@.len() + k];
                        &&& e.vertices@ == dots@[k].vertices@
                        &&& e.center == dots@[k].center
                        &&& e.buffer_offset == old(self).next_static_index + icount(dots@, k)
                        &&& e.indices@.len() == dots@[k].indices@.len()
                        &&& forall|t: int|
                            0 <= t < dots@[k].indices@.len() ==> #[trigger] e.indices@[t]
                                == dots@[k].indices@[t] + old(self).next_static_vertex + vcount(
                                dots@,
                                k,
                            )
                    }
                &&& final(self).dynamic_meshes@ == old(self).dynamic_meshes@
                &&& final(self).physics_bodies@ == old(self).physics_bodies@
            },
    {
        let ghost dots0 = dots@;
        let nd: usize = dots.len();
        let mut k: usize = 0;
        while k < nd
            invariant
                0 <= k <= nd,
                forall|t: int| 0 <= t < k ==> (#[trigger] dots0[t]).indices_within(0),
            decreases nd - k,
        {
            let ok: bool = dots[k].indices_are_local();
            if !ok {
                return Err(SimError::IndexOutOfBounds);
            }
            k += 1;
        }
        let u32max: usize = u32::MAX as usize;
        let mut vtot: usize = self.next_static_vertex;
        let mut itot: usize = self.next_static_index;
        let mut k: usize = 0;
        while k < nd
            invariant
                0 <= k <= nd,
                vtot == old(self).next_static_vertex + vcount(dots0, k as int),
                itot == old(self).next_static_index + icount(dots0, k as int),
                vtot <= u32max,
            decreases nd - k,
        {
            let vl: usize = dots[k].vertices.len();
            let il: usize = dots[k].indices.len();
            if vl > u32max || vtot > u32max - vl {
                proof {
                    lemma_count_monotone(dots0, k as int + 1, nd as int);
                }
                return Err(SimError::CapacityOverflow);
            }
            if il > usize::MAX - itot {
                proof {
                    lemma_count_monotone(dots0, k as int + 1, nd as int);
                }
                return Err(SimError::CapacityOverflow);
            }
            vtot = vtot + vl;
            itot = itot + il;
            k += 1;
        }
        let mut dots: Vec<Mesh> = dots;
        let mut k: usize = 0;
        while k < nd
            invariant
                0 <= k <= nd,
                self.wf(),
                dots@ =~= dots0.subrange(k as int, nd as int),
                self.static_meshes@.len() == old(self).static_meshes@.len() + k,
                forall|t: int|
                    0 <= t < old(self).static_meshes@.len() ==> self.static_meshes@[t] == old(
                        self,
                    ).static_meshes@[t],
                forall|t: int|
                    0 <= t < k ==> {
                        let e = #[trigger] self.static_meshes@[old(self).static_meshes@.len()
                            + t];
                        &&& e.vertices@ == dots0[t].vertices@
                        &&& e.center == dots0[t].center
                        &&& e.buffer_offset == old(self).next_static_index + icount(dots0, t)
                        &&& e.indices@.len() == dots0[t].indices@.len()
                        &&& forall|u: int|
                            0 <= u < dots0[t].indices@.len() ==> #[trigger] e.indices@[u]
                                == dots0[t].indices@[u] + old(self).next_static_vertex + vcount(
                                dots0,
                                t,
                            )
                    },
                self.next_static_vertex == old(self).next_static_vertex + vcount(
                    dots0,
                    k as int,
                ),
                self.next_static_index == old(self).next_static_index + icount(
                    dots0,
                    k as int,
                ),
                self.next_dynamic_vertex == old(self).next_dynamic_vertex,
                self.next_dynamic_index == old(self).next_dynamic_index,
                self.dynamic_meshes@ == old(self).dynamic_meshes@,
                self.physics_bodies@ == old(self).physics_bodies@,
            decreases nd - k,
        {
            let dot: Mesh = dots.remove(0);
            proof {
                assert(dot == dots0[k as int]);
                lemma_count_monotone(dots0, k as int + 1, nd as int);
            }
            self.append_static(dot);
            proof {
                assert(dots@ =~= dots0.subrange(k as int + 1, nd as int));
            }
            k += 1;
        }
        Ok(())
    }

    /// Projects each body's motion onto its paired mesh: for every
    /// (mesh, body) pair in creation order, every vertex of the mesh is
    /// translated by the body's displacement since the last sync
    /// (`body.position - mesh.center`), and the cached center is then set
    /// to the body's position.  The mesh moves rigidly: the difference of
    /// any two of its vertex positions is unchanged, stated below as its
    /// own clause.  On `Err` nothing changes.
    #[verifier::loop_isolation(false)]
    #[verifier::rlimit(50)]
    pub fn update_dynamic_vertices(&mut self) -> (r: Result<(), SimError>)
        requires
            old(self).wf(),
        ensures
            final(self).wf(),
            r.is_ok() <==> sync_ready(old(self).dynamic_meshes@, old(self).physics_bodies@),
            r.is_err() ==> *final(self) == *old(self) && r == Err::<(), SimError>(
                SimError::OutOfRange,
            ),
            final(self).physics_bodies@ == old(self).physics_bodies@,
            final(self).static_meshes@ == old(self).static_meshes@,
            final(self).dynamic_meshes@.len() == old(self).dynamic_meshes@.len(),
            r.is_ok() ==> forall|i: int|
                0 <= i < old(self).dynamic_meshes@.len() ==> {
                    let om = old(self).dynamic_meshes@[i];
                    let nm = #[trigger] final(self).dynamic_meshes@[i];
                    let delta = old(self).physics_bodies@[i]@.pos.minus(om.center@);
                    &&& nm.center@ == old(self).physics_bodies@[i]@.pos
                    &&& nm.indices@ == om.indices@
                    &&& nm.buffer_offset == om.buffer_offset
                    &&& nm.vertices@.len() == om.vertices@.len()
                    &&& forall|k: int|
                        0 <= k < om.vertices@.len() ==> {
                            let ov = om.vertices@[k];
                            let nv = #[trigger] nm.vertices@[k];
                            &&& nv.position@ == ov.position@.plus(delta)
                            &&& nv.color == ov.color
                            &&& nv.normal == ov.normal
                        }
                },
            r.is_ok() ==> forall|i: int, k: int, l: int|
                0 <= i < old(self).dynamic_meshes@.len() && 0 <= k < old(
                    self,
                ).dynamic_meshes@[i].vertices@.len() && 0 <= l < old(
                    self,
                ).dynamic_meshes@[i].vertices@.len() ==> (
            #[trigger] final(self).dynamic_meshes@[i].vertices@[k].position@.minus(
                final(self).dynamic_meshes@[i].vertices@[l].position@,
            )) == old(self).dynamic_meshes@[i].vertices@[k].position@.minus(
                old(self).dynamic_meshes@[i].vertices@[l].position@,
            ),
    {
        let cl: i64 = COORD_LIMIT;
        let n: usize = self.dynamic_meshes.len();
        let mut i: usize = 0;
        while i < n
            invariant
                0 <= i <= n,
                forall|t: int|
                    0 <= t < i ==> {
                        &&& old(self).physics_bodies@[t]@.pos.in_range(COORD_LIMIT as int)
                        &&& (#[trigger] old(self).dynamic_meshes@[t]).center@.in_range(
                            COORD_LIMIT as int,
                        )
                        &&& forall|k: int|
                            0 <= k < old(self).dynamic_meshes@[t].vertices@.len() ==> (
                            #[trigger] old(self).dynamic_meshes@[t].vertices@[k]).position@.in_range(
                                COORD_LIMIT as int,
                            )
                    },
            decreases n - i,
        {
            let bp: Vec3 = self.physics_bodies[i].pos;
            let ctr: Vec3 = self.dynamic_meshes[i].center;
            if !(-cl <= bp.x && bp.x <= cl && -cl <= bp.y && bp.y <= cl && -cl <= bp.z && bp.z
                <= cl) {
                return Err(SimError::OutOfRange);
            }
            if !(-cl <= ctr.x && ctr.x <= cl && -cl <= ctr.y && ctr.y <= cl && -cl <= ctr.z
                && ctr.z <= cl) {
                return Err(SimError::OutOfRange);
            }
            let vl: usize = self.dynamic_meshes[i].vertices.len();
            let mut k: usize = 0;
            while k < vl
                invariant
                    0 <= k <= vl,
                    0 <= i < n,
                    vl == old(self).dynamic_meshes@[i as int].vertices@.len(),
                    forall|t: int|
                        0 <= t < k ==> (
                        #[trigger] old(self).dynamic_meshes@[i as int].vertices@[t]).position@.in_range(
                            COORD_LIMIT as int,
                        ),
                decreases vl - k,
            {
                let p: Vec3 = self.dynamic_meshes[i].vertices[k].position;
                if !(-cl <= p.x && p.x <= cl && -cl <= p.y && p.y <= cl && -cl <= p.z && p.z
                    <= cl) {
                    return Err(SimError::OutOfRange);
                }
                k += 1;
            }
            i += 1;
        }
        proof {
            assert(sync_ready(old(self).dynamic_meshes@, old(self).physics_bodies@));
        }
        let ghost oldms = self.dynamic_meshes@;
        let mut upd: Vec<Mesh> = Vec::new();
        let mut i: usize = 0;
        while i < n
            invariant
                0 <= i <= n,
                self.dynamic_meshes@ == oldms.subrange(i as int, n as int),
                self.physics_bodies@ == old(self).physics_bodies@,
                self.static_meshes@ == old(self).static_meshes@,
                self.next_static_vertex == old(self).next_static_vertex,
                self.next_static_index == old(self).next_static_index,
                self.next_dynamic_vertex == old(self).next_dynamic_vertex,
                self.next_dynamic_index == old(self).next_dynamic_index,
                upd@.len() == i,
                forall|t: int|
                    0 <= t < i ==> {
                        let om = oldms[t];
                        let nm = #[trigger] upd@[t];
                        let delta = old(self).physics_bodies@[t]@.pos.minus(om.center@);
                        &&& nm.center@ == old(self).physics_bodies@[t]@.pos
                        &&& nm.indices@ == om.indices@
                        &&& nm.buffer_offset == om.buffer_offset
                        &&& nm.vertices@.len() == om.vertices@.len()
                        &&& forall|k: int|
                            0 <= k < om.vertices@.len() ==> {
                                let ov = om.vertices@[k];
                                let nv = #[trigger] nm.vertices@[k];
                                &&& nv.position@ == ov.position@.plus(delta)
                                &&& nv.color == ov.color
                                &&& nv.normal == ov.normal
                            }
                    },
            decreases n - i,
        {
            let mut m: Mesh = self.dynamic_meshes.remove(0);
            proof {
                assert(m == oldms[i as int]);
                assert(self.dynamic_meshes@ =~= oldms.subrange(i as int + 1, n as int));
            }
            let bp: Vec3 = self.physics_bodies[i].pos;
            let dxv: i64 = bp.x - m.center.x;
            let dyv: i64 = bp.y - m.center.y;
            let dzv: i64 = bp.z - m.center.z;
            let ghost m0 = m;
            let ghost delta = old(self).physics_bodies@[i as int]@.pos.minus(m0.center@);
            let vl: usize = m.vertices.len();
            let mut k: usize = 0;
            while k < vl
                invariant
                    0 <= k <= vl,
                    m.vertices@.len() == vl,
                    m.center == m0.center,
                    m.indices@ == m0.indices@,
                    m.buffer_offset == m0.buffer_offset,
                    forall|t: int|
                        0 <= t < k ==> {
                            let ov = m0.vertices@[t];
                            let nv = #[trigger] m.vertices@[t];
                            &&& nv.position@ == ov.position@.plus(delta)
                            &&& nv.color == ov.color
                            &&& nv.normal == ov.normal
                        },
                    forall|t: int| k <= t < vl ==> (#[trigger] m.vertices@[t]) == m0.vertices@[t],
                decreases vl - k,
            {
                let v: Vertex = m.vertices[k];
                let nv: Vertex = Vertex {
                    position: Vec3 { x: v.position.x + dxv, y: v.position.y + dyv, z: v.position.z
                        + dzv },
                    color: v.color,
                    normal: v.normal,
                };
                m.vertices.set(k, nv);
                k += 1;
            }
            m.center = bp;
            upd.push(m);
            i += 1;
        }
        self.dynamic_meshes = upd;
        proof {
            let newms = self.dynamic_meshes@;
            assert(forall|t: int|
                0 <= t < n ==> (#[trigger] newms[t]).vertices@.len() == oldms[t].vertices@.len()
                    && newms[t].indices@.len() == oldms[t].indices@.len());
            assert forall|i2: int| 0 <= i2 < newms.len() implies {
                &&& (#[trigger] newms[i2]).indices_within(vcount(newms, i2))
                &&& newms[i2].buffer_offset == icount(newms, i2)
            } by {
                lemma_counts_same(oldms, newms, i2);
                assert(oldms[i2].indices_within(vcount(oldms, i2)));
            }
            lemma_counts_same(oldms, newms, n as int);
        }
        Ok(())
    }

    /// The flattened vertex buffer of the static decoration meshes, as
    /// the renderer uploads it: a pure projection of the scene.
    pub fn static_vertices(&self) -> (r: Vec<Vertex>)
        ensures
            r@ == cat_vertices(self.static_meshes@, self.static_meshes@.len() as int),
    {
        flatten_vertices(&self.static_meshes)
    }

    /// The flattened index buffer of the static decoration meshes.
    pub fn static_indices(&self) -> (r: Vec<u32>)
        ensures
            r@ == cat_indices(self.static_meshes@, self.static_meshes@.len() as int),
    {
        flatten_indices(&self.static_meshes)
    }

    /// The flattened vertex buffer of the dynamic ball meshes.
    pub fn dynamic_vertices(&self) -> (r: Vec<Vertex>)
        ensures
            r@ == cat_vertices(self.dynamic_meshes@, self.dynamic_meshes@.len() as int),
    {
        flatten_vertices(&self.dynamic_meshes)
    }

    /// The flattened index buffer of the dynamic ball meshes.
    pub fn dynamic_indices(&self) -> (r: Vec<u32>)
        ensures
            r@ == cat_indices(self.dynamic_meshes@, self.dynamic_meshes@.len() as int),
    {
        flatten_indices(&self.dynamic_meshes)
    }

    /// An empty scene.
    pub fn new() -> (r: Scene)
        ensures
            r.wf(),
            r.physics_bodies@.len() == 0,
            r.static_meshes@.len() == 0,
            r.dynamic_meshes@.len() == 0,
    {
        Scene {
            physics_bodies: Vec::new(),
            static_meshes: Vec::new(),
            dynamic_meshes: Vec::new(),
            next_static_vertex: 0,
            next_static_index: 0,
            next_dynamic_vertex: 0,
            next_dynamic_index: 0,
        }
    }
}

impl Default for Scene {
    /// The empty scene.
    fn default() -> (r: Scene)
        ensures
            r.wf(),
            r.physics_bodies@.len() == 0,
            r.static_meshes@.len() == 0,
            r.dynamic_meshes@.len() == 0,
    {
        Scene::new()
    }
}

} // verus!
