//! Renderable geometry: colored vertices and triangle meshes, with the
//! bookkeeping that ties a mesh's indices to its own slice of the shared
//! vertex buffer.

use vstd::prelude::*;
use crate::vec3::Vec3;

verus! {

/// An RGBA color, each channel an `i64` count of fixed-point units
/// (`crate::SCALE` per unit intensity).  The physics never reads colors;
/// they ride along for the renderer.
#[derive(Clone, Copy, Debug, PartialEq, Eq, Structural)]
pub struct Color4 {
    pub r: i64,
    pub g: i64,
    pub b: i64,
    pub a: i64,
}

/// One renderable vertex: position, color and outward normal.
#[derive(Clone, Copy, Debug, PartialEq, Eq, Structural)]
pub struct Vertex {
    pub position: Vec3,
    pub color: Color4,
    pub normal: Vec3,
}

impl Vertex {
    /// A vertex from its parts.
    pub fn new(position: Vec3, color: Color4, normal: Vec3) -> (r: Vertex)
        ensures
            r == (Vertex { position, color, normal }),
    {
        Vertex { position, color, normal }
    }
}

/// Triangle geometry for one body or one static decoration: vertices,
/// triangle indices (offset, once appended to a scene, so that they
/// address the shared vertex buffer), the starting offset in the shared
/// index buffer, and the cached center that geometry sync measures each
/// body's displacement against.
#[derive(Debug)]
pub struct Mesh {
    pub vertices: Vec<Vertex>,
    pub indices: Vec<u32>,
    pub buffer_offset: usize,
    pub center: Vec3,
}

impl Mesh {
    /// A mesh fresh from the tessellation collaborator: indices still
    /// local (zero-based within `vertices`), not yet appended anywhere.
    pub fn new(vertices: Vec<Vertex>, indices: Vec<u32>, center: Vec3) -> (r: Mesh)
        ensures
            r.vertices@ == vertices@,
            r.indices@ == indices@,
            r.buffer_offset == 0,
            r.center == center,
    {
        Mesh { vertices, indices, buffer_offset: 0, center }
    }

    /// Every triangle index addresses a vertex of this mesh itself, read
    /// with the vertex base `base` the mesh was appended at.
    pub open spec fn indices_within(self, base: int) -> bool {
        forall|k: int|
            0 <= k < self.indices@.len() ==> base <= #[trigger] self.indices@[k] < base
                + self.vertices@.len()
    }

    /// Checks that every index is local to this mesh's own vertices
    /// (zero-based), as the tessellation collaborator promises to hand
    /// them over.
    pub fn indices_are_local(&self) -> (r: bool)
        ensures
            r == self.indices_within(0),
    {
        let mut k: usize = 0;
        let mut ok: bool = true;
        while k < self.indices.len()
            invariant
                0 <= k <= self.indices@.len(),
                ok == (forall|t: int|
                    0 <= t < k ==> 0 <= #[trigger] self.indices@[t] < self.vertices@.len()),
            decreases self.indices@.len() - k,
        {
            if (self.indices[k] as usize) >= self.vertices.len() {
                ok = false;
            }
            k += 1;
        }
        ok
    }
}

} // verus!
