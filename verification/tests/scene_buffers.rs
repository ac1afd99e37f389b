use ballsim::mesh::{Color4, Mesh, Vertex};
use ballsim::scene::{Scene, SimError};
use ballsim::vec3::Vec3;
use ballsim::{BALL_RADIUS, BORDER_RADIUS, DT};

fn gray() -> Color4 {
    Color4 { r: 500_000, g: 500_000, b: 500_000, a: 1_000_000 }
}

fn tri(x: i64, y: i64, z: i64) -> (Vec<Vertex>, Vec<u32>) {
    let up = Vec3::new(0, 1_000_000, 0);
    let verts = vec![
        Vertex::new(Vec3::new(x, y, z), gray(), up),
        Vertex::new(Vec3::new(x + 1_000, y, z), gray(), up),
        Vertex::new(Vec3::new(x, y + 1_000, z), gray(), up),
    ];
    let idx = vec![0u32, 1, 2];
    (verts, idx)
}

#[test]
fn add_ball_offsets_indices_into_shared_buffers() {
    let mut scene = Scene::new();
    let (v1, i1) = tri(0, 0, 0);
    scene.add_ball(BALL_RADIUS, Vec3::new(0, 0, 0), v1, i1).unwrap();
    let (v2, i2) = tri(5_000, 0, 0);
    scene.add_ball(BALL_RADIUS, Vec3::new(5_000, 0, 0), v2, i2).unwrap();
    assert_eq!(scene.physics_bodies.len(), 2);
    assert_eq!(scene.dynamic_meshes.len(), 2);
    // the second mesh addresses the shared buffers after the first
    assert_eq!(scene.dynamic_meshes[0].indices, vec![0, 1, 2]);
    assert_eq!(scene.dynamic_meshes[1].indices, vec![3, 4, 5]);
    assert_eq!(scene.dynamic_meshes[0].buffer_offset, 0);
    assert_eq!(scene.dynamic_meshes[1].buffer_offset, 3);
    assert_eq!(scene.next_dynamic_vertex, 6);
    assert_eq!(scene.next_dynamic_index, 6);
    // bodies start at rest with unit mass
    assert_eq!(scene.physics_bodies[1].velocity, Vec3::new(0, 0, 0));
    assert_eq!(scene.physics_bodies[1].mass, 1_000_000);
    assert_eq!(scene.physics_bodies[1].radius, BALL_RADIUS);
}

#[test]
fn add_ball_rejects_nonpositive_radius() {
    let mut scene = Scene::new();
    let r = scene.add_ball(0, Vec3::new(0, 0, 0), Vec::new(), Vec::new());
    assert_eq!(r, Err(SimError::InvalidRadius));
    assert_eq!(scene.physics_bodies.len(), 0);
    assert_eq!(scene.dynamic_meshes.len(), 0);
}

#[test]
fn add_ball_rejects_foreign_indices() {
    let mut scene = Scene::new();
    let (v1, _) = tri(0, 0, 0);
    let r = scene.add_ball(BALL_RADIUS, Vec3::new(0, 0, 0), v1, vec![0, 1, 3]);
    assert_eq!(r, Err(SimError::IndexOutOfBounds));
    assert_eq!(scene.dynamic_meshes.len(), 0);
}

#[test]
fn border_decoration_is_appended_in_order() {
    let mut scene = Scene::new();
    let (v1, i1) = tri(800_000, 0, 0);
    let (v2, i2) = tri(-800_000, 0, 0);
    let dots = vec![
        Mesh::new(v1, i1, Vec3::new(800_000, 0, 0)),
        Mesh::new(v2, i2, Vec3::new(-800_000, 0, 0)),
    ];
    scene.create_3d_border(dots).unwrap();
    assert_eq!(scene.static_meshes.len(), 2);
    assert_eq!(scene.static_meshes[0].indices, vec![0, 1, 2]);
    assert_eq!(scene.static_meshes[1].indices, vec![3, 4, 5]);
    assert_eq!(scene.static_meshes[1].buffer_offset, 3);
    assert_eq!(scene.next_static_vertex, 6);
    // the dynamic side is untouched
    assert_eq!(scene.dynamic_meshes.len(), 0);
    assert_eq!(scene.next_dynamic_vertex, 0);
}

#[test]
fn border_decoration_rejects_bad_mesh_without_change() {
    let mut scene = Scene::new();
    let (v1, i1) = tri(0, 0, 0);
    let (v2, _) = tri(0, 0, 0);
    let dots = vec![
        Mesh::new(v1, i1, Vec3::new(0, 0, 0)),
        Mesh::new(v2, vec![0, 1, 9], Vec3::new(0, 0, 0)),
    ];
    let r = scene.create_3d_border(dots);
    assert_eq!(r, Err(SimError::IndexOutOfBounds));
    assert_eq!(scene.static_meshes.len(), 0);
    assert_eq!(scene.next_static_vertex, 0);
    assert_eq!(scene.next_static_index, 0);
}

#[test]
fn accessors_flatten_buffers_in_order() {
    let mut scene = Scene::new();
    let (v1, i1) = tri(0, 0, 0);
    scene.add_ball(BALL_RADIUS, Vec3::new(0, 0, 0), v1.clone(), i1).unwrap();
    let (v2, i2) = tri(5_000, 0, 0);
    scene.add_ball(BALL_RADIUS, Vec3::new(5_000, 0, 0), v2.clone(), i2).unwrap();
    let flat = scene.dynamic_vertices();
    assert_eq!(flat.len(), 6);
    assert_eq!(flat[0], v1[0]);
    assert_eq!(flat[2], v1[2]);
    assert_eq!(flat[3], v2[0]);
    assert_eq!(flat[5], v2[2]);
    assert_eq!(scene.dynamic_indices(), vec![0, 1, 2, 3, 4, 5]);
    assert_eq!(scene.static_vertices().len(), 0);
    assert_eq!(scene.static_indices().len(), 0);
}

#[test]
fn geometry_sync_translates_mesh_rigidly() {
    let mut scene = Scene::new();
    let (v1, i1) = tri(0, 750_000, 0);
    let spread_before = {
        let a = &v1[0];
        let b = &v1[1];
        (b.position.x - a.position.x, b.position.y - a.position.y)
    };
    scene.add_ball(BALL_RADIUS, Vec3::new(0, 750_000, 0), v1, i1).unwrap();
    for _ in 0..200 {
        scene.update_physics(DT, Vec3::new(0, 0, 0), BORDER_RADIUS).unwrap();
        scene.update_dynamic_vertices().unwrap();
    }
    let m = &scene.dynamic_meshes[0];
    let b = &scene.physics_bodies[0];
    // the cached center tracks the body
    assert_eq!(m.center, b.pos);
    // the body fell, and the mesh followed
    assert!(b.pos.y < 700_000);
    assert_eq!(m.vertices[0].position.y - 750_000, b.pos.y - 750_000);
    // rigid translation: pairwise vertex offsets are preserved
    let a2 = &m.vertices[0];
    let b2 = &m.vertices[1];
    assert_eq!(
        (b2.position.x - a2.position.x, b2.position.y - a2.position.y),
        spread_before
    );
    // colors and normals ride along untouched
    assert_eq!(m.vertices[0].color, gray());
}

#[test]
fn geometry_sync_refuses_out_of_envelope_vertex() {
    let mut scene = Scene::new();
    let up = Vec3::new(0, 1_000_000, 0);
    let far = vec![Vertex::new(Vec3::new(i64::MAX / 2, 0, 0), gray(), up)];
    scene.add_ball(BALL_RADIUS, Vec3::new(0, 0, 0), far, Vec::new()).unwrap();
    let r = scene.update_dynamic_vertices();
    assert_eq!(r, Err(SimError::OutOfRange));
    // nothing moved
    assert_eq!(scene.dynamic_meshes[0].vertices[0].position.x, i64::MAX / 2);
}

#[test]
fn default_scene_is_empty() {
    let scene = Scene::default();
    assert_eq!(scene.physics_bodies.len(), 0);
    assert_eq!(scene.static_meshes.len(), 0);
    assert_eq!(scene.dynamic_meshes.len(), 0);
}
