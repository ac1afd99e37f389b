use ballsim::body::PhysicsBody;
use ballsim::scene::{Scene, SimError};
use ballsim::vec3::Vec3;
use ballsim::{BALL_RADIUS, BORDER_RADIUS, DT, GRAVITY, SCALE};

fn empty_ball_scene(y: i64) -> Scene {
    let mut scene = Scene::new();
    scene
        .add_ball(BALL_RADIUS, Vec3::new(0, y, 0), Vec::new(), Vec::new())
        .unwrap();
    scene
}

fn origin() -> Vec3 {
    Vec3::new(0, 0, 0)
}

#[test]
fn integrate_one_step_exact() {
    // One step from rest: velocity gains -GRAVITY * DT / SCALE, position
    // advances by the new velocity times DT / SCALE (truncated toward 0).
    let mut scene = empty_ball_scene(750_000);
    scene.update_physics(DT, origin(), BORDER_RADIUS).unwrap();
    let b = scene.physics_bodies[0];
    assert_eq!(b.velocity.y, -9_800);
    assert_eq!(b.pos.y, 750_000 - 9);
    assert_eq!(b.velocity.x, 0);
    assert_eq!(b.velocity.z, 0);
    assert_eq!(b.pos.x, 0);
    assert_eq!(b.pos.z, 0);
}

#[test]
fn scenario_single_ball_drops_and_bounces() {
    // A ball of radius 0.04 dropped from (0, 0.75, 0) inside a boundary of
    // radius 0.85 falls, touches the floor at y = -(0.85 - 0.04) = -0.81,
    // and comes back up with the normal velocity scaled by 0.95.
    let mut scene = empty_ball_scene(750_000);
    let mut min_y: i64 = i64::MAX;
    let mut bounced = false;
    let mut prev_vy: i64 = 0;
    for _ in 0..850 {
        let before = scene.physics_bodies[0];
        scene.update_physics(DT, origin(), BORDER_RADIUS).unwrap();
        let b = scene.physics_bodies[0];
        if b.pos.y < min_y {
            min_y = b.pos.y;
        }
        // containment: floor distance + radius stays within the boundary
        let n2 = (b.pos.x as i128) * (b.pos.x as i128) + (b.pos.y as i128) * (b.pos.y as i128)
            + (b.pos.z as i128) * (b.pos.z as i128);
        let lim: i128 = (BORDER_RADIUS - BALL_RADIUS + 1) as i128;
        assert!(n2 < lim * lim);
        if prev_vy < 0 && b.velocity.y > 0 && !bounced {
            bounced = true;
            // the velocity the border op saw: one more gravity increment
            let approach = before.velocity.y - GRAVITY * DT / SCALE;
            assert!(approach < 0);
            // reflected and scaled by exactly 95/100 (axis-aligned contact)
            assert_eq!(100 * b.velocity.y, 95 * (-approach));
        }
        prev_vy = b.velocity.y;
    }
    assert!(bounced);
    // first contact repositions the ball exactly tangent to the floor
    assert_eq!(min_y, -(BORDER_RADIUS - BALL_RADIUS));
}

#[test]
fn scenario_head_on_collision_swaps_velocities() {
    // Two unit-mass balls of radius 0.04, approaching head-on at 1.0 and
    // -1.0 along x, just touching: after one resolution the velocities
    // swap sign and scale by the restitution factor 0.95.
    let mut a = PhysicsBody::new(Vec3::new(0, 0, 0), BALL_RADIUS);
    let mut b = PhysicsBody::new(Vec3::new(79_999, 0, 0), BALL_RADIUS);
    a.velocity = Vec3::new(1_000_000, 0, 0);
    b.velocity = Vec3::new(-1_000_000, 0, 0);
    a.collide_with(&mut b);
    assert_eq!(a.velocity.x, -950_000);
    assert_eq!(b.velocity.x, 950_000);
    assert_eq!(a.velocity.y, 0);
    assert_eq!(b.velocity.y, 0);
    assert_eq!(a.velocity.z, 0);
    assert_eq!(b.velocity.z, 0);
    // overlap of one fixed-point unit rounds to no positional shift
    assert_eq!(a.pos, Vec3::new(0, 0, 0));
    assert_eq!(b.pos, Vec3::new(79_999, 0, 0));
}

#[test]
fn scenario_ball_at_border_center_is_left_alone() {
    // A body whose center sits exactly at the boundary center has no
    // outward direction: the constraint must leave position and velocity
    // untouched rather than produce garbage.
    let mut b = PhysicsBody::new(Vec3::new(0, 0, 0), BALL_RADIUS);
    b.velocity = Vec3::new(123, -456, 789);
    b.keep_within_border(origin(), BORDER_RADIUS);
    assert_eq!(b.pos, Vec3::new(0, 0, 0));
    assert_eq!(b.velocity, Vec3::new(123, -456, 789));
}

#[test]
fn ball_at_center_too_large_for_border_is_left_alone() {
    // Even a body too large for the boundary is left alone at distance
    // zero: there is no direction to push it along.
    let mut b = PhysicsBody::new(Vec3::new(0, 0, 0), 900_000);
    b.velocity = Vec3::new(5, 5, 5);
    b.keep_within_border(origin(), BORDER_RADIUS);
    assert_eq!(b.pos, Vec3::new(0, 0, 0));
    assert_eq!(b.velocity, Vec3::new(5, 5, 5));
}

#[test]
fn border_repositions_escaped_ball_to_tangent() {
    // A ball that has left the boundary comes back exactly tangent to it.
    let mut b = PhysicsBody::new(Vec3::new(0, -900_000, 0), BALL_RADIUS);
    b.velocity = Vec3::new(0, -2_000_000, 0);
    b.keep_within_border(origin(), BORDER_RADIUS);
    assert_eq!(b.pos, Vec3::new(0, -(BORDER_RADIUS - BALL_RADIUS), 0));
    // reflected upward and scaled by 95/100
    assert_eq!(b.velocity, Vec3::new(0, 1_900_000, 0));
}

#[test]
fn separating_contact_is_a_no_op() {
    // An overlapping pair already flying apart is left entirely alone:
    // no impulse and no positional correction.
    let mut a = PhysicsBody::new(Vec3::new(0, 0, 0), BALL_RADIUS);
    let mut b = PhysicsBody::new(Vec3::new(50_000, 0, 0), BALL_RADIUS);
    a.velocity = Vec3::new(-300_000, 0, 0);
    b.velocity = Vec3::new(300_000, 0, 0);
    a.collide_with(&mut b);
    assert_eq!(a.pos, Vec3::new(0, 0, 0));
    assert_eq!(b.pos, Vec3::new(50_000, 0, 0));
    assert_eq!(a.velocity, Vec3::new(-300_000, 0, 0));
    assert_eq!(b.velocity, Vec3::new(300_000, 0, 0));
}

#[test]
fn deep_overlap_strictly_separates() {
    // A deeply interpenetrating approaching pair ends one resolution
    // strictly farther apart, and never closer.
    let mut a = PhysicsBody::new(Vec3::new(0, 0, 0), BALL_RADIUS);
    let mut b = PhysicsBody::new(Vec3::new(30_000, 0, 0), BALL_RADIUS);
    a.velocity = Vec3::new(100_000, 0, 0);
    b.velocity = Vec3::new(-100_000, 0, 0);
    a.collide_with(&mut b);
    let gap = b.pos.x - a.pos.x;
    assert!(gap > 30_000);
    // the correction closes the 50_000-unit penetration almost exactly
    assert!(gap >= 79_990 && gap <= 80_002);
}

#[test]
fn collision_respects_restitution_bound() {
    // Post-contact approach speed is at most 0.95 of the pre-contact one
    // (both velocities along the x axis here, so read off directly).
    let mut a = PhysicsBody::new(Vec3::new(0, 0, 0), BALL_RADIUS);
    let mut b = PhysicsBody::new(Vec3::new(60_000, 0, 0), BALL_RADIUS);
    a.velocity = Vec3::new(700_000, 0, 0);
    b.velocity = Vec3::new(-500_000, 0, 0);
    let approach = a.velocity.x - b.velocity.x;
    a.collide_with(&mut b);
    let recede = b.velocity.x - a.velocity.x;
    assert!(recede >= 0);
    assert!(100 * (recede as i128) <= 95 * (approach as i128) + 100);
}

#[test]
fn step_out_of_envelope_is_refused_unchanged() {
    // A body outside the arithmetic envelope refuses the whole step and
    // leaves the scene exactly as it was.
    let mut scene = empty_ball_scene(750_000);
    scene.physics_bodies[0].velocity.x = i64::MAX / 2;
    let before = scene.physics_bodies[0];
    let r = scene.update_physics(DT, origin(), BORDER_RADIUS);
    assert_eq!(r, Err(SimError::OutOfRange));
    assert_eq!(scene.physics_bodies[0], before);
}

#[test]
fn zero_time_step_is_refused() {
    let mut scene = empty_ball_scene(0);
    let r = scene.update_physics(0, origin(), BORDER_RADIUS);
    assert_eq!(r, Err(SimError::OutOfRange));
}

#[test]
fn two_falling_balls_stay_apart_and_inside() {
    // Two balls dropped close together settle without sustained
    // interpenetration and never leave the boundary.
    let mut scene = Scene::new();
    scene
        .add_ball(BALL_RADIUS, Vec3::new(0, 750_000, 0), Vec::new(), Vec::new())
        .unwrap();
    scene
        .add_ball(BALL_RADIUS, Vec3::new(10_000, 0, 0), Vec::new(), Vec::new())
        .unwrap();
    for _ in 0..600 {
        scene.update_physics(DT, origin(), BORDER_RADIUS).unwrap();
        for b in &scene.physics_bodies {
            let n2 = (b.pos.x as i128) * (b.pos.x as i128) + (b.pos.y as i128)
                * (b.pos.y as i128) + (b.pos.z as i128) * (b.pos.z as i128);
            let lim: i128 = (BORDER_RADIUS - BALL_RADIUS + 30_000) as i128;
            assert!(n2 < lim * lim);
        }
    }
}
