use fluid_sim::config::PhysicsConfig;
use fluid_sim::fixed::{LIMIT, SCALE};
use fluid_sim::math::Vec2;
use fluid_sim::particle::Particle;
use fluid_sim::physics::{
    apply_repulsive_particle_force, apply_repulsive_wall_force, bound_particles, get_force,
    physics_update, CursorState,
};
use fluid_sim::scene_data::SceneData;

fn quiet_config() -> PhysicsConfig {
    PhysicsConfig {
        gravity: 0,
        drag_coefficient: 0,
        particle_force_scale: 0,
        wall_force_scale: 0,
        ..PhysicsConfig::default()
    }
}

fn at(x: i64, y: i64) -> Particle {
    Particle::new(Vec2::new(x, y), SCALE)
}

fn moving(x: i64, y: i64, vx: i64, vy: i64) -> Particle {
    let mut p = at(x, y);
    p.vel = Vec2::new(vx, vy);
    p
}

#[test]
fn single_free_particle_under_gravity() {
    let cfg = PhysicsConfig { gravity: -9_810_000, ..quiet_config() };
    let mut scene = SceneData::from_particles(vec![at(500_000, 500_000)]);
    physics_update(&mut scene, 10_000, &CursorState::Idle, &cfg);
    let p = scene.particles()[0];
    assert_eq!(p.vel, Vec2::new(0, -98_100));
    assert_eq!(p.pos, Vec2::new(500_000, 500_000 - 981));
    assert_eq!(p.accel, Vec2::new(0, -9_810_000));
}

#[test]
fn two_coincident_particles() {
    let cfg = PhysicsConfig { particle_force_scale: 200, ..quiet_config() };
    let mut scene = SceneData::from_particles(vec![at(250_000, 250_000), at(250_000, 250_000)]);
    apply_repulsive_particle_force(&mut scene, &cfg);
    let a = scene.particles()[0].accel;
    let b = scene.particles()[1].accel;
    assert_eq!(a, Vec2::new(-707_126, -707_126));
    assert_eq!(b, Vec2::new(707_126, 707_126));
}

#[test]
fn coincident_force_is_finite_and_diagonal() {
    let cfg = PhysicsConfig::default();
    let p = Vec2::new(250_000, 250_000);
    let f = get_force(p, p, cfg.particle_force_scale, &cfg);
    assert_eq!(f, Vec2::new(-707_126, -707_126));
}

#[test]
fn force_is_inverse_square_and_antisymmetric() {
    let cfg = PhysicsConfig::default();
    let a = Vec2::new(100_000, 200_000);
    let b = Vec2::new(130_000, 240_000);
    let fa = get_force(a, b, 200, &cfg);
    let fb = get_force(b, a, 200, &cfg);
    assert_eq!(fa, Vec2::new(-48_000, -64_000));
    assert_eq!(fb, Vec2::new(48_000, 64_000));
}

#[test]
fn force_distance_is_floored() {
    let cfg = PhysicsConfig::default();
    // 0.001 apart: the distance is taken as 0.01, so the magnitude is 0.0002 / 0.0001 = 2.
    let f = get_force(Vec2::new(0, 0), Vec2::new(1_000, 0), 200, &cfg);
    assert_eq!(f, Vec2::new(-2_000_000, 0));
}

#[test]
fn pair_forces_scale_by_each_mass() {
    let cfg = PhysicsConfig { particle_force_scale: 200, ..quiet_config() };
    let light = at(100_000, 200_000);
    let heavy = Particle::new(Vec2::new(130_000, 240_000), 2 * SCALE);
    let mut scene = SceneData::from_particles(vec![light, heavy]);
    apply_repulsive_particle_force(&mut scene, &cfg);
    assert_eq!(scene.particles()[0].accel, Vec2::new(-48_000, -64_000));
    assert_eq!(scene.particles()[1].accel, Vec2::new(24_000, 32_000));
}

#[test]
fn cursor_pull_within_radius() {
    let cfg = PhysicsConfig { cursor_radius: 200_000, cursor_force: 15_000_000, ..quiet_config() };
    let mut scene = SceneData::from_particles(vec![at(250_000, 250_000)]);
    physics_update(&mut scene, 0, &CursorState::Pull(Vec2::new(350_000, 250_000)), &cfg);
    assert_eq!(scene.particles()[0].accel, Vec2::new(15_000_000, 0));
}

#[test]
fn cursor_push_within_radius() {
    let cfg = PhysicsConfig { cursor_radius: 200_000, cursor_force: 15_000_000, ..quiet_config() };
    let mut scene = SceneData::from_particles(vec![at(250_000, 250_000)]);
    physics_update(&mut scene, 0, &CursorState::Push(Vec2::new(250_000, 150_000)), &cfg);
    assert_eq!(scene.particles()[0].accel, Vec2::new(0, 15_000_000));
}

#[test]
fn cursor_outside_radius_has_no_effect() {
    let cfg = PhysicsConfig { cursor_radius: 200_000, cursor_force: 15_000_000, ..quiet_config() };
    let mut scene = SceneData::from_particles(vec![at(250_000, 250_000), at(100_000, 100_000)]);
    physics_update(&mut scene, 0, &CursorState::Pull(Vec2::new(100_000, 450_000)), &cfg);
    // the first particle is 0.25 away, outside the radius; the second exactly 0.35 away.
    assert_eq!(scene.particles()[0].accel, Vec2::new(0, 0));
    assert_eq!(scene.particles()[1].accel, Vec2::new(0, 0));
}

#[test]
fn cursor_at_exact_radius_has_no_effect() {
    let cfg = PhysicsConfig { cursor_radius: 200_000, cursor_force: 15_000_000, ..quiet_config() };
    let mut scene = SceneData::from_particles(vec![at(250_000, 250_000)]);
    physics_update(&mut scene, 0, &CursorState::Pull(Vec2::new(450_000, 250_000)), &cfg);
    assert_eq!(scene.particles()[0].accel, Vec2::new(0, 0));
}

#[test]
fn drag_opposes_velocity_over_mass() {
    let cfg = PhysicsConfig { drag_coefficient: SCALE, ..quiet_config() };
    let mut p = Particle::new(Vec2::new(250_000, 250_000), 2 * SCALE);
    p.vel = Vec2::new(1_000_000, -400_000);
    let mut scene = SceneData::from_particles(vec![p]);
    physics_update(&mut scene, 0, &CursorState::Idle, &cfg);
    assert_eq!(scene.particles()[0].accel, Vec2::new(-500_000, 200_000));
}

#[test]
fn walls_cancel_at_the_centre() {
    let cfg = PhysicsConfig::default();
    let mut scene = SceneData::from_particles(vec![at(250_000, 250_000)]);
    apply_repulsive_wall_force(&mut scene, &cfg);
    assert_eq!(scene.particles()[0].accel, Vec2::new(0, 0));
}

#[test]
fn wall_pushes_back_near_the_left_edge() {
    let cfg = PhysicsConfig::default();
    let mut scene = SceneData::from_particles(vec![at(20_000, 250_000)]);
    apply_repulsive_wall_force(&mut scene, &cfg);
    assert_eq!(scene.particles()[0].accel, Vec2::new(5_534_731, 0));
}

#[test]
fn restitution_damps_a_lower_bounce() {
    let cfg = PhysicsConfig::default();
    let mut scene = SceneData::from_particles(vec![moving(-1_000, 100_000, -200_000, 0)]);
    bound_particles(&mut scene, &cfg);
    let p = scene.particles()[0];
    assert_eq!(p.pos, Vec2::new(1_000, 100_000));
    assert_eq!(p.vel, Vec2::new(20_000, 0));
}

#[test]
fn upper_bounce_reflects_the_overshoot() {
    let cfg = PhysicsConfig::default();
    let mut scene = SceneData::from_particles(vec![moving(503_000, 500_004, 50_000, 70_000)]);
    bound_particles(&mut scene, &cfg);
    let p = scene.particles()[0];
    assert_eq!(p.pos, Vec2::new(497_000, 499_996));
    assert_eq!(p.vel, Vec2::new(-5_000, -7_000));
}

#[test]
fn corner_bounce_reflects_both_axes() {
    let cfg = PhysicsConfig::default();
    let mut scene = SceneData::from_particles(vec![moving(-10, -20, -100, -300)]);
    bound_particles(&mut scene, &cfg);
    let p = scene.particles()[0];
    assert_eq!(p.pos, Vec2::new(10, 20));
    assert_eq!(p.vel, Vec2::new(10, 30));
}

#[test]
fn inside_particle_is_not_bounced() {
    let cfg = PhysicsConfig::default();
    let p = moving(0, 500_000, -100, 300);
    let mut scene = SceneData::from_particles(vec![p]);
    bound_particles(&mut scene, &cfg);
    assert_eq!(scene.particles()[0], p);
}

#[test]
fn steps_are_deterministic() {
    let cfg = PhysicsConfig::default();
    let start = vec![
        moving(100_000, 100_000, 30_000, -20_000),
        moving(110_000, 100_500, 0, 0),
        moving(400_000, 20_000, -5_000, 1_000),
    ];
    let mut a = SceneData::from_particles(start.clone());
    let mut b = SceneData::from_particles(start);
    for _ in 0..5 {
        physics_update(&mut a, 10_000, &CursorState::Idle, &cfg);
        physics_update(&mut b, 10_000, &CursorState::Idle, &cfg);
    }
    assert_eq!(a.particles(), b.particles());
}

#[test]
fn population_stays_in_bounds_with_its_size_and_masses() {
    let cfg = PhysicsConfig::default();
    let mut scene = SceneData::new(fluid_sim::scene_data::SpawningMethod::Random, 40);
    for step in 0..30 {
        let cursor = if step % 2 == 0 {
            CursorState::Push(Vec2::new(250_000, 250_000))
        } else {
            CursorState::Idle
        };
        physics_update(&mut scene, 10_000, &cursor, &cfg);
        assert_eq!(scene.len(), 40);
        for p in scene.particles() {
            assert_eq!(p.mass, SCALE);
            assert!(0 <= p.pos.x && p.pos.x <= cfg.world_width);
            assert!(0 <= p.pos.y && p.pos.y <= cfg.world_height);
        }
    }
}

#[test]
fn acceleration_saturates() {
    let mut p = at(0, 0);
    p.add_accel(3 * LIMIT as i128, -5 * LIMIT as i128);
    assert_eq!(p.accel, Vec2::new(LIMIT, -LIMIT));
}
