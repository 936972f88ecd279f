use fluid_sim::config::PhysicsConfig;
use fluid_sim::fixed::{clamp_to_limit, div_toward_zero, isqrt, LIMIT, SCALE};
use fluid_sim::math::{screen_to_world, world_to_open_gl, world_to_screen, Vec2};
use fluid_sim::particle::Particle;
use fluid_sim::scene_data::{particle_at_pixel, SceneData, SpawningMethod};
use fluid_sim::{PIXEL_SIZE, SCREEN_HEIGHT, WORLD_HEIGHT, WORLD_WIDTH};

#[test]
fn integer_square_root_rounds_down() {
    assert_eq!(isqrt(0), 0);
    assert_eq!(isqrt(1), 1);
    assert_eq!(isqrt(15), 3);
    assert_eq!(isqrt(16), 4);
    assert_eq!(isqrt(200_000_000), 14_142);
    assert_eq!(isqrt(1u128 << 98), 1u128 << 49);
}

#[test]
fn division_rounds_toward_zero() {
    assert_eq!(div_toward_zero(7, 2), 3);
    assert_eq!(div_toward_zero(-7, 2), -3);
    assert_eq!(div_toward_zero(-6, 3), -2);
}

#[test]
fn clamp_saturates_to_limit() {
    assert_eq!(clamp_to_limit(5), 5);
    assert_eq!(clamp_to_limit(LIMIT as i128 + 1), LIMIT);
    assert_eq!(clamp_to_limit(-(LIMIT as i128) - 7), -LIMIT);
}

#[test]
fn screen_and_world_coordinates() {
    assert_eq!(screen_to_world((100, 200)), Vec2::new(50_000, 400_000));
    assert_eq!(screen_to_world((0, SCREEN_HEIGHT)), Vec2::new(0, 0));
    assert_eq!(world_to_screen(Vec2::new(50_000, 400_000)), (100, 200));
    assert_eq!(world_to_screen(Vec2::new(-1_000_000_000, 0)), (i16::MIN, 1000));
    assert_eq!(world_to_screen(Vec2::new(0, 1_000_000_000)), (0, 1000 - i16::MAX));
}

#[test]
fn open_gl_coordinates_span_the_world() {
    assert_eq!(world_to_open_gl(Vec2::new(0, 0)), Vec2::new(-SCALE, -SCALE));
    assert_eq!(world_to_open_gl(Vec2::new(WORLD_WIDTH / 2, WORLD_HEIGHT)), Vec2::new(0, SCALE));
    assert_eq!(world_to_open_gl(Vec2::new(WORLD_WIDTH / 4, 0)), Vec2::new(-SCALE / 2, -SCALE));
}

#[test]
fn particle_mutators() {
    let mut p = Particle::new(Vec2::new(100_000, 200_000), 3 * SCALE);
    assert_eq!(p.vel, Vec2::zero());
    assert_eq!(p.accel, Vec2::zero());
    assert_eq!(p.mass, 3 * SCALE);
    p.set_accel(Vec2::new(2_000_000, -1_000_000));
    p.apply_accel(500_000);
    assert_eq!(p.vel, Vec2::new(1_000_000, -500_000));
    p.apply_vel(100_000);
    assert_eq!(p.pos, Vec2::new(200_000, 150_000));
    p.add_accel(-1, 1);
    assert_eq!(p.accel, Vec2::new(1_999_999, -999_999));
}

#[test]
fn default_configuration() {
    let cfg = PhysicsConfig::default();
    assert_eq!(cfg.gravity, 0);
    assert_eq!(cfg.drag_coefficient, SCALE);
    assert_eq!(cfg.particle_force_scale, 200);
    assert_eq!(cfg.wall_force_scale, 5_000);
    assert_eq!(cfg.restitution, 100_000);
    assert_eq!(cfg.min_distance, 10_000);
    assert_eq!(cfg.coincident_offset, 10_000);
    assert_eq!(cfg.wall_offset, 10_000);
    assert_eq!((cfg.world_width, cfg.world_height), (WORLD_WIDTH, WORLD_HEIGHT));
}

#[test]
fn spawned_particle_at_pixel() {
    let p = particle_at_pixel(10, 20);
    assert_eq!(p.pos, Vec2::new(10 * PIXEL_SIZE, 980 * PIXEL_SIZE));
    assert_eq!(p.vel, Vec2::zero());
    assert_eq!(p.mass, SCALE);
}

#[test]
fn random_spawn_fills_the_screen_at_rest() {
    let scene = SceneData::new(SpawningMethod::Random, 200);
    assert_eq!(scene.len(), 200);
    for p in scene.particles() {
        assert_eq!(p.pos.x % PIXEL_SIZE, 0);
        assert_eq!(p.pos.y % PIXEL_SIZE, 0);
        assert!(0 <= p.pos.x && p.pos.x < WORLD_WIDTH);
        assert!(0 < p.pos.y && p.pos.y <= WORLD_HEIGHT);
        assert_eq!(p.vel, Vec2::zero());
        assert_eq!(p.accel, Vec2::zero());
        assert_eq!(p.mass, SCALE);
    }
    let first = scene.particles()[0].pos;
    assert!(scene.particles().iter().any(|p| p.pos != first));
}

#[test]
fn empty_population() {
    let cfg = PhysicsConfig::default();
    let mut scene = SceneData::from_particles(Vec::new());
    fluid_sim::physics::physics_update(&mut scene, 10_000, &fluid_sim::physics::CursorState::Idle, &cfg);
    assert_eq!(scene.len(), 0);
}
