//! Properties of the simulation step, stated over the step's model and proved.
use vstd::prelude::*;
use crate::config::PhysicsConfig;
use crate::fixed::{
    fmul, in_range, sqrt_floor, lemma_coord_le_sqrt, lemma_sqrt_floor_exists, lemma_sqrt_floor_pos,
    lemma_tdiv_bound, lemma_tdiv_le, lemma_tdiv_neg, lemma_mul_bound, SCALE, LIMIT,
};
use crate::math::Vec2;
use crate::particle::Particle;
use crate::physics::{
    accelerate_all, apply_pair, bound_all, bound_particle, force_spec, inverse_square, length, per_mass,
    separation, unit, integrated, lemma_pairs_upto_keeps, move_all, pairs_all,
    prelude_all, reflect, step_spec, walls_all, CursorState,
};
use crate::scene_data::all_wf;

verus! {

/// `n` steps with the same time step and cursor.
pub open spec fn steps(
    s: Seq<Particle>,
    n: nat,
    dt: int,
    cursor: CursorState,
    cfg: PhysicsConfig,
) -> Seq<Particle>
    decreases n,
{
    if n == 0 {
        s
    } else {
        step_spec(steps(s, (n - 1) as nat, dt, cursor, cfg), dt, cursor, cfg)
    }
}

proof fn lemma_reflect_range(pos: int, vel: int, hi: int, r: int)
    requires
        in_range(pos),
        in_range(vel),
        0 < hi <= LIMIT,
        0 <= r < SCALE,
    ensures
        in_range(reflect(pos, vel, hi, r).0),
        in_range(reflect(pos, vel, hi, r).1),
{
    lemma_mul_bound(vel, r, LIMIT as int, SCALE as int);
    assert(LIMIT * SCALE == SCALE * LIMIT);
    lemma_tdiv_le(vel * r, SCALE as int, LIMIT as int);
    let v1 = if pos < 0 { -fmul(vel, r) } else { vel };
    lemma_mul_bound(v1, r, LIMIT as int, SCALE as int);
    lemma_tdiv_le(v1 * r, SCALE as int, LIMIT as int);
}

/// A well-formed particle stays well formed through every phase of a step,
/// and keeps its mass.
proof fn lemma_step_keeps(s: Seq<Particle>, dt: int, cursor: CursorState, cfg: PhysicsConfig)
    requires
        all_wf(s),
        cfg.wf(),
        in_range(dt),
    ensures
        step_spec(s, dt, cursor, cfg).len() == s.len(),
        all_wf(step_spec(s, dt, cursor, cfg)),
        forall|k: int| 0 <= k < s.len() ==> (#[trigger] step_spec(s, dt, cursor, cfg)[k]).mass == s[k].mass,
{
    let a = prelude_all(s, cursor, cfg);
    assert(all_wf(a));
    lemma_pairs_upto_keeps(a, a.len(), cfg);
    let b = pairs_all(a, cfg);
    let c = walls_all(b, cfg);
    let d = accelerate_all(c, dt);
    let e = move_all(d, dt);
    assert(all_wf(c));
    assert forall|k: int| 0 <= k < d.len() implies (#[trigger] d[k]).wf() by {
        lemma_mul_bound(c[k].accel.x as int, dt, LIMIT as int, LIMIT as int);
        lemma_mul_bound(c[k].accel.y as int, dt, LIMIT as int, LIMIT as int);
    }
    assert forall|k: int| 0 <= k < e.len() implies (#[trigger] e[k]).wf() by {
        lemma_mul_bound(d[k].vel.x as int, dt, LIMIT as int, LIMIT as int);
        lemma_mul_bound(d[k].vel.y as int, dt, LIMIT as int, LIMIT as int);
    }
    let f = bound_all(e, cfg);
    assert forall|k: int| 0 <= k < f.len() implies (#[trigger] f[k]).wf() by {
        let p = e[k];
        lemma_reflect_range(p.pos.x as int, p.vel.x as int, cfg.world_width as int, cfg.restitution as int);
        lemma_reflect_range(p.pos.y as int, p.vel.y as int, cfg.world_height as int, cfg.restitution as int);
    }
}

/// Masses stay positive and the population keeps its size: after any number
/// of steps from a well-formed population, every particle is well formed
/// (its mass is strictly positive), has the mass it started with, and there
/// are as many particles as before.
pub proof fn lemma_population_invariant(
    s: Seq<Particle>,
    n: nat,
    dt: int,
    cursor: CursorState,
    cfg: PhysicsConfig,
)
    requires
        all_wf(s),
        cfg.wf(),
        in_range(dt),
    ensures
        steps(s, n, dt, cursor, cfg).len() == s.len(),
        all_wf(steps(s, n, dt, cursor, cfg)),
        forall|k: int| 0 <= k < s.len() ==> (#[trigger] steps(s, n, dt, cursor, cfg)[k]).mass == s[k].mass
            && steps(s, n, dt, cursor, cfg)[k].mass > 0,
    decreases n,
{
    if n > 0 {
        lemma_population_invariant(s, (n - 1) as nat, dt, cursor, cfg);
        lemma_step_keeps(steps(s, (n - 1) as nat, dt, cursor, cfg), dt, cursor, cfg);
    }
}

/// Reflection on one axis lands in `[0, hi]` whenever the position before it
/// lies within `[-2 hi, 2 hi]`.
pub proof fn lemma_reflect_in_bounds(pos: int, vel: int, hi: int, r: int)
    requires
        0 < hi,
        -2 * hi <= pos <= 2 * hi,
    ensures
        0 <= reflect(pos, vel, hi, r).0 <= hi,
{
}

/// After a step, every particle lies in the world rectangle, provided that
/// forces and integration left each one within the world's own size of it
/// (`[-2W, 2W] x [-2H, 2H]`); from farther out a reflection cannot reach back.
pub proof fn lemma_step_in_bounds(s: Seq<Particle>, dt: int, cursor: CursorState, cfg: PhysicsConfig)
    requires
        all_wf(s),
        cfg.wf(),
        forall|k: int|
            0 <= k < integrated(s, dt, cursor, cfg).len() ==> -2 * cfg.world_width <= (#[trigger] integrated(
                s,
                dt,
                cursor,
                cfg,
            )[k]).pos.x
                <= 2 * cfg.world_width && -2 * cfg.world_height <= integrated(s, dt, cursor, cfg)[k].pos.y
                <= 2 * cfg.world_height,
    ensures
        step_spec(s, dt, cursor, cfg).len() == s.len(),
        forall|k: int|
            0 <= k < s.len() ==> 0 <= (#[trigger] step_spec(s, dt, cursor, cfg)[k]).pos.x <= cfg.world_width
                && 0 <= step_spec(s, dt, cursor, cfg)[k].pos.y <= cfg.world_height,
{
    let a = prelude_all(s, cursor, cfg);
    assert(all_wf(a));
    lemma_pairs_upto_keeps(a, a.len(), cfg);
    let e = integrated(s, dt, cursor, cfg);
    assert(e.len() == s.len());
    assert forall|k: int| 0 <= k < s.len() implies 0 <= (#[trigger] step_spec(s, dt, cursor, cfg)[k]).pos.x
        <= cfg.world_width && 0 <= step_spec(s, dt, cursor, cfg)[k].pos.y <= cfg.world_height by {
        let p = e[k];
        lemma_reflect_in_bounds(p.pos.x as int, p.vel.x as int, cfg.world_width as int, cfg.restitution as int);
        lemma_reflect_in_bounds(p.pos.y as int, p.vel.y as int, cfg.world_height as int, cfg.restitution as int);
    }
}

/// The repulsion between two distinct points is antisymmetric: the force on
/// the first from the second is the negation of the force on the second from
/// the first.
pub proof fn lemma_force_antisymmetric(p1: Vec2, p2: Vec2, scale: int, cfg: PhysicsConfig)
    requires
        p1 != p2,
    ensures
        force_spec(p2, p1, scale, cfg).0 == -force_spec(p1, p2, scale, cfg).0,
        force_spec(p2, p1, scale, cfg).1 == -force_spec(p1, p2, scale, cfg).1,
{
    let dx = p2.x - p1.x;
    let dy = p2.y - p1.y;
    assert(separation(p1, p2, cfg) == (dx, dy));
    assert(separation(p2, p1, cfg) == (-dx, -dy));
    assert((-dx) * (-dx) == dx * dx) by (nonlinear_arith);
    assert((-dy) * (-dy) == dy * dy) by (nonlinear_arith);
    let len = length(dx, dy);
    assert(length(-dx, -dy) == len);
    assert(dx * dx >= 0 && dy * dy >= 0) by (nonlinear_arith);
    if dx != 0 {
        assert(dx * dx >= 1) by (nonlinear_arith)
            requires dx != 0;
    } else {
        assert(dy * dy >= 1) by (nonlinear_arith)
            requires dy != 0;
    }
    lemma_sqrt_floor_exists(dx * dx + dy * dy);
    lemma_sqrt_floor_pos(dx * dx + dy * dy, len);
    let f = inverse_square(scale, len, cfg);
    assert((-dx) * SCALE == -(dx * SCALE)) by (nonlinear_arith);
    assert((-dy) * SCALE == -(dy * SCALE)) by (nonlinear_arith);
    lemma_tdiv_neg(dx * SCALE, len);
    lemma_tdiv_neg(dy * SCALE, len);
    let ux = unit(dx, len);
    let uy = unit(dy, len);
    assert(unit(-dx, len) == -ux);
    assert(unit(-dy, len) == -uy);
    assert((-ux) * f == -(ux * f)) by (nonlinear_arith);
    assert((-uy) * f == -(uy * f)) by (nonlinear_arith);
    lemma_tdiv_neg(ux * f, SCALE as int);
    lemma_tdiv_neg(uy * f, SCALE as int);
}

/// Within the pair pass, the force computed for a pair is applied to the first
/// particle and its exact negation to the second; only then is each divided by
/// its own particle's mass.
pub proof fn lemma_pair_equal_and_opposite(s: Seq<Particle>, i: int, j: int, cfg: PhysicsConfig)
    requires
        0 <= i < j < s.len(),
    ensures
        ({
            let f = force_spec(s[i].pos, s[j].pos, cfg.particle_force_scale as int, cfg);
            &&& apply_pair(s, i, j, cfg)[i] == s[i].pushed(
                per_mass(f.0, s[i].mass as int),
                per_mass(f.1, s[i].mass as int),
            )
            &&& apply_pair(s, i, j, cfg)[j] == s[j].pushed(
                per_mass(-f.0, s[j].mass as int),
                per_mass(-f.1, s[j].mass as int),
            )
        }),
{
}

/// Two particles at the same position get a representable force along the
/// diagonal: the fixed coincident displacement is used, its length is at
/// least one step so nothing divides by zero, both components are equal, and
/// the force points away from the other particle, toward negative x and y.
pub proof fn lemma_coincident_force(p: Vec2, scale: int, cfg: PhysicsConfig)
    requires
        cfg.wf(),
        cfg.force_scale_ok(scale),
    ensures
        separation(p, p, cfg) == (cfg.coincident_offset as int, cfg.coincident_offset as int),
        length(cfg.coincident_offset as int, cfg.coincident_offset as int) >= 1,
        force_spec(p, p, scale, cfg).0 == force_spec(p, p, scale, cfg).1,
        -LIMIT <= force_spec(p, p, scale, cfg).0 <= 0,
{
    let c = cfg.coincident_offset as int;
    let n = c * c + c * c;
    assert(c * c >= 1) by (nonlinear_arith)
        requires c >= 1;
    lemma_sqrt_floor_exists(n);
    let len = sqrt_floor(n);
    lemma_sqrt_floor_pos(n, len);
    lemma_coord_le_sqrt(c, c, len);
    let md = cfg.min_distance as int;
    let eff = if len < md { md } else { len };
    assert(md * md <= eff * eff) by (nonlinear_arith)
        requires 0 < md <= eff;
    assert(LIMIT * md * md <= LIMIT * (eff * eff)) by (nonlinear_arith)
        requires md * md <= eff * eff;
    assert(eff * eff > 0) by (nonlinear_arith)
        requires eff > 0;
    assert(scale * SCALE * SCALE >= 0) by (nonlinear_arith)
        requires scale >= 0;
    lemma_tdiv_le(scale * SCALE * SCALE, eff * eff, LIMIT as int);
    lemma_tdiv_bound(scale * SCALE * SCALE, eff * eff, scale * SCALE * SCALE);
    let f = inverse_square(scale, len, cfg);
    assert(0 <= c * SCALE <= SCALE * len) by (nonlinear_arith)
        requires 0 <= c <= len, SCALE > 0;
    lemma_tdiv_le(c * SCALE, len, SCALE as int);
    lemma_tdiv_bound(c * SCALE, len, c * SCALE);
    let u = unit(c, len);
    lemma_mul_bound(u, f, SCALE as int, LIMIT as int);
    assert(u * f >= 0) by (nonlinear_arith)
        requires u >= 0, f >= 0;
    lemma_tdiv_le(u * f, SCALE as int, LIMIT as int);
    lemma_tdiv_bound(u * f, SCALE as int, u * f);
}

/// A step is a function of its inputs: two runs from equal populations with
/// the same time step, cursor and configuration give equal populations.
pub proof fn lemma_step_deterministic(
    s1: Seq<Particle>,
    s2: Seq<Particle>,
    dt: int,
    cursor: CursorState,
    cfg: PhysicsConfig,
)
    requires
        s1 == s2,
    ensures
        step_spec(s1, dt, cursor, cfg) == step_spec(s2, dt, cursor, cfg),
{
}

/// A particle that crossed the lower x bound by at most the world's width,
/// moving at `-v`, is reflected to its overshoot and leaves moving at
/// `v * restitution`.
pub proof fn lemma_restitution(p: Particle, v: int, cfg: PhysicsConfig)
    requires
        cfg.wf(),
        p.wf(),
        -cfg.world_width <= p.pos.x < 0,
        p.vel.x == -v,
    ensures
        bound_particle(p, cfg).pos.x == -p.pos.x,
        bound_particle(p, cfg).vel.x == fmul(v, cfg.restitution as int),
{
    let r = cfg.restitution as int;
    assert((-v) * r == -(v * r)) by (nonlinear_arith);
    lemma_mul_bound(v, r, LIMIT as int, SCALE as int);
    assert(LIMIT * SCALE == SCALE * LIMIT);
    lemma_tdiv_le(v * r, SCALE as int, LIMIT as int);
    lemma_tdiv_neg(v * r, SCALE as int);
    assert(reflect(p.pos.x as int, p.vel.x as int, cfg.world_width as int, r) == (-p.pos.x, fmul(v, r)));
}

} // verus!
