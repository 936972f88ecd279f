//! The force model, the integrator and the boundary resolver.
use vstd::prelude::*;
use crate::config::PhysicsConfig;
use crate::fixed::{
    fmul, in_range, sqrt_floor, tdiv, div_toward_zero, isqrt, lemma_coord_le_sqrt,
    lemma_mul_bound, lemma_tdiv_le, SCALE, LIMIT,
};
use crate::math::Vec2;
use crate::particle::{Particle, TERM_LIMIT};
use crate::scene_data::{all_wf, SceneData};

verus! {

/// A point close enough to the world that forces toward it can be computed:
/// each coordinate is at most `2 * LIMIT` in magnitude.
pub open spec fn near(p: Vec2) -> bool {
    -2 * LIMIT <= p.x <= 2 * LIMIT && -2 * LIMIT <= p.y <= 2 * LIMIT
}

/// The displacement from `p1` to `p2`, or the fixed coincident displacement
/// when the two points are equal.
pub open spec fn separation(p1: Vec2, p2: Vec2, cfg: PhysicsConfig) -> (int, int) {
    let dx = p2.x - p1.x;
    let dy = p2.y - p1.y;
    if dx == 0 && dy == 0 {
        (cfg.coincident_offset as int, cfg.coincident_offset as int)
    } else {
        (dx, dy)
    }
}

/// Length of a displacement, rounded down.
pub open spec fn length(dx: int, dy: int) -> int {
    sqrt_floor(dx * dx + dy * dy)
}

/// One component of the unit vector along a displacement of length `len`.
pub open spec fn unit(c: int, len: int) -> int {
    tdiv(c * SCALE, len)
}

/// Magnitude `scale / distance^2`, with the distance floored at `min_distance`.
pub open spec fn inverse_square(scale: int, dist: int, cfg: PhysicsConfig) -> int {
    let eff = if dist < cfg.min_distance { cfg.min_distance as int } else { dist };
    tdiv(scale * SCALE * SCALE, eff * eff)
}

/// The repulsive force on a source at `p1` from one at `p2`: directed from
/// `p2` toward `p1`, of magnitude `inverse_square`.
pub open spec fn force_spec(p1: Vec2, p2: Vec2, scale: int, cfg: PhysicsConfig) -> (int, int) {
    let (dx, dy) = separation(p1, p2, cfg);
    let len = length(dx, dy);
    let f = inverse_square(scale, len, cfg);
    (-fmul(unit(dx, len), f), -fmul(unit(dy, len), f))
}

/// The repulsive force that a source at `pos2` exerts on one at `pos1`.
pub fn get_force(pos1: Vec2, pos2: Vec2, force_scale: i64, cfg: &PhysicsConfig) -> (r: Vec2)
    requires
        cfg.wf(),
        cfg.force_scale_ok(force_scale as int),
        near(pos1),
        near(pos2),
    ensures
        r.x == force_spec(pos1, pos2, force_scale as int, *cfg).0,
        r.y == force_spec(pos1, pos2, force_scale as int, *cfg).1,
        r.in_range(),
{
    let mut dx: i128 = pos2.x as i128 - pos1.x as i128;
    let mut dy: i128 = pos2.y as i128 - pos1.y as i128;
    if dx == 0 && dy == 0 {
        dx = cfg.coincident_offset as i128;
        dy = cfg.coincident_offset as i128;
    }
    let ghost m: int = 4 * LIMIT;
    proof {
        lemma_mul_bound(dx as int, dx as int, m, m);
        lemma_mul_bound(dy as int, dy as int, m, m);
        assert(dx * dx >= 0 && dy * dy >= 0) by (nonlinear_arith);
        if dx != 0 {
            assert(dx * dx >= 1) by (nonlinear_arith)
                requires dx != 0;
        } else {
            assert(dy * dy >= 1) by (nonlinear_arith)
                requires dy != 0;
        }
    }
    let n = (dx * dx + dy * dy) as u128;
    let len = isqrt(n) as i128;
    proof {
        if len == 0 {
            assert((len + 1) * (len + 1) == 1);
        }
        lemma_coord_le_sqrt(dx as int, dy as int, len as int);
    }
    let eff = if len < cfg.min_distance as i128 { cfg.min_distance as i128 } else { len };
    let ghost md: int = cfg.min_distance as int;
    let ghost cap: int = 0x4_0000_0000_0000;
    proof {
        lemma_mul_bound(eff as int, eff as int, cap, cap);
        assert(md * md <= eff * eff) by (nonlinear_arith)
            requires 0 < md <= eff;
        assert(LIMIT * (md * md) <= LIMIT * (eff * eff)) by (nonlinear_arith)
            requires md * md <= eff * eff;
        assert(eff * eff > 0) by (nonlinear_arith)
            requires eff > 0;
        assert(LIMIT * md * md == LIMIT * (md * md)) by (nonlinear_arith);
        let big: int = 0x8000_0000_0000_0000;
        lemma_mul_bound(force_scale as int, SCALE as int, big, SCALE as int);
        lemma_mul_bound(force_scale * SCALE, SCALE as int, big * SCALE, SCALE as int);
        lemma_tdiv_le(force_scale * SCALE * SCALE, eff * eff, LIMIT as int);
    }
    let f = div_toward_zero(force_scale as i128 * SCALE as i128 * SCALE as i128, eff * eff);
    proof {
        assert(-(SCALE * len) <= dx * SCALE <= SCALE * len) by (nonlinear_arith)
            requires -len <= dx <= len, SCALE > 0;
        assert(-(SCALE * len) <= dy * SCALE <= SCALE * len) by (nonlinear_arith)
            requires -len <= dy <= len, SCALE > 0;
        lemma_mul_bound(dx as int, SCALE as int, m, SCALE as int);
        lemma_mul_bound(dy as int, SCALE as int, m, SCALE as int);
        lemma_tdiv_le(dx * SCALE, len as int, SCALE as int);
        lemma_tdiv_le(dy * SCALE, len as int, SCALE as int);
    }
    let ux = div_toward_zero(dx * SCALE as i128, len);
    let uy = div_toward_zero(dy * SCALE as i128, len);
    proof {
        lemma_mul_bound(ux as int, f as int, SCALE as int, LIMIT as int);
        lemma_mul_bound(uy as int, f as int, SCALE as int, LIMIT as int);
        lemma_tdiv_le(ux * f, SCALE as int, LIMIT as int);
        lemma_tdiv_le(uy * f, SCALE as int, LIMIT as int);
    }
    let fx = div_toward_zero(ux * f, SCALE as i128);
    let fy = div_toward_zero(uy * f, SCALE as i128);
    Vec2 { x: -(fx as i64), y: -(fy as i64) }
}

/// How the pointer acts on the particles during one step.
#[derive(Clone, Copy, Debug, PartialEq, Eq, Structural)]
pub enum CursorState {
    /// Push particles within reach away from this world position.
    Push(Vec2),
    /// Pull particles within reach toward this world position.
    Pull(Vec2),
    /// The pointer does not act.
    Idle,
}

impl CursorState {
    pub open spec fn wf(self) -> bool {
        match self {
            CursorState::Push(t) => near(t),
            CursorState::Pull(t) => near(t),
            CursorState::Idle => true,
        }
    }
}

// ---- per-particle terms -------------------------------------------------

/// One component of the drag acceleration: `-velocity * drag / mass`.
pub open spec fn drag_term(v: int, cfg: PhysicsConfig, mass: int) -> int {
    tdiv(-(v * cfg.drag_coefficient), mass)
}

/// Acceleration reset to gravity, then drag added.
pub open spec fn reset_particle(p: Particle, cfg: PhysicsConfig) -> Particle {
    Particle { accel: Vec2 { x: 0, y: cfg.gravity }, ..p }.pushed(
        drag_term(p.vel.x as int, cfg, p.mass as int),
        drag_term(p.vel.y as int, cfg, p.mass as int),
    )
}

/// The cursor at `t` reaches the particle: it is strictly closer than the
/// radius and not exactly at `t`, where the direction is undefined.
pub open spec fn in_reach(p: Particle, t: Vec2, cfg: PhysicsConfig) -> bool {
    let len = length(t.x - p.pos.x, t.y - p.pos.y);
    0 < len < cfg.cursor_radius
}

/// Acceleration of magnitude `cursor_force` from the particle toward `t`.
pub open spec fn pull_term(p: Particle, t: Vec2, cfg: PhysicsConfig) -> (int, int) {
    let dx = t.x - p.pos.x;
    let dy = t.y - p.pos.y;
    let len = length(dx, dy);
    (fmul(unit(dx, len), cfg.cursor_force as int), fmul(unit(dy, len), cfg.cursor_force as int))
}

/// The particle after the cursor's term is added.
pub open spec fn cursor_particle(p: Particle, cursor: CursorState, cfg: PhysicsConfig) -> Particle {
    match cursor {
        CursorState::Pull(t) => if in_reach(p, t, cfg) {
            p.pushed(pull_term(p, t, cfg).0, pull_term(p, t, cfg).1)
        } else {
            p
        },
        CursorState::Push(t) => if in_reach(p, t, cfg) {
            p.pushed(-pull_term(p, t, cfg).0, -pull_term(p, t, cfg).1)
        } else {
            p
        },
        CursorState::Idle => p,
    }
}

/// Acceleration that a force gives a particle of mass `mass`.
pub open spec fn per_mass(f: int, mass: int) -> int {
    tdiv(f * SCALE, mass)
}

/// The summed repulsion of the four virtual wall sources on a particle at `p`.
pub open spec fn wall_total(p: Vec2, cfg: PhysicsConfig) -> (int, int) {
    let s = cfg.wall_force_scale as int;
    let w = cfg.wall_offset;
    let f1 = force_spec(p, Vec2 { x: (-w) as i64, y: p.y }, s, cfg);
    let f2 = force_spec(p, Vec2 { x: (cfg.world_width + w) as i64, y: p.y }, s, cfg);
    let f3 = force_spec(p, Vec2 { x: p.x, y: (-w) as i64 }, s, cfg);
    let f4 = force_spec(p, Vec2 { x: p.x, y: (cfg.world_height + w) as i64 }, s, cfg);
    (f1.0 + f2.0 + f3.0 + f4.0, f1.1 + f2.1 + f3.1 + f4.1)
}

pub open spec fn wall_particle(p: Particle, cfg: PhysicsConfig) -> Particle {
    let t = wall_total(p.pos, cfg);
    p.pushed(per_mass(t.0, p.mass as int), per_mass(t.1, p.mass as int))
}

/// Reflection on one axis: below zero, then above `hi`; each reflection
/// reverses the velocity and scales it by the restitution `r`.
pub open spec fn reflect(pos: int, vel: int, hi: int, r: int) -> (int, int) {
    let (p1, v1) = if pos < 0 { (-pos, -fmul(vel, r)) } else { (pos, vel) };
    if p1 > hi { (hi - (p1 - hi), -fmul(v1, r)) } else { (p1, v1) }
}

pub open spec fn bound_particle(p: Particle, cfg: PhysicsConfig) -> Particle {
    let (x, vx) = reflect(p.pos.x as int, p.vel.x as int, cfg.world_width as int, cfg.restitution as int);
    let (y, vy) = reflect(p.pos.y as int, p.vel.y as int, cfg.world_height as int, cfg.restitution as int);
    Particle { pos: Vec2 { x: x as i64, y: y as i64 }, vel: Vec2 { x: vx as i64, y: vy as i64 }, ..p }
}

fn reset_exec(p: Particle, cfg: &PhysicsConfig) -> (r: Particle)
    requires
        p.wf(),
        cfg.wf(),
    ensures
        r == reset_particle(p, *cfg),
        r.wf(),
{
    proof {
        lemma_mul_bound(p.vel.x as int, cfg.drag_coefficient as int, LIMIT as int, LIMIT as int);
        lemma_mul_bound(p.vel.y as int, cfg.drag_coefficient as int, LIMIT as int, LIMIT as int);
        lemma_tdiv_le(-(p.vel.x * cfg.drag_coefficient), p.mass as int, LIMIT * LIMIT);
        lemma_tdiv_le(-(p.vel.y * cfg.drag_coefficient), p.mass as int, LIMIT * LIMIT);
        assert(LIMIT * LIMIT <= LIMIT * LIMIT * p.mass) by (nonlinear_arith)
            requires p.mass >= 1;
    }
    let tx = div_toward_zero(-(p.vel.x as i128 * cfg.drag_coefficient as i128), p.mass as i128);
    let ty = div_toward_zero(-(p.vel.y as i128 * cfg.drag_coefficient as i128), p.mass as i128);
    let mut q = p;
    q.set_accel(Vec2::new(0, cfg.gravity));
    q.add_accel(tx, ty);
    q
}

/// Whether the cursor at `t` reaches `p`, and if so its pull on `p`.
fn pull_exec(p: Particle, t: Vec2, cfg: &PhysicsConfig) -> (r: (bool, i128, i128))
    requires
        p.wf(),
        cfg.wf(),
        near(t),
    ensures
        r.0 == in_reach(p, t, *cfg),
        r.0 ==> r.1 == pull_term(p, t, *cfg).0 && r.2 == pull_term(p, t, *cfg).1,
        r.0 ==> in_range(r.1 as int) && in_range(r.2 as int),
{
    let dx: i128 = t.x as i128 - p.pos.x as i128;
    let dy: i128 = t.y as i128 - p.pos.y as i128;
    let ghost m: int = 4 * LIMIT;
    proof {
        lemma_mul_bound(dx as int, dx as int, m, m);
        lemma_mul_bound(dy as int, dy as int, m, m);
        assert(dx * dx >= 0 && dy * dy >= 0) by (nonlinear_arith);
    }
    let n = (dx * dx + dy * dy) as u128;
    let len = isqrt(n) as i128;
    if len > 0 && len < cfg.cursor_radius as i128 {
        proof {
            lemma_coord_le_sqrt(dx as int, dy as int, len as int);
            assert(-(SCALE * len) <= dx * SCALE <= SCALE * len) by (nonlinear_arith)
                requires -len <= dx <= len, SCALE > 0;
            assert(-(SCALE * len) <= dy * SCALE <= SCALE * len) by (nonlinear_arith)
                requires -len <= dy <= len, SCALE > 0;
            lemma_mul_bound(dx as int, SCALE as int, m, SCALE as int);
            lemma_mul_bound(dy as int, SCALE as int, m, SCALE as int);
            lemma_tdiv_le(dx * SCALE, len as int, SCALE as int);
            lemma_tdiv_le(dy * SCALE, len as int, SCALE as int);
        }
        let ux = div_toward_zero(dx * SCALE as i128, len);
        let uy = div_toward_zero(dy * SCALE as i128, len);
        proof {
            lemma_mul_bound(ux as int, cfg.cursor_force as int, SCALE as int, LIMIT as int);
            lemma_mul_bound(uy as int, cfg.cursor_force as int, SCALE as int, LIMIT as int);
            lemma_tdiv_le(ux * cfg.cursor_force, SCALE as int, LIMIT as int);
            lemma_tdiv_le(uy * cfg.cursor_force, SCALE as int, LIMIT as int);
        }
        let tx = div_toward_zero(ux * cfg.cursor_force as i128, SCALE as i128);
        let ty = div_toward_zero(uy * cfg.cursor_force as i128, SCALE as i128);
        (true, tx, ty)
    } else {
        (false, 0, 0)
    }
}

fn cursor_exec(p: Particle, cursor_state: &CursorState, cfg: &PhysicsConfig) -> (r: Particle)
    requires
        p.wf(),
        cfg.wf(),
        cursor_state.wf(),
    ensures
        r == cursor_particle(p, *cursor_state, *cfg),
        r.wf(),
{
    let mut q = p;
    match cursor_state {
        CursorState::Pull(t) => {
            let (reach, tx, ty) = pull_exec(p, *t, cfg);
            if reach {
                q.add_accel(tx, ty);
            }
        },
        CursorState::Push(t) => {
            let (reach, tx, ty) = pull_exec(p, *t, cfg);
            if reach {
                q.add_accel(-tx, -ty);
            }
        },
        CursorState::Idle => {},
    }
    q
}

fn wall_exec(p: Particle, cfg: &PhysicsConfig) -> (r: Particle)
    requires
        p.wf(),
        cfg.wf(),
    ensures
        r == wall_particle(p, *cfg),
        r.wf(),
{
    let pos = p.pos;
    let s = cfg.wall_force_scale;
    let w = cfg.wall_offset;
    let f1 = get_force(pos, Vec2::new(-w, pos.y), s, cfg);
    let f2 = get_force(pos, Vec2::new(cfg.world_width + w, pos.y), s, cfg);
    let f3 = get_force(pos, Vec2::new(pos.x, -w), s, cfg);
    let f4 = get_force(pos, Vec2::new(pos.x, cfg.world_height + w), s, cfg);
    let tx: i128 = f1.x as i128 + f2.x as i128 + f3.x as i128 + f4.x as i128;
    let ty: i128 = f1.y as i128 + f2.y as i128 + f3.y as i128 + f4.y as i128;
    let ghost m: int = 4 * LIMIT * SCALE;
    proof {
        lemma_mul_bound(tx as int, SCALE as int, 4 * LIMIT, SCALE as int);
        lemma_mul_bound(ty as int, SCALE as int, 4 * LIMIT, SCALE as int);
        assert(m <= m * p.mass) by (nonlinear_arith)
            requires p.mass >= 1, m >= 0;
        lemma_tdiv_le(tx * SCALE, p.mass as int, m);
        lemma_tdiv_le(ty * SCALE, p.mass as int, m);
    }
    let ax = div_toward_zero(tx * SCALE as i128, p.mass as i128);
    let ay = div_toward_zero(ty * SCALE as i128, p.mass as i128);
    let mut q = p;
    q.add_accel(ax, ay);
    q
}

fn reflect_exec(pos: i64, vel: i64, hi: i64, r: i64) -> (res: (i64, i64))
    requires
        in_range(pos as int),
        in_range(vel as int),
        0 < hi <= LIMIT,
        0 <= r < SCALE,
    ensures
        res.0 == reflect(pos as int, vel as int, hi as int, r as int).0,
        res.1 == reflect(pos as int, vel as int, hi as int, r as int).1,
        in_range(res.0 as int),
        in_range(res.1 as int),
{
    let mut p = pos;
    let mut v = vel;
    if p < 0 {
        p = -p;
        v = -bounce_speed(v, r);
    }
    if p > hi {
        p = hi - (p - hi);
        v = -bounce_speed(v, r);
    }
    (p, v)
}

/// `fmul(v, r)` for a restitution below one.
fn bounce_speed(v: i64, r: i64) -> (res: i64)
    requires
        in_range(v as int),
        0 <= r < SCALE,
    ensures
        res == fmul(v as int, r as int),
        in_range(res as int),
{
    proof {
        lemma_mul_bound(v as int, r as int, LIMIT as int, SCALE as int);
        assert(LIMIT * SCALE == SCALE * LIMIT);
        lemma_tdiv_le(v * r, SCALE as int, LIMIT as int);
    }
    div_toward_zero(v as i128 * r as i128, SCALE as i128) as i64
}

fn bound_exec(p: Particle, cfg: &PhysicsConfig) -> (r: Particle)
    requires
        p.wf(),
        cfg.wf(),
    ensures
        r == bound_particle(p, *cfg),
        r.wf(),
{
    let (x, vx) = reflect_exec(p.pos.x, p.vel.x, cfg.world_width, cfg.restitution);
    let (y, vy) = reflect_exec(p.pos.y, p.vel.y, cfg.world_height, cfg.restitution);
    Particle { pos: Vec2 { x, y }, vel: Vec2 { x: vx, y: vy }, ..p }
}

// ---- whole-population phases -------------------------------------------

pub open spec fn prelude_all(s: Seq<Particle>, cursor: CursorState, cfg: PhysicsConfig) -> Seq<Particle> {
    s.map_values(|p: Particle| cursor_particle(reset_particle(p, cfg), cursor, cfg))
}

/// The population after the pair `(i, j)` repels: the force on `i` from `j`
/// is added to `i`, its negation to `j`, each divided by that particle's mass.
pub open spec fn apply_pair(s: Seq<Particle>, i: int, j: int, cfg: PhysicsConfig) -> Seq<Particle> {
    let f = force_spec(s[i].pos, s[j].pos, cfg.particle_force_scale as int, cfg);
    let s1 = s.update(i, s[i].pushed(per_mass(f.0, s[i].mass as int), per_mass(f.1, s[i].mass as int)));
    s1.update(j, s1[j].pushed(per_mass(-f.0, s1[j].mass as int), per_mass(-f.1, s1[j].mass as int)))
}

/// The pairs `(i, k)` for `i < k < j`, in increasing `k`.
pub open spec fn pairs_row(s: Seq<Particle>, i: int, j: int, cfg: PhysicsConfig) -> Seq<Particle>
    decreases j - i,
{
    if j <= i + 1 {
        s
    } else {
        apply_pair(pairs_row(s, i, j - 1, cfg), i, j - 1, cfg)
    }
}

/// All pairs whose first index is below `i`, row by row.
pub open spec fn pairs_upto(s: Seq<Particle>, i: nat, cfg: PhysicsConfig) -> Seq<Particle>
    decreases i,
{
    if i == 0 {
        s
    } else {
        pairs_row(pairs_upto(s, (i - 1) as nat, cfg), i - 1, s.len() as int, cfg)
    }
}

/// Every unordered pair repels once.
pub open spec fn pairs_all(s: Seq<Particle>, cfg: PhysicsConfig) -> Seq<Particle> {
    pairs_upto(s, s.len(), cfg)
}

pub open spec fn walls_all(s: Seq<Particle>, cfg: PhysicsConfig) -> Seq<Particle> {
    s.map_values(|p: Particle| wall_particle(p, cfg))
}

pub open spec fn accelerate_all(s: Seq<Particle>, dt: int) -> Seq<Particle> {
    s.map_values(|p: Particle| p.accelerated(dt))
}

pub open spec fn move_all(s: Seq<Particle>, dt: int) -> Seq<Particle> {
    s.map_values(|p: Particle| p.moved(dt))
}

pub open spec fn bound_all(s: Seq<Particle>, cfg: PhysicsConfig) -> Seq<Particle> {
    s.map_values(|p: Particle| bound_particle(p, cfg))
}

/// Resets each acceleration to gravity, adds drag, then the cursor's term.
fn apply_prelude(scene_data: &mut SceneData, cursor_state: &CursorState, cfg: &PhysicsConfig)
    requires
        old(scene_data).wf(),
        cfg.wf(),
        cursor_state.wf(),
    ensures
        final(scene_data)@ == prelude_all(old(scene_data)@, *cursor_state, *cfg),
        final(scene_data).wf(),
{
    proof {
        scene_data.lemma_view();
    }
    let ghost s0 = scene_data@;
    let n = scene_data.particles.len();
    let mut i: usize = 0;
    while i < n
        invariant
            s0 == old(scene_data)@,
            all_wf(s0),
            cfg.wf(),
        cursor_state.wf(),
            n == s0.len(),
            scene_data.particles@.len() == n,
            i <= n,
            all_wf(scene_data.particles@),
            forall|k: int| 0 <= k < i ==> scene_data.particles@[k] == prelude_all(s0, *cursor_state, *cfg)[k],
            forall|k: int| i <= k < n ==> scene_data.particles@[k] == s0[k],
        decreases n - i,
    {
        let p = scene_data.particles[i];
        let q = cursor_exec(reset_exec(p, cfg), cursor_state, cfg);
        scene_data.particles.set(i, q);
        i += 1;
    }
    proof {
        scene_data.lemma_view();
    }
    assert(scene_data.particles@ =~= prelude_all(s0, *cursor_state, *cfg));
}
/// Adds to each particle the repulsion of the four virtual wall sources.
pub fn apply_repulsive_wall_force(scene_data: &mut SceneData, cfg: &PhysicsConfig)
    requires
        old(scene_data).wf(),
        cfg.wf(),
    ensures
        final(scene_data)@ == walls_all(old(scene_data)@, *cfg),
        final(scene_data).wf(),
{
    proof {
        scene_data.lemma_view();
    }
    let ghost s0 = scene_data@;
    let n = scene_data.particles.len();
    let mut i: usize = 0;
    while i < n
        invariant
            s0 == old(scene_data)@,
            all_wf(s0),
            cfg.wf(),
            n == s0.len(),
            scene_data.particles@.len() == n,
            i <= n,
            all_wf(scene_data.particles@),
            forall|k: int| 0 <= k < i ==> scene_data.particles@[k] == walls_all(s0, *cfg)[k],
            forall|k: int| i <= k < n ==> scene_data.particles@[k] == s0[k],
        decreases n - i,
    {
        let p = scene_data.particles[i];
        let q = wall_exec(p, cfg);
        scene_data.particles.set(i, q);
        i += 1;
    }
    proof {
        scene_data.lemma_view();
    }
    assert(scene_data.particles@ =~= walls_all(s0, *cfg));
}
/// `velocity += acceleration * dt` for every particle.
fn integrate_velocities(scene_data: &mut SceneData, delta_time: i64)
    requires
        old(scene_data).wf(),
        in_range(delta_time as int),
    ensures
        final(scene_data)@ == accelerate_all(old(scene_data)@, delta_time as int),
        final(scene_data).wf(),
{
    proof {
        scene_data.lemma_view();
    }
    let ghost s0 = scene_data@;
    let n = scene_data.particles.len();
    let mut i: usize = 0;
    while i < n
        invariant
            s0 == old(scene_data)@,
            all_wf(s0),
            in_range(delta_time as int),
            n == s0.len(),
            scene_data.particles@.len() == n,
            i <= n,
            all_wf(scene_data.particles@),
            forall|k: int| 0 <= k < i ==> scene_data.particles@[k] == accelerate_all(s0, delta_time as int)[k],
            forall|k: int| i <= k < n ==> scene_data.particles@[k] == s0[k],
        decreases n - i,
    {
        let p = scene_data.particles[i];
        let q = { let mut q = p; q.apply_accel(delta_time); q };
        scene_data.particles.set(i, q);
        i += 1;
    }
    proof {
        scene_data.lemma_view();
    }
    assert(scene_data.particles@ =~= accelerate_all(s0, delta_time as int));
}
/// `position += velocity * dt` for every particle.
fn integrate_positions(scene_data: &mut SceneData, delta_time: i64)
    requires
        old(scene_data).wf(),
        in_range(delta_time as int),
    ensures
        final(scene_data)@ == move_all(old(scene_data)@, delta_time as int),
        final(scene_data).wf(),
{
    proof {
        scene_data.lemma_view();
    }
    let ghost s0 = scene_data@;
    let n = scene_data.particles.len();
    let mut i: usize = 0;
    while i < n
        invariant
            s0 == old(scene_data)@,
            all_wf(s0),
            in_range(delta_time as int),
            n == s0.len(),
            scene_data.particles@.len() == n,
            i <= n,
            all_wf(scene_data.particles@),
            forall|k: int| 0 <= k < i ==> scene_data.particles@[k] == move_all(s0, delta_time as int)[k],
            forall|k: int| i <= k < n ==> scene_data.particles@[k] == s0[k],
        decreases n - i,
    {
        let p = scene_data.particles[i];
        let q = { let mut q = p; q.apply_vel(delta_time); q };
        scene_data.particles.set(i, q);
        i += 1;
    }
    proof {
        scene_data.lemma_view();
    }
    assert(scene_data.particles@ =~= move_all(s0, delta_time as int));
}
/// Reflects every particle that left the world back inside, with energy loss.
pub fn bound_particles(scene_data: &mut SceneData, cfg: &PhysicsConfig)
    requires
        old(scene_data).wf(),
        cfg.wf(),
    ensures
        final(scene_data)@ == bound_all(old(scene_data)@, *cfg),
        final(scene_data).wf(),
{
    proof {
        scene_data.lemma_view();
    }
    let ghost s0 = scene_data@;
    let n = scene_data.particles.len();
    let mut i: usize = 0;
    while i < n
        invariant
            s0 == old(scene_data)@,
            all_wf(s0),
            cfg.wf(),
            n == s0.len(),
            scene_data.particles@.len() == n,
            i <= n,
            all_wf(scene_data.particles@),
            forall|k: int| 0 <= k < i ==> scene_data.particles@[k] == bound_all(s0, *cfg)[k],
            forall|k: int| i <= k < n ==> scene_data.particles@[k] == s0[k],
        decreases n - i,
    {
        let p = scene_data.particles[i];
        let q = bound_exec(p, cfg);
        scene_data.particles.set(i, q);
        i += 1;
    }
    proof {
        scene_data.lemma_view();
    }
    assert(scene_data.particles@ =~= bound_all(s0, *cfg));
}

/// Force on `pi` from `pj`, divided by the mass of each: the first for `pi`,
/// the negated second for `pj`.
fn pair_terms(pi: Particle, pj: Particle, cfg: &PhysicsConfig) -> (r: (i128, i128, i128, i128))
    requires
        pi.wf(),
        pj.wf(),
        cfg.wf(),
    ensures
        ({
            let f = force_spec(pi.pos, pj.pos, cfg.particle_force_scale as int, *cfg);
            &&& r.0 == per_mass(f.0, pi.mass as int)
            &&& r.1 == per_mass(f.1, pi.mass as int)
            &&& r.2 == per_mass(-f.0, pj.mass as int)
            &&& r.3 == per_mass(-f.1, pj.mass as int)
        }),
        -TERM_LIMIT <= r.0 <= TERM_LIMIT,
        -TERM_LIMIT <= r.1 <= TERM_LIMIT,
        -TERM_LIMIT <= r.2 <= TERM_LIMIT,
        -TERM_LIMIT <= r.3 <= TERM_LIMIT,
{
    let f = get_force(pi.pos, pj.pos, cfg.particle_force_scale, cfg);
    let ghost m: int = LIMIT * SCALE;
    proof {
        lemma_mul_bound(f.x as int, SCALE as int, LIMIT as int, SCALE as int);
        lemma_mul_bound(f.y as int, SCALE as int, LIMIT as int, SCALE as int);
        assert(m <= m * pi.mass) by (nonlinear_arith)
            requires pi.mass >= 1, m >= 0;
        assert(m <= m * pj.mass) by (nonlinear_arith)
            requires pj.mass >= 1, m >= 0;
        lemma_tdiv_le(f.x * SCALE, pi.mass as int, m);
        lemma_tdiv_le(f.y * SCALE, pi.mass as int, m);
        lemma_tdiv_le(-f.x * SCALE, pj.mass as int, m);
        lemma_tdiv_le(-f.y * SCALE, pj.mass as int, m);
    }
    let ax = div_toward_zero(f.x as i128 * SCALE as i128, pi.mass as i128);
    let ay = div_toward_zero(f.y as i128 * SCALE as i128, pi.mass as i128);
    let bx = div_toward_zero(-(f.x as i128) * SCALE as i128, pj.mass as i128);
    let by = div_toward_zero(-(f.y as i128) * SCALE as i128, pj.mass as i128);
    (ax, ay, bx, by)
}

/// Adds the repulsion of every unordered pair of particles: the force is
/// computed once per pair and applied to both with opposite signs, each
/// divided by its own particle's mass.
pub fn apply_repulsive_particle_force(scene_data: &mut SceneData, cfg: &PhysicsConfig)
    requires
        old(scene_data).wf(),
        cfg.wf(),
    ensures
        final(scene_data)@ == pairs_all(old(scene_data)@, *cfg),
        final(scene_data).wf(),
{
    proof {
        scene_data.lemma_view();
    }
    let ghost s0 = scene_data@;
    let n = scene_data.particles.len();
    let mut i: usize = 0;
    while i < n
        invariant
            s0 == old(scene_data)@,
            cfg.wf(),
            n == s0.len(),
            scene_data.particles@.len() == n,
            i <= n,
            all_wf(scene_data.particles@),
            scene_data.particles@ == pairs_upto(s0, i as nat, *cfg),
        decreases n - i,
    {
        let ghost row0 = scene_data.particles@;
        let mut j: usize = i + 1;
        while j < n
            invariant
                s0 == old(scene_data)@,
                cfg.wf(),
                n == s0.len(),
                scene_data.particles@.len() == n,
                i < n,
                i + 1 <= j <= n,
                all_wf(scene_data.particles@),
                row0 == pairs_upto(s0, i as nat, *cfg),
                scene_data.particles@ == pairs_row(row0, i as int, j as int, *cfg),
            decreases n - j,
        {
            let ghost before = scene_data.particles@;
            let mut pi = scene_data.particles[i];
            let mut pj = scene_data.particles[j];
            let (ax, ay, bx, by) = pair_terms(pi, pj, cfg);
            pi.add_accel(ax, ay);
            scene_data.particles.set(i, pi);
            pj.add_accel(bx, by);
            scene_data.particles.set(j, pj);
            assert(scene_data.particles@ =~= apply_pair(before, i as int, j as int, *cfg));
            j += 1;
        }
        i += 1;
    }
    proof {
        scene_data.lemma_view();
    }
}

/// One step of the simulation: forces, then velocities, then positions, then
/// the boundary resolver.
pub fn physics_update(
    scene_data: &mut SceneData,
    delta_time: i64,
    cursor_state: &CursorState,
    cfg: &PhysicsConfig,
)
    requires
        old(scene_data).wf(),
        cfg.wf(),
        cursor_state.wf(),
        in_range(delta_time as int),
    ensures
        final(scene_data)@ == step_spec(old(scene_data)@, delta_time as int, *cursor_state, *cfg),
        final(scene_data).wf(),
{
    apply_prelude(scene_data, cursor_state, cfg);
    apply_repulsive_particle_force(scene_data, cfg);
    apply_repulsive_wall_force(scene_data, cfg);
    integrate_velocities(scene_data, delta_time);
    integrate_positions(scene_data, delta_time);
    bound_particles(scene_data, cfg);
}

/// The population after forces and integration, before the boundary resolver.
pub open spec fn integrated(s: Seq<Particle>, dt: int, cursor: CursorState, cfg: PhysicsConfig) -> Seq<Particle> {
    move_all(accelerate_all(walls_all(pairs_all(prelude_all(s, cursor, cfg), cfg), cfg), dt), dt)
}

/// The pair pass keeps the size of the population, every position and
/// mass, and well-formedness.
pub proof fn lemma_pairs_row_keeps(s: Seq<Particle>, i: int, j: int, cfg: PhysicsConfig)
    requires
        all_wf(s),
        0 <= i,
        j <= s.len(),
    ensures
        pairs_row(s, i, j, cfg).len() == s.len(),
        all_wf(pairs_row(s, i, j, cfg)),
        forall|k: int| 0 <= k < s.len() ==> (#[trigger] pairs_row(s, i, j, cfg)[k]).pos == s[k].pos
            && pairs_row(s, i, j, cfg)[k].mass == s[k].mass
            && pairs_row(s, i, j, cfg)[k].vel == s[k].vel,
    decreases j - i,
{
    if j > i + 1 {
        lemma_pairs_row_keeps(s, i, j - 1, cfg);
    }
}

pub proof fn lemma_pairs_upto_keeps(s: Seq<Particle>, i: nat, cfg: PhysicsConfig)
    requires
        all_wf(s),
        i <= s.len(),
    ensures
        pairs_upto(s, i, cfg).len() == s.len(),
        all_wf(pairs_upto(s, i, cfg)),
        forall|k: int| 0 <= k < s.len() ==> (#[trigger] pairs_upto(s, i, cfg)[k]).pos == s[k].pos
            && pairs_upto(s, i, cfg)[k].mass == s[k].mass
            && pairs_upto(s, i, cfg)[k].vel == s[k].vel,
    decreases i,
{
    if i > 0 {
        lemma_pairs_upto_keeps(s, (i - 1) as nat, cfg);
        lemma_pairs_row_keeps(pairs_upto(s, (i - 1) as nat, cfg), i - 1, s.len() as int, cfg);
    }
}

/// One physics step.
pub open spec fn step_spec(s: Seq<Particle>, dt: int, cursor: CursorState, cfg: PhysicsConfig) -> Seq<Particle> {
    bound_all(integrated(s, dt, cursor, cfg), cfg)
}

} // verus!
