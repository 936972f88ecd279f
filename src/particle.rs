//! A point mass and its per-step mutators.
use vstd::prelude::*;
use crate::fixed::{clamp_lim, fmul, in_range, clamp_to_limit, div_toward_zero, lemma_mul_bound, SCALE, LIMIT};
use crate::math::Vec2;

verus! {

#[derive(Clone, Copy, Debug, PartialEq, Eq, Structural)]
pub struct Particle {
    pub pos: Vec2,
    pub vel: Vec2,
    pub accel: Vec2,
    pub mass: i64,
}

/// Largest magnitude of a term added to an acceleration (2^100).
pub const TERM_LIMIT: i128 = 0x10_0000_0000_0000_0000_0000_0000;

/// Adds a velocity times a time step to a position, saturating.
pub open spec fn advance(pos: int, rate: int, dt: int) -> int {
    clamp_lim(pos + fmul(rate, dt))
}

impl Particle {
    /// All quantities are representable and the mass is strictly positive.
    pub open spec fn wf(self) -> bool {
        &&& self.pos.in_range()
        &&& self.vel.in_range()
        &&& self.accel.in_range()
        &&& 0 < self.mass <= LIMIT
    }

    /// This particle after `position += velocity * dt`.
    pub open spec fn moved(self, dt: int) -> Particle {
        Particle {
            pos: Vec2 {
                x: advance(self.pos.x as int, self.vel.x as int, dt) as i64,
                y: advance(self.pos.y as int, self.vel.y as int, dt) as i64,
            },
            ..self
        }
    }

    /// This particle after `velocity += acceleration * dt`.
    pub open spec fn accelerated(self, dt: int) -> Particle {
        Particle {
            vel: Vec2 {
                x: advance(self.vel.x as int, self.accel.x as int, dt) as i64,
                y: advance(self.vel.y as int, self.accel.y as int, dt) as i64,
            },
            ..self
        }
    }

    /// This particle with `(tx, ty)` added to its acceleration, saturating.
    pub open spec fn pushed(self, tx: int, ty: int) -> Particle {
        Particle {
            accel: Vec2 {
                x: clamp_lim(self.accel.x + tx) as i64,
                y: clamp_lim(self.accel.y + ty) as i64,
            },
            ..self
        }
    }

    /// A particle at rest at `pos`.
    pub fn new(pos: Vec2, mass: i64) -> (r: Particle)
        requires
            pos.in_range(),
            0 < mass <= LIMIT,
        ensures
            r.pos == pos,
            r.vel == Vec2::zero_spec(),
            r.accel == Vec2::zero_spec(),
            r.mass == mass,
            r.wf(),
    {
        Particle { pos, vel: Vec2::zero(), accel: Vec2::zero(), mass }
    }

    pub fn apply_vel(&mut self, delta_time: i64)
        requires
            old(self).wf(),
            in_range(delta_time as int),
        ensures
            *final(self) == old(self).moved(delta_time as int),
            final(self).wf(),
    {
        let x = step_value(self.pos.x, self.vel.x, delta_time);
        let y = step_value(self.pos.y, self.vel.y, delta_time);
        self.pos = Vec2 { x, y };
    }

    pub fn apply_accel(&mut self, delta_time: i64)
        requires
            old(self).wf(),
            in_range(delta_time as int),
        ensures
            *final(self) == old(self).accelerated(delta_time as int),
            final(self).wf(),
    {
        let x = step_value(self.vel.x, self.accel.x, delta_time);
        let y = step_value(self.vel.y, self.accel.y, delta_time);
        self.vel = Vec2 { x, y };
    }

    pub fn set_accel(&mut self, new_accel: Vec2)
        requires
            old(self).wf(),
            new_accel.in_range(),
        ensures
            *final(self) == (Particle { accel: new_accel, ..*old(self) }),
            final(self).wf(),
    {
        self.accel = new_accel;
    }

    /// Adds `(tx, ty)` to the acceleration, saturating.
    pub fn add_accel(&mut self, tx: i128, ty: i128)
        requires
            old(self).wf(),
            -TERM_LIMIT <= tx <= TERM_LIMIT,
            -TERM_LIMIT <= ty <= TERM_LIMIT,
        ensures
            *final(self) == old(self).pushed(tx as int, ty as int),
            final(self).wf(),
    {
        let x = clamp_to_limit(self.accel.x as i128 + tx);
        let y = clamp_to_limit(self.accel.y as i128 + ty);
        self.accel = Vec2 { x, y };
    }
}

fn step_value(v: i64, rate: i64, dt: i64) -> (r: i64)
    requires
        in_range(v as int),
        in_range(rate as int),
        in_range(dt as int),
    ensures
        r == advance(v as int, rate as int, dt as int),
        in_range(r as int),
{
    proof {
        lemma_mul_bound(rate as int, dt as int, LIMIT as int, LIMIT as int);
    }
    let d = div_toward_zero(rate as i128 * dt as i128, SCALE as i128);
    proof {
        crate::fixed::lemma_tdiv_bound(rate * dt, SCALE as int, LIMIT * LIMIT);
    }
    clamp_to_limit(v as i128 + d)
}

} // verus!
