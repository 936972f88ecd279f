//! Plane vectors in fixed point and conversions between world, screen and
//! normalised device coordinates.
use vstd::prelude::*;
use crate::fixed::{tdiv, in_range, div_toward_zero, lemma_tdiv_bound, lemma_tdiv_le, SCALE, LIMIT};
use crate::{SCREEN_HEIGHT, PIXEL_SIZE, WORLD_HEIGHT, WORLD_WIDTH};

verus! {

/// A vector of the plane; each component is a fixed-point quantity.
#[derive(Clone, Copy, Debug, PartialEq, Eq, Structural)]
pub struct Vec2 {
    pub x: i64,
    pub y: i64,
}

impl Vec2 {
    pub fn new(x: i64, y: i64) -> (r: Vec2)
        ensures
            r.x == x,
            r.y == y,
    {
        Vec2 { x, y }
    }

    pub open spec fn zero_spec() -> Vec2 {
        Vec2 { x: 0, y: 0 }
    }

    pub fn zero() -> (r: Vec2)
        ensures
            r == Vec2::zero_spec(),
    {
        Vec2 { x: 0, y: 0 }
    }

    /// Both components lie in the representable range.
    pub open spec fn in_range(self) -> bool {
        in_range(self.x as int) && in_range(self.y as int)
    }
}

/// Saturates to the range of `i16`, as a cast from a float to `i16` does.
pub open spec fn clamp_i16(x: int) -> int {
    if x > i16::MAX {
        i16::MAX as int
    } else if x < i16::MIN {
        i16::MIN as int
    } else {
        x
    }
}

fn saturate_i16(x: i64) -> (r: i16)
    ensures
        r == clamp_i16(x as int),
{
    if x > i16::MAX as i64 {
        i16::MAX
    } else if x < i16::MIN as i64 {
        i16::MIN
    } else {
        x as i16
    }
}

/// The pixel that shows a world position; the screen's y axis points down.
pub open spec fn world_to_screen_spec(p: Vec2) -> (int, int) {
    (
        clamp_i16(tdiv(p.x as int, PIXEL_SIZE as int)),
        clamp_i16(SCREEN_HEIGHT - clamp_i16(tdiv(p.y as int, PIXEL_SIZE as int))),
    )
}

pub fn world_to_screen(world_pos: Vec2) -> (r: (i16, i16))
    ensures
        r.0 == world_to_screen_spec(world_pos).0,
        r.1 == world_to_screen_spec(world_pos).1,
{
    let px = div_toward_zero(world_pos.x as i128, PIXEL_SIZE as i128);
    let py = div_toward_zero(world_pos.y as i128, PIXEL_SIZE as i128);
    proof {
        lemma_tdiv_le(world_pos.x as int, PIXEL_SIZE as int, 0x0100_0000_0000_0000);
        lemma_tdiv_le(world_pos.y as int, PIXEL_SIZE as int, 0x0100_0000_0000_0000);
    }
    let sx = saturate_i16(px as i64);
    let sy = saturate_i16(py as i64);
    (sx, saturate_i16(SCREEN_HEIGHT as i64 - sy as i64))
}

/// The world position of a pixel's corner; world y points up.
pub open spec fn screen_to_world_spec(px: int, py: int) -> Vec2 {
    Vec2 { x: (px * PIXEL_SIZE) as i64, y: ((SCREEN_HEIGHT - py) * PIXEL_SIZE) as i64 }
}

pub fn screen_to_world(screen_pos: (u32, u32)) -> (r: Vec2)
    requires
        screen_pos.1 <= SCREEN_HEIGHT,
    ensures
        r.x == screen_pos.0 * PIXEL_SIZE,
        r.y == (SCREEN_HEIGHT - screen_pos.1) * PIXEL_SIZE,
        r == screen_to_world_spec(screen_pos.0 as int, screen_pos.1 as int),
{
    Vec2 {
        x: screen_pos.0 as i64 * PIXEL_SIZE,
        y: (SCREEN_HEIGHT - screen_pos.1) as i64 * PIXEL_SIZE,
    }
}

/// Normalised device coordinates of a world position: the world rectangle maps
/// onto `[-1, 1] x [-1, 1]`, in fixed point.
pub open spec fn world_to_open_gl_spec(p: Vec2) -> (int, int) {
    (
        tdiv(2 * p.x * SCALE, WORLD_WIDTH as int) - SCALE,
        tdiv(2 * p.y * SCALE, WORLD_HEIGHT as int) - SCALE,
    )
}

pub fn world_to_open_gl(world_pos: Vec2) -> (r: Vec2)
    requires
        world_pos.in_range(),
    ensures
        r.x == world_to_open_gl_spec(world_pos).0,
        r.y == world_to_open_gl_spec(world_pos).1,
{
    let ghost bound: int = 2 * LIMIT * SCALE;
    assert(-bound <= 2 * world_pos.x * SCALE <= bound);
    assert(-bound <= 2 * world_pos.y * SCALE <= bound);
    let gx = div_toward_zero(2 * world_pos.x as i128 * SCALE as i128, WORLD_WIDTH as i128);
    let gy = div_toward_zero(2 * world_pos.y as i128 * SCALE as i128, WORLD_HEIGHT as i128);
    proof {
        lemma_tdiv_bound(2 * world_pos.x * SCALE, WORLD_WIDTH as int, bound);
        lemma_tdiv_bound(2 * world_pos.y * SCALE, WORLD_HEIGHT as int, bound);
    }
    Vec2 { x: gx as i64 - SCALE, y: gy as i64 - SCALE }
}

} // verus!
