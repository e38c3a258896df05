//! Plane geometry for the simulation: fixed-point vectors, the window
//! extent, and the axis-aligned overlap test used by collision resolution.

use vstd::prelude::*;
use vstd::math::abs;

verus! {

/// Coordinates live in `[-POS_LIMIT, POS_LIMIT]` milli-units.
pub const POS_LIMIT: i64 = 1_000_000_000;
/// Sprite sizes and window extents stay below this many milli-units.
pub const SIZE_LIMIT: i64 = 10_000_000;

/// A point or extent in the plane, in milli-units.
#[derive(Clone, Copy, PartialEq, Eq, Structural, Debug)]
pub struct Vec2 {
    pub x: i64,
    pub y: i64,
}

/// The window extent in milli-units; the playfield is centered on the
/// origin, so it spans half of each extent in each direction.
#[derive(Clone, Copy, PartialEq, Eq, Structural, Debug)]
pub struct WinSize {
    pub w: i64,
    pub h: i64,
}

pub open spec fn vec2_within(v: Vec2, limit: int) -> bool {
    -limit <= v.x <= limit && -limit <= v.y <= limit
}

pub open spec fn win_size_wf(w: WinSize) -> bool {
    0 < w.w <= SIZE_LIMIT && 0 < w.h <= SIZE_LIMIT
}

/// Two axis-aligned boxes, centered at `pa` and `pb` with full extents
/// `sa` and `sb`, overlap when they intersect with positive area on both
/// axes; boxes that merely touch do not overlap.
pub open spec fn spec_overlap(pa: Vec2, sa: Vec2, pb: Vec2, sb: Vec2) -> bool {
    2 * abs(pa.x - pb.x) < sa.x + sb.x && 2 * abs(pa.y - pb.y) < sa.y + sb.y
}

/// Axis-aligned bounding-box overlap test.
pub fn collide(pa: Vec2, sa: Vec2, pb: Vec2, sb: Vec2) -> (r: bool)
    requires
        vec2_within(pa, POS_LIMIT as int),
        vec2_within(pb, POS_LIMIT as int),
        0 <= sa.x <= SIZE_LIMIT && 0 <= sa.y <= SIZE_LIMIT,
        0 <= sb.x <= SIZE_LIMIT && 0 <= sb.y <= SIZE_LIMIT,
    ensures
        r == spec_overlap(pa, sa, pb, sb),
{
    let dx = if pa.x >= pb.x {
        pa.x - pb.x
    } else {
        pb.x - pa.x
    };
    let dy = if pa.y >= pb.y {
        pa.y - pb.y
    } else {
        pb.y - pa.y
    };
    2 * dx < sa.x + sb.x && 2 * dy < sa.y + sb.y
}

pub open spec fn spec_clamp_pos(x: int) -> int {
    if x < -POS_LIMIT {
        -POS_LIMIT as int
    } else if x > POS_LIMIT {
        POS_LIMIT as int
    } else {
        x
    }
}

/// Clamp a coordinate to the simulation's coordinate range.
pub fn clamp_pos(x: i64) -> (r: i64)
    ensures
        r == spec_clamp_pos(x as int),
{
    if x < -POS_LIMIT {
        -POS_LIMIT
    } else if x > POS_LIMIT {
        POS_LIMIT
    } else {
        x
    }
}

} // verus!
