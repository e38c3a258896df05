//! The formation generator: elliptical-flight parameters for newly
//! spawned enemies, handed out in groups that share one orbit.

use vstd::prelude::*;
use crate::geom::{Vec2, WinSize, vec2_within, win_size_wf, POS_LIMIT, SIZE_LIMIT};
use crate::trig::{spec_sin_mrad, spec_cos_mrad, cos_mrad, sin_mrad, TWO_PI_MRAD};
use crate::math::div_trunc;
use crate::rng::random_in_range;
use crate::FORMATION_MEMBERS_MAX;

verus! {

/// Inset from the playfield edge inside which a formation may start,
/// in milli-units.
pub const FORMATION_INSET: i64 = 100_000;
/// Smallest horizontal semi-axis a drawn orbit may have, in milli-units.
pub const FORMATION_RADIUS_MIN: i64 = 80_000;
/// The horizontal semi-axis is drawn below this bound, in milli-units.
pub const FORMATION_RADIUS_MAX: i64 = 150_000;
/// Fixed vertical semi-axis of every orbit, in milli-units.
pub const FORMATION_RADIUS_Y: i64 = 100_000;
/// Orbit speed given to every formation, in world units per second.
pub const FORMATION_BASE_SPEED: i64 = 100;
/// Pivots stay this far inside the coordinate range, so every point of
/// the orbit still has legal coordinates.
pub const PIVOT_LIMIT: i64 = 990_000_000;
/// Formation speeds stay below this bound.
pub const SPEED_LIMIT: i64 = 10_000;

/// The elliptical-orbit parameters shared by one batch of enemies.
#[derive(Clone, Copy, PartialEq, Eq, Structural, Debug)]
pub struct Formation {
    /// Where the member first appeared; its sign fixes the orbit direction.
    pub start: Vec2,
    /// Center of the ellipse.
    pub pivot: Vec2,
    /// Semi-axes of the ellipse, in milli-units.
    pub radius: Vec2,
    /// Current phase angle on the ellipse, in milliradians.
    pub angle: i64,
    /// Orbit speed, in world units per second.
    pub speed: i64,
}

pub open spec fn formation_wf(f: Formation) -> bool {
    &&& vec2_within(f.start, POS_LIMIT as int)
    &&& vec2_within(f.pivot, PIVOT_LIMIT as int)
    &&& 1 <= f.radius.x <= SIZE_LIMIT
    &&& 1 <= f.radius.y <= SIZE_LIMIT
    &&& 1 <= f.speed <= SPEED_LIMIT
    &&& 0 <= f.angle < TWO_PI_MRAD
}

/// Horizontal coordinate of the point of `f`'s ellipse at phase angle `a`.
pub open spec fn ellipse_point_x(f: Formation, a: int) -> int {
    f.pivot.x + div_trunc(f.radius.x * spec_cos_mrad(a), 1000)
}

/// Vertical coordinate of the point of `f`'s ellipse at phase angle `a`.
pub open spec fn ellipse_point_y(f: Formation, a: int) -> int {
    f.pivot.y + div_trunc(f.radius.y * spec_sin_mrad(a), 1000)
}

/// A formation starts on its own orbit: the ellipse point at the stored
/// phase angle is the start point itself.
pub open spec fn starts_on_ellipse(f: Formation) -> bool {
    f.start.x == ellipse_point_x(f, f.angle as int) && f.start.y == ellipse_point_y(
        f,
        f.angle as int,
    )
}

/// State of the generator: the orbit currently being handed out, and how
/// many more members may still join it before a fresh orbit is drawn.
pub struct FormationMaker {
    pub current: Option<Formation>,
    pub members_remaining: u32,
}

pub open spec fn maker_wf(m: FormationMaker) -> bool {
    &&& m.members_remaining < FORMATION_MEMBERS_MAX
    &&& m.members_remaining > 0 ==> m.current is Some && formation_wf(m.current->0)
        && starts_on_ellipse(m.current->0)
}

impl FormationMaker {
    /// A generator with no orbit yet: the first request draws one.
    pub fn new() -> (m: FormationMaker)
        ensures
            maker_wf(m),
            m.members_remaining == 0,
            m.current is None,
    {
        FormationMaker { current: None, members_remaining: 0 }
    }

    /// Hand out the formation for one newly spawned enemy.  While the
    /// current group is not full the stored orbit is returned unchanged;
    /// once it is exhausted a fresh orbit is drawn at random inside the
    /// playfield minus the inset margin.
    pub fn make(&mut self, win: &WinSize) -> (f: Formation)
        requires
            maker_wf(*old(self)),
            win_size_wf(*win),
            old(self).members_remaining == 0 ==> win.w / 2 > FORMATION_INSET && win.h / 2
                > FORMATION_INSET,
        ensures
            maker_wf(*final(self)),
            formation_wf(f),
            starts_on_ellipse(f),
            final(self).current == Some(f),
            old(self).members_remaining > 0 ==> {
                &&& f == old(self).current->0
                &&& final(self).current == old(self).current
                &&& final(self).members_remaining == old(self).members_remaining - 1
            },
            old(self).members_remaining == 0 ==> {
                &&& final(self).members_remaining == FORMATION_MEMBERS_MAX - 1
                &&& f.speed == FORMATION_BASE_SPEED
                &&& f.radius.y == FORMATION_RADIUS_Y
                &&& FORMATION_RADIUS_MIN <= f.radius.x < FORMATION_RADIUS_MAX
                &&& -(win.w / 2 - FORMATION_INSET) <= f.start.x <= win.w / 2 - FORMATION_INSET
                &&& -(win.h / 2 - FORMATION_INSET) <= f.start.y <= win.h / 2 - FORMATION_INSET
            },
    {
        match self.current {
            Some(cur) if self.members_remaining > 0 => {
                self.members_remaining = self.members_remaining - 1;
                cur
            },
            _ => {
                let bx = win.w / 2 - FORMATION_INSET;
                let by = win.h / 2 - FORMATION_INSET;
                let x = random_in_range(-bx, bx + 1);
                let y = random_in_range(-by, by + 1);
                let angle = random_in_range(0, TWO_PI_MRAD);
                let rx = random_in_range(FORMATION_RADIUS_MIN, FORMATION_RADIUS_MAX);
                let f = formation_from_draws(x, y, angle, rx);
                self.current = Some(f);
                self.members_remaining = FORMATION_MEMBERS_MAX - 1;
                f
            },
        }
    }
}

/// Build the formation for a fresh group from the four random draws: the
/// pivot is the start point pushed back along the drawn phase angle, so
/// the start lies on the orbit it will trace.
pub fn formation_from_draws(x: i64, y: i64, angle: i64, rx: i64) -> (f: Formation)
    requires
        -SIZE_LIMIT <= x <= SIZE_LIMIT,
        -SIZE_LIMIT <= y <= SIZE_LIMIT,
        0 <= angle < TWO_PI_MRAD,
        FORMATION_RADIUS_MIN <= rx < FORMATION_RADIUS_MAX,
    ensures
        formation_wf(f),
        starts_on_ellipse(f),
        f.start == (Vec2 { x: x, y: y }),
        f.angle == angle,
        f.radius == (Vec2 { x: rx, y: FORMATION_RADIUS_Y }),
        f.speed == FORMATION_BASE_SPEED,
{
    let c = cos_mrad(angle);
    let s = sin_mrad(angle);
    proof {
        assert(-150_000_000 <= rx as int * c as int <= 150_000_000) by (nonlinear_arith)
            requires
                0 <= rx as int <= 150_000,
                -1000 <= c as int <= 1000,
        ;
    }
    let off_x = rx * c / 1000;
    let off_y = FORMATION_RADIUS_Y * s / 1000;
    let f = Formation {
        start: Vec2 { x: x, y: y },
        pivot: Vec2 { x: x - off_x, y: y - off_y },
        radius: Vec2 { x: rx, y: FORMATION_RADIUS_Y },
        angle: angle,
        speed: FORMATION_BASE_SPEED,
    };
    f
}

} // verus!
