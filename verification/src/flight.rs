//! The flight controller: each tick one enemy moves toward the point of
//! its assigned ellipse at a candidate phase angle, never further than
//! one tick's worth of linear distance, and the stored phase angle only
//! advances once the enemy has caught up with its target (hysteresis).

use vstd::prelude::*;
use crate::{MILLI, TICKS_PER_SECOND};
use crate::geom::{Vec2, vec2_within, POS_LIMIT, SIZE_LIMIT};
use crate::formation::{Formation, formation_wf, ellipse_point_x, ellipse_point_y, SPEED_LIMIT};
use crate::trig::{
    PI_MRAD, TWO_PI_MRAD, cos_mrad, sin_mrad, spec_cos_mrad, spec_sin_mrad, lemma_sin_unit_range,
};
use crate::math::{
    div_trunc, euclid_mod, floor_sqrt, isqrt, lemma_floor_sqrt_monotone, lemma_floor_sqrt_square,
    lemma_div_trunc_scale, lemma_floor_sqrt_bounds,
};
use vstd::arithmetic::div_mod::{lemma_div_is_ordered, lemma_div_multiples_vanish,
    lemma_div_pos_is_pos};
use vstd::arithmetic::mul::lemma_mul_inequality;
use vstd::math::abs;

verus! {

/// How far the enemy may move in one tick, in milli-units.
pub open spec fn max_step_milli(f: Formation) -> int {
    f.speed * MILLI / (TICKS_PER_SECOND as int)
}

/// The smaller semi-axis of the orbit, in milli-units.
pub open spec fn min_radius(f: Formation) -> int {
    if f.radius.x <= f.radius.y {
        f.radius.x as int
    } else {
        f.radius.y as int
    }
}

/// Orbit direction: counter-clockwise for formations that started on the
/// left half of the playfield, clockwise otherwise.
pub open spec fn orbit_dir(f: Formation) -> int {
    if f.start.x < 0 {
        1
    } else {
        -1
    }
}

/// How far the phase angle advances per tick, in milliradians: the tick's
/// angular rate `speed / (min_radius * pi / 2)` scaled to fixed point.
pub open spec fn angle_delta_mrad(f: Formation) -> int {
    2_000_000_000 * f.speed / ((TICKS_PER_SECOND as int) * min_radius(f) * (PI_MRAD as int))
}

/// The phase angle the enemy is steered toward this tick.
pub open spec fn candidate_angle(f: Formation) -> int {
    f.angle + orbit_dir(f) * angle_delta_mrad(f)
}

/// Horizontal coordinate of this tick's target point on the ellipse.
pub open spec fn target_x(f: Formation) -> int {
    ellipse_point_x(f, candidate_angle(f))
}

/// Vertical coordinate of this tick's target point on the ellipse.
pub open spec fn target_y(f: Formation) -> int {
    ellipse_point_y(f, candidate_angle(f))
}

/// Straight-line distance from `pos` to this tick's target point,
/// rounded down, in milli-units.
pub open spec fn flight_distance(pos: Vec2, f: Formation) -> int {
    let dx = pos.x - target_x(f);
    let dy = pos.y - target_y(f);
    floor_sqrt(dx * dx + dy * dy)
}

/// One coordinate of the pursuit step: move from `org` toward `dst` by
/// the fraction `max_step / distance` of the gap, clamped so the step
/// cannot overshoot past `dst`; at distance zero the coordinate holds.
pub open spec fn pursue_coord(org: int, dst: int, max_step: int, distance: int) -> int {
    let dx = org - dst;
    let moved = if distance != 0 {
        org - div_trunc(dx * max_step, distance)
    } else {
        org
    };
    if dx > 0 {
        if moved >= dst {
            moved
        } else {
            dst
        }
    } else {
        if moved <= dst {
            moved
        } else {
            dst
        }
    }
}

/// The speed-scaled tolerance of the hysteresis rule: the phase angle
/// only advances when the enemy is closer to its target than this.
pub open spec fn hysteresis_threshold(f: Formation) -> int {
    max_step_milli(f) * f.speed / 20
}

/// Does this tick's step let the stored phase angle advance?
pub open spec fn angle_advances(pos: Vec2, f: Formation) -> bool {
    flight_distance(pos, f) < hysteresis_threshold(f)
}

/// Where an enemy at `pos` stands after one tick of pursuit.
pub open spec fn next_flight_pos(pos: Vec2, f: Formation) -> Vec2 {
    Vec2 {
        x: pursue_coord(pos.x as int, target_x(f), max_step_milli(f), flight_distance(pos, f))
            as i64,
        y: pursue_coord(pos.y as int, target_y(f), max_step_milli(f), flight_distance(pos, f))
            as i64,
    }
}

/// The formation after one tick: only the phase angle can change, and it
/// moves to the candidate angle (reduced to one turn) exactly when the
/// hysteresis rule lets it advance.
pub open spec fn next_formation(pos: Vec2, f: Formation) -> Formation {
    Formation {
        angle: if angle_advances(pos, f) {
            (candidate_angle(f) % (TWO_PI_MRAD as int)) as i64
        } else {
            f.angle
        },
        ..f
    }
}

/// Advance one enemy by one tick of elliptical pursuit.
pub fn flight_step(pos: Vec2, f: &mut Formation) -> (new_pos: Vec2)
    requires
        formation_wf(*old(f)),
        vec2_within(pos, POS_LIMIT as int),
    ensures
        new_pos == next_flight_pos(pos, *old(f)),
        *final(f) == next_formation(pos, *old(f)),
        formation_wf(*final(f)),
        vec2_within(new_pos, POS_LIMIT as int),
        flight_distance(pos, *old(f)) == 0 ==> new_pos == pos,
{
    let ghost f0 = *f;
    let max_step = f.speed * MILLI / TICKS_PER_SECOND;
    let min_r = if f.radius.x <= f.radius.y {
        f.radius.x
    } else {
        f.radius.y
    };
    let delta = 2_000_000_000 * f.speed / (TICKS_PER_SECOND * min_r * PI_MRAD);
    let candidate = if f.start.x < 0 {
        f.angle + delta
    } else {
        f.angle - delta
    };
    assert(candidate == candidate_angle(f0));

    // target point on the ellipse at the candidate angle
    let c = cos_mrad(candidate);
    let s = sin_mrad(candidate);
    proof {
        assert(-10_000_000_000 <= f.radius.x as int * c as int <= 10_000_000_000
            && -10_000_000_000 <= f.radius.y as int * s as int <= 10_000_000_000)
            by (nonlinear_arith)
            requires
                0 <= f.radius.x as int <= SIZE_LIMIT as int,
                0 <= f.radius.y as int <= SIZE_LIMIT as int,
                -1000 <= c as int <= 1000,
                -1000 <= s as int <= 1000,
        ;
    }
    let x_dst = f.pivot.x + f.radius.x * c / 1000;
    let y_dst = f.pivot.y + f.radius.y * s / 1000;
    assert(x_dst == target_x(f0) && y_dst == target_y(f0));
    assert(-POS_LIMIT <= x_dst <= POS_LIMIT && -POS_LIMIT <= y_dst <= POS_LIMIT);

    // distance from the current position to the target
    let dx = pos.x - x_dst;
    let dy = pos.y - y_dst;
    proof {
        assert(0 <= dx as int * dx as int <= 0x3800_0000_0000_0000 && 0 <= dy as int * dy as int
            <= 0x3800_0000_0000_0000) by (nonlinear_arith)
            requires
                -2_000_000_001 <= dx as int <= 2_000_000_001,
                -2_000_000_001 <= dy as int <= 2_000_000_001,
        ;
    }
    let d_raw = isqrt((dx * dx + dy * dy) as u64);
    let ghost sum_sq = dx as int * dx as int + dy as int * dy as int;
    proof {
        assert(0 <= d_raw as int <= 3_000_000_000) by (nonlinear_arith)
            requires
                0 <= d_raw as int,
                d_raw as int * d_raw as int <= sum_sq,
                sum_sq <= 0x7000_0000_0000_0000,
        ;
    }
    let distance = d_raw as i64;
    assert(distance == flight_distance(pos, f0));
    proof {
        assert(-500_000_000_000_000_000 <= dx as int * max_step as int <= 500_000_000_000_000_000
            && -500_000_000_000_000_000 <= dy as int * max_step as int
            <= 500_000_000_000_000_000) by (nonlinear_arith)
            requires
                -2_000_000_001 <= dx as int <= 2_000_000_001,
                -2_000_000_001 <= dy as int <= 2_000_000_001,
                0 <= max_step as int <= 200_000_000,
        ;
    }

    proof {
        if dx > 0 {
            assert(dx as int * max_step as int >= 0) by (nonlinear_arith)
                requires
                    dx as int > 0,
                    max_step as int >= 0,
            ;
        } else {
            assert(dx as int * max_step as int <= 0) by (nonlinear_arith)
                requires
                    dx as int <= 0,
                    max_step as int >= 0,
            ;
        }
        if dy > 0 {
            assert(dy as int * max_step as int >= 0) by (nonlinear_arith)
                requires
                    dy as int > 0,
                    max_step as int >= 0,
            ;
        } else {
            assert(dy as int * max_step as int <= 0) by (nonlinear_arith)
                requires
                    dy as int <= 0,
                    max_step as int >= 0,
            ;
        }
    }

    // step toward the target, clamped so it cannot overshoot
    let x1 = if distance != 0 {
        pos.x - dx * max_step / distance
    } else {
        pos.x
    };
    let x = if dx > 0 {
        if x1 >= x_dst {
            x1
        } else {
            x_dst
        }
    } else {
        if x1 <= x_dst {
            x1
        } else {
            x_dst
        }
    };
    let y1 = if distance != 0 {
        pos.y - dy * max_step / distance
    } else {
        pos.y
    };
    let y = if dy > 0 {
        if y1 >= y_dst {
            y1
        } else {
            y_dst
        }
    } else {
        if y1 <= y_dst {
            y1
        } else {
            y_dst
        }
    };

    // hysteresis: advance the stored angle only near the target
    proof {
        assert(0 <= max_step as int * f.speed as int <= 2_000_000_000_000) by (nonlinear_arith)
            requires
                0 <= max_step as int <= 200_000_000,
                0 <= f.speed as int <= SPEED_LIMIT as int,
        ;
    }
    let threshold = max_step * f.speed / 20;
    if distance < threshold {
        f.angle = euclid_mod(candidate, TWO_PI_MRAD);
    }

    Vec2 { x: x, y: y }
}

/// One coordinate of the pursuit step moves by at most `max_step`: the
/// fractional step is bounded by construction, and the overshoot clamp
/// only ever shortens it.
pub proof fn lemma_pursue_coord_bounded(org: int, dst: int, max_step: int, distance: int)
    requires
        0 <= max_step,
        abs(org - dst) <= distance,
    ensures
        abs(pursue_coord(org, dst, max_step, distance) - org) <= max_step,
{
    let dx = org - dst;
    if distance != 0 {
        let n = dx * max_step;
        let q = div_trunc(n, distance);
        lemma_div_multiples_vanish(max_step, distance);
        if dx >= 0 {
            lemma_mul_inequality(dx, distance, max_step);
            lemma_div_is_ordered(dx * max_step, distance * max_step, distance);
            lemma_div_pos_is_pos(n, distance);
            assert(0 <= q <= max_step);
        } else {
            assert(n <= 0 && (-dx) * max_step == -n) by (nonlinear_arith)
                requires
                    dx <= 0,
                    max_step >= 0,
                    n == dx * max_step,
            ;
            lemma_mul_inequality(-dx, distance, max_step);
            lemma_div_is_ordered((-dx) * max_step, distance * max_step, distance);
            lemma_div_pos_is_pos(-n, distance);
            assert(-max_step <= q <= 0);
        }
        let moved = org - q;
        if dx > 0 {
            if moved < dst {
                // the clamp takes over: the whole remaining gap was
                // shorter than the fractional step, hence below the cap
                assert(dx < q);
            }
        } else {
            if moved > dst {
                assert(q < dx);
            }
        }
    }
}


/// One coordinate of the pursuit step never leaves the closed interval
/// between the old coordinate and the target, and scaled by the distance
/// it stays within the gap times the step cap.
pub proof fn lemma_pursue_coord_gap(org: int, dst: int, max_step: int, distance: int)
    requires
        0 <= max_step,
        0 <= distance,
    ensures
        org <= dst ==> org <= pursue_coord(org, dst, max_step, distance) <= dst,
        org >= dst ==> dst <= pursue_coord(org, dst, max_step, distance) <= org,
        abs(pursue_coord(org, dst, max_step, distance) - org) <= abs(org - dst),
        distance >= 1 ==> abs(pursue_coord(org, dst, max_step, distance) - org) * distance <= abs(
            org - dst,
        ) * max_step,
{
    let dx = org - dst;
    let res = pursue_coord(org, dst, max_step, distance);
    if distance == 0 {
        assert(res == org);
        if distance >= 1 {
        }
    } else {
        let n = dx * max_step;
        let q = div_trunc(n, distance);
        lemma_div_trunc_scale(n, distance);
        assert(abs(n) == abs(dx) * max_step) by (nonlinear_arith)
            requires
                n == dx * max_step,
                max_step >= 0,
        ;
        if dx > 0 {
            assert(q >= 0) by (nonlinear_arith)
                requires
                    n == dx * max_step,
                    dx > 0,
                    max_step >= 0,
                    abs(div_trunc(n, distance)) >= 0,
                    q == div_trunc(n, distance),
                    distance >= 1,
                    abs(q) * distance <= abs(n),
            ;
            let moved = org - q;
            if moved >= dst {
                assert(res == moved);
                assert(abs(res - org) == q);
                assert(q * distance <= dx * max_step);
            } else {
                assert(res == dst);
                assert(abs(res - org) == dx);
                assert(dx < q);
                assert(dx * distance <= q * distance) by (nonlinear_arith)
                    requires
                        dx < q,
                        distance >= 1,
                ;
            }
        } else {
            assert(q <= 0) by (nonlinear_arith)
                requires
                    n == dx * max_step,
                    dx <= 0,
                    max_step >= 0,
                    q == div_trunc(n, distance),
                    distance >= 1,
                    abs(q) * distance <= abs(n),
            ;
            let moved = org - q;
            if moved <= dst {
                assert(res == moved);
                assert(abs(res - org) == -q);
                assert((-q) * distance <= (-dx) * max_step);
            } else {
                assert(res == dst);
                assert(abs(res - org) == -dx);
                assert(-dx < -q);
                assert((-dx) * distance <= (-q) * distance) by (nonlinear_arith)
                    requires
                        -dx < -q,
                        distance >= 1,
                ;
            }
        }
    }
}

/// Shared frame of the flight-step laws: the target point has legal
/// coordinates, neither axis gap exceeds the straight-line distance, and
/// the fixed-width view of the new position keeps the exact step values.
proof fn lemma_flight_step_frame(pos: Vec2, f: Formation)
    requires
        formation_wf(f),
        vec2_within(pos, POS_LIMIT as int),
    ensures
        -(POS_LIMIT as int) <= target_x(f) <= POS_LIMIT as int,
        -(POS_LIMIT as int) <= target_y(f) <= POS_LIMIT as int,
        abs(pos.x - target_x(f)) <= flight_distance(pos, f),
        abs(pos.y - target_y(f)) <= flight_distance(pos, f),
        0 <= flight_distance(pos, f),
        0 <= max_step_milli(f) <= 200_000_000,
        flight_distance(pos, f) * flight_distance(pos, f) <= (pos.x - target_x(f)) * (pos.x
            - target_x(f)) + (pos.y - target_y(f)) * (pos.y - target_y(f)),
        (pos.x - target_x(f)) * (pos.x - target_x(f)) + (pos.y - target_y(f)) * (pos.y - target_y(
            f,
        )) < (flight_distance(pos, f) + 1) * (flight_distance(pos, f) + 1),
        next_flight_pos(pos, f).x as int == pursue_coord(
            pos.x as int,
            target_x(f),
            max_step_milli(f),
            flight_distance(pos, f),
        ),
        next_flight_pos(pos, f).y as int == pursue_coord(
            pos.y as int,
            target_y(f),
            max_step_milli(f),
            flight_distance(pos, f),
        ),
{
    let tx = target_x(f);
    let ty = target_y(f);
    let dx = pos.x - tx;
    let dy = pos.y - ty;
    let dist = flight_distance(pos, f);
    let ms = max_step_milli(f);

    // the target point has legal coordinates
    assert(-1000 <= spec_cos_mrad(candidate_angle(f)) <= 1000 && -1000 <= spec_sin_mrad(
        candidate_angle(f),
    ) <= 1000) by {
        lemma_sin_unit_range(candidate_angle(f));
        lemma_sin_unit_range(candidate_angle(f) + 1571);
    }
    assert(-(SIZE_LIMIT as int) * 1000 <= f.radius.x * spec_cos_mrad(candidate_angle(f)) <= (
    SIZE_LIMIT as int) * 1000 && -(SIZE_LIMIT as int) * 1000 <= f.radius.y * spec_sin_mrad(
        candidate_angle(f),
    ) <= (SIZE_LIMIT as int) * 1000) by (nonlinear_arith)
        requires
            0 <= f.radius.x <= SIZE_LIMIT as int,
            0 <= f.radius.y <= SIZE_LIMIT as int,
            -1000 <= spec_cos_mrad(candidate_angle(f)) <= 1000,
            -1000 <= spec_sin_mrad(candidate_angle(f)) <= 1000,
    ;
    assert(-(POS_LIMIT as int) <= tx <= POS_LIMIT as int && -(POS_LIMIT as int) <= ty
        <= POS_LIMIT as int);

    // each axis gap is below the straight-line distance
    assert(0 <= dy * dy && 0 <= dx * dx) by (nonlinear_arith);
    lemma_floor_sqrt_square(abs(dx) as int);
    lemma_floor_sqrt_square(abs(dy) as int);
    assert(abs(dx) * abs(dx) == dx * dx && abs(dy) * abs(dy) == dy * dy) by (nonlinear_arith);
    lemma_floor_sqrt_monotone(dx * dx, dx * dx + dy * dy);
    lemma_floor_sqrt_monotone(dy * dy, dx * dx + dy * dy);
    assert(abs(dx) <= dist && abs(dy) <= dist);
    lemma_floor_sqrt_bounds(dx * dx + dy * dy);

    lemma_pursue_coord_bounded(pos.x as int, tx, ms, dist);
    lemma_pursue_coord_bounded(pos.y as int, ty, ms, dist);

    // the stepped coordinates lie in range, so the fixed-width view of
    // the new position keeps their exact values
    assert(0 <= ms <= 200_000_000);
    assert(pursue_coord(pos.x as int, tx, ms, dist) == next_flight_pos(pos, f).x as int);
    assert(pursue_coord(pos.y as int, ty, ms, dist) == next_flight_pos(pos, f).y as int);
}

/// The flight controller never moves an enemy further than one tick's
/// worth of linear distance on either axis.
pub proof fn lemma_flight_step_within_tick_distance(pos: Vec2, f: Formation)
    requires
        formation_wf(f),
        vec2_within(pos, POS_LIMIT as int),
    ensures
        abs(next_flight_pos(pos, f).x - pos.x) <= max_step_milli(f),
        abs(next_flight_pos(pos, f).y - pos.y) <= max_step_milli(f),
{
    lemma_flight_step_frame(pos, f);
    lemma_pursue_coord_bounded(
        pos.x as int,
        target_x(f),
        max_step_milli(f),
        flight_distance(pos, f),
    );
    lemma_pursue_coord_bounded(
        pos.y as int,
        target_y(f),
        max_step_milli(f),
        flight_distance(pos, f),
    );
}

/// One tick of pursuit never overshoots — each new coordinate lies in the
/// closed interval between its old value and the target coordinate — and
/// never covers more ground than one tick's worth of linear distance plus
/// one milli-unit of integer rounding, measured as the plane distance:
/// the squared step length stays within `(max_step + 1)^2`.
pub proof fn lemma_flight_step_euclidean(pos: Vec2, f: Formation)
    requires
        formation_wf(f),
        vec2_within(pos, POS_LIMIT as int),
    ensures
        pos.x as int <= target_x(f) ==> pos.x <= next_flight_pos(pos, f).x as int <= target_x(f),
        pos.x as int >= target_x(f) ==> target_x(f) <= next_flight_pos(pos, f).x as int <= pos.x
            as int,
        pos.y as int <= target_y(f) ==> pos.y <= next_flight_pos(pos, f).y as int <= target_y(f),
        pos.y as int >= target_y(f) ==> target_y(f) <= next_flight_pos(pos, f).y as int <= pos.y
            as int,
        (next_flight_pos(pos, f).x - pos.x) * (next_flight_pos(pos, f).x - pos.x)
            + (next_flight_pos(pos, f).y - pos.y) * (next_flight_pos(pos, f).y - pos.y) <= (
        max_step_milli(f) + 1) * (max_step_milli(f) + 1),
{
    let tx = target_x(f);
    let ty = target_y(f);
    let dx = pos.x - tx;
    let dy = pos.y - ty;
    let s2 = dx * dx + dy * dy;
    let dist = flight_distance(pos, f);
    let ms = max_step_milli(f);
    lemma_flight_step_frame(pos, f);
    lemma_pursue_coord_gap(pos.x as int, tx, ms, dist);
    lemma_pursue_coord_gap(pos.y as int, ty, ms, dist);
    let ddx = next_flight_pos(pos, f).x - pos.x;
    let ddy = next_flight_pos(pos, f).y - pos.y;
    let adx = abs(ddx) as int;
    let ady = abs(ddy) as int;
    let bdx = abs(dx) as int;
    let bdy = abs(dy) as int;
    if dist <= ms {
        // close to the target the step is capped by the gap itself, which
        // the distance bounds within one unit of rounding
        assert(ddx * ddx <= dx * dx && ddy * ddy <= dy * dy) by (nonlinear_arith)
            requires
                -bdx <= ddx <= bdx,
                -bdy <= ddy <= bdy,
                bdx == dx || bdx == -dx,
                bdy == dy || bdy == -dy,
        ;
        assert(s2 <= (ms + 1) * (ms + 1) - 1) by (nonlinear_arith)
            requires
                s2 < (dist + 1) * (dist + 1),
                0 <= dist <= ms,
        ;
    } else {
        // far from the target the fractional step applies: scaled by the
        // distance it is capped by the gap times the step bound
        assert(ddx * ddx * (dist * dist) <= dx * dx * (ms * ms) && ddy * ddy * (dist * dist)
            <= dy * dy * (ms * ms)) by (nonlinear_arith)
            requires
                adx * dist <= bdx * ms,
                ady * dist <= bdy * ms,
                adx >= 0 && ady >= 0 && bdx >= 0 && bdy >= 0 && dist >= 1 && ms >= 0,
                adx == ddx || adx == -ddx,
                ady == ddy || ady == -ddy,
                bdx == dx || bdx == -dx,
                bdy == dy || bdy == -dy,
        ;
        assert(ddx * ddx + ddy * ddy >= 0) by (nonlinear_arith);
        assert((ddx * ddx + ddy * ddy) * (dist * dist) <= s2 * (ms * ms)) by (nonlinear_arith)
            requires
                ddx * ddx * (dist * dist) <= dx * dx * (ms * ms),
                ddy * ddy * (dist * dist) <= dy * dy * (ms * ms),
                s2 == dx * dx + dy * dy,
        ;
        assert(ddx * ddx + ddy * ddy <= (ms + 1) * (ms + 1)) by (nonlinear_arith)
            requires
                (ddx * ddx + ddy * ddy) * (dist * dist) <= s2 * (ms * ms),
                s2 < (dist + 1) * (dist + 1),
                dist >= ms + 1,
                ms >= 0,
                ddx * ddx + ddy * ddy >= 0,
        ;
    }
}

} // verus!
