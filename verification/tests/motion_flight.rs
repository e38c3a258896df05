use invaders_core::flight::flight_step;
use invaders_core::formation::Formation;
use invaders_core::geom::{Vec2, WinSize};
use invaders_core::motion::movable_system;
use invaders_core::store::{Entity, Store};

fn orbit() -> Formation {
    Formation {
        start: Vec2 { x: -1000, y: 0 },
        pivot: Vec2 { x: 0, y: 0 },
        radius: Vec2 { x: 100_000, y: 50_000 },
        angle: 0,
        speed: 100,
    }
}

// radius (100, 50), pivot (0, 0), speed 100, one sixtieth of a second per
// tick, angle 0, start on the left (so the orbit runs counter-clockwise):
// the candidate angle is 21 milliradians and the target point on the
// ellipse is (99900, 1050) milli-units.

#[test]
fn flight_angle_advances_when_on_the_ellipse() {
    let mut f = orbit();
    let pos = Vec2 { x: 99_900, y: 1050 };
    let new_pos = flight_step(pos, &mut f);
    // already at the target: the enemy holds still and the angle advances
    assert_eq!(new_pos, pos);
    assert_eq!(f.angle, 21);
}

#[test]
fn flight_angle_held_while_far_from_the_ellipse() {
    let mut f = orbit();
    let pos = Vec2 { x: -1000, y: 0 };
    let new_pos = flight_step(pos, &mut f);
    // far off the orbit: the enemy closes in by one tick's distance and
    // the stored angle is held for the next tick
    assert_eq!(f.angle, 0);
    assert_eq!(new_pos, Vec2 { x: 665, y: 17 });
}

#[test]
fn flight_never_overshoots_the_target() {
    let mut f = orbit();
    // one milli-unit short of the target: the clamp stops the step there
    let pos = Vec2 { x: 99_899, y: 1050 };
    let new_pos = flight_step(pos, &mut f);
    assert_eq!(new_pos, Vec2 { x: 99_900, y: 1050 });
    assert_eq!(f.angle, 21);
}

#[test]
fn flight_step_length_stays_within_one_tick_distance() {
    // max step is 1666 milli-units at speed 100; the plane step length
    // may exceed it by at most one milli-unit of integer rounding
    let cap: i64 = 1666 + 1;
    let mut f = orbit();
    let pos = Vec2 { x: -1000, y: 0 };
    let new_pos = flight_step(pos, &mut f);
    let dx = new_pos.x - pos.x;
    let dy = new_pos.y - pos.y;
    assert!(dx * dx + dy * dy <= cap * cap);
}

fn drifting_entity(y: i64, auto_despawn: bool) -> Entity {
    let mut e = Entity::base(
        Vec2 { x: 0, y },
        Vec2 { x: 500, y: 500 },
        Vec2 { x: 0, y: 0 },
        Vec2 { x: 9000, y: 54_000 },
    );
    e.movable = true;
    e.auto_despawn = auto_despawn;
    e
}

#[test]
fn bounds_despawn_one_unit_past_the_margin() {
    // window 720 units tall, margin 200: the limit is y = 560 units
    let win = WinSize { w: 800_000, h: 720_000 };
    let mut store = Store::new();
    store.spawn(drifting_entity(560_001, true));
    movable_system(&mut store, &win);
    assert_eq!(store.entities.len(), 0);
}

#[test]
fn bounds_keep_one_unit_inside_the_margin() {
    let win = WinSize { w: 800_000, h: 720_000 };
    let mut store = Store::new();
    store.spawn(drifting_entity(559_999, true));
    movable_system(&mut store, &win);
    assert_eq!(store.entities.len(), 1);
    assert_eq!(store.entities[0].pos.y, 559_999);
}

#[test]
fn without_auto_despawn_nothing_is_removed() {
    let win = WinSize { w: 800_000, h: 720_000 };
    let mut store = Store::new();
    store.spawn(drifting_entity(560_001, false));
    movable_system(&mut store, &win);
    assert_eq!(store.entities.len(), 1);
}

#[test]
fn linear_motion_advances_by_one_tick_of_velocity() {
    // a unit velocity upward at base speed 500 covers 8333 milli-units
    // in one sixtieth of a second
    let win = WinSize { w: 800_000, h: 720_000 };
    let mut store = Store::new();
    let mut e = drifting_entity(0, true);
    e.vel = Vec2 { x: 0, y: 1000 };
    store.spawn(e);
    movable_system(&mut store, &win);
    assert_eq!(store.entities[0].pos.y, 8333);
}
