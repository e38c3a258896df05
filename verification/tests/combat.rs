use invaders_core::collision::{enemy_laser_hit_player_system, player_laser_hit_enemy_system};
use invaders_core::enemy::{enemy_fire_system, enemy_spawn_system};
use invaders_core::formation::FormationMaker;
use invaders_core::geom::{Vec2, WinSize};
use invaders_core::player::{player_fire_system, player_keyboard_event_system, PlayerState};
use invaders_core::store::{Entity, Store};
use invaders_core::trig::{cos_mrad, sin_mrad};

fn win() -> WinSize {
    WinSize { w: 800_000, h: 720_000 }
}

fn enemy_at(x: i64, y: i64) -> Entity {
    let mut e = Entity::base(
        Vec2 { x, y },
        Vec2 { x: 500, y: 500 },
        Vec2 { x: 0, y: 0 },
        Vec2 { x: 144_000, y: 75_000 },
    );
    e.enemy = true;
    e
}

fn player_laser_at(x: i64, y: i64) -> Entity {
    let mut e = Entity::base(
        Vec2 { x, y },
        Vec2 { x: 500, y: 500 },
        Vec2 { x: 0, y: 1000 },
        Vec2 { x: 9000, y: 54_000 },
    );
    e.laser = true;
    e.from_player = true;
    e.movable = true;
    e.auto_despawn = true;
    e
}

fn enemy_laser_at(x: i64, y: i64) -> Entity {
    let mut e = Entity::base(
        Vec2 { x, y },
        Vec2 { x: 500, y: 500 },
        Vec2 { x: 0, y: -1000 },
        Vec2 { x: 17_000, y: 55_000 },
    );
    e.laser = true;
    e.from_enemy = true;
    e.movable = true;
    e.auto_despawn = true;
    e
}

fn player_at(x: i64, y: i64) -> Entity {
    let mut e = Entity::base(
        Vec2 { x, y },
        Vec2 { x: 500, y: 500 },
        Vec2 { x: 0, y: 0 },
        Vec2 { x: 144_000, y: 75_000 },
    );
    e.player = true;
    e.movable = true;
    e
}

#[test]
fn laser_destroys_overlapping_enemy_and_raises_request() {
    let mut store = Store::new();
    let laser_id = store.spawn(player_laser_at(0, 0));
    let enemy_id = store.spawn(enemy_at(10_000, 5_000));
    let mut count: u32 = 1;
    let destroyed = player_laser_hit_enemy_system(&mut store, &mut count);
    assert_eq!(destroyed, vec![enemy_id, laser_id]);
    assert_eq!(count, 0);
    // both are gone; one explosion request stands at the enemy's position
    assert_eq!(store.entities.len(), 1);
    assert!(store.entities[0].explosion_request);
    assert_eq!(store.entities[0].pos, Vec2 { x: 10_000, y: 5_000 });
}

#[test]
fn no_entity_is_destroyed_twice_in_one_pass() {
    let mut store = Store::new();
    // two lasers overlap the same enemy: only one pair may resolve
    let first_laser = store.spawn(player_laser_at(-2000, 0));
    store.spawn(player_laser_at(2000, 0));
    let enemy_id = store.spawn(enemy_at(0, 0));
    let mut count: u32 = 1;
    let destroyed = player_laser_hit_enemy_system(&mut store, &mut count);
    assert_eq!(destroyed, vec![enemy_id, first_laser]);
    for a in 0..destroyed.len() {
        for b in (a + 1)..destroyed.len() {
            assert_ne!(destroyed[a], destroyed[b]);
        }
    }
    assert_eq!(count, 0);
    // the second laser survives alongside the explosion request
    assert_eq!(store.entities.len(), 2);
}

#[test]
fn one_laser_destroys_at_most_one_enemy() {
    let mut store = Store::new();
    let laser_id = store.spawn(player_laser_at(0, 0));
    let first_enemy = store.spawn(enemy_at(-5000, 0));
    store.spawn(enemy_at(5000, 0));
    let mut count: u32 = 2;
    let destroyed = player_laser_hit_enemy_system(&mut store, &mut count);
    assert_eq!(destroyed, vec![first_enemy, laser_id]);
    assert_eq!(count, 1);
    assert_eq!(store.entities.len(), 2);
}

#[test]
fn distant_laser_hits_nothing() {
    let mut store = Store::new();
    store.spawn(player_laser_at(-300_000, 0));
    store.spawn(enemy_at(300_000, 0));
    let mut count: u32 = 1;
    let destroyed = player_laser_hit_enemy_system(&mut store, &mut count);
    assert!(destroyed.is_empty());
    assert_eq!(count, 1);
    assert_eq!(store.entities.len(), 2);
}

#[test]
fn enemy_laser_shoots_the_player_down() {
    let mut store = Store::new();
    store.spawn(enemy_laser_at(1000, 2000));
    store.spawn(player_at(0, 0));
    let mut state = PlayerState { alive: true, last_shot: -1 };
    let hit = enemy_laser_hit_player_system(&mut store, &mut state, 5000);
    assert!(hit);
    assert!(!state.alive);
    assert_eq!(state.last_shot, 5000);
    // player and laser gone, one explosion request at the player's place
    assert_eq!(store.entities.len(), 1);
    assert!(store.entities[0].explosion_request);
    assert_eq!(store.entities[0].pos, Vec2 { x: 0, y: 0 });
}

#[test]
fn player_survives_a_missing_overlap() {
    let mut store = Store::new();
    store.spawn(enemy_laser_at(200_000, 0));
    store.spawn(player_at(0, 0));
    let mut state = PlayerState { alive: true, last_shot: -1 };
    let hit = enemy_laser_hit_player_system(&mut store, &mut state, 5000);
    assert!(!hit);
    assert!(state.alive);
    assert_eq!(store.entities.len(), 2);
}

#[test]
fn spawning_respects_the_enemy_cap() {
    let mut store = Store::new();
    let mut maker = FormationMaker::new();
    let mut count: u32 = 0;
    let w = win();
    enemy_spawn_system(&mut store, &mut count, &mut maker, &w);
    assert_eq!(count, 1);
    enemy_spawn_system(&mut store, &mut count, &mut maker, &w);
    assert_eq!(count, 2);
    // the cap is two live enemies: a third spawn is refused
    enemy_spawn_system(&mut store, &mut count, &mut maker, &w);
    assert_eq!(count, 2);
    assert_eq!(store.entities.len(), 2);
    assert!(store.entities[0].enemy && store.entities[1].enemy);
}

#[test]
fn formation_group_shares_one_orbit_then_draws_fresh() {
    let mut maker = FormationMaker::new();
    let w = win();
    let f1 = maker.make(&w);
    // the second member reuses the stored orbit unchanged
    let f2 = maker.make(&w);
    assert_eq!(f1, f2);
    assert_eq!(maker.members_remaining, 0);
    // the group is full: the next call draws a fresh orbit
    let f3 = maker.make(&w);
    assert_eq!(maker.members_remaining, 1);
    assert_eq!(f3.speed, 100);
    assert_eq!(f3.radius.y, 100_000);
    assert!(80_000 <= f3.radius.x && f3.radius.x < 150_000);
    // the start point lies inside the playfield minus the inset margin
    assert!(-300_000 <= f3.start.x && f3.start.x <= 300_000);
    assert!(-260_000 <= f3.start.y && f3.start.y <= 260_000);
    // and exactly on the drawn orbit at the stored phase angle
    assert_eq!(f3.start.x, f3.pivot.x + f3.radius.x * cos_mrad(f3.angle) / 1000);
    assert_eq!(f3.start.y, f3.pivot.y + f3.radius.y * sin_mrad(f3.angle) / 1000);
}

#[test]
fn every_enemy_fires_one_laser_below_itself() {
    let mut store = Store::new();
    store.spawn(enemy_at(-50_000, 100_000));
    store.spawn(player_at(0, -300_000));
    store.spawn(enemy_at(50_000, 100_000));
    enemy_fire_system(&mut store);
    assert_eq!(store.entities.len(), 5);
    let l1 = &store.entities[3];
    let l2 = &store.entities[4];
    assert!(l1.laser && l1.from_enemy && l1.auto_despawn);
    assert_eq!(l1.pos, Vec2 { x: -50_000, y: 85_000 });
    assert_eq!(l1.vel, Vec2 { x: 0, y: -1000 });
    assert_eq!(l2.pos, Vec2 { x: 50_000, y: 85_000 });
}

#[test]
fn fire_press_spawns_a_player_laser_at_the_player() {
    let mut store = Store::new();
    store.spawn(player_at(12_000, -250_000));
    player_fire_system(&mut store, false);
    assert_eq!(store.entities.len(), 1);
    player_fire_system(&mut store, true);
    assert_eq!(store.entities.len(), 2);
    let l = &store.entities[1];
    assert!(l.laser && l.from_player && l.movable && l.auto_despawn);
    assert_eq!(l.pos, Vec2 { x: 12_000, y: -250_000 });
    assert_eq!(l.vel, Vec2 { x: 0, y: 1000 });
}

#[test]
fn held_keys_steer_the_player() {
    let mut store = Store::new();
    store.spawn(player_at(0, 0));
    player_keyboard_event_system(&mut store, true, false);
    assert_eq!(store.entities[0].vel.x, -1000);
    player_keyboard_event_system(&mut store, false, true);
    assert_eq!(store.entities[0].vel.x, 1000);
    player_keyboard_event_system(&mut store, false, false);
    assert_eq!(store.entities[0].vel.x, 0);
    // left wins when both directions are held at once
    player_keyboard_event_system(&mut store, true, true);
    assert_eq!(store.entities[0].vel.x, -1000);
}
