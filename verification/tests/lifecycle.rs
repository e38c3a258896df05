use invaders_core::explosion::{
    explosion_animation_system, explosion_to_spawn_system, ExplosionPlayback,
};
use invaders_core::geom::Vec2;
use invaders_core::player::PlayerState;
use invaders_core::store::{Entity, Store};

#[test]
fn explosion_gone_after_exactly_sixteen_completions() {
    let mut p = ExplosionPlayback::new();
    // the frame period is 50 ms: each step below completes the timer once
    for completions in 1..=15 {
        let gone = p.advance(50);
        assert!(!gone, "gone after only {} completions", completions);
        assert_eq!(p.frame_index, completions);
    }
    assert!(p.advance(50));
}

#[test]
fn explosion_timer_accumulates_partial_steps() {
    let mut p = ExplosionPlayback::new();
    assert!(!p.advance(49));
    assert_eq!(p.frame_index, 0);
    assert!(!p.advance(1));
    assert_eq!(p.frame_index, 1);
    assert_eq!(p.timer_ms, 0);
}

#[test]
fn request_becomes_playing_explosion_within_the_tick() {
    let mut store = Store::new();
    let mut req = Entity::base(
        Vec2 { x: 123, y: -456 },
        Vec2 { x: 1000, y: 1000 },
        Vec2 { x: 0, y: 0 },
        Vec2 { x: 0, y: 0 },
    );
    req.explosion_request = true;
    store.spawn(req);
    explosion_to_spawn_system(&mut store);
    assert_eq!(store.entities.len(), 1);
    let vis = &store.entities[0];
    assert!(!vis.explosion_request);
    assert_eq!(vis.pos, Vec2 { x: 123, y: -456 });
    let pb = vis.explosion.unwrap();
    assert_eq!(pb.frame_index, 0);
    assert_eq!(pb.timer_ms, 0);
}

#[test]
fn finished_explosion_entity_is_removed() {
    let mut store = Store::new();
    let mut vis = Entity::base(
        Vec2 { x: 0, y: 0 },
        Vec2 { x: 1000, y: 1000 },
        Vec2 { x: 0, y: 0 },
        Vec2 { x: 0, y: 0 },
    );
    vis.explosion = Some(ExplosionPlayback { timer_ms: 0, frame_index: 15 });
    store.spawn(vis);
    explosion_animation_system(&mut store, 49);
    assert_eq!(store.entities.len(), 1);
    explosion_animation_system(&mut store, 1);
    assert_eq!(store.entities.len(), 0);
}

#[test]
fn shot_then_respawn_check_around_the_delay() {
    let mut ps = PlayerState { alive: true, last_shot: -1 };
    ps.shot(1000);
    assert!(!ps.alive);
    assert_eq!(ps.last_shot, 1000);
    // one millisecond before the two-second delay has elapsed: still dead
    assert!(!ps.respawn_ready(2999));
    // once the delay has fully elapsed: eligible to respawn
    assert!(ps.respawn_ready(3000));
    assert!(ps.respawn_ready(3001));
    ps.spawned();
    assert!(ps.alive);
    assert_eq!(ps.last_shot, -1);
    assert!(!ps.respawn_ready(5000));
}

#[test]
fn fresh_player_state_spawns_immediately() {
    let ps = PlayerState::default();
    assert!(!ps.alive);
    assert_eq!(ps.last_shot, -1);
    assert!(ps.respawn_ready(0));
}

#[test]
fn despawn_removes_exactly_the_named_identity() {
    let mut store = Store::new();
    let a = store.spawn(Entity::base(
        Vec2 { x: 1, y: 1 },
        Vec2 { x: 1000, y: 1000 },
        Vec2 { x: 0, y: 0 },
        Vec2 { x: 0, y: 0 },
    ));
    let b = store.spawn(Entity::base(
        Vec2 { x: 2, y: 2 },
        Vec2 { x: 1000, y: 1000 },
        Vec2 { x: 0, y: 0 },
        Vec2 { x: 0, y: 0 },
    ));
    assert_ne!(a, b);
    let removed = store.despawn(a).unwrap();
    assert_eq!(removed.id, a);
    assert_eq!(store.entities.len(), 1);
    assert_eq!(store.entities[0].id, b);
    assert!(store.despawn(a).is_none());
}
