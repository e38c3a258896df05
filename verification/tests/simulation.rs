use invaders_core::geom::WinSize;
use invaders_core::sim::{InputState, SimState};

fn idle() -> InputState {
    InputState { left_held: false, right_held: false, fire_just_pressed: false }
}

#[test]
fn enemy_count_stays_within_the_cap_over_many_ticks() {
    let mut sim = SimState::new(WinSize { w: 800_000, h: 720_000 });
    for i in 0..600u32 {
        let input = InputState {
            left_held: i % 5 == 0,
            right_held: i % 7 == 0,
            fire_just_pressed: i % 3 == 0,
        };
        let (destroyed, _) = sim.tick(input, i % 60 == 0, 17);
        // the live-enemy counter never leaves [0, ENEMY_MAX] ...
        assert!(sim.enemy_count <= 2);
        // ... and always equals the enemy entities actually in the store
        let live = sim
            .store
            .entities
            .iter()
            .filter(|e| e.enemy)
            .count();
        assert_eq!(live as u32, sim.enemy_count);
        // no identity is part of two destruction decisions in one tick
        for a in 0..destroyed.len() {
            for b in (a + 1)..destroyed.len() {
                assert_ne!(destroyed[a], destroyed[b]);
            }
        }
    }
}

#[test]
fn player_spawns_at_startup_and_once_per_death() {
    let mut sim = SimState::new(WinSize { w: 800_000, h: 720_000 });
    assert!(!sim.player.alive);
    sim.tick(idle(), false, 17);
    // the respawn check creates the player on the first tick
    assert!(sim.player.alive);
    let players = sim.store.entities.iter().filter(|e| e.player).count();
    assert_eq!(players, 1);
    // while alive, further ticks never create a second player
    for _ in 0..120 {
        sim.tick(idle(), false, 17);
        let players = sim.store.entities.iter().filter(|e| e.player).count();
        assert_eq!(players, if sim.player.alive { 1 } else { 0 });
    }
}

#[test]
fn simulated_time_advances_by_the_tick_length() {
    let mut sim = SimState::new(WinSize { w: 800_000, h: 720_000 });
    sim.tick(idle(), false, 17);
    sim.tick(idle(), false, 16);
    assert_eq!(sim.now_ms, 33);
}
