//! The player lifecycle: alive or dead with a respawn cooldown keyed to
//! elapsed simulation time.

use vstd::prelude::*;
use crate::{
    MILLI, PLAYER_RESPAWN_DELAY_MS, PLAYER_SIZE_W, PLAYER_SIZE_H, PLAYER_LASER_SIZE_W,
    PLAYER_LASER_SIZE_H, SPRITE_SCALE_MILLI,
};
use crate::geom::{Vec2, WinSize, win_size_wf};
use crate::store::{
    Store, Entity, entity_wf, count_enemies, count_players, is_enemy_fn, is_player_fn,
    lemma_count_where_push,
};

verus! {

/// Alive/dead state of the player.  `last_shot == -1` means no respawn
/// cooldown is pending; otherwise it records when the player was shot,
/// in milliseconds of simulated time.
pub struct PlayerState {
    pub alive: bool,
    pub last_shot: i64,
}

pub open spec fn player_state_wf(p: PlayerState) -> bool {
    &&& p.last_shot >= -1
    &&& p.alive ==> p.last_shot == -1
}

impl Default for PlayerState {
    /// The player starts not yet spawned and with no cooldown pending.
    fn default() -> (p: PlayerState)
        ensures
            player_state_wf(p),
            !p.alive,
            p.last_shot == -1,
    {
        PlayerState { alive: false, last_shot: -1 }
    }
}

impl PlayerState {
    /// The player was hit at `time_ms`: dead from now on, with the
    /// respawn cooldown measured from that moment.
    pub fn shot(&mut self, time_ms: i64)
        requires
            time_ms >= 0,
        ensures
            player_state_wf(*final(self)),
            !final(self).alive,
            final(self).last_shot == time_ms,
    {
        self.alive = false;
        self.last_shot = time_ms;
    }

    /// A fresh player entity was created: alive, no cooldown pending.
    pub fn spawned(&mut self)
        ensures
            player_state_wf(*final(self)),
            final(self).alive,
            final(self).last_shot == -1,
    {
        self.alive = true;
        self.last_shot = -1;
    }

    /// May the player be recreated at `now_ms`?  Exactly when it is dead
    /// and either no cooldown is pending or the respawn delay has fully
    /// elapsed since it was shot.
    pub fn respawn_ready(&self, now_ms: i64) -> (r: bool)
        requires
            player_state_wf(*self),
            0 <= now_ms < i64::MAX,
        ensures
            r <==> (!self.alive && (self.last_shot == -1 || now_ms - self.last_shot
                >= PLAYER_RESPAWN_DELAY_MS)),
    {
        !self.alive && (self.last_shot == -1 || now_ms - self.last_shot
            >= PLAYER_RESPAWN_DELAY_MS)
    }
}

/// The freshly created player entity: centered horizontally, resting
/// just above the bottom edge of the playfield.
pub open spec fn spec_player_entity(win: WinSize, id: u64) -> Entity {
    Entity {
        id: id,
        pos: Vec2 { x: 0, y: (-(win.h / 2) + PLAYER_SIZE_H * SPRITE_SCALE_MILLI / (2 * MILLI)
            + 5 * MILLI) as i64 },
        scale: Vec2 { x: SPRITE_SCALE_MILLI, y: SPRITE_SCALE_MILLI },
        vel: Vec2 { x: 0, y: 0 },
        size: Vec2 { x: PLAYER_SIZE_W, y: PLAYER_SIZE_H },
        enemy: false,
        player: true,
        laser: false,
        from_player: false,
        from_enemy: false,
        movable: true,
        auto_despawn: false,
        formation: None,
        explosion: None,
        explosion_request: false,
    }
}

/// A player laser fired from `p`: it flies straight up until it leaves
/// the playfield.
pub open spec fn spec_player_laser_entity(p: Vec2, id: u64) -> Entity {
    Entity {
        id: id,
        pos: p,
        scale: Vec2 { x: SPRITE_SCALE_MILLI, y: SPRITE_SCALE_MILLI },
        vel: Vec2 { x: 0, y: MILLI },
        size: Vec2 { x: PLAYER_LASER_SIZE_W, y: PLAYER_LASER_SIZE_H },
        enemy: false,
        player: false,
        laser: true,
        from_player: true,
        from_enemy: false,
        movable: true,
        auto_despawn: true,
        formation: None,
        explosion: None,
        explosion_request: false,
    }
}

/// Recreate the player once the respawn check passes: when the player is
/// dead and either was never shot or the respawn delay has elapsed, a
/// fresh player entity appears at the starting position and the state
/// returns to alive with no cooldown pending.
pub fn player_spawn_system(store: &mut Store, state: &mut PlayerState, win: &WinSize, now_ms: i64)
    requires
        old(store).wf(),
        player_state_wf(*old(state)),
        win_size_wf(*win),
        0 <= now_ms < i64::MAX,
        old(store).next_id < u64::MAX,
        !old(state).alive ==> count_players(old(store).entities@) == 0,
    ensures
        final(store).wf(),
        player_state_wf(*final(state)),
        count_enemies(final(store).entities@) == count_enemies(old(store).entities@),
        !(!old(state).alive && (old(state).last_shot == -1 || now_ms - old(state).last_shot
            >= PLAYER_RESPAWN_DELAY_MS)) ==> *final(store) == *old(store) && *final(state) == *old(
            state,
        ),
        (!old(state).alive && (old(state).last_shot == -1 || now_ms - old(state).last_shot
            >= PLAYER_RESPAWN_DELAY_MS)) ==> {
            &&& final(store).entities@ == old(store).entities@.push(
                spec_player_entity(*win, old(store).next_id),
            )
            &&& final(state).alive && final(state).last_shot == -1
            &&& count_players(final(store).entities@) == 1
        },
        final(state).alive ==> count_players(final(store).entities@) == 1 || (old(state).alive
            && count_players(final(store).entities@) == count_players(old(store).entities@)),
        old(store).next_id <= final(store).next_id <= old(store).next_id + 1,
        final(store).entities@.len() <= old(store).entities@.len() + 1,
        (forall|i: int|
            0 <= i < old(store).entities@.len()
                ==> !(#[trigger] old(store).entities@[i]).explosion_request) ==> (forall|i: int|
            0 <= i < final(store).entities@.len()
                ==> !(#[trigger] final(store).entities@[i]).explosion_request),
{
    let ghost before = store.entities@;
    if state.respawn_ready(now_ms) {
        let mut e = Entity::base(
            Vec2 { x: 0, y: -(win.h / 2) + PLAYER_SIZE_H * SPRITE_SCALE_MILLI / (2 * MILLI) + 5
                * MILLI },
            Vec2 { x: SPRITE_SCALE_MILLI, y: SPRITE_SCALE_MILLI },
            Vec2 { x: 0, y: 0 },
            Vec2 { x: PLAYER_SIZE_W, y: PLAYER_SIZE_H },
        );
        e.player = true;
        e.movable = true;
        store.spawn(e);
        state.spawned();
        proof {
            assert(store.entities@.last() == spec_player_entity(*win, old(store).next_id));
            lemma_count_where_push(before, is_enemy_fn(), store.entities@.last());
            lemma_count_where_push(before, is_player_fn(), store.entities@.last());
        }
    }
}

/// Fire one player laser on a fresh fire press: the laser appears at the
/// player's position and flies upward.  Without a live player, or
/// without a press, nothing happens.
pub fn player_fire_system(store: &mut Store, fire_just_pressed: bool)
    requires
        old(store).wf(),
        old(store).next_id < u64::MAX,
    ensures
        final(store).wf(),
        count_enemies(final(store).entities@) == count_enemies(old(store).entities@),
        count_players(final(store).entities@) == count_players(old(store).entities@),
        old(store).next_id <= final(store).next_id <= old(store).next_id + 1,
        final(store).entities@.len() <= old(store).entities@.len() + 1,
        !fire_just_pressed ==> *final(store) == *old(store),
        fire_just_pressed ==> (count_players(old(store).entities@) == 0 && *final(store) == *old(
            store,
        )) || exists|pi: int|
            {
                &&& 0 <= pi < old(store).entities@.len()
                &&& (#[trigger] old(store).entities@[pi]).player
                &&& final(store).entities@ == old(store).entities@.push(
                    spec_player_laser_entity(old(store).entities@[pi].pos, old(store).next_id),
                )
            },
{
    let ghost s = store.entities@;
    if !fire_just_pressed {
        return ;
    }
    let n = store.entities.len();
    let mut pi: usize = 0;
    while pi < n
        invariant
            *store == *old(store),
            s == store.entities@,
            n == s.len(),
            0 <= pi <= n,
            forall|q: int| 0 <= q < pi ==> !(#[trigger] s[q]).player,
        ensures
            0 <= pi <= n,
            forall|q: int| 0 <= q < pi ==> !(#[trigger] s[q]).player,
            pi < n ==> s[pi as int].player,
        decreases n - pi,
    {
        if store.entities[pi].player {
            break;
        }
        pi = pi + 1;
    }
    if pi >= n {
        proof {
            if count_players(s) != 0 {
                crate::store::lemma_count_where_bounds(s, is_player_fn());
                lemma_some_player_exists(s);
            }
        }
        return ;
    }
    let player = store.entities[pi];
    let mut laser = Entity::base(
        player.pos,
        Vec2 { x: SPRITE_SCALE_MILLI, y: SPRITE_SCALE_MILLI },
        Vec2 { x: 0, y: MILLI },
        Vec2 { x: PLAYER_LASER_SIZE_W, y: PLAYER_LASER_SIZE_H },
    );
    laser.laser = true;
    laser.from_player = true;
    laser.movable = true;
    laser.auto_despawn = true;
    let ghost before = store.entities@;
    store.spawn(laser);
    proof {
        assert(store.entities@.last() == spec_player_laser_entity(
            s[pi as int].pos,
            old(store).next_id,
        ));
        lemma_count_where_push(before, is_enemy_fn(), store.entities@.last());
        lemma_count_where_push(before, is_player_fn(), store.entities@.last());
    }
}

/// A positive player count means some entity carries the player tag.
proof fn lemma_some_player_exists(s: Seq<Entity>)
    requires
        count_players(s) >= 1,
    ensures
        exists|q: int| 0 <= q < s.len() && (#[trigger] s[q]).player,
    decreases s.len(),
{
    if s.len() > 0 {
        if s.last().player {
            assert(s[s.len() - 1].player);
        } else {
            lemma_some_player_exists(s.drop_last());
            let q = choose|q: int| 0 <= q < s.drop_last().len() && (#[trigger] s.drop_last()[q]).player;
            assert(s[q].player);
        }
    }
}

/// `e` as the keyboard leaves it: a player's horizontal velocity follows
/// the held arrow keys (left wins over right, neither means standing
/// still on this axis); any other entity is untouched.
pub open spec fn steered_entity(e: Entity, left_held: bool, right_held: bool) -> Entity {
    if e.player {
        Entity {
            vel: Vec2 {
                x: if left_held {
                    -1000int as i64
                } else if right_held {
                    1000int as i64
                } else {
                    0int as i64
                },
                y: e.vel.y,
            },
            ..e
        }
    } else {
        e
    }
}

/// Steer the player from the held arrow keys: left gives a unit velocity
/// to the left, right to the right, neither or both at once leaves the
/// player still on this axis.
pub fn player_keyboard_event_system(store: &mut Store, left_held: bool, right_held: bool)
    requires
        old(store).wf(),
    ensures
        final(store).wf(),
        final(store).next_id == old(store).next_id,
        final(store).entities@.len() == old(store).entities@.len(),
        count_enemies(final(store).entities@) == count_enemies(old(store).entities@),
        count_players(final(store).entities@) == count_players(old(store).entities@),
        forall|i: int|
            0 <= i < old(store).entities@.len() ==> final(store).entities@[i] == steered_entity(
                #[trigger] old(store).entities@[i],
                left_held,
                right_held,
            ),
{
    let ghost s0 = old(store).entities@;
    let vx: i64 = if left_held {
        -1000
    } else if right_held {
        1000
    } else {
        0
    };
    let n = store.entities.len();
    let mut i: usize = 0;
    while i < n
        invariant
            store.wf(),
            store.next_id == old(store).next_id,
            n == store.entities@.len(),
            s0.len() == n,
            0 <= i <= n,
            vx == if left_held { -1000int } else if right_held { 1000int } else { 0int },
            forall|j: int|
                0 <= j < i ==> store.entities@[j] == (if (#[trigger] s0[j]).player {
                    Entity { vel: Vec2 { x: vx, y: s0[j].vel.y }, ..s0[j] }
                } else {
                    s0[j]
                }),
            forall|j: int| i <= j < n ==> store.entities@[j] == s0[j],
        decreases n - i,
    {
        let e = store.entities[i];
        if e.player {
            let mut e2 = e;
            e2.vel = Vec2 { x: vx, y: e.vel.y };
            let ghost before = store.entities@;
            store.entities[i] = e2;
            proof {
                assert forall|a: int, b: int|
                    0 <= a < b < store.entities@.len() implies store.entities@[a].id
                    != store.entities@[b].id by {
                    assert(store.entities@[a].id == before[a].id);
                    assert(store.entities@[b].id == before[b].id);
                }
            }
        }
        i = i + 1;
    }
    proof {
        crate::enemy::lemma_count_where_pointwise(store.entities@, s0, is_enemy_fn());
        crate::enemy::lemma_count_where_pointwise(store.entities@, s0, is_player_fn());
    }
}

} // verus!
