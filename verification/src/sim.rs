//! The simulation context: one struct owns every process-wide resource
//! (entity store, live-enemy counter, player state, formation generator,
//! window extent, elapsed time), and one tick runs every system once in
//! dependency order.  The context invariant — the counter matches the
//! live enemies and never exceeds the cap, and a player entity exists
//! exactly while the player state is alive — holds after every tick.

use vstd::prelude::*;
use crate::ENEMY_MAX;
use crate::geom::{WinSize, win_size_wf};
use crate::formation::{FormationMaker, maker_wf, FORMATION_INSET};
use crate::player::{PlayerState, player_state_wf, player_spawn_system, player_fire_system,
    player_keyboard_event_system};
use crate::store::{
    Store, Entity, count_enemies, count_players, is_enemy_fn, is_player_fn, entity_wf,
    lemma_count_where_one,
};
use crate::motion::{
    movable_system, moved_entity, motion_despawns, motion_result, lemma_motion_result_count,
};
use crate::enemy::{
    enemy_spawn_system, enemy_fire_system, enemy_fire_criteria, enemy_movement_system, flown_seq,
};
use crate::collision::{
    player_laser_hit_enemy_system, enemy_laser_hit_player_system, no_dup, pair_resolved,
    player_hit_pair, decision_pair_ids, player_laser, enemy_laser, hits, remove_ids,
};
use crate::player::steered_entity;
use crate::formation::{formation_wf, starts_on_ellipse};
use crate::explosion::{
    explosion_to_spawn_system, explosion_animation_system, advanced_entity, anim_removes,
    lemma_anim_result_keeps, lemma_non_request_keeps, DELTA_LIMIT_MS,
};
use crate::collision::{lemma_remove_ids_keeps, spec_request_entity};

verus! {

/// The discrete input queries the core polls once per tick.
#[derive(Clone, Copy, PartialEq, Eq, Structural, Debug)]
pub struct InputState {
    pub left_held: bool,
    pub right_held: bool,
    pub fire_just_pressed: bool,
}

/// What the decision phase of a tick may add to the store: a fresh enemy
/// standing at the start of its own well-formed orbit, a player laser,
/// or an enemy laser.
pub open spec fn decision_spawned(e: Entity) -> bool {
    ||| (e.enemy && e.formation is Some && formation_wf(e.formation->0) && starts_on_ellipse(
        e.formation->0,
    ) && e.pos == e.formation->0.start)
    ||| player_laser(e)
    ||| enemy_laser(e)
}

/// Does the resolution phase owe the survival of `e`?  Everything it
/// read survives except what a destruction decision names, the requests
/// it consumes, the playbacks that finish, and — on a tick that shoots
/// the player down — the player and the enemy lasers.
pub open spec fn resolution_keeps(e: Entity, d: Seq<u64>, player_hit: bool, delta: int) -> bool {
    &&& !d.contains(e.id)
    &&& !e.explosion_request
    &&& !anim_removes(e, delta)
    &&& !(player_hit && (e.player || enemy_laser(e)))
}

/// Some entity of `s` is exactly `e`.
pub open spec fn store_holds(s: Seq<Entity>, e: Entity) -> bool {
    exists|k: int| 0 <= k < s.len() && s[k] == e
}

/// Everything the simulation owns, advanced tick by tick.
pub struct SimState {
    pub store: Store,
    /// Live enemies; always equal to the enemy entities in the store.
    pub enemy_count: u32,
    pub player: PlayerState,
    pub maker: FormationMaker,
    pub win: WinSize,
    /// Elapsed simulated time, in milliseconds.
    pub now_ms: i64,
}

impl SimState {
    /// The context invariant: a well-formed store, the counter bound to
    /// the live enemies and capped, and the player entity live exactly
    /// while the player state says so.
    pub open spec fn wf(self) -> bool {
        &&& self.store.wf()
        &&& self.enemy_count == count_enemies(self.store.entities@)
        &&& self.enemy_count <= ENEMY_MAX
        &&& player_state_wf(self.player)
        &&& count_players(self.store.entities@) == if self.player.alive {
            1int
        } else {
            0int
        }
        &&& win_size_wf(self.win)
        &&& self.win.w / 2 > FORMATION_INSET && self.win.h / 2 > FORMATION_INSET
        &&& maker_wf(self.maker)
        &&& 0 <= self.now_ms
    }

    /// A fresh simulation over a playfield of the given extent: an empty
    /// store, no enemies, the player not yet spawned, no orbit drawn.
    pub fn new(win: WinSize) -> (s: SimState)
        requires
            win_size_wf(win),
            win.w / 2 > FORMATION_INSET && win.h / 2 > FORMATION_INSET,
        ensures
            s.wf(),
            s.now_ms == 0,
            s.store.entities@.len() == 0,
            s.enemy_count == 0,
            !s.player.alive,
            s.player.last_shot == -1,
    {
        SimState {
            store: Store::new(),
            enemy_count: 0,
            player: PlayerState { alive: false, last_shot: -1 },
            maker: FormationMaker::new(),
            win: win,
            now_ms: 0,
        }
    }

    /// The tick's decision and motion phase: spawn (when due), read the
    /// input and fire, then move every entity.  The returned ghost value
    /// is the store as the motion phase found it: the old entities with
    /// the keyboard applied, followed by whatever this tick spawned.
    #[verifier::rlimit(100)]
    fn tick_decisions(&mut self, input: InputState, spawn_due: bool) -> (mid: Ghost<Seq<Entity>>)
        requires
            old(self).wf(),
            old(self).store.next_id + 8 * old(self).store.entities@.len() + 32 < u64::MAX,
        ensures
            final(self).wf(),
            final(self).player == old(self).player,
            final(self).win == old(self).win,
            final(self).now_ms == old(self).now_ms,
            final(self).store.next_id + 3 * final(self).store.entities@.len() + 8 < u64::MAX,
            old(self).store.entities@.len() <= mid@.len(),
            forall|i: int|
                0 <= i < old(self).store.entities@.len() ==> mid@[i] == steered_entity(
                    #[trigger] old(self).store.entities@[i],
                    input.left_held,
                    input.right_held,
                ),
            forall|j: int|
                old(self).store.entities@.len() <= j < mid@.len() ==> decision_spawned(
                    #[trigger] mid@[j],
                ),
            final(self).store.entities@ == motion_result(flown_seq(mid@), old(self).win),
    {
        let ghost s0 = self.store.entities@;
        if spawn_due {
            enemy_spawn_system(&mut self.store, &mut self.enemy_count, &mut self.maker, &self.win);
        }
        let ghost s1 = self.store.entities@;
        proof {
            assert(s0.len() <= s1.len());
            assert(forall|i: int| 0 <= i < s0.len() ==> s1[i] == s0[i]);
            assert(forall|j: int|
                s0.len() <= j < s1.len() ==> decision_spawned(#[trigger] s1[j]) && !s1[j].player);
        }
        player_keyboard_event_system(&mut self.store, input.left_held, input.right_held);
        let ghost s2 = self.store.entities@;
        proof {
            assert(s2.len() == s1.len());
            assert forall|i: int| 0 <= i < s0.len() implies s2[i] == steered_entity(
                #[trigger] s0[i],
                input.left_held,
                input.right_held,
            ) by {
                assert(s2[i] == steered_entity(s1[i], input.left_held, input.right_held));
            }
            assert forall|j: int|
                s0.len() <= j < s2.len() implies decision_spawned(#[trigger] s2[j])
                && !s2[j].player by {
                assert(s2[j] == steered_entity(s1[j], input.left_held, input.right_held));
            }
        }
        player_fire_system(&mut self.store, input.fire_just_pressed);
        let ghost s3 = self.store.entities@;
        proof {
            if s3.len() == s2.len() {
                assert(s3 == s2);
            } else {
                assert(forall|i: int| 0 <= i < s2.len() ==> s3[i] == s2[i]);
                assert(player_laser(s3.last()) && !s3.last().player);
            }
            assert(forall|i: int|
                0 <= i < s0.len() ==> s3[i] == steered_entity(
                    #[trigger] s0[i],
                    input.left_held,
                    input.right_held,
                ));
            assert(forall|j: int|
                s0.len() <= j < s3.len() ==> decision_spawned(#[trigger] s3[j]) && !s3[j].player);
        }
        if enemy_fire_criteria() {
            enemy_fire_system(&mut self.store);
        }
        let ghost s4 = self.store.entities@;
        proof {
            assert(forall|i: int| 0 <= i < s3.len() ==> s4[i] == s3[i]);
            assert(forall|j: int| s3.len() <= j < s4.len() ==> enemy_laser(#[trigger] s4[j]));
            assert(forall|i: int|
                0 <= i < s0.len() ==> s4[i] == steered_entity(
                    #[trigger] s0[i],
                    input.left_held,
                    input.right_held,
                ));
            assert(forall|j: int|
                s0.len() <= j < s4.len() ==> decision_spawned(#[trigger] s4[j]));
        }
        enemy_movement_system(&mut self.store);
        let ghost before_motion = self.store.entities@;
        proof {
            assert(before_motion =~= flown_seq(s4));
        }
        movable_system(&mut self.store, &self.win);
        proof {
            assert forall|e| is_enemy_fn()(#[trigger] moved_entity(e)) == is_enemy_fn()(e) by {}
            assert forall|e| is_player_fn()(#[trigger] moved_entity(e)) == is_player_fn()(e) by {}
            assert forall|i: int|
                0 <= i < before_motion.len() && is_enemy_fn()(
                    #[trigger] before_motion[i],
                ) implies !motion_despawns(before_motion[i], self.win) by {
                assert(entity_wf(before_motion[i]));
            }
            assert forall|i: int|
                0 <= i < before_motion.len() && is_player_fn()(
                    #[trigger] before_motion[i],
                ) implies !motion_despawns(before_motion[i], self.win) by {
                assert(entity_wf(before_motion[i]));
            }
            lemma_motion_result_count(before_motion, self.win, is_enemy_fn());
            lemma_motion_result_count(before_motion, self.win, is_player_fn());
            assert(self.store.entities@ == motion_result(flown_seq(s4), old(self).win));
        }
        Ghost(s4)
    }

    /// The tick's resolution phase: collisions, the explosion lifecycle,
    /// and the respawn check, at time `now` with `delta_ms` elapsed.
    /// The returned decision list resolves the store this phase received;
    /// the flag reports whether an enemy laser shot the player down.
    #[verifier::rlimit(100)]
    fn tick_resolution(&mut self, now: i64, delta_ms: i64) -> (r: (Vec<u64>, bool))
        requires
            old(self).wf(),
            0 <= now < i64::MAX,
            0 <= delta_ms <= DELTA_LIMIT_MS,
            old(self).store.next_id + 3 * old(self).store.entities@.len() + 8 < u64::MAX,
        ensures
            final(self).wf(),
            final(self).now_ms == old(self).now_ms,
            final(self).win == old(self).win,
            no_dup(r.0@),
            r.0@.len() % 2 == 0,
            forall|a: int, b: int|
                0 <= a < old(self).store.entities@.len() && 0 <= b < old(self).store.entities@.len()
                    ==> pair_resolved(old(self).store.entities@, r.0@, a, b),
            forall|k: int|
                0 <= k < r.0@.len() / 2 ==> #[trigger] decision_pair_ids(
                    old(self).store.entities@,
                    r.0@,
                    k,
                ),
            r.1 ==> !final(self).player.alive && final(self).player.last_shot == now,
            !r.1 ==> final(self).player == old(self).player || (final(self).player.alive
                && final(self).player.last_shot == -1),
            r.1 ==> exists|pi: int, li: int|
                #[trigger] player_hit_pair(remove_ids(old(self).store.entities@, r.0@), pi, li),
            !r.1 ==> forall|pi: int, li: int|
                0 <= pi < remove_ids(old(self).store.entities@, r.0@).len() && 0 <= li
                    < remove_ids(old(self).store.entities@, r.0@).len() && (#[trigger] remove_ids(
                    old(self).store.entities@,
                    r.0@,
                )[pi]).player && enemy_laser(#[trigger] remove_ids(
                    old(self).store.entities@,
                    r.0@,
                )[li]) ==> !hits(
                    remove_ids(old(self).store.entities@, r.0@)[li],
                    remove_ids(old(self).store.entities@, r.0@)[pi],
                ),
            forall|i: int|
                0 <= i < final(self).store.entities@.len()
                    ==> !(#[trigger] final(self).store.entities@[i]).explosion_request,
            forall|i: int|
                0 <= i < old(self).store.entities@.len() && resolution_keeps(
                    #[trigger] old(self).store.entities@[i],
                    r.0@,
                    r.1,
                    delta_ms as int,
                ) ==> store_holds(
                    final(self).store.entities@,
                    advanced_entity(old(self).store.entities@[i], delta_ms as int),
                ),
    {
        let ghost s_in = self.store.entities@;
        let destroyed = player_laser_hit_enemy_system(&mut self.store, &mut self.enemy_count);
        let ghost s2 = self.store.entities@;
        let ghost n2 = self.store.next_id;
        let ghost alive2 = self.player.alive;
        let hit = enemy_laser_hit_player_system(&mut self.store, &mut self.player, now);
        proof {
            // the store the player pass read: the first pass's survivors
            // followed by its explosion requests, which carry no tags
            let rem = remove_ids(s_in, destroyed@);
            assert(rem.len() <= s2.len());
            assert(forall|i: int| 0 <= i < rem.len() ==> s2[i] == rem[i]);
            assert(forall|i: int|
                rem.len() <= i < s2.len() ==> !(#[trigger] s2[i]).player && !s2[i].laser);
            if hit {
                // a hit presupposes a live player, so the player state
                // was alive and exactly one player entity was removed
                assert(exists|pi: int, li: int| #[trigger] player_hit_pair(s2, pi, li));
                let (pi, li) = choose|pi: int, li: int| #[trigger] player_hit_pair(s2, pi, li);
                lemma_count_where_one(s2, is_player_fn(), pi);
                assert(alive2);
                // the pair stands among the survivors themselves
                assert(pi < rem.len() && li < rem.len());
                assert forall|q: int|
                    0 <= q < li && enemy_laser(#[trigger] rem[q]) implies !hits(
                    rem[q],
                    rem[pi],
                ) by {
                    assert(s2[q] == rem[q]);
                }
                assert(player_hit_pair(rem, pi, li));
            } else {
                assert forall|pi: int, li: int|
                    0 <= pi < rem.len() && 0 <= li < rem.len() && (#[trigger] rem[pi]).player
                        && enemy_laser(#[trigger] rem[li]) implies !hits(rem[li], rem[pi]) by {
                    assert(s2[pi] == rem[pi] && s2[li] == rem[li]);
                }
            }
        }
        let ghost s3 = self.store.entities@;
        explosion_to_spawn_system(&mut self.store);
        let ghost s4 = self.store.entities@;
        explosion_animation_system(&mut self.store, delta_ms);
        let ghost s5 = self.store.entities@;
        player_spawn_system(&mut self.store, &mut self.player, &self.win, now);
        proof {
            // everything the phase owes survival to is still here, with
            // only its explosion playback advanced
            let d = destroyed@;
            let rem = remove_ids(s_in, d);
            assert forall|i: int|
                0 <= i < s_in.len() && resolution_keeps(
                    #[trigger] s_in[i],
                    d,
                    hit,
                    delta_ms as int,
                ) implies store_holds(
                self.store.entities@,
                advanced_entity(s_in[i], delta_ms as int),
            ) by {
                let e = s_in[i];
                // past the first pass: the identity was not decided
                lemma_remove_ids_keeps(s_in, d, i);
                let k1 = choose|k: int| 0 <= k < rem.len() && #[trigger] rem[k] == e;
                assert(s2[k1] == e);
                // past the player pass
                let k2: int = if hit {
                    let (pi, li) = choose|pi: int, li: int|
                        {
                            &&& #[trigger] player_hit_pair(s2, pi, li)
                            &&& s3 == remove_ids(s2, seq![s2[pi].id, s2[li].id]).push(
                                spec_request_entity(s2[pi].pos, n2),
                            )
                        };
                    let ids2 = seq![s2[pi].id, s2[li].id];
                    assert(forall|t: int|
                        0 <= t < ids2.len() ==> #[trigger] ids2[t] == ids2[0] || ids2[t]
                            == ids2[1]);
                    assert(!ids2.contains(e.id)) by {
                        if e.id == s2[pi].id {
                            assert(s2[k1] == e && s2[pi].player);
                            assert(k1 == pi || s2[k1].id != s2[pi].id);
                        }
                        if e.id == s2[li].id {
                            assert(k1 == li || s2[k1].id != s2[li].id);
                        }
                    }
                    let rem2 = remove_ids(s2, ids2);
                    lemma_remove_ids_keeps(s2, ids2, k1);
                    let kk = choose|k: int| 0 <= k < rem2.len() && #[trigger] rem2[k] == e;
                    assert(s3[kk] == e);
                    kk
                } else {
                    k1
                };
                assert(s3[k2] == e);
                // past the conversion of requests
                lemma_non_request_keeps(s3, k2);
                let k3 = choose|k: int|
                    0 <= k < crate::explosion::non_request_entities(s3).len()
                        && #[trigger] crate::explosion::non_request_entities(s3)[k] == e;
                assert(s4[k3] == e);
                // past the animation step
                lemma_anim_result_keeps(s4, delta_ms as int, k3);
                let k4 = choose|k: int|
                    0 <= k < s5.len() && #[trigger] s5[k] == advanced_entity(e, delta_ms as int);
                // past the respawn check, which only appends
                assert(self.store.entities@[k4] == advanced_entity(e, delta_ms as int));
            }
        }
        (destroyed, hit)
    }

    /// One fixed-timestep tick: spawn (when due), read input and fire,
    /// move everything, resolve collisions, play explosions, and check
    /// the respawn cooldown.  Returns the tick's destruction decisions
    /// from the laser/enemy pass and whether the player was hit.
    ///
    /// After every tick the context invariant holds again; in particular
    /// the live-enemy count stays between zero and `ENEMY_MAX`, no entity
    /// is part of two destruction decisions, no explosion request outlives
    /// the tick, a reported hit leaves the player shot at the tick's time,
    /// and the stores the tick worked through are pinned below: the
    /// decision phase only steers the player and appends spawned entities,
    /// one flight step and one linear step follow, and the returned list
    /// resolves every colliding laser/enemy pair of the moved store.
    pub fn tick(&mut self, input: InputState, spawn_due: bool, delta_ms: i64) -> (r: (Vec<
        u64,
    >, bool))
        requires
            old(self).wf(),
            0 <= delta_ms <= DELTA_LIMIT_MS,
            old(self).now_ms + delta_ms < i64::MAX,
            old(self).store.next_id + 8 * old(self).store.entities@.len() + 32 < u64::MAX,
        ensures
            final(self).wf(),
            0 <= final(self).enemy_count <= ENEMY_MAX,
            final(self).enemy_count == count_enemies(final(self).store.entities@),
            final(self).now_ms == old(self).now_ms + delta_ms,
            final(self).win == old(self).win,
            no_dup(r.0@),
            r.0@.len() % 2 == 0,
            r.1 ==> !final(self).player.alive && final(self).player.last_shot == old(self).now_ms
                + delta_ms,
            !r.1 ==> final(self).player == old(self).player || (final(self).player.alive
                && final(self).player.last_shot == -1),
            forall|i: int|
                0 <= i < final(self).store.entities@.len()
                    ==> !(#[trigger] final(self).store.entities@[i]).explosion_request,
            exists|mid: Seq<Entity>, resolved: Seq<Entity>|
                #![trigger mid.len(), resolved.len()]
                {
                    &&& old(self).store.entities@.len() <= mid.len()
                    &&& forall|i: int|
                        0 <= i < old(self).store.entities@.len() ==> mid[i] == steered_entity(
                            #[trigger] old(self).store.entities@[i],
                            input.left_held,
                            input.right_held,
                        )
                    &&& forall|j: int|
                        old(self).store.entities@.len() <= j < mid.len() ==> decision_spawned(
                            #[trigger] mid[j],
                        )
                    &&& resolved == motion_result(flown_seq(mid), old(self).win)
                    &&& forall|a: int, b: int|
                        0 <= a < resolved.len() && 0 <= b < resolved.len() ==> pair_resolved(
                            resolved,
                            r.0@,
                            a,
                            b,
                        )
                    &&& forall|k: int|
                        0 <= k < r.0@.len() / 2 ==> #[trigger] decision_pair_ids(
                            resolved,
                            r.0@,
                            k,
                        )
                    &&& r.1 ==> exists|pi: int, li: int|
                        #[trigger] player_hit_pair(remove_ids(resolved, r.0@), pi, li)
                    &&& !r.1 ==> forall|pi: int, li: int|
                        0 <= pi < remove_ids(resolved, r.0@).len() && 0 <= li < remove_ids(
                            resolved,
                            r.0@,
                        ).len() && (#[trigger] remove_ids(resolved, r.0@)[pi]).player
                            && enemy_laser(#[trigger] remove_ids(resolved, r.0@)[li]) ==> !hits(
                            remove_ids(resolved, r.0@)[li],
                            remove_ids(resolved, r.0@)[pi],
                        )
                    &&& forall|i: int|
                        0 <= i < resolved.len() && resolution_keeps(
                            #[trigger] resolved[i],
                            r.0@,
                            r.1,
                            delta_ms as int,
                        ) ==> store_holds(
                            final(self).store.entities@,
                            advanced_entity(resolved[i], delta_ms as int),
                        )
                },
    {
        let now = self.now_ms + delta_ms;
        let mid = self.tick_decisions(input, spawn_due);
        let ghost resolved0 = self.store.entities@;
        let r = self.tick_resolution(now, delta_ms);
        proof {
            assert(mid@.len() >= 0 && resolved0.len() >= 0);
            assert(resolved0 == motion_result(flown_seq(mid@), old(self).win));
        }
        self.now_ms = now;
        r
    }
}

} // verus!
