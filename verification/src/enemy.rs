//! Enemy systems: spawning gated by the live-enemy cap, per-tick orbital
//! movement through the flight controller, and the per-tick volley in
//! which every enemy fires one laser.

use vstd::prelude::*;
use crate::{
    ENEMY_MAX, ENEMY_SIZE_W, ENEMY_SIZE_H, ENEMY_LASER_SIZE_W, ENEMY_LASER_SIZE_H,
    ENEMY_LASER_OFFSET_Y, ENEMY_FIRE_ONE_IN, MILLI, SPRITE_SCALE_MILLI,
};
use crate::geom::{Vec2, WinSize, win_size_wf, spec_clamp_pos, clamp_pos};
use crate::formation::{
    Formation, FormationMaker, formation_wf, maker_wf, starts_on_ellipse, FORMATION_INSET,
    FORMATION_BASE_SPEED,
};
use crate::flight::{next_flight_pos, next_formation, flight_step};
use crate::rng::random_in_range;
use crate::store::{
    Store, Entity, entity_wf, all_wf, ids_unique, ids_below, count_where, count_enemies,
    count_players, is_enemy_fn, is_player_fn, lemma_count_where_push,
};
use crate::FORMATION_MEMBERS_MAX;

verus! {

/// A freshly spawned enemy: it stands at its formation's start point and
/// carries the formation that will steer it.
pub open spec fn spec_enemy_entity(f: Formation, id: u64) -> Entity {
    Entity {
        id: id,
        pos: f.start,
        scale: Vec2 { x: SPRITE_SCALE_MILLI, y: SPRITE_SCALE_MILLI },
        vel: Vec2 { x: 0, y: 0 },
        size: Vec2 { x: ENEMY_SIZE_W, y: ENEMY_SIZE_H },
        enemy: true,
        player: false,
        laser: false,
        from_player: false,
        from_enemy: false,
        movable: false,
        auto_despawn: false,
        formation: Some(f),
        explosion: None,
        explosion_request: false,
    }
}

/// An enemy laser fired from `p`: it appears just below the enemy and
/// flies straight down until it leaves the playfield.
pub open spec fn spec_enemy_laser_entity(p: Vec2, id: u64) -> Entity {
    Entity {
        id: id,
        pos: Vec2 { x: p.x, y: spec_clamp_pos(p.y - ENEMY_LASER_OFFSET_Y) as i64 },
        scale: Vec2 { x: SPRITE_SCALE_MILLI, y: SPRITE_SCALE_MILLI },
        vel: Vec2 { x: 0, y: (-MILLI) as i64 },
        size: Vec2 { x: ENEMY_LASER_SIZE_W, y: ENEMY_LASER_SIZE_H },
        enemy: false,
        player: false,
        laser: true,
        from_player: false,
        from_enemy: true,
        movable: true,
        auto_despawn: true,
        formation: None,
        explosion: None,
        explosion_request: false,
    }
}

/// `e` after one tick of enemy movement: orbiting enemies pursue their
/// ellipse, everything else is untouched.
pub open spec fn flown_entity(e: Entity) -> Entity {
    if e.enemy && e.formation is Some {
        Entity {
            pos: next_flight_pos(e.pos, e.formation->0),
            formation: Some(next_formation(e.pos, e.formation->0)),
            ..e
        }
    } else {
        e
    }
}

/// A whole store body after one tick of enemy movement.
pub open spec fn flown_seq(s: Seq<Entity>) -> Seq<Entity> {
    Seq::new(s.len(), |i: int| flown_entity(s[i]))
}

/// Every enemy the movement system advances obeys the flight bounds: on
/// each axis it neither overshoots the target nor covers more than one
/// tick's distance, and in the plane it covers at most one tick's
/// distance plus one milli-unit of rounding; everything else holds still.
pub proof fn lemma_flown_entity_step_bounds(e: Entity)
    requires
        entity_wf(e),
    ensures
        e.enemy && e.formation is Some ==> vstd::math::abs(flown_entity(e).pos.x - e.pos.x)
            <= crate::flight::max_step_milli(e.formation->0),
        e.enemy && e.formation is Some ==> vstd::math::abs(flown_entity(e).pos.y - e.pos.y)
            <= crate::flight::max_step_milli(e.formation->0),
        e.enemy && e.formation is Some ==> (flown_entity(e).pos.x - e.pos.x) * (flown_entity(
            e,
        ).pos.x - e.pos.x) + (flown_entity(e).pos.y - e.pos.y) * (flown_entity(e).pos.y - e.pos.y)
            <= (crate::flight::max_step_milli(e.formation->0) + 1) * (crate::flight::max_step_milli(
            e.formation->0,
        ) + 1),
        !(e.enemy && e.formation is Some) ==> flown_entity(e) == e,
{
    if e.enemy && e.formation is Some {
        crate::flight::lemma_flight_step_within_tick_distance(e.pos, e.formation->0);
        crate::flight::lemma_flight_step_euclidean(e.pos, e.formation->0);
    }
}

/// Two equally long sequences on which `f` agrees pointwise have the
/// same count.
pub proof fn lemma_count_where_pointwise(s1: Seq<Entity>, s2: Seq<Entity>, f: spec_fn(Entity) -> bool)
    requires
        s1.len() == s2.len(),
        forall|i: int| 0 <= i < s1.len() ==> f(#[trigger] s1[i]) == f(#[trigger] s2[i]),
    ensures
        count_where(s1, f) == count_where(s2, f),
    decreases s1.len(),
{
    if s1.len() > 0 {
        assert(forall|i: int| 0 <= i < s1.len() - 1 ==> s1.drop_last()[i] == s1[i]
            && s2.drop_last()[i] == s2[i]);
        lemma_count_where_pointwise(s1.drop_last(), s2.drop_last(), f);
    }
}

/// One tick of orbital movement: every enemy that carries a formation
/// pursues its ellipse by one step; nothing else changes.
pub fn enemy_movement_system(store: &mut Store)
    requires
        old(store).wf(),
    ensures
        final(store).wf(),
        final(store).next_id == old(store).next_id,
        final(store).entities@.len() == old(store).entities@.len(),
        forall|i: int|
            0 <= i < old(store).entities@.len() ==> final(store).entities@[i] == flown_entity(
                #[trigger] old(store).entities@[i],
            ),
        count_enemies(final(store).entities@) == count_enemies(old(store).entities@),
        count_players(final(store).entities@) == count_players(old(store).entities@),
{
    let ghost s0 = old(store).entities@;
    let n = store.entities.len();
    let mut i: usize = 0;
    while i < n
        invariant
            store.wf(),
            store.next_id == old(store).next_id,
            n == store.entities@.len(),
            s0.len() == n,
            0 <= i <= n,
            forall|j: int| 0 <= j < i ==> store.entities@[j] == flown_entity(#[trigger] s0[j]),
            forall|j: int| i <= j < n ==> store.entities@[j] == s0[j],
        decreases n - i,
    {
        let e = store.entities[i];
        if e.enemy {
            match e.formation {
                Some(fo) => {
                    let mut fo2 = fo;
                    let new_pos = flight_step(e.pos, &mut fo2);
                    let mut e2 = e;
                    e2.pos = new_pos;
                    e2.formation = Some(fo2);
                    let ghost before = store.entities@;
                    store.entities[i] = e2;
                    proof {
                        assert(store.entities@ == before.update(i as int, e2));
                        assert(e2 == flown_entity(s0[i as int]));
                        assert forall|a: int, b: int|
                            0 <= a < b < store.entities@.len() implies store.entities@[a].id
                            != store.entities@[b].id by {
                            assert(store.entities@[a].id == before[a].id);
                            assert(store.entities@[b].id == before[b].id);
                        }
                    }
                },
                None => {},
            }
        }
        i = i + 1;
    }
    proof {
        lemma_count_where_pointwise(store.entities@, s0, is_enemy_fn());
        lemma_count_where_pointwise(store.entities@, s0, is_player_fn());
    }
}

/// Spawn one enemy per call while fewer than `ENEMY_MAX` are live: the
/// formation generator supplies the orbit, the enemy appears at its
/// start point, and the live-enemy counter moves up with the spawn.
pub fn enemy_spawn_system(
    store: &mut Store,
    enemy_count: &mut u32,
    maker: &mut FormationMaker,
    win: &WinSize,
)
    requires
        old(store).wf(),
        *old(enemy_count) == count_enemies(old(store).entities@),
        *old(enemy_count) <= ENEMY_MAX,
        maker_wf(*old(maker)),
        win_size_wf(*win),
        win.w / 2 > FORMATION_INSET && win.h / 2 > FORMATION_INSET,
        old(store).next_id < u64::MAX,
    ensures
        final(store).wf(),
        maker_wf(*final(maker)),
        *final(enemy_count) == count_enemies(final(store).entities@),
        *final(enemy_count) <= ENEMY_MAX,
        count_players(final(store).entities@) == count_players(old(store).entities@),
        old(store).next_id <= final(store).next_id <= old(store).next_id + 1,
        final(store).entities@.len() <= old(store).entities@.len() + 1,
        *old(enemy_count) == ENEMY_MAX ==> *final(store) == *old(store) && *final(enemy_count)
            == *old(enemy_count) && *final(maker) == *old(maker),
        *old(enemy_count) < ENEMY_MAX ==> {
            &&& final(maker).current is Some
            &&& final(store).entities@ == old(store).entities@.push(
                spec_enemy_entity(final(maker).current->0, old(store).next_id),
            )
            &&& *final(enemy_count) == *old(enemy_count) + 1
            &&& formation_wf(final(maker).current->0)
            &&& starts_on_ellipse(final(maker).current->0)
            &&& old(maker).members_remaining > 0 ==> final(maker).current == old(maker).current
                && final(maker).members_remaining == old(maker).members_remaining - 1
            &&& old(maker).members_remaining == 0 ==> {
                &&& final(maker).members_remaining == FORMATION_MEMBERS_MAX - 1
                &&& final(maker).current->0.speed == FORMATION_BASE_SPEED
                &&& -(win.w / 2 - FORMATION_INSET) <= final(maker).current->0.start.x <= win.w / 2
                    - FORMATION_INSET
                &&& -(win.h / 2 - FORMATION_INSET) <= final(maker).current->0.start.y <= win.h / 2
                    - FORMATION_INSET
            }
        },
{
    if *enemy_count < ENEMY_MAX {
        let f = maker.make(win);
        let mut e = Entity::base(
            f.start,
            Vec2 { x: SPRITE_SCALE_MILLI, y: SPRITE_SCALE_MILLI },
            Vec2 { x: 0, y: 0 },
            Vec2 { x: ENEMY_SIZE_W, y: ENEMY_SIZE_H },
        );
        e.enemy = true;
        e.formation = Some(f);
        let ghost before = store.entities@;
        store.spawn(e);
        *enemy_count = *enemy_count + 1;
        proof {
            assert(store.entities@.last() == spec_enemy_entity(f, old(store).next_id));
            lemma_count_where_push(before, is_enemy_fn(), store.entities@.last());
            lemma_count_where_push(before, is_player_fn(), store.entities@.last());
        }
    }
}

/// The per-tick volley gate: one Bernoulli trial with one chance in
/// `ENEMY_FIRE_ONE_IN`, drawn from the process-wide entropy source.
pub fn enemy_fire_criteria() -> bool {
    let draw = random_in_range(0, ENEMY_FIRE_ONE_IN);
    draw == 0
}

/// The positions of the enemies of `s`, in store order.
pub open spec fn enemy_positions(s: Seq<Entity>) -> Seq<Vec2>
    decreases s.len(),
{
    if s.len() == 0 {
        Seq::empty()
    } else {
        let rest = enemy_positions(s.drop_last());
        if s.last().enemy {
            rest.push(s.last().pos)
        } else {
            rest
        }
    }
}

pub proof fn lemma_enemy_positions_len(s: Seq<Entity>)
    ensures
        enemy_positions(s).len() <= s.len(),
    decreases s.len(),
{
    if s.len() > 0 {
        lemma_enemy_positions_len(s.drop_last());
    }
}

/// The position at place `t` of `ps` belongs to some enemy of `s`.
pub open spec fn noted_enemy_pos(s: Seq<Entity>, ps: Seq<Vec2>, t: int) -> bool {
    exists|q: int| 0 <= q < s.len() && ps[t] == (#[trigger] s[q]).pos && s[q].enemy
}

/// Every noted position is the position of some enemy of `s`.
pub proof fn lemma_enemy_positions_membership(s: Seq<Entity>)
    ensures
        forall|t: int|
            0 <= t < enemy_positions(s).len() ==> #[trigger] noted_enemy_pos(
                s,
                enemy_positions(s),
                t,
            ),
    decreases s.len(),
{
    if s.len() > 0 {
        let d = s.drop_last();
        lemma_enemy_positions_membership(d);
        let rest = enemy_positions(d);
        assert forall|t: int| 0 <= t < enemy_positions(s).len() implies #[trigger] noted_enemy_pos(
            s,
            enemy_positions(s),
            t,
        ) by {
            if t < rest.len() {
                assert(enemy_positions(s)[t] == rest[t]);
                assert(noted_enemy_pos(d, rest, t));
                let q = choose|q: int| 0 <= q < d.len() && rest[t] == (#[trigger] d[q]).pos
                    && d[q].enemy;
                assert(d[q] == s[q]);
                assert(enemy_positions(s)[t] == s[q].pos && s[q].enemy);
            } else {
                let q = s.len() - 1;
                assert(enemy_positions(s)[t] == s[q].pos && s[q].enemy);
            }
        }
    }
}

/// One volley: every live enemy fires one laser, which appears just
/// below it; the lasers join the store after the scan, in store order.
pub fn enemy_fire_system(store: &mut Store)
    requires
        old(store).wf(),
        old(store).next_id + old(store).entities@.len() <= u64::MAX,
    ensures
        final(store).wf(),
        final(store).entities@ == old(store).entities@ + Seq::new(
            enemy_positions(old(store).entities@).len(),
            |t: int| spec_enemy_laser_entity(
                enemy_positions(old(store).entities@)[t],
                (old(store).next_id + t) as u64,
            ),
        ),
        count_enemies(final(store).entities@) == count_enemies(old(store).entities@),
        count_players(final(store).entities@) == count_players(old(store).entities@),
        old(store).next_id <= final(store).next_id <= old(store).next_id
            + old(store).entities@.len(),
        final(store).entities@.len() <= 2 * old(store).entities@.len(),
{
    let ghost s0 = old(store).entities@;
    let n = store.entities.len();

    // read-only scan: note where every enemy stands
    let mut shots: Vec<Vec2> = Vec::new();
    let mut i: usize = 0;
    while i < n
        invariant
            *store == *old(store),
            store.wf(),
            n == s0.len(),
            s0 == store.entities@,
            0 <= i <= n,
            shots@ == enemy_positions(s0.subrange(0, i as int)),
        decreases n - i,
    {
        let e = store.entities[i];
        proof {
            assert(s0.subrange(0, i + 1int).drop_last() =~= s0.subrange(0, i as int));
            assert(s0.subrange(0, i + 1int).last() == s0[i as int]);
        }
        if e.enemy {
            shots.push(e.pos);
        }
        i = i + 1;
    }
    proof {
        assert(s0.subrange(0, n as int) =~= s0);
        lemma_enemy_positions_len(s0);
        lemma_enemy_positions_membership(s0);
    }

    // apply: one laser per noted position, in order
    let ghost base = store.next_id;
    let m = shots.len();
    let mut k: usize = 0;
    while k < m
        invariant
            store.wf(),
            m == shots@.len(),
            shots@ == enemy_positions(s0),
            m <= n,
            0 <= k <= m,
            base == old(store).next_id,
            base + n <= u64::MAX,
            store.next_id == base + k,
            all_wf(s0),
            forall|t: int| 0 <= t < m ==> #[trigger] noted_enemy_pos(s0, shots@, t),
            store.entities@ == s0 + Seq::new(
                k as nat,
                |t: int| spec_enemy_laser_entity(shots@[t], (base + t) as u64),
            ),
            count_enemies(store.entities@) == count_enemies(s0),
            count_players(store.entities@) == count_players(s0),
        decreases m - k,
    {
        let p = shots[k];
        proof {
            assert(noted_enemy_pos(s0, shots@, k as int));
            let q = choose|q: int| 0 <= q < s0.len() && shots@[k as int] == (#[trigger] s0[q]).pos
                && s0[q].enemy;
            assert(entity_wf(s0[q]));
        }
        let mut laser = Entity::base(
            Vec2 { x: p.x, y: clamp_pos(p.y - ENEMY_LASER_OFFSET_Y) },
            Vec2 { x: SPRITE_SCALE_MILLI, y: SPRITE_SCALE_MILLI },
            Vec2 { x: 0, y: -MILLI },
            Vec2 { x: ENEMY_LASER_SIZE_W, y: ENEMY_LASER_SIZE_H },
        );
        laser.laser = true;
        laser.from_enemy = true;
        laser.movable = true;
        laser.auto_despawn = true;
        let ghost before = store.entities@;
        store.spawn(laser);
        proof {
            assert(store.entities@.last() == spec_enemy_laser_entity(
                shots@[k as int],
                (base + k) as u64,
            ));
            assert(store.entities@ =~= s0 + Seq::new(
                (k + 1) as nat,
                |t: int| spec_enemy_laser_entity(shots@[t], (base + t) as u64),
            ));
            lemma_count_where_push(before, is_enemy_fn(), store.entities@.last());
            lemma_count_where_push(before, is_player_fn(), store.entities@.last());
        }
        k = k + 1;
    }
}

} // verus!
