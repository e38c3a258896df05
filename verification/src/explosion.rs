//! Explosion playback: a destruction event becomes a timed animation
//! that advances one frame per timer completion and removes itself after
//! the last frame.

use vstd::prelude::*;
use crate::{EXPLOSION_FRAME_COUNT, EXPLOSION_FRAME_PERIOD_MS, MILLI};
use crate::geom::Vec2;
use crate::store::{
    Store, Entity, entity_wf, all_wf, ids_unique, ids_below, count_where, count_enemies,
    count_players, is_enemy_fn, is_player_fn, lemma_count_where_push,
};

verus! {

/// Largest time step one call may advance a playback by, in milliseconds.
pub const DELTA_LIMIT_MS: i64 = 1_000_000_000;

/// Frame timer and frame index of one playing explosion.
#[derive(Clone, Copy, PartialEq, Eq, Structural, Debug)]
pub struct ExplosionPlayback {
    /// Time accumulated toward the next frame, in milliseconds.
    pub timer_ms: i64,
    /// Frames completed so far.
    pub frame_index: u32,
}

pub open spec fn playback_wf(p: ExplosionPlayback) -> bool {
    &&& 0 <= p.timer_ms < EXPLOSION_FRAME_PERIOD_MS
    &&& p.frame_index < EXPLOSION_FRAME_COUNT
}

/// Does advancing `p` by `delta` milliseconds complete its frame timer?
pub open spec fn step_completes(p: ExplosionPlayback, delta: int) -> bool {
    p.timer_ms + delta >= EXPLOSION_FRAME_PERIOD_MS
}

/// The playback after advancing by `delta` milliseconds: the timer wraps
/// on completion and the frame index then moves one frame forward.
pub open spec fn spec_step(p: ExplosionPlayback, delta: int) -> ExplosionPlayback {
    if step_completes(p, delta) {
        ExplosionPlayback {
            timer_ms: ((p.timer_ms + delta) % (EXPLOSION_FRAME_PERIOD_MS as int)) as i64,
            frame_index: (p.frame_index + 1) as u32,
        }
    } else {
        ExplosionPlayback { timer_ms: (p.timer_ms + delta) as i64, frame_index: p.frame_index }
    }
}

impl ExplosionPlayback {
    /// A playback at its first frame with an empty timer.
    pub fn new() -> (p: ExplosionPlayback)
        ensures
            playback_wf(p),
            p.timer_ms == 0,
            p.frame_index == 0,
    {
        ExplosionPlayback { timer_ms: 0, frame_index: 0 }
    }

    /// Advance the playback by `delta` milliseconds.  Returns true when
    /// the playback is over — exactly when this step completes the timer
    /// for the final frame — and the owning entity must be removed.
    pub fn advance(&mut self, delta: i64) -> (gone: bool)
        requires
            playback_wf(*old(self)),
            0 <= delta <= DELTA_LIMIT_MS,
        ensures
            *final(self) == spec_step(*old(self), delta as int),
            gone <==> (step_completes(*old(self), delta as int) && old(self).frame_index
                == EXPLOSION_FRAME_COUNT - 1),
            !gone ==> playback_wf(*final(self)),
    {
        let total = self.timer_ms + delta;
        if total >= EXPLOSION_FRAME_PERIOD_MS {
            self.timer_ms = total % EXPLOSION_FRAME_PERIOD_MS;
            self.frame_index = self.frame_index + 1;
            self.frame_index >= EXPLOSION_FRAME_COUNT
        } else {
            self.timer_ms = total;
            false
        }
    }
}

/// A playback and the count of timer completions that produced it, under
/// the same sequence of time steps, starting from a fresh playback.
pub open spec fn playback_run(deltas: Seq<int>) -> (ExplosionPlayback, int)
    decreases deltas.len(),
{
    if deltas.len() == 0 {
        (ExplosionPlayback { timer_ms: 0, frame_index: 0 }, 0)
    } else {
        let (p, n) = playback_run(deltas.drop_last());
        if step_completes(p, deltas.last()) {
            (spec_step(p, deltas.last()), n + 1)
        } else {
            (spec_step(p, deltas.last()), n)
        }
    }
}

/// However a playback is advanced, its frame index equals the number of
/// timer completions so far; so it reaches its terminal frame count on
/// exactly the `EXPLOSION_FRAME_COUNT`th completion, never before.
pub proof fn lemma_frame_index_counts_completions(deltas: Seq<int>)
    requires
        deltas.len() < 0x1_0000_0000,
    ensures
        playback_run(deltas).1 <= deltas.len(),
        playback_run(deltas).0.frame_index == playback_run(deltas).1,
    decreases deltas.len(),
{
    if deltas.len() > 0 {
        lemma_frame_index_counts_completions(deltas.drop_last());
    }
}

/// The visual entity playing an explosion at `pos`, starting at its
/// first frame.
pub open spec fn spec_explosion_entity(pos: Vec2, id: u64) -> Entity {
    Entity {
        id: id,
        pos: pos,
        scale: Vec2 { x: MILLI, y: MILLI },
        vel: Vec2 { x: 0, y: 0 },
        size: Vec2 { x: 0, y: 0 },
        enemy: false,
        player: false,
        laser: false,
        from_player: false,
        from_enemy: false,
        movable: false,
        auto_despawn: false,
        formation: None,
        explosion: Some(ExplosionPlayback { timer_ms: 0, frame_index: 0 }),
        explosion_request: false,
    }
}

/// The entities of `s` that are not explosion requests, in order.
pub open spec fn non_request_entities(s: Seq<Entity>) -> Seq<Entity>
    decreases s.len(),
{
    if s.len() == 0 {
        Seq::empty()
    } else {
        let rest = non_request_entities(s.drop_last());
        if s.last().explosion_request {
            rest
        } else {
            rest.push(s.last())
        }
    }
}

/// The positions of the explosion requests of `s`, in order.
pub open spec fn request_positions(s: Seq<Entity>) -> Seq<Vec2>
    decreases s.len(),
{
    if s.len() == 0 {
        Seq::empty()
    } else {
        let rest = request_positions(s.drop_last());
        if s.last().explosion_request {
            rest.push(s.last().pos)
        } else {
            rest
        }
    }
}

/// The position at place `t` of `ps` belongs to some request of `s`.
pub open spec fn noted_request_pos(s: Seq<Entity>, ps: Seq<Vec2>, t: int) -> bool {
    exists|q: int| 0 <= q < s.len() && ps[t] == (#[trigger] s[q]).pos && s[q].explosion_request
}

pub proof fn lemma_request_positions_len(s: Seq<Entity>)
    ensures
        request_positions(s).len() <= s.len(),
    decreases s.len(),
{
    if s.len() > 0 {
        lemma_request_positions_len(s.drop_last());
    }
}

pub proof fn lemma_request_positions_membership(s: Seq<Entity>)
    ensures
        forall|t: int|
            0 <= t < request_positions(s).len() ==> #[trigger] noted_request_pos(
                s,
                request_positions(s),
                t,
            ),
    decreases s.len(),
{
    if s.len() > 0 {
        let d = s.drop_last();
        lemma_request_positions_membership(d);
        let rest = request_positions(d);
        assert forall|t: int| 0 <= t < request_positions(s).len() implies #[trigger]
            noted_request_pos(s, request_positions(s), t) by {
            if t < rest.len() {
                assert(request_positions(s)[t] == rest[t]);
                assert(noted_request_pos(d, rest, t));
                let q = choose|q: int| 0 <= q < d.len() && rest[t] == (#[trigger] d[q]).pos
                    && d[q].explosion_request;
                assert(d[q] == s[q]);
                assert(request_positions(s)[t] == s[q].pos && s[q].explosion_request);
            } else {
                let q = s.len() - 1;
                assert(request_positions(s)[t] == s[q].pos && s[q].explosion_request);
            }
        }
    }
}

pub proof fn lemma_non_request_len(s: Seq<Entity>)
    ensures
        non_request_entities(s).len() + request_positions(s).len() == s.len(),
    decreases s.len(),
{
    if s.len() > 0 {
        lemma_non_request_len(s.drop_last());
    }
}

/// Every kept entity is an entity of `s`.
pub proof fn lemma_non_request_membership(s: Seq<Entity>)
    ensures
        forall|k: int|
            0 <= k < non_request_entities(s).len() ==> exists|j: int|
                0 <= j < s.len() && #[trigger] non_request_entities(s)[k] == s[j],
    decreases s.len(),
{
    if s.len() > 0 {
        lemma_non_request_membership(s.drop_last());
        let rest = non_request_entities(s.drop_last());
        assert forall|k: int| 0 <= k < non_request_entities(s).len() implies exists|j: int|
            0 <= j < s.len() && #[trigger] non_request_entities(s)[k] == s[j] by {
            if k < rest.len() {
                assert(non_request_entities(s)[k] == rest[k]);
                let j = choose|j: int| 0 <= j < s.drop_last().len() && rest[k] == s.drop_last()[j];
                assert(s.drop_last()[j] == s[j]);
            } else {
                assert(non_request_entities(s)[k] == s.last());
            }
        }
    }
}

/// Dropping the requests keeps the body of a store well formed.
pub proof fn lemma_non_request_wf(s: Seq<Entity>, n: int)
    requires
        ids_unique(s),
        all_wf(s),
        ids_below(s, n),
    ensures
        ids_unique(non_request_entities(s)),
        all_wf(non_request_entities(s)),
        ids_below(non_request_entities(s), n),
    decreases s.len(),
{
    if s.len() > 0 {
        let d = s.drop_last();
        assert(forall|i: int| 0 <= i < d.len() ==> d[i] == s[i]);
        lemma_non_request_wf(d, n);
        lemma_non_request_membership(d);
        let rest = non_request_entities(d);
        if !s.last().explosion_request {
            let r = rest.push(s.last());
            assert forall|a: int, b: int| 0 <= a < b < r.len() implies r[a].id != r[b].id by {
                if b == rest.len() {
                    let j = choose|j: int| 0 <= j < d.len() && rest[a] == d[j];
                    assert(r[a].id == s[j].id);
                    assert(s[j].id != s[s.len() - 1].id);
                }
            }
        }
    }
}

/// What survives the conversion carries no request mark.
pub proof fn lemma_non_request_none(s: Seq<Entity>)
    ensures
        forall|k: int|
            0 <= k < non_request_entities(s).len() ==> !(#[trigger] non_request_entities(
                s,
            )[k]).explosion_request,
    decreases s.len(),
{
    if s.len() > 0 {
        lemma_non_request_none(s.drop_last());
        let rest = non_request_entities(s.drop_last());
        assert forall|k: int| 0 <= k < non_request_entities(s).len() implies !(
        #[trigger] non_request_entities(s)[k]).explosion_request by {
            if k < rest.len() {
                assert(non_request_entities(s)[k] == rest[k]);
            } else {
                assert(non_request_entities(s)[k] == s.last());
            }
        }
    }
}

/// An entity that is no request survives the conversion intact.
pub proof fn lemma_non_request_keeps(s: Seq<Entity>, i: int)
    requires
        0 <= i < s.len(),
        !s[i].explosion_request,
    ensures
        exists|k: int|
            0 <= k < non_request_entities(s).len() && #[trigger] non_request_entities(s)[k]
                == s[i],
    decreases s.len(),
{
    if i == s.len() - 1 {
        let r = non_request_entities(s);
        assert(r[r.len() - 1] == s[i]);
    } else {
        let d = s.drop_last();
        lemma_non_request_keeps(d, i);
        let rest = non_request_entities(d);
        let k = choose|k: int| 0 <= k < rest.len() && #[trigger] rest[k] == d[i];
        assert(non_request_entities(s)[k] == s[i]);
    }
}

/// Dropping the requests keeps the count of entities of any kind that is
/// never a request.
pub proof fn lemma_non_request_count(s: Seq<Entity>, f: spec_fn(Entity) -> bool)
    requires
        forall|i: int| 0 <= i < s.len() && f(#[trigger] s[i]) ==> !s[i].explosion_request,
    ensures
        count_where(non_request_entities(s), f) == count_where(s, f),
    decreases s.len(),
{
    if s.len() > 0 {
        let d = s.drop_last();
        lemma_non_request_count(d, f);
        if !s.last().explosion_request {
            lemma_count_where_push(non_request_entities(d), f, s.last());
        }
    }
}

/// Turn every pending explosion request into a playing explosion at the
/// requested position; the requests themselves are removed once the scan
/// is over, so no request outlives the tick it is handled in.
pub fn explosion_to_spawn_system(store: &mut Store)
    requires
        old(store).wf(),
        old(store).next_id + old(store).entities@.len() <= u64::MAX,
    ensures
        final(store).wf(),
        final(store).entities@ == non_request_entities(old(store).entities@) + Seq::new(
            request_positions(old(store).entities@).len(),
            |t: int| spec_explosion_entity(
                request_positions(old(store).entities@)[t],
                (old(store).next_id + t) as u64,
            ),
        ),
        count_enemies(final(store).entities@) == count_enemies(old(store).entities@),
        count_players(final(store).entities@) == count_players(old(store).entities@),
        old(store).next_id <= final(store).next_id <= old(store).next_id
            + old(store).entities@.len(),
        final(store).entities@.len() <= old(store).entities@.len(),
        forall|i: int|
            0 <= i < final(store).entities@.len()
                ==> !(#[trigger] final(store).entities@[i]).explosion_request,
{
    let ghost s0 = old(store).entities@;
    let n = store.entities.len();

    // read-only scan: keep the others, note where each request points
    let mut kept: Vec<Entity> = Vec::new();
    let mut where_to: Vec<Vec2> = Vec::new();
    let mut i: usize = 0;
    while i < n
        invariant
            *store == *old(store),
            store.wf(),
            n == s0.len(),
            s0 == store.entities@,
            0 <= i <= n,
            kept@ == non_request_entities(s0.subrange(0, i as int)),
            where_to@ == request_positions(s0.subrange(0, i as int)),
        decreases n - i,
    {
        let e = store.entities[i];
        proof {
            assert(s0.subrange(0, i + 1int).drop_last() =~= s0.subrange(0, i as int));
            assert(s0.subrange(0, i + 1int).last() == s0[i as int]);
        }
        if e.explosion_request {
            where_to.push(e.pos);
        } else {
            kept.push(e);
        }
        i = i + 1;
    }
    proof {
        assert(s0.subrange(0, n as int) =~= s0);
        lemma_request_positions_len(s0);
        lemma_request_positions_membership(s0);
        lemma_non_request_len(s0);
        lemma_non_request_none(s0);
        lemma_non_request_wf(s0, old(store).next_id as int);
        lemma_non_request_count(s0, is_enemy_fn());
        lemma_non_request_count(s0, is_player_fn());
    }
    store.entities = kept;

    // apply: one playing explosion per noted position, in order
    let ghost kept0 = store.entities@;
    let ghost base = store.next_id;
    let m = where_to.len();
    let mut k: usize = 0;
    while k < m
        invariant
            store.wf(),
            m == where_to@.len(),
            where_to@ == request_positions(s0),
            m <= n,
            0 <= k <= m,
            base == old(store).next_id,
            base + n <= u64::MAX,
            store.next_id == base + k,
            all_wf(s0),
            forall|t: int| 0 <= t < m ==> #[trigger] noted_request_pos(s0, where_to@, t),
            store.entities@ == kept0 + Seq::new(
                k as nat,
                |t: int| spec_explosion_entity(where_to@[t], (base + t) as u64),
            ),
            count_enemies(store.entities@) == count_enemies(kept0),
            count_players(store.entities@) == count_players(kept0),
        decreases m - k,
    {
        let p = where_to[k];
        proof {
            assert(noted_request_pos(s0, where_to@, k as int));
            let q = choose|q: int| 0 <= q < s0.len() && where_to@[k as int] == (#[trigger] s0[q]).pos
                && s0[q].explosion_request;
            assert(entity_wf(s0[q]));
        }
        let mut vis = Entity::base(
            p,
            Vec2 { x: MILLI, y: MILLI },
            Vec2 { x: 0, y: 0 },
            Vec2 { x: 0, y: 0 },
        );
        vis.explosion = Some(ExplosionPlayback::new());
        let ghost before = store.entities@;
        store.spawn(vis);
        proof {
            assert(store.entities@.last() == spec_explosion_entity(
                where_to@[k as int],
                (base + k) as u64,
            ));
            assert(store.entities@ =~= kept0 + Seq::new(
                (k + 1) as nat,
                |t: int| spec_explosion_entity(where_to@[t], (base + t) as u64),
            ));
            lemma_count_where_push(before, is_enemy_fn(), store.entities@.last());
            lemma_count_where_push(before, is_player_fn(), store.entities@.last());
        }
        k = k + 1;
    }
}

/// `e` with its explosion playback advanced by `delta` milliseconds.
pub open spec fn advanced_entity(e: Entity, delta: int) -> Entity {
    if e.explosion is Some {
        Entity { explosion: Some(spec_step(e.explosion->0, delta)), ..e }
    } else {
        e
    }
}

/// Does this tick's animation step remove `e`?  Exactly when the step
/// completes the timer for the final frame of its playback.
pub open spec fn anim_removes(e: Entity, delta: int) -> bool {
    e.explosion is Some && step_completes(e.explosion->0, delta) && e.explosion->0.frame_index
        == EXPLOSION_FRAME_COUNT - 1
}

/// The entities of `s` after one animation step, in order.
pub open spec fn anim_result(s: Seq<Entity>, delta: int) -> Seq<Entity>
    decreases s.len(),
{
    if s.len() == 0 {
        Seq::empty()
    } else {
        let rest = anim_result(s.drop_last(), delta);
        if anim_removes(s.last(), delta) {
            rest
        } else {
            rest.push(advanced_entity(s.last(), delta))
        }
    }
}

pub proof fn lemma_anim_result_len(s: Seq<Entity>, delta: int)
    ensures
        anim_result(s, delta).len() <= s.len(),
    decreases s.len(),
{
    if s.len() > 0 {
        lemma_anim_result_len(s.drop_last(), delta);
    }
}

pub proof fn lemma_anim_result_membership(s: Seq<Entity>, delta: int)
    ensures
        forall|k: int|
            0 <= k < anim_result(s, delta).len() ==> exists|j: int|
                0 <= j < s.len() && #[trigger] anim_result(s, delta)[k] == advanced_entity(
                    s[j],
                    delta,
                ),
    decreases s.len(),
{
    if s.len() > 0 {
        lemma_anim_result_membership(s.drop_last(), delta);
        let rest = anim_result(s.drop_last(), delta);
        assert forall|k: int| 0 <= k < anim_result(s, delta).len() implies exists|j: int|
            0 <= j < s.len() && #[trigger] anim_result(s, delta)[k] == advanced_entity(
            s[j],
            delta,
        ) by {
            if k < rest.len() {
                assert(anim_result(s, delta)[k] == rest[k]);
                let j = choose|j: int| 0 <= j < s.drop_last().len() && rest[k] == advanced_entity(
                    s.drop_last()[j],
                    delta,
                );
                assert(s.drop_last()[j] == s[j]);
            } else {
                assert(anim_result(s, delta)[k] == advanced_entity(s.last(), delta));
            }
        }
    }
}

/// An entity whose playback does not finish survives the animation step
/// with only that playback advanced.
pub proof fn lemma_anim_result_keeps(s: Seq<Entity>, delta: int, i: int)
    requires
        0 <= i < s.len(),
        !anim_removes(s[i], delta),
    ensures
        exists|k: int|
            0 <= k < anim_result(s, delta).len() && #[trigger] anim_result(s, delta)[k]
                == advanced_entity(s[i], delta),
    decreases s.len(),
{
    if i == s.len() - 1 {
        let r = anim_result(s, delta);
        assert(r[r.len() - 1] == advanced_entity(s[i], delta));
    } else {
        let d = s.drop_last();
        lemma_anim_result_keeps(d, delta, i);
        let rest = anim_result(d, delta);
        let k = choose|k: int| 0 <= k < rest.len() && #[trigger] rest[k] == advanced_entity(
            d[i],
            delta,
        );
        assert(anim_result(s, delta)[k] == advanced_entity(s[i], delta));
    }
}

pub proof fn lemma_anim_result_wf(s: Seq<Entity>, delta: int, n: int)
    requires
        ids_unique(s),
        all_wf(s),
        ids_below(s, n),
        0 <= delta <= DELTA_LIMIT_MS,
    ensures
        ids_unique(anim_result(s, delta)),
        all_wf(anim_result(s, delta)),
        ids_below(anim_result(s, delta), n),
    decreases s.len(),
{
    if s.len() > 0 {
        let d = s.drop_last();
        assert(forall|i: int| 0 <= i < d.len() ==> d[i] == s[i]);
        lemma_anim_result_wf(d, delta, n);
        lemma_anim_result_membership(d, delta);
        let rest = anim_result(d, delta);
        if !anim_removes(s.last(), delta) {
            let r = rest.push(advanced_entity(s.last(), delta));
            assert(entity_wf(s[s.len() - 1]));
            assert(entity_wf(advanced_entity(s.last(), delta)));
            assert forall|a: int, b: int| 0 <= a < b < r.len() implies r[a].id != r[b].id by {
                if b == rest.len() {
                    let j = choose|j: int| 0 <= j < d.len() && rest[a] == advanced_entity(
                        d[j],
                        delta,
                    );
                    assert(r[a].id == s[j].id);
                    assert(s[j].id != s[s.len() - 1].id);
                }
            }
        }
    }
}

pub proof fn lemma_anim_result_count(s: Seq<Entity>, delta: int, f: spec_fn(Entity) -> bool)
    requires
        forall|e: Entity| f(#[trigger] advanced_entity(e, delta)) == f(e),
        forall|i: int| 0 <= i < s.len() && f(#[trigger] s[i]) ==> !anim_removes(s[i], delta),
    ensures
        count_where(anim_result(s, delta), f) == count_where(s, f),
    decreases s.len(),
{
    if s.len() > 0 {
        let d = s.drop_last();
        lemma_anim_result_count(d, delta, f);
        if !anim_removes(s.last(), delta) {
            lemma_count_where_push(anim_result(d, delta), f, advanced_entity(s.last(), delta));
        }
    }
}

/// Advance every playing explosion by `delta` milliseconds of elapsed
/// time; a playback whose final frame completes removes its entity.
pub fn explosion_animation_system(store: &mut Store, delta: i64)
    requires
        old(store).wf(),
        0 <= delta <= DELTA_LIMIT_MS,
    ensures
        final(store).wf(),
        final(store).next_id == old(store).next_id,
        final(store).entities@ == anim_result(old(store).entities@, delta as int),
        final(store).entities@.len() <= old(store).entities@.len(),
        count_enemies(final(store).entities@) == count_enemies(old(store).entities@),
        count_players(final(store).entities@) == count_players(old(store).entities@),
        (forall|i: int|
            0 <= i < old(store).entities@.len()
                ==> !(#[trigger] old(store).entities@[i]).explosion_request) ==> (forall|i: int|
            0 <= i < final(store).entities@.len()
                ==> !(#[trigger] final(store).entities@[i]).explosion_request),
{
    proof {
        lemma_anim_result_len(old(store).entities@, delta as int);
        if forall|i: int|
            0 <= i < old(store).entities@.len()
                ==> !(#[trigger] old(store).entities@[i]).explosion_request {
            lemma_anim_result_membership(old(store).entities@, delta as int);
            assert forall|i: int|
                0 <= i < anim_result(old(store).entities@, delta as int).len() implies !(
            #[trigger] anim_result(old(store).entities@, delta as int)[i]).explosion_request by {
                let j = choose|j: int|
                    0 <= j < old(store).entities@.len() && anim_result(
                        old(store).entities@,
                        delta as int,
                    )[i] == advanced_entity(old(store).entities@[j], delta as int);
            }
        }
    }
    let ghost s0 = store.entities@;
    let n = store.entities.len();
    let mut kept: Vec<Entity> = Vec::new();
    let mut i: usize = 0;
    while i < n
        invariant
            store.wf(),
            *store == *old(store),
            s0 == store.entities@,
            n == s0.len(),
            0 <= i <= n,
            0 <= delta <= DELTA_LIMIT_MS,
            kept@ == anim_result(s0.subrange(0, i as int), delta as int),
        decreases n - i,
    {
        let e = store.entities[i];
        proof {
            assert(s0.subrange(0, i + 1int).drop_last() =~= s0.subrange(0, i as int));
            assert(s0.subrange(0, i + 1int).last() == s0[i as int]);
            assert(entity_wf(s0[i as int]));
        }
        match e.explosion {
            Some(pb) => {
                let mut pb2 = pb;
                let over = pb2.advance(delta);
                if !over {
                    let mut e2 = e;
                    e2.explosion = Some(pb2);
                    kept.push(e2);
                    proof {
                        assert(e2 == advanced_entity(s0[i as int], delta as int));
                    }
                }
            },
            None => {
                kept.push(e);
            },
        }
        i = i + 1;
    }
    proof {
        assert(s0.subrange(0, n as int) =~= s0);
        lemma_anim_result_wf(s0, delta as int, old(store).next_id as int);
        assert forall|e: Entity| is_enemy_fn()(#[trigger] advanced_entity(e, delta as int))
            == is_enemy_fn()(e) by {}
        assert forall|e: Entity| is_player_fn()(#[trigger] advanced_entity(e, delta as int))
            == is_player_fn()(e) by {}
        lemma_anim_result_count(s0, delta as int, is_enemy_fn());
        lemma_anim_result_count(s0, delta as int, is_player_fn());
    }
    store.entities = kept;
}

} // verus!
