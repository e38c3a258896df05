//! Linear motion and bounds despawn: every movable entity advances by one
//! tick of its velocity, and auto-despawning entities that leave the
//! playfield by the despawn margin are removed.  Removals are decided
//! during a read-only scan and applied when the scan is over.

use vstd::prelude::*;
use crate::{BASE_SPEED, DESPAWN_MARGIN, TICKS_PER_SECOND};
use crate::geom::{Vec2, WinSize, win_size_wf, spec_clamp_pos, clamp_pos};
use crate::math::div_trunc;
use crate::store::{
    Store, Entity, entity_wf, all_wf, ids_unique, ids_below, count_where, lemma_count_where_push,
};

verus! {

/// `e` after one tick of linear motion: a movable entity advances by its
/// velocity times the tick's length times the base speed, clamped to the
/// coordinate range; anything else stays put.
pub open spec fn moved_entity(e: Entity) -> Entity {
    if e.movable {
        Entity {
            pos: Vec2 {
                x: spec_clamp_pos(
                    e.pos.x + div_trunc(e.vel.x * (BASE_SPEED as int), TICKS_PER_SECOND as int),
                ) as i64,
                y: spec_clamp_pos(
                    e.pos.y + div_trunc(e.vel.y * (BASE_SPEED as int), TICKS_PER_SECOND as int),
                ) as i64,
            },
            ..e
        }
    } else {
        e
    }
}

/// Is `pos` outside the playfield by more than the despawn margin on
/// some axis?
pub open spec fn beyond_bounds(pos: Vec2, win: WinSize) -> bool {
    ||| pos.y > win.h / 2 + DESPAWN_MARGIN
    ||| pos.y < -(win.h / 2 + DESPAWN_MARGIN)
    ||| pos.x > win.w / 2 + DESPAWN_MARGIN
    ||| pos.x < -(win.w / 2 + DESPAWN_MARGIN)
}

/// Does this tick's motion remove `e`?  Only auto-despawning movables
/// that end the tick beyond the margin are removed.
pub open spec fn motion_despawns(e: Entity, win: WinSize) -> bool {
    e.movable && e.auto_despawn && beyond_bounds(moved_entity(e).pos, win)
}

/// The entities of `s` after one tick of linear motion and bounds
/// despawn, in their original order.
pub open spec fn motion_result(s: Seq<Entity>, win: WinSize) -> Seq<Entity>
    decreases s.len(),
{
    if s.len() == 0 {
        Seq::empty()
    } else {
        let rest = motion_result(s.drop_last(), win);
        if motion_despawns(s.last(), win) {
            rest
        } else {
            rest.push(moved_entity(s.last()))
        }
    }
}

pub proof fn lemma_motion_result_len(s: Seq<Entity>, win: WinSize)
    ensures
        motion_result(s, win).len() <= s.len(),
    decreases s.len(),
{
    if s.len() > 0 {
        lemma_motion_result_len(s.drop_last(), win);
    }
}

/// Every entity of the motion result is some moved entity of `s`.
pub proof fn lemma_motion_result_membership(s: Seq<Entity>, win: WinSize)
    ensures
        forall|k: int|
            0 <= k < motion_result(s, win).len() ==> exists|j: int|
                0 <= j < s.len() && #[trigger] motion_result(s, win)[k] == moved_entity(s[j]),
    decreases s.len(),
{
    if s.len() > 0 {
        lemma_motion_result_membership(s.drop_last(), win);
        let rest = motion_result(s.drop_last(), win);
        assert forall|k: int| 0 <= k < motion_result(s, win).len() implies exists|j: int|
            0 <= j < s.len() && #[trigger] motion_result(s, win)[k] == moved_entity(s[j]) by {
            if k < rest.len() {
                assert(motion_result(s, win)[k] == rest[k]);
                let j = choose|j: int| 0 <= j < s.drop_last().len() && rest[k] == moved_entity(
                    s.drop_last()[j],
                );
                assert(s.drop_last()[j] == s[j]);
            } else {
                assert(motion_result(s, win)[k] == moved_entity(s.last()));
            }
        }
    }
}

/// The motion result of a well-formed store body is well formed: moved
/// entities stay well formed, identities stay unique and stay below the
/// store's next identity.
pub proof fn lemma_motion_result_wf(s: Seq<Entity>, win: WinSize, n: int)
    requires
        ids_unique(s),
        all_wf(s),
        ids_below(s, n),
    ensures
        ids_unique(motion_result(s, win)),
        all_wf(motion_result(s, win)),
        ids_below(motion_result(s, win), n),
    decreases s.len(),
{
    if s.len() > 0 {
        let d = s.drop_last();
        assert(ids_unique(d) && all_wf(d) && ids_below(d, n)) by {
            assert(forall|i: int| 0 <= i < d.len() ==> d[i] == s[i]);
        }
        lemma_motion_result_wf(d, win, n);
        lemma_motion_result_membership(d, win);
        let rest = motion_result(d, win);
        if !motion_despawns(s.last(), win) {
            let r = rest.push(moved_entity(s.last()));
            assert forall|a: int, b: int| 0 <= a < b < r.len() implies r[a].id != r[b].id by {
                if b < rest.len() {
                } else {
                    let j = choose|j: int| 0 <= j < d.len() && rest[a] == moved_entity(d[j]);
                    assert(r[a].id == s[j].id);
                    assert(r[b].id == s.last().id);
                    assert(s[j].id != s[s.len() - 1].id);
                }
            }
        }
    }
}

/// Motion keeps the count of entities of any kind that it never removes
/// and whose kind it never changes.
pub proof fn lemma_motion_result_count(s: Seq<Entity>, win: WinSize, f: spec_fn(Entity) -> bool)
    requires
        forall|e: Entity| f(#[trigger] moved_entity(e)) == f(e),
        forall|i: int| 0 <= i < s.len() && f(#[trigger] s[i]) ==> !motion_despawns(s[i], win),
    ensures
        count_where(motion_result(s, win), f) == count_where(s, f),
    decreases s.len(),
{
    if s.len() > 0 {
        let d = s.drop_last();
        lemma_motion_result_count(d, win, f);
        if !motion_despawns(s.last(), win) {
            lemma_count_where_push(motion_result(d, win), f, moved_entity(s.last()));
        }
    }
}

/// One tick of linear motion and bounds despawn over the whole store.
pub fn movable_system(store: &mut Store, win: &WinSize)
    requires
        old(store).wf(),
        win_size_wf(*win),
    ensures
        final(store).wf(),
        final(store).next_id == old(store).next_id,
        final(store).entities@ == motion_result(old(store).entities@, *win),
        final(store).entities@.len() <= old(store).entities@.len(),
{
    proof {
        lemma_motion_result_len(old(store).entities@, *win);
    }
    let ghost s0 = store.entities@;
    let n = store.entities.len();
    let mut kept: Vec<Entity> = Vec::new();
    let mut i: usize = 0;
    while i < n
        invariant
            store.wf(),
            *store == *old(store),
            s0 == store.entities@,
            win_size_wf(*win),
            n == s0.len(),
            0 <= i <= n,
            kept@ == motion_result(s0.subrange(0, i as int), *win),
        decreases n - i,
    {
        let e = store.entities[i];
        let moved = if e.movable {
            let dx = e.vel.x * BASE_SPEED / TICKS_PER_SECOND;
            let dy = e.vel.y * BASE_SPEED / TICKS_PER_SECOND;
            let p = Vec2 { x: clamp_pos(e.pos.x + dx), y: clamp_pos(e.pos.y + dy) };
            Entity { pos: p, ..e }
        } else {
            e
        };
        let gone = moved.movable && moved.auto_despawn && {
            let lim_y = win.h / 2 + DESPAWN_MARGIN;
            let lim_x = win.w / 2 + DESPAWN_MARGIN;
            moved.pos.y > lim_y || moved.pos.y < -lim_y || moved.pos.x > lim_x || moved.pos.x
                < -lim_x
        };
        proof {
            assert(moved == moved_entity(s0[i as int]));
            assert(gone == motion_despawns(s0[i as int], *win));
            assert(s0.subrange(0, i + 1int).drop_last() =~= s0.subrange(0, i as int));
            assert(s0.subrange(0, i + 1int).last() == s0[i as int]);
        }
        if !gone {
            kept.push(moved);
        }
        i = i + 1;
    }
    proof {
        assert(s0.subrange(0, n as int) =~= s0);
        lemma_motion_result_wf(s0, *win, old(store).next_id as int);
    }
    store.entities = kept;
}

} // verus!
