//! Collision resolution: axis-aligned overlap tests between projectiles
//! and their targets, deduplicated per tick so that no entity is part of
//! more than one destruction decision, with all store mutations deferred
//! until each scan is over.

use vstd::prelude::*;
use crate::MILLI;
use crate::geom::{Vec2, spec_overlap, collide, SIZE_LIMIT};
use crate::store::{
    Store, Entity, entity_wf, all_wf, ids_unique, ids_below, count_where, count_enemies,
    count_players, is_enemy_fn, is_player_fn, lemma_count_where_push, lemma_count_where_bounds,
};

verus! {

/// The extent of `e`'s bounding box: its unscaled size times its scale.
pub open spec fn scaled_size(e: Entity) -> Vec2 {
    Vec2 {
        x: (e.size.x * e.scale.x / (MILLI as int)) as i64,
        y: (e.size.y * e.scale.y / (MILLI as int)) as i64,
    }
}

/// Do the scaled bounding boxes of `a` and `b` overlap?
pub open spec fn hits(a: Entity, b: Entity) -> bool {
    spec_overlap(a.pos, scaled_size(a), b.pos, scaled_size(b))
}

/// A projectile fired by the player.
pub open spec fn player_laser(e: Entity) -> bool {
    e.laser && e.from_player
}

/// A projectile fired by an enemy.
pub open spec fn enemy_laser(e: Entity) -> bool {
    e.laser && e.from_enemy
}

/// The pair at indices `a` (a candidate player laser) and `b` (a
/// candidate enemy) needs no further resolution: either it is not a
/// colliding laser/enemy pair at all, or one of the two is already part
/// of a destruction decision in `d`.
pub open spec fn pair_resolved(s: Seq<Entity>, d: Seq<u64>, a: int, b: int) -> bool {
    !(player_laser(s[a]) && s[b].enemy && hits(s[a], s[b])) || d.contains(s[a].id) || d.contains(
        s[b].id,
    )
}

/// The `k`th destruction decision of the scan: some live enemy `i` and
/// some live player laser `j` overlap, their identities stand at places
/// `2k` and `2k + 1` of the decision list, and the `k`th explosion
/// request carries the enemy's position.
pub open spec fn decision_pair(s: Seq<Entity>, d: Seq<u64>, x: Seq<Vec2>, k: int) -> bool {
    exists|i: int, j: int|
        {
            &&& 0 <= i < s.len() && 0 <= j < s.len()
            &&& (#[trigger] s[i]).enemy && player_laser(#[trigger] s[j])
            &&& s[i].id == d[2 * k] && s[j].id == d[2 * k + 1]
            &&& hits(s[j], s[i])
            &&& x[k] == s[i].pos
        }
}

/// The `k`th destruction decision, seen through identities alone: some
/// live enemy and some live player laser overlap and their identities
/// stand at places `2k` and `2k + 1` of the decision list.
pub open spec fn decision_pair_ids(s: Seq<Entity>, d: Seq<u64>, k: int) -> bool {
    exists|i: int, j: int|
        {
            &&& 0 <= i < s.len() && 0 <= j < s.len()
            &&& (#[trigger] s[i]).enemy && player_laser(#[trigger] s[j])
            &&& s[i].id == d[2 * k] && s[j].id == d[2 * k + 1]
            &&& hits(s[j], s[i])
        }
}

/// A recorded decision stays recorded as one more pair is decided.
pub proof fn lemma_decision_pair_extend(
    s: Seq<Entity>,
    d: Seq<u64>,
    x: Seq<Vec2>,
    k: int,
    e_id: u64,
    l_id: u64,
    p: Vec2,
)
    requires
        decision_pair(s, d, x, k),
        0 <= k < x.len(),
        2 * x.len() == d.len(),
    ensures
        decision_pair(s, d.push(e_id).push(l_id), x.push(p), k),
{
    let (i, j) = choose|i: int, j: int|
        {
            &&& 0 <= i < s.len() && 0 <= j < s.len()
            &&& (#[trigger] s[i]).enemy && player_laser(#[trigger] s[j])
            &&& s[i].id == d[2 * k] && s[j].id == d[2 * k + 1]
            &&& hits(s[j], s[i])
            &&& x[k] == s[i].pos
        };
    let d2 = d.push(e_id).push(l_id);
    let x2 = x.push(p);
    assert(d2[2 * k] == d[2 * k] && d2[2 * k + 1] == d[2 * k + 1]);
    assert(x2[k] == x[k]);
    assert(s[i].enemy && player_laser(s[j]) && s[i].id == d2[2 * k] && s[j].id == d2[2 * k + 1]
        && hits(s[j], s[i]) && x2[k] == s[i].pos);
}

/// No identity appears twice among the destruction decisions.
pub open spec fn no_dup(d: Seq<u64>) -> bool {
    forall|a: int, b: int| 0 <= a < b < d.len() ==> d[a] != d[b]
}

/// The entities of `s` whose identity is not listed in `ids`, in order.
pub open spec fn remove_ids(s: Seq<Entity>, ids: Seq<u64>) -> Seq<Entity>
    decreases s.len(),
{
    if s.len() == 0 {
        Seq::empty()
    } else {
        let rest = remove_ids(s.drop_last(), ids);
        if ids.contains(s.last().id) {
            rest
        } else {
            rest.push(s.last())
        }
    }
}

/// The ephemeral marker entity recording that an explosion must start at
/// `pos`.
pub open spec fn spec_request_entity(pos: Vec2, id: u64) -> Entity {
    Entity {
        id: id,
        pos: pos,
        scale: Vec2 { x: MILLI, y: MILLI },
        vel: Vec2 { x: 0, y: 0 },
        size: Vec2 { x: 0, y: 0 },
        enemy: false,
        player: false,
        laser: false,
        from_player: false,
        from_enemy: false,
        movable: false,
        auto_despawn: false,
        formation: None,
        explosion: None,
        explosion_request: true,
    }
}

pub proof fn lemma_remove_ids_len(s: Seq<Entity>, ids: Seq<u64>)
    ensures
        remove_ids(s, ids).len() <= s.len(),
    decreases s.len(),
{
    if s.len() > 0 {
        lemma_remove_ids_len(s.drop_last(), ids);
    }
}

/// Every entity kept by `remove_ids` is an entity of `s`.
pub proof fn lemma_remove_ids_membership(s: Seq<Entity>, ids: Seq<u64>)
    ensures
        forall|k: int|
            0 <= k < remove_ids(s, ids).len() ==> exists|j: int|
                0 <= j < s.len() && #[trigger] remove_ids(s, ids)[k] == s[j],
    decreases s.len(),
{
    if s.len() > 0 {
        lemma_remove_ids_membership(s.drop_last(), ids);
        let rest = remove_ids(s.drop_last(), ids);
        assert forall|k: int| 0 <= k < remove_ids(s, ids).len() implies exists|j: int|
            0 <= j < s.len() && #[trigger] remove_ids(s, ids)[k] == s[j] by {
            if k < rest.len() {
                assert(remove_ids(s, ids)[k] == rest[k]);
                let j = choose|j: int| 0 <= j < s.drop_last().len() && rest[k] == s.drop_last()[j];
                assert(s.drop_last()[j] == s[j]);
            } else {
                assert(remove_ids(s, ids)[k] == s.last());
            }
        }
    }
}

/// An entity whose identity is not listed survives the removal intact.
pub proof fn lemma_remove_ids_keeps(s: Seq<Entity>, ids: Seq<u64>, i: int)
    requires
        0 <= i < s.len(),
        !ids.contains(s[i].id),
    ensures
        exists|k: int|
            0 <= k < remove_ids(s, ids).len() && #[trigger] remove_ids(s, ids)[k] == s[i],
    decreases s.len(),
{
    if i == s.len() - 1 {
        let r = remove_ids(s, ids);
        assert(r[r.len() - 1] == s[i]);
    } else {
        let d = s.drop_last();
        lemma_remove_ids_keeps(d, ids, i);
        let rest = remove_ids(d, ids);
        let k = choose|k: int| 0 <= k < rest.len() && #[trigger] rest[k] == d[i];
        assert(remove_ids(s, ids)[k] == s[i]);
    }
}

/// Removing listed identities keeps the body of a store well formed.
pub proof fn lemma_remove_ids_wf(s: Seq<Entity>, ids: Seq<u64>, n: int)
    requires
        ids_unique(s),
        all_wf(s),
        ids_below(s, n),
    ensures
        ids_unique(remove_ids(s, ids)),
        all_wf(remove_ids(s, ids)),
        ids_below(remove_ids(s, ids), n),
    decreases s.len(),
{
    if s.len() > 0 {
        let d = s.drop_last();
        assert(forall|i: int| 0 <= i < d.len() ==> d[i] == s[i]);
        lemma_remove_ids_wf(d, ids, n);
        lemma_remove_ids_membership(d, ids);
        let rest = remove_ids(d, ids);
        if !ids.contains(s.last().id) {
            let r = rest.push(s.last());
            assert forall|a: int, b: int| 0 <= a < b < r.len() implies r[a].id != r[b].id by {
                if b == rest.len() {
                    let j = choose|j: int| 0 <= j < d.len() && rest[a] == d[j];
                    assert(r[a].id == s[j].id);
                    assert(s[j].id != s[s.len() - 1].id);
                }
            }
        }
    }
}

/// How many entities of `s` satisfy `f` and carry an identity listed in
/// `ids`.
pub open spec fn count_where_in_ids(s: Seq<Entity>, ids: Seq<u64>, f: spec_fn(Entity) -> bool) -> int
    decreases s.len(),
{
    if s.len() == 0 {
        0
    } else {
        count_where_in_ids(s.drop_last(), ids, f) + if f(s.last()) && ids.contains(s.last().id) {
            1int
        } else {
            0int
        }
    }
}

/// Removal splits any count: what `s` counts is what survives plus what
/// was counted and listed for removal.
pub proof fn lemma_remove_ids_count(s: Seq<Entity>, ids: Seq<u64>, f: spec_fn(Entity) -> bool)
    ensures
        count_where(s, f) == count_where(remove_ids(s, ids), f) + count_where_in_ids(s, ids, f),
    decreases s.len(),
{
    if s.len() > 0 {
        let d = s.drop_last();
        lemma_remove_ids_count(d, ids, f);
        if !ids.contains(s.last().id) {
            lemma_count_where_push(remove_ids(d, ids), f, s.last());
        }
    }
}

/// Is `id` one of the identities collected in `v`?
fn contains_id(v: &Vec<u64>, id: u64) -> (r: bool)
    ensures
        r == v@.contains(id),
{
    let n = v.len();
    let mut i: usize = 0;
    while i < n
        invariant
            n == v@.len(),
            0 <= i <= n,
            forall|j: int| 0 <= j < i ==> v@[j] != id,
        decreases n - i,
    {
        if v[i] == id {
            assert(v@[i as int] == id);
            return true;
        }
        i = i + 1;
    }
    assert(!v@.contains(id));
    false
}

/// Identities already listed stay listed when one more is pushed.
pub proof fn lemma_contains_after_push(d: Seq<u64>, x: u64, y: u64)
    requires
        d.contains(y) || y == x,
    ensures
        d.push(x).contains(y),
{
    if d.contains(y) {
        let i = choose|i: int| 0 <= i < d.len() && d[i] == y;
        assert(d.push(x)[i] == y);
    } else {
        assert(d.push(x)[d.len() as int] == y);
    }
}

/// A resolved pair stays resolved as more decisions are added.
pub proof fn lemma_pair_resolved_monotone(s: Seq<Entity>, d1: Seq<u64>, d2: Seq<u64>)
    requires
        forall|x: u64| d1.contains(x) ==> d2.contains(x),
    ensures
        forall|a: int, b: int|
            0 <= a < s.len() && 0 <= b < s.len() && #[trigger] pair_resolved(s, d1, a, b)
                ==> pair_resolved(s, d2, a, b),
{
}

/// The extent of `e`'s bounding box, computed.
fn scaled_size_exec(e: &Entity) -> (r: Vec2)
    requires
        entity_wf(*e),
    ensures
        r == scaled_size(*e),
        0 <= r.x <= SIZE_LIMIT && 0 <= r.y <= SIZE_LIMIT,
{
    proof {
        assert(0 <= e.size.x as int * e.scale.x as int <= 10_000_000_000 && 0 <= e.size.y as int
            * e.scale.y as int <= 10_000_000_000) by (nonlinear_arith)
            requires
                0 <= e.size.x as int <= SIZE_LIMIT as int,
                0 <= e.size.y as int <= SIZE_LIMIT as int,
                0 <= e.scale.x as int <= 1000,
                0 <= e.scale.y as int <= 1000,
        ;
    }
    Vec2 { x: e.size.x * e.scale.x / MILLI, y: e.size.y * e.scale.y / MILLI }
}

/// One tick's resolution of player lasers against enemies.  Every
/// geometric overlap between a live player laser and a live enemy leads
/// to a destruction decision unless one of the two was already decided
/// this tick; decided entities are removed when the scan is over, the
/// enemy counter drops by the number of enemies destroyed, and one
/// explosion request is raised at each destroyed enemy's position.
/// Returns the tick's destruction decisions, in the order they were
/// made: each decided enemy followed by the laser that hit it.
pub fn player_laser_hit_enemy_system(store: &mut Store, enemy_count: &mut u32) -> (destroyed: Vec<
    u64,
>)
    requires
        old(store).wf(),
        *old(enemy_count) == count_enemies(old(store).entities@),
        old(store).next_id + old(store).entities@.len() <= u64::MAX,
    ensures
        final(store).wf(),
        no_dup(destroyed@),
        forall|a: int, b: int|
            0 <= a < old(store).entities@.len() && 0 <= b < old(store).entities@.len()
                ==> pair_resolved(old(store).entities@, destroyed@, a, b),
        *final(enemy_count) == count_enemies(final(store).entities@),
        *final(enemy_count) <= *old(enemy_count),
        count_players(final(store).entities@) == count_players(old(store).entities@),
        destroyed@.len() % 2 == 0,
        forall|k: int|
            0 <= k < destroyed@.len() / 2 ==> #[trigger] decision_pair_ids(
                old(store).entities@,
                destroyed@,
                k,
            ),
        final(store).next_id == old(store).next_id + destroyed@.len() / 2,
        old(store).next_id <= final(store).next_id <= old(store).next_id
            + old(store).entities@.len(),
        final(store).entities@.len() <= 2 * old(store).entities@.len(),
        exists|xs: Seq<Vec2>|
            #![trigger xs.len()]
            {
                &&& 2 * xs.len() == destroyed@.len()
                &&& final(store).entities@ == remove_ids(old(store).entities@, destroyed@)
                    + Seq::new(
                    xs.len(),
                    |k: int| spec_request_entity(xs[k], (old(store).next_id + k) as u64),
                )
                &&& forall|k: int|
                    0 <= k < xs.len() ==> #[trigger] decision_pair(
                        old(store).entities@,
                        destroyed@,
                        xs,
                        k,
                    )
            },
{
    let ghost s = store.entities@;
    let n = store.entities.len();
    let mut destroyed: Vec<u64> = Vec::new();
    let mut expl: Vec<Vec2> = Vec::new();

    // read-only scan: decide, but defer every mutation
    let mut li: usize = 0;
    while li < n
        invariant
            store.wf(),
            *store == *old(store),
            s == store.entities@,
            n == s.len(),
            0 <= li <= n,
            no_dup(destroyed@),
            expl@.len() <= li,
            2 * expl@.len() == destroyed@.len(),
            forall|k: int|
                0 <= k < expl@.len() ==> #[trigger] decision_pair(s, destroyed@, expl@, k),
            forall|a: int, b: int|
                0 <= a < li && 0 <= b < n ==> #[trigger] pair_resolved(s, destroyed@, a, b),
        decreases n - li,
    {
        let laser = store.entities[li];
        let laser_in = contains_id(&destroyed, laser.id);
        if laser.laser && laser.from_player && !laser_in {
            let laser_box = scaled_size_exec(&laser);
            let mut ei: usize = 0;
            while ei < n
                invariant
                    store.wf(),
                    *store == *old(store),
                    s == store.entities@,
                    n == s.len(),
                    0 <= li < n,
                    0 <= ei <= n,
                    laser == s[li as int],
                    player_laser(laser),
                    laser_box == scaled_size(laser),
                    0 <= laser_box.x <= SIZE_LIMIT && 0 <= laser_box.y <= SIZE_LIMIT,
                    no_dup(destroyed@),
                    expl@.len() <= li + if destroyed@.contains(laser.id) {
                        1int
                    } else {
                        0int
                    },
                    2 * expl@.len() == destroyed@.len(),
                    forall|k: int|
                        0 <= k < expl@.len() ==> #[trigger] decision_pair(s, destroyed@, expl@, k),
                    forall|a: int, b: int|
                        0 <= a < li && 0 <= b < n ==> #[trigger] pair_resolved(s, destroyed@, a, b),
                    forall|b: int| 0 <= b < ei ==> pair_resolved(s, destroyed@, li as int, b),
                decreases n - ei,
            {
                let enemy = store.entities[ei];
                let enemy_in = contains_id(&destroyed, enemy.id);
                let laser_in_now = contains_id(&destroyed, laser.id);
                if enemy.enemy && !enemy_in && !laser_in_now {
                    let enemy_box = scaled_size_exec(&enemy);
                    if collide(laser.pos, laser_box, enemy.pos, enemy_box) {
                        let ghost d0 = destroyed@;
                        let ghost x0 = expl@;
                        destroyed.push(enemy.id);
                        destroyed.push(laser.id);
                        expl.push(enemy.pos);
                        proof {
                            let d2 = destroyed@;
                            assert(li != ei && enemy.id != laser.id) by {
                                assert(entity_wf(s[li as int]));
                            }
                            assert(d2 == d0.push(enemy.id).push(laser.id));
                            assert forall|x: u64| d0.contains(x) implies d2.contains(x) by {
                                lemma_contains_after_push(d0, enemy.id, x);
                                lemma_contains_after_push(d0.push(enemy.id), laser.id, x);
                            }
                            assert(d2.contains(enemy.id)) by {
                                lemma_contains_after_push(d0, enemy.id, enemy.id);
                                lemma_contains_after_push(d0.push(enemy.id), laser.id, enemy.id);
                            }
                            assert(d2.contains(laser.id)) by {
                                lemma_contains_after_push(d0.push(enemy.id), laser.id, laser.id);
                            }
                            lemma_pair_resolved_monotone(s, d0, d2);
                            assert forall|a: int, b: int| 0 <= a < li && 0 <= b < n implies
                                pair_resolved(s, d2, a, b) by {
                                assert(pair_resolved(s, d0, a, b));
                            }
                            assert forall|b: int| 0 <= b < ei implies pair_resolved(
                                s,
                                d2,
                                li as int,
                                b,
                            ) by {
                                assert(pair_resolved(s, d0, li as int, b));
                            }
                            // no identity is decided twice: the two new ones were not in d0
                            assert forall|a: int, b: int| 0 <= a < b < d2.len() implies d2[a]
                                != d2[b] by {
                                if b == d2.len() - 2 {
                                    assert(d2[b] == enemy.id);
                                    if a < d0.len() {
                                        assert(d0.contains(d0[a]));
                                    }
                                } else if b == d2.len() - 1 {
                                    assert(d2[b] == laser.id);
                                    if a < d0.len() {
                                        assert(d0.contains(d0[a]));
                                    }
                                }
                            }
                            // every decision, old and new, stays recorded
                            assert forall|k: int| 0 <= k < expl@.len() implies #[trigger]
                                decision_pair(s, destroyed@, expl@, k) by {
                                if k < expl@.len() - 1 {
                                    lemma_decision_pair_extend(
                                        s,
                                        d0,
                                        x0,
                                        k,
                                        enemy.id,
                                        laser.id,
                                        enemy.pos,
                                    );
                                    assert(destroyed@ == d0.push(enemy.id).push(laser.id));
                                    assert(expl@ == x0.push(enemy.pos));
                                } else {
                                    assert(destroyed@[2 * k] == enemy.id && destroyed@[2 * k + 1]
                                        == laser.id);
                                    assert(s[ei as int].enemy && player_laser(s[li as int]));
                                    assert(expl@[k] == s[ei as int].pos);
                                    assert(s[ei as int].id == destroyed@[2 * k] && s[li as int].id
                                        == destroyed@[2 * k + 1] && hits(s[li as int], s[ei as int])
                                        && expl@[k] == s[ei as int].pos);
                                }
                            }
                        }
                    }
                }
                proof {
                    assert(pair_resolved(s, destroyed@, li as int, ei as int));
                }
                ei = ei + 1;
            }
        } else {
            proof {
                assert forall|b: int| 0 <= b < n implies pair_resolved(
                    s,
                    destroyed@,
                    li as int,
                    b,
                ) by {
                    if laser.laser && laser.from_player {
                        assert(destroyed@.contains(laser.id));
                    }
                }
            }
        }
        li = li + 1;
    }

    // apply the deferred removals
    let ghost d = destroyed@;
    let mut kept: Vec<Entity> = Vec::new();
    let mut kills: usize = 0;
    let mut j: usize = 0;
    while j < n
        invariant
            store.wf(),
            *store == *old(store),
            s == store.entities@,
            n == s.len(),
            0 <= j <= n,
            d == destroyed@,
            kept@ == remove_ids(s.subrange(0, j as int), d),
            kills as int == count_where_in_ids(s.subrange(0, j as int), d, is_enemy_fn()),
            kills <= j,
        decreases n - j,
    {
        let e = store.entities[j];
        proof {
            assert(s.subrange(0, j + 1int).drop_last() =~= s.subrange(0, j as int));
            assert(s.subrange(0, j + 1int).last() == s[j as int]);
        }
        if contains_id(&destroyed, e.id) {
            if e.enemy {
                kills = kills + 1;
            }
        } else {
            kept.push(e);
        }
        j = j + 1;
    }
    proof {
        assert(s.subrange(0, n as int) =~= s);
        lemma_remove_ids_wf(s, d, old(store).next_id as int);
        lemma_remove_ids_count(s, d, is_enemy_fn());
        lemma_remove_ids_count(s, d, is_player_fn());
        lemma_count_where_bounds(remove_ids(s, d), is_enemy_fn());
        // nothing decided this tick is the player, so the player count is kept
        assert(count_where_in_ids(s, d, is_player_fn()) == 0) by {
            lemma_no_players_in_ids(s, d, expl@);
        }
    }
    store.entities = kept;
    proof {
        lemma_count_where_bounds(s, is_enemy_fn());
    }
    *enemy_count = *enemy_count - (kills as u32);

    // raise the deferred explosion requests
    let ghost kept0 = store.entities@;
    let ghost base = store.next_id;
    let m = expl.len();
    let mut k: usize = 0;
    while k < m
        invariant
            store.wf(),
            m == expl@.len(),
            0 <= k <= m,
            m <= n,
            base == old(store).next_id,
            base + n <= u64::MAX,
            store.next_id == base + k,
            store.entities@ == kept0 + Seq::new(
                k as nat,
                |t: int| spec_request_entity(expl@[t], (base + t) as u64),
            ),
            all_wf(s),
            forall|t: int| 0 <= t < m ==> #[trigger] decision_pair(s, d, expl@, t),
            count_enemies(store.entities@) == count_enemies(kept0),
            count_players(store.entities@) == count_players(kept0),
        decreases m - k,
    {
        let p = expl[k];
        proof {
            assert(decision_pair(s, d, expl@, k as int));
            let (i, j) = choose|i: int, j: int|
                {
                    &&& 0 <= i < s.len() && 0 <= j < s.len()
                    &&& (#[trigger] s[i]).enemy && player_laser(#[trigger] s[j])
                    &&& s[i].id == d[2 * (k as int)] && s[j].id == d[2 * (k as int) + 1]
                    &&& hits(s[j], s[i])
                    &&& expl@[k as int] == s[i].pos
                };
            assert(entity_wf(s[i]));
        }
        let mut req = Entity::base(
            p,
            Vec2 { x: MILLI, y: MILLI },
            Vec2 { x: 0, y: 0 },
            Vec2 { x: 0, y: 0 },
        );
        req.explosion_request = true;
        let ghost before = store.entities@;
        store.spawn(req);
        proof {
            assert(store.entities@ =~= kept0 + Seq::new(
                (k + 1) as nat,
                |t: int| spec_request_entity(expl@[t], (base + t) as u64),
            ));
            lemma_count_where_push(before, is_enemy_fn(), store.entities@.last());
            lemma_count_where_push(before, is_player_fn(), store.entities@.last());
        }
        k = k + 1;
    }
    proof {
        lemma_remove_ids_len(s, d);
        let w = expl@;
        assert(2 * w.len() == d.len());
        assert forall|k: int| 0 <= k < d.len() / 2 implies #[trigger] decision_pair_ids(
            s,
            d,
            k,
        ) by {
            assert(decision_pair(s, d, w, k));
            let (i, j) = choose|i: int, j: int|
                {
                    &&& 0 <= i < s.len() && 0 <= j < s.len()
                    &&& (#[trigger] s[i]).enemy && player_laser(#[trigger] s[j])
                    &&& s[i].id == d[2 * k] && s[j].id == d[2 * k + 1]
                    &&& hits(s[j], s[i])
                    &&& w[k] == s[i].pos
                };
            assert(s[i].enemy && player_laser(s[j]) && s[i].id == d[2 * k] && s[j].id == d[2 * k
                + 1] && hits(s[j], s[i]));
        }
        assert(store.entities@ == kept0 + Seq::new(
            w.len(),
            |t: int| spec_request_entity(w[t], (base + t) as u64),
        ));
        assert(store.entities@ == remove_ids(s, d) + Seq::new(
            w.len(),
            |t: int| spec_request_entity(w[t], (base + t) as u64),
        ));
    }
    destroyed
}

/// No destruction decision of this pass names the player: every listed
/// identity belongs to an enemy or to a player laser, and identities are
/// unique.
proof fn lemma_no_players_in_ids(s: Seq<Entity>, d: Seq<u64>, xs: Seq<Vec2>)
    requires
        ids_unique(s),
        all_wf(s),
        2 * xs.len() == d.len(),
        forall|k: int| 0 <= k < xs.len() ==> #[trigger] decision_pair(s, d, xs, k),
    ensures
        count_where_in_ids(s, d, is_player_fn()) == 0,
{
    assert forall|q: int| 0 <= q < s.len() && s[q].player implies !d.contains(s[q].id) by {
        if d.contains(s[q].id) {
            let t = choose|t: int| 0 <= t < d.len() && d[t] == s[q].id;
            let k = t / 2;
            assert(0 <= k < xs.len());
            assert(decision_pair(s, d, xs, k));
            let (i, j) = choose|i: int, j: int|
                {
                    &&& 0 <= i < s.len() && 0 <= j < s.len()
                    &&& (#[trigger] s[i]).enemy && player_laser(#[trigger] s[j])
                    &&& s[i].id == d[2 * k] && s[j].id == d[2 * k + 1]
                    &&& hits(s[j], s[i])
                    &&& xs[k] == s[i].pos
                };
            if t == 2 * k {
                assert(s[i].id == s[q].id);
                assert(i == q || s[i].id != s[q].id);
                assert(entity_wf(s[q]));
            } else {
                assert(t == 2 * k + 1);
                assert(s[j].id == s[q].id);
                assert(j == q || s[j].id != s[q].id);
                assert(entity_wf(s[q]));
            }
        }
    }
    lemma_count_in_ids_zero(s, d, is_player_fn());
}

/// If no entity satisfying `f` carries a listed identity, the listed
/// count is zero.
proof fn lemma_count_in_ids_zero(s: Seq<Entity>, d: Seq<u64>, f: spec_fn(Entity) -> bool)
    requires
        forall|q: int| 0 <= q < s.len() && f(#[trigger] s[q]) ==> !d.contains(s[q].id),
    ensures
        count_where_in_ids(s, d, f) == 0,
    decreases s.len(),
{
    if s.len() > 0 {
        let dd = s.drop_last();
        assert(forall|q: int| 0 <= q < dd.len() ==> dd[q] == s[q]);
        lemma_count_in_ids_zero(dd, d, f);
    }
}

/// A player hit this tick: the player at index `pi` overlaps the enemy
/// laser at index `li`, and no enemy laser before `li` overlaps it.
pub open spec fn player_hit_pair(s: Seq<Entity>, pi: int, li: int) -> bool {
    &&& 0 <= pi < s.len() && 0 <= li < s.len()
    &&& s[pi].player && enemy_laser(s[li]) && hits(s[li], s[pi])
    &&& forall|q: int| 0 <= q < li && enemy_laser(#[trigger] s[q]) ==> !hits(s[q], s[pi])
}

/// At most one entity of `s` is the player, so two player indices agree.
pub proof fn lemma_player_unique(s: Seq<Entity>, a: int, b: int)
    requires
        count_players(s) <= 1,
        0 <= a < s.len() && s[a].player,
        0 <= b < s.len() && s[b].player,
    ensures
        a == b,
{
    if a < b {
        crate::store::lemma_count_where_two(s, is_player_fn(), a, b);
    } else if b < a {
        crate::store::lemma_count_where_two(s, is_player_fn(), b, a);
    }
}

/// Exactly one entity satisfies `f` among those whose identity is
/// listed: the one at index `i`.
proof fn lemma_count_in_ids_single(
    s: Seq<Entity>,
    ids: Seq<u64>,
    f: spec_fn(Entity) -> bool,
    i: int,
)
    requires
        0 <= i < s.len(),
        f(s[i]),
        ids.contains(s[i].id),
        forall|q: int| 0 <= q < s.len() && q != i && f(#[trigger] s[q]) ==> !ids.contains(s[q].id),
    ensures
        count_where_in_ids(s, ids, f) == 1,
    decreases s.len(),
{
    let d = s.drop_last();
    assert(forall|q: int| 0 <= q < d.len() ==> d[q] == s[q]);
    if i == s.len() - 1 {
        lemma_count_in_ids_zero(d, ids, f);
    } else {
        lemma_count_in_ids_single(d, ids, f, i);
    }
}

/// One tick's resolution of enemy lasers against the player: the first
/// enemy laser that overlaps the single player entity destroys both,
/// marks the player state shot at `now_ms`, and raises one explosion
/// request at the player's position; the scan stops there.  With no
/// player, or no overlapping laser, nothing changes.
#[verifier::rlimit(60)]
pub fn enemy_laser_hit_player_system(
    store: &mut Store,
    player_state: &mut crate::player::PlayerState,
    now_ms: i64,
) -> (hit: bool)
    requires
        old(store).wf(),
        crate::player::player_state_wf(*old(player_state)),
        count_players(old(store).entities@) <= 1,
        0 <= now_ms < i64::MAX,
        old(store).next_id < u64::MAX,
    ensures
        final(store).wf(),
        crate::player::player_state_wf(*final(player_state)),
        !hit ==> *final(store) == *old(store) && *final(player_state) == *old(player_state),
        !hit ==> forall|pi: int, li: int|
            0 <= pi < old(store).entities@.len() && 0 <= li < old(store).entities@.len() && (
            #[trigger] old(store).entities@[pi]).player && enemy_laser(
                #[trigger] old(store).entities@[li],
            ) ==> !hits(old(store).entities@[li], old(store).entities@[pi]),
        hit ==> exists|pi: int, li: int|
            {
                &&& #[trigger] player_hit_pair(old(store).entities@, pi, li)
                &&& final(store).entities@ == remove_ids(
                    old(store).entities@,
                    seq![old(store).entities@[pi].id, old(store).entities@[li].id],
                ).push(
                    spec_request_entity(old(store).entities@[pi].pos, old(store).next_id),
                )
            },
        hit ==> !final(player_state).alive && final(player_state).last_shot == now_ms,
        count_enemies(final(store).entities@) == count_enemies(old(store).entities@),
        count_players(final(store).entities@) == count_players(old(store).entities@) - if hit {
            1int
        } else {
            0int
        },
        old(store).next_id <= final(store).next_id <= old(store).next_id + 1,
        final(store).entities@.len() <= old(store).entities@.len() + 1,
{
    let ghost s = store.entities@;
    let n = store.entities.len();

    // locate the single player entity, if it is live
    let mut pi: usize = 0;
    while pi < n
        invariant
            *store == *old(store),
            s == store.entities@,
            n == s.len(),
            0 <= pi <= n,
            forall|q: int| 0 <= q < pi ==> !(#[trigger] s[q]).player,
        ensures
            0 <= pi <= n,
            forall|q: int| 0 <= q < pi ==> !(#[trigger] s[q]).player,
            pi < n ==> s[pi as int].player,
        decreases n - pi,
    {
        if store.entities[pi].player {
            break;
        }
        pi = pi + 1;
    }
    if pi >= n {
        return false;
    }
    let player = store.entities[pi];
    let pbox = scaled_size_exec(&player);

    // scan the enemy lasers in store order; the first overlap resolves
    let mut li: usize = 0;
    while li < n
        invariant
            store.wf(),
            *store == *old(store),
            s == store.entities@,
            n == s.len(),
            0 <= pi < n,
            0 <= li <= n,
            player == s[pi as int],
            player.player,
            pbox == scaled_size(player),
            0 <= pbox.x <= SIZE_LIMIT && 0 <= pbox.y <= SIZE_LIMIT,
            *player_state == *old(player_state),
            crate::player::player_state_wf(*player_state),
            count_players(s) <= 1,
            0 <= now_ms < i64::MAX,
            store.next_id < u64::MAX,
            forall|q: int| 0 <= q < li && enemy_laser(#[trigger] s[q]) ==> !hits(s[q], s[pi as int]),
        decreases n - li,
    {
        let laser = store.entities[li];
        if laser.laser && laser.from_enemy {
            let lbox = scaled_size_exec(&laser);
            if collide(laser.pos, lbox, player.pos, pbox) {
                let ghost ids = seq![s[pi as int].id, s[li as int].id];
                let pid = player.id;
                let lid = laser.id;

                // deferred application: remove both, then raise the request
                let mut kept: Vec<Entity> = Vec::new();
                let mut j: usize = 0;
                while j < n
                    invariant
                        store.wf(),
                        *store == *old(store),
                        s == store.entities@,
                        n == s.len(),
                        0 <= j <= n,
                        pid == s[pi as int].id && lid == s[li as int].id,
                        0 <= pi < n && 0 <= li < n,
                        ids == seq![s[pi as int].id, s[li as int].id],
                        kept@ == remove_ids(s.subrange(0, j as int), ids),
                    decreases n - j,
                {
                    let e = store.entities[j];
                    proof {
                        assert(s.subrange(0, j + 1int).drop_last() =~= s.subrange(0, j as int));
                        assert(s.subrange(0, j + 1int).last() == s[j as int]);
                        if e.id == pid {
                            assert(ids[0] == e.id && ids.contains(e.id));
                        } else if e.id == lid {
                            assert(ids[1] == e.id && ids.contains(e.id));
                        } else {
                            assert(!ids.contains(e.id)) by {
                                assert(forall|t: int| 0 <= t < ids.len() ==> #[trigger] ids[t] == ids[0]
                                    || ids[t] == ids[1]);
                            }
                        }
                    }
                    if e.id == pid || e.id == lid {
                    } else {
                        kept.push(e);
                    }
                    j = j + 1;
                }
                proof {
                    assert(s.subrange(0, n as int) =~= s);
                    lemma_remove_ids_wf(s, ids, old(store).next_id as int);
                    lemma_remove_ids_count(s, ids, is_enemy_fn());
                    lemma_remove_ids_count(s, ids, is_player_fn());
                    // neither removed entity is an enemy
                    assert(count_where_in_ids(s, ids, is_enemy_fn()) == 0) by {
                        assert forall|q: int| 0 <= q < s.len() && s[q].enemy implies !ids.contains(
                            s[q].id,
                        ) by {
                            assert(entity_wf(s[q]) && entity_wf(s[pi as int]) && entity_wf(
                                s[li as int],
                            ));
                            if s[q].id == pid {
                                assert(q == pi as int || s[q].id != s[pi as int].id);
                            }
                            if s[q].id == lid {
                                assert(q == li as int || s[q].id != s[li as int].id);
                            }
                            assert(forall|t: int| 0 <= t < ids.len() ==> #[trigger] ids[t] == ids[0]
                                || ids[t] == ids[1]);
                        }
                        lemma_count_in_ids_zero(s, ids, is_enemy_fn());
                    }
                    // exactly the player is removed among player entities
                    assert(count_where_in_ids(s, ids, is_player_fn()) == 1) by {
                        assert(ids[0] == s[pi as int].id && ids.contains(s[pi as int].id));
                        assert forall|q: int|
                            0 <= q < s.len() && q != pi as int && s[q].player implies !ids.contains(
                            s[q].id,
                        ) by {
                            lemma_player_unique(s, q, pi as int);
                        }
                        lemma_count_in_ids_single(s, ids, is_player_fn(), pi as int);
                    }
                }
                store.entities = kept;
                let ghost kept0 = store.entities@;
                let mut req = Entity::base(
                    player.pos,
                    Vec2 { x: MILLI, y: MILLI },
                    Vec2 { x: 0, y: 0 },
                    Vec2 { x: 0, y: 0 },
                );
                req.explosion_request = true;
                store.spawn(req);
                player_state.shot(now_ms);
                proof {
                    lemma_remove_ids_len(s, ids);
                    assert(store.entities@ == remove_ids(s, ids).push(
                        spec_request_entity(s[pi as int].pos, old(store).next_id),
                    ));
                    lemma_count_where_push(kept0, is_enemy_fn(), store.entities@.last());
                    lemma_count_where_push(kept0, is_player_fn(), store.entities@.last());
                    assert(player_hit_pair(s, pi as int, li as int));
                }
                return true;
            }
        }
        li = li + 1;
    }
    proof {
        assert forall|pj: int, lj: int|
            0 <= pj < s.len() && 0 <= lj < s.len() && (#[trigger] s[pj]).player && enemy_laser(
                #[trigger] s[lj],
            ) implies !hits(s[lj], s[pj]) by {
            lemma_player_unique(s, pj, pi as int);
        }
    }
    false
}

} // verus!
