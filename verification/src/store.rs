//! The entity store: every simulated object is an identity plus attached
//! facets (position, velocity, size, tag markers, formation, explosion
//! playback).  Identities are unique and never reused.

use vstd::prelude::*;
use crate::MILLI;
use crate::geom::{Vec2, vec2_within, POS_LIMIT, SIZE_LIMIT};
use crate::formation::{Formation, formation_wf};
use crate::explosion::{ExplosionPlayback, playback_wf};

verus! {

/// One simulated object with its attached facets.  Tag markers are
/// independently composable capabilities, not a hierarchy.
#[derive(Clone, Copy)]
pub struct Entity {
    pub id: u64,
    /// Center of the entity, in milli-units.
    pub pos: Vec2,
    /// Sprite scale, in milli-units (1000 = unscaled).
    pub scale: Vec2,
    /// Unit direction of linear motion, in milli-units.
    pub vel: Vec2,
    /// Unscaled bounding box, in milli-units.
    pub size: Vec2,
    pub enemy: bool,
    pub player: bool,
    pub laser: bool,
    pub from_player: bool,
    pub from_enemy: bool,
    /// Integrated by linear motion each tick.
    pub movable: bool,
    /// Removed once it leaves the playfield by the despawn margin.
    pub auto_despawn: bool,
    /// Orbit parameters, attached to orbiting enemies only.
    pub formation: Option<Formation>,
    /// Playback state, attached to explosion visuals only.
    pub explosion: Option<ExplosionPlayback>,
    /// Marks an ephemeral request to start an explosion at `pos`.
    pub explosion_request: bool,
}

pub open spec fn entity_wf(e: Entity) -> bool {
    &&& vec2_within(e.pos, POS_LIMIT as int)
    &&& 0 <= e.scale.x <= MILLI && 0 <= e.scale.y <= MILLI
    &&& -MILLI <= e.vel.x <= MILLI && -MILLI <= e.vel.y <= MILLI
    &&& 0 <= e.size.x <= SIZE_LIMIT && 0 <= e.size.y <= SIZE_LIMIT
    &&& e.formation is Some ==> formation_wf(e.formation->0)
    &&& e.explosion is Some ==> playback_wf(e.explosion->0)
    &&& e.player ==> !e.auto_despawn
    &&& e.enemy ==> !e.auto_despawn
    &&& e.player ==> !e.enemy && !e.laser
    &&& e.laser ==> !e.enemy
    &&& e.explosion_request ==> !e.enemy && !e.player && !e.laser
    &&& e.explosion is Some ==> !e.enemy && !e.player && !e.laser
}

impl Entity {
    /// An entity with the given motion facets and nothing else attached;
    /// the identity is assigned by the store at spawn time.
    pub fn base(pos: Vec2, scale: Vec2, vel: Vec2, size: Vec2) -> (e: Entity)
        requires
            vec2_within(pos, POS_LIMIT as int),
            0 <= scale.x <= MILLI && 0 <= scale.y <= MILLI,
            -MILLI <= vel.x <= MILLI && -MILLI <= vel.y <= MILLI,
            0 <= size.x <= SIZE_LIMIT && 0 <= size.y <= SIZE_LIMIT,
        ensures
            entity_wf(e),
            e.pos == pos && e.scale == scale && e.vel == vel && e.size == size,
            !e.enemy && !e.player && !e.laser && !e.from_player && !e.from_enemy,
            !e.movable && !e.auto_despawn && !e.explosion_request,
            e.formation is None && e.explosion is None,
            e.id == 0,
    {
        Entity {
            id: 0,
            pos: pos,
            scale: scale,
            vel: vel,
            size: size,
            enemy: false,
            player: false,
            laser: false,
            from_player: false,
            from_enemy: false,
            movable: false,
            auto_despawn: false,
            formation: None,
            explosion: None,
            explosion_request: false,
        }
    }
}

/// How many entities of `s` satisfy `f`.
pub open spec fn count_where(s: Seq<Entity>, f: spec_fn(Entity) -> bool) -> int
    decreases s.len(),
{
    if s.len() == 0 {
        0
    } else {
        count_where(s.drop_last(), f) + if f(s.last()) {
            1int
        } else {
            0int
        }
    }
}

/// The enemy tag, as a reusable predicate on entities.
pub open spec fn is_enemy_fn() -> spec_fn(Entity) -> bool {
    |e: Entity| e.enemy
}

/// The player tag, as a reusable predicate on entities.
pub open spec fn is_player_fn() -> spec_fn(Entity) -> bool {
    |e: Entity| e.player
}

/// Live enemies in `s`.
pub open spec fn count_enemies(s: Seq<Entity>) -> int {
    count_where(s, is_enemy_fn())
}

/// Live player entities in `s`.
pub open spec fn count_players(s: Seq<Entity>) -> int {
    count_where(s, is_player_fn())
}

pub proof fn lemma_count_where_bounds(s: Seq<Entity>, f: spec_fn(Entity) -> bool)
    ensures
        0 <= count_where(s, f) <= s.len(),
    decreases s.len(),
{
    if s.len() > 0 {
        lemma_count_where_bounds(s.drop_last(), f);
    }
}

pub proof fn lemma_count_where_push(s: Seq<Entity>, f: spec_fn(Entity) -> bool, e: Entity)
    ensures
        count_where(s.push(e), f) == count_where(s, f) + if f(e) {
            1int
        } else {
            0int
        },
{
    assert(s.push(e).drop_last() =~= s);
    assert(s.push(e).last() == e);
}

/// An element satisfying `f` makes the count positive.
pub proof fn lemma_count_where_one(s: Seq<Entity>, f: spec_fn(Entity) -> bool, a: int)
    requires
        0 <= a < s.len(),
        f(s[a]),
    ensures
        count_where(s, f) >= 1,
    decreases s.len(),
{
    if a == s.len() - 1 {
        lemma_count_where_bounds(s.drop_last(), f);
    } else {
        lemma_count_where_one(s.drop_last(), f, a);
    }
}

/// Two distinct elements satisfying `f` make the count at least two.
pub proof fn lemma_count_where_two(s: Seq<Entity>, f: spec_fn(Entity) -> bool, a: int, b: int)
    requires
        0 <= a < b < s.len(),
        f(s[a]),
        f(s[b]),
    ensures
        count_where(s, f) >= 2,
    decreases s.len(),
{
    if b == s.len() - 1 {
        lemma_count_where_one(s.drop_last(), f, a);
    } else {
        lemma_count_where_two(s.drop_last(), f, a, b);
    }
}

pub open spec fn ids_unique(s: Seq<Entity>) -> bool {
    forall|i: int, j: int| 0 <= i < j < s.len() ==> s[i].id != s[j].id
}

pub open spec fn all_wf(s: Seq<Entity>) -> bool {
    forall|i: int| 0 <= i < s.len() ==> entity_wf(#[trigger] s[i])
}

pub open spec fn ids_below(s: Seq<Entity>, n: int) -> bool {
    forall|i: int| 0 <= i < s.len() ==> (#[trigger] s[i]).id < n
}

/// The entity store: the live entities and the next fresh identity.
pub struct Store {
    pub next_id: u64,
    pub entities: Vec<Entity>,
}

impl Store {
    pub open spec fn wf(self) -> bool {
        &&& ids_unique(self.entities@)
        &&& all_wf(self.entities@)
        &&& ids_below(self.entities@, self.next_id as int)
    }

    pub open spec fn has_id(self, id: u64) -> bool {
        exists|i: int| 0 <= i < self.entities@.len() && self.entities@[i].id == id
    }

    /// An empty store.
    pub fn new() -> (s: Store)
        ensures
            s.wf(),
            s.entities@.len() == 0,
            s.next_id == 0,
    {
        Store { next_id: 0, entities: Vec::new() }
    }

    /// Add `e` under a fresh identity and return that identity.
    pub fn spawn(&mut self, e: Entity) -> (id: u64)
        requires
            old(self).wf(),
            entity_wf(e),
            old(self).next_id < u64::MAX,
        ensures
            final(self).wf(),
            id == old(self).next_id,
            final(self).next_id == old(self).next_id + 1,
            final(self).entities@ == old(self).entities@.push(
                (Entity { id: old(self).next_id, ..e }),
            ),
    {
        let id = self.next_id;
        self.next_id = self.next_id + 1;
        let mut stamped = e;
        stamped.id = id;
        self.entities.push(stamped);
        id
    }

    /// Remove the entity with identity `id`, if it is live, and return
    /// it; identities are unique, so at most one entity is removed.
    pub fn despawn(&mut self, id: u64) -> (removed: Option<Entity>)
        requires
            old(self).wf(),
        ensures
            final(self).wf(),
            final(self).next_id == old(self).next_id,
            match removed {
                Some(e) => exists|i: int|
                    0 <= i < old(self).entities@.len() && old(self).entities@[i].id == id && e
                        == old(self).entities@[i] && final(self).entities@ == old(
                        self,
                    ).entities@.remove(i),
                None => final(self).entities@ == old(self).entities@ && !old(self).has_id(id),
            },
    {
        let n = self.entities.len();
        let mut i: usize = 0;
        while i < n
            invariant
                *self == *old(self),
                self.wf(),
                n == self.entities@.len(),
                0 <= i <= n,
                forall|j: int| 0 <= j < i ==> self.entities@[j].id != id,
            decreases n - i,
        {
            if self.entities[i].id == id {
                let e = self.entities.remove(i);
                proof {
                    let s = old(self).entities@;
                    let t = s.remove(i as int);
                    s.remove_ensures(i as int);
                    assert forall|a: int| 0 <= a < t.len() implies entity_wf(#[trigger] t[a])
                        && t[a].id < old(self).next_id by {
                        if a < i {
                            assert(t[a] == s[a]);
                        } else {
                            assert(t[a] == s[a + 1]);
                        }
                    }
                    assert forall|a: int, b: int| 0 <= a < b < t.len() implies t[a].id
                        != t[b].id by {
                        let a0 = if a < i { a } else { a + 1 };
                        let b0 = if b < i { b } else { b + 1 };
                        assert(t[a] == s[a0]);
                        assert(t[b] == s[b0]);
                    }
                }
                return Some(e);
            }
            i = i + 1;
        }
        None
    }
}

} // verus!
