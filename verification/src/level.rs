//! The level: the aggregate entity store keyed by monotonically issued
//! identifiers, with the occupancy queries, entity insertion and removal,
//! the outcome query, and the contact-resolution phase.

use vstd::prelude::*;

use crate::entity::{attractors_of, ent_ok, ControllerType, Entity, EntityType, Pos};

verus! {

/// One stored entity together with its stable identifier.
#[derive(Clone, Copy, PartialEq, Eq, Debug)]
pub struct Slot {
    pub id: u64,
    pub entity: Entity,
}

/// Outcome of a level, derived on demand from the entity set.
#[derive(Clone, Copy, PartialEq, Eq, Structural, Debug)]
pub enum LevelState {
    Playing,
    Win,
    Loss,
}

/// What the geometric queries read of a stored entity: its cell and type.
#[derive(Clone, Copy, PartialEq, Eq, Structural, Debug)]
pub struct Cell {
    pub pos: Pos,
    pub ty: EntityType,
}

/// The occupancy view of an entity sequence.
pub open spec fn world(s: Seq<Slot>) -> Seq<Cell> {
    s.map_values(|sl: Slot| Cell { pos: sl.entity.position, ty: sl.entity.entity_type })
}

/// Index of the first entity at `p`, searching from index `i` on.
pub open spec fn find_from(w: Seq<Cell>, p: Pos, i: int) -> Option<int>
    decreases w.len() - i,
{
    if i < 0 || i >= w.len() {
        None
    } else if w[i].pos == p {
        Some(i)
    } else {
        find_from(w, p, i + 1)
    }
}

/// Index of the first entity at `p`, if any.
pub open spec fn find_at(w: Seq<Cell>, p: Pos) -> Option<int> {
    find_from(w, p, 0)
}

pub open spec fn occupied(w: Seq<Cell>, p: Pos) -> bool {
    find_at(w, p) is Some
}

pub proof fn lemma_find_from(w: Seq<Cell>, p: Pos, i: int)
    requires
        0 <= i <= w.len(),
    ensures
        (match find_from(w, p, i) {
            Some(j) => i <= j < w.len() && w[j].pos == p && (forall|k: int|
                i <= k < j ==> w[k].pos != p),
            None => forall|k: int| i <= k < w.len() ==> w[k].pos != p,
        }),
    decreases w.len() - i,
{
    if i < w.len() && w[i].pos != p {
        lemma_find_from(w, p, i + 1);
    }
}

pub proof fn lemma_find_at(w: Seq<Cell>, p: Pos)
    ensures
        (match find_at(w, p) {
            Some(j) => 0 <= j < w.len() && w[j].pos == p && (forall|k: int|
                0 <= k < j ==> w[k].pos != p),
            None => forall|k: int| 0 <= k < w.len() ==> w[k].pos != p,
        }),
{
    lemma_find_from(w, p, 0);
}

/// Index of the entity with identifier `id`, searching from `i` on.
pub open spec fn find_id_from(s: Seq<Slot>, id: u64, i: int) -> Option<int>
    decreases s.len() - i,
{
    if i < 0 || i >= s.len() {
        None
    } else if s[i].id == id {
        Some(i)
    } else {
        find_id_from(s, id, i + 1)
    }
}

pub open spec fn find_id(s: Seq<Slot>, id: u64) -> Option<int> {
    find_id_from(s, id, 0)
}

pub proof fn lemma_find_id(s: Seq<Slot>, id: u64)
    ensures
        (match find_id(s, id) {
            Some(j) => 0 <= j < s.len() && s[j].id == id,
            None => forall|k: int| 0 <= k < s.len() ==> s[k].id != id,
        }),
{
    lemma_find_id_rec(s, id, 0);
}

proof fn lemma_find_id_rec(s: Seq<Slot>, id: u64, i: int)
    requires
        0 <= i <= s.len(),
    ensures
        (match find_id_from(s, id, i) {
            Some(j) => i <= j < s.len() && s[j].id == id,
            None => forall|k: int| i <= k < s.len() ==> s[k].id != id,
        }),
    decreases s.len() - i,
{
    if i < s.len() && s[i].id != id {
        lemma_find_id_rec(s, id, i + 1);
    }
}

/// The entity at index `i` is a player.
pub open spec fn is_player(e: Entity) -> bool {
    e.controller matches Some(c) && c.controller_type is Player
}

pub open spec fn find_player_from(s: Seq<Slot>, i: int) -> Option<int>
    decreases s.len() - i,
{
    if i < 0 || i >= s.len() {
        None
    } else if is_player(s[i].entity) {
        Some(i)
    } else {
        find_player_from(s, i + 1)
    }
}

pub open spec fn find_player(s: Seq<Slot>) -> Option<int> {
    find_player_from(s, 0)
}

/// Some entity of one of the given types is present.
pub open spec fn exists_type(w: Seq<Cell>, types: Seq<EntityType>) -> bool {
    exists|i: int| 0 <= i < w.len() && types.contains(w[i].ty)
}

/// Playing / Win / Loss, as a function of the entity set: Loss with no
/// player; Win when the player's (nonempty) attractor types are all gone.
pub open spec fn state_of(s: Seq<Slot>) -> LevelState {
    match find_player(s) {
        None => LevelState::Loss,
        Some(i) => {
            let targets = attractors_of(s[i].entity.entity_type);
            if targets.len() > 0 && !exists_type(world(s), targets) {
                LevelState::Win
            } else {
                LevelState::Playing
            }
        },
    }
}

/// The aggregate: entities with stable identities, an optional follow-up
/// level reference, and the path the level was loaded from.
pub struct Level {
    pub path: String,
    pub next_level: Option<String>,
    pub entities: Vec<Slot>,
    pub next_id: u64,
}

impl Level {
    /// Identifiers are unique and below the generator; at most one entity
    /// occupies any cell; every entity sits inside the playing field.
    pub open spec fn wf(self) -> bool {
        &&& (forall|i: int, j: int|
            0 <= i < j < self.entities@.len() ==> self.entities@[i].id != self.entities@[j].id)
        &&& (forall|i: int|
            0 <= i < self.entities@.len() ==> self.entities@[i].id < self.next_id)
        &&& (forall|i: int, j: int|
            0 <= i < j < self.entities@.len() ==> self.entities@[i].entity.position
                != self.entities@[j].entity.position)
        &&& (forall|i: int| 0 <= i < self.entities@.len() ==> ent_ok(self.entities@[i].entity))
    }

    pub fn empty() -> (r: Self)
        ensures
            r.entities@.len() == 0,
            r.next_level is None,
            r.path@.len() == 0,
            r.next_id == 0,
            r.wf(),
    {
        Level { path: String::new(), next_level: None, entities: Vec::new(), next_id: 0 }
    }

    /// Index of the first stored entity at `position`.
    pub(crate) fn find_index(&self, position: Pos) -> (r: Option<usize>)
        ensures
            (match r {
                Some(u) => u < self.entities@.len() && find_at(world(self.entities@), position)
                    == Some(u as int),
                None => find_at(world(self.entities@), position) is None,
            }),
    {
        let ghost w = world(self.entities@);
        let mut i: usize = 0;
        while i < self.entities.len()
            invariant
                0 <= i <= self.entities@.len(),
                w == world(self.entities@),
                find_at(w, position) == find_from(w, position, i as int),
            decreases self.entities@.len() - i,
        {
            if self.entities[i].entity.position == position {
                return Some(i);
            }
            i = i + 1;
        }
        None
    }

    /// Index of the stored entity with identifier `id`.
    pub(crate) fn find_index_of_id(&self, id: u64) -> (r: Option<usize>)
        ensures
            (match r {
                Some(u) => u < self.entities@.len() && find_id(self.entities@, id) == Some(
                    u as int,
                ),
                None => find_id(self.entities@, id) is None,
            }),
    {
        let mut i: usize = 0;
        while i < self.entities.len()
            invariant
                0 <= i <= self.entities@.len(),
                find_id(self.entities@, id) == find_id_from(self.entities@, id, i as int),
            decreases self.entities@.len() - i,
        {
            if self.entities[i].id == id {
                return Some(i);
            }
            i = i + 1;
        }
        None
    }

    /// The entity occupying `position`, if any.
    pub fn get_entity(&self, position: Pos) -> (r: Option<&Entity>)
        ensures
            (match find_at(world(self.entities@), position) {
                Some(i) => r matches Some(e) && *e == self.entities@[i].entity,
                None => r is None,
            }),
    {
        match self.find_index(position) {
            Some(i) => Some(&self.entities[i].entity),
            None => None,
        }
    }

    /// No entity occupies `position`.
    pub fn is_empty(&self, position: Pos) -> (r: bool)
        ensures
            r == !occupied(world(self.entities@), position),
    {
        match self.find_index(position) {
            Some(_) => false,
            None => true,
        }
    }

    /// Remove and return the first entity at `position`; the rest of the
    /// level is untouched.
    pub fn remove_entity(&mut self, position: Pos) -> (r: Option<Entity>)
        ensures
            (match find_at(world(old(self).entities@), position) {
                Some(i) => final(self).entities@ == old(self).entities@.remove(i) && r == Some(
                    old(self).entities@[i].entity,
                ),
                None => final(self).entities@ == old(self).entities@ && r is None,
            }),
            final(self).next_id == old(self).next_id,
            final(self).path == old(self).path,
            final(self).next_level == old(self).next_level,
            old(self).wf() ==> final(self).wf(),
    {
        let ghost pre = *self;
        match self.find_index(position) {
            Some(i) => {
                let s = self.entities.remove(i);
                proof {
                    if pre.wf() {
                        assert forall|a: int, b: int|
                            0 <= a < b < self.entities@.len() implies self.entities@[a].id
                            != self.entities@[b].id && self.entities@[a].entity.position
                            != self.entities@[b].entity.position by {
                            assert(self.entities@[a] == if a < i as int {
                                pre.entities@[a]
                            } else {
                                pre.entities@[a + 1]
                            });
                            assert(self.entities@[b] == if b < i as int {
                                pre.entities@[b]
                            } else {
                                pre.entities@[b + 1]
                            });
                        }
                        assert(final(self).wf());
                    }
                }
                Some(s.entity)
            },
            None => None,
        }
    }

    /// Insert `entity` under a fresh identifier, first evicting (and
    /// returning) whatever occupied its cell.
    pub fn set_entity(&mut self, entity: Entity) -> (r: Option<Entity>)
        requires
            old(self).next_id < u64::MAX,
            ent_ok(entity),
        ensures
            (match find_at(world(old(self).entities@), entity.position) {
                Some(i) => final(self).entities@ == old(self).entities@.remove(i).push(
                    Slot { id: old(self).next_id, entity },
                ) && r == Some(old(self).entities@[i].entity),
                None => final(self).entities@ == old(self).entities@.push(
                    Slot { id: old(self).next_id, entity },
                ) && r is None,
            }),
            final(self).next_id == old(self).next_id + 1,
            final(self).path == old(self).path,
            final(self).next_level == old(self).next_level,
            old(self).wf() ==> final(self).wf(),
    {
        let ghost pre = *self;
        let old_entity = self.remove_entity(entity.position);
        let id = self.next_id;
        self.next_id = self.next_id + 1;
        self.entities.push(Slot { id, entity });
        proof {
            if pre.wf() {
                lemma_find_at(world(pre.entities@), entity.position);
                let s2 = self.entities@;
                let n = s2.len() - 1;
                assert(s2[n] == Slot { id: pre.next_id, entity });
                assert forall|a: int| 0 <= a < n implies s2[a].id < pre.next_id && s2[a]
                    .entity
                    .position != entity.position && ent_ok(s2[a].entity) by {
                    match find_at(world(pre.entities@), entity.position) {
                        Some(i) => {
                            assert(s2[a] == if a < i {
                                pre.entities@[a]
                            } else {
                                pre.entities@[a + 1]
                            });
                        },
                        None => {
                            assert(s2[a] == pre.entities@[a]);
                            assert(world(pre.entities@)[a].pos != entity.position);
                        },
                    }
                }
                assert forall|a: int, b: int| 0 <= a < b < n implies s2[a].id != s2[b].id
                    && s2[a].entity.position != s2[b].entity.position by {
                    match find_at(world(pre.entities@), entity.position) {
                        Some(i) => {
                            assert(s2[a] == if a < i {
                                pre.entities@[a]
                            } else {
                                pre.entities@[a + 1]
                            });
                            assert(s2[b] == if b < i {
                                pre.entities@[b]
                            } else {
                                pre.entities@[b + 1]
                            });
                        },
                        None => {},
                    }
                }
                assert(final(self).wf());
            }
        }
        old_entity
    }

    /// The first entity carrying a player controller, if any.
    pub fn get_player(&self) -> (r: Option<&Entity>)
        ensures
            (match find_player(self.entities@) {
                Some(i) => r matches Some(e) && *e == self.entities@[i].entity,
                None => r is None,
            }),
    {
        let mut i: usize = 0;
        while i < self.entities.len()
            invariant
                0 <= i <= self.entities@.len(),
                find_player(self.entities@) == find_player_from(self.entities@, i as int),
            decreases self.entities@.len() - i,
        {
            let found = match &self.entities[i].entity.controller {
                Some(c) => match c.controller_type {
                    ControllerType::Player => true,
                    _ => false,
                },
                None => false,
            };
            if found {
                return Some(&self.entities[i].entity);
            }
            i = i + 1;
        }
        None
    }


    /// The first entity carrying a player controller, for mutation.
    pub fn get_player_mut(&mut self) -> (r: Option<&mut Entity>)
        ensures
            (match find_player(old(self).entities@) {
                Some(i) => r matches Some(e) && *e == old(self).entities@[i].entity
                    && final(self).entities@ == old(self).entities@.update(
                    i,
                    (Slot { id: old(self).entities@[i].id, entity: *final(e) }),
                ),
                None => r is None && final(self).entities@ == old(self).entities@,
            }),
            final(self).next_id == old(self).next_id,
            final(self).path == old(self).path,
            final(self).next_level == old(self).next_level,
    {
        let mut i: usize = 0;
        while i < self.entities.len()
            invariant
                0 <= i <= self.entities@.len(),
                find_player(self.entities@) == find_player_from(self.entities@, i as int),
                *self == *old(self),
            decreases self.entities@.len() - i,
        {
            let found = match &self.entities[i].entity.controller {
                Some(c) => match c.controller_type {
                    ControllerType::Player => true,
                    _ => false,
                },
                None => false,
            };
            if found {
                return Some(&mut self.entities[i].entity);
            }
            i = i + 1;
        }
        None
    }

    fn player_index(&self) -> (r: Option<usize>)
        ensures
            (match r {
                Some(u) => u < self.entities@.len() && find_player(self.entities@) == Some(
                    u as int,
                ),
                None => find_player(self.entities@) is None,
            }),
    {
        let mut i: usize = 0;
        while i < self.entities.len()
            invariant
                0 <= i <= self.entities@.len(),
                find_player(self.entities@) == find_player_from(self.entities@, i as int),
            decreases self.entities@.len() - i,
        {
            let found = match &self.entities[i].entity.controller {
                Some(c) => match c.controller_type {
                    ControllerType::Player => true,
                    _ => false,
                },
                None => false,
            };
            if found {
                return Some(i);
            }
            i = i + 1;
        }
        None
    }

    /// Some stored entity has one of the given types.
    fn any_entity_of_types(&self, types: &Vec<EntityType>) -> (r: bool)
        ensures
            r == exists_type(world(self.entities@), types@),
    {
        let ghost w = world(self.entities@);
        let mut i: usize = 0;
        while i < self.entities.len()
            invariant
                0 <= i <= self.entities@.len(),
                w == world(self.entities@),
                forall|k: int| 0 <= k < i ==> !types@.contains(w[k].ty),
            decreases self.entities@.len() - i,
        {
            if contains_type(types, self.entities[i].entity.entity_type) {
                assert(types@.contains(w[i as int].ty));
                return true;
            }
            i = i + 1;
        }
        false
    }

    /// The outcome derived from the current entity set: Loss without a
    /// player; Win once the player's (nonempty) attractor types are all
    /// consumed; Playing otherwise.
    pub fn get_state(&self) -> (r: LevelState)
        ensures
            r == state_of(self.entities@),
    {
        match self.player_index() {
            Some(i) => {
                let targets = self.entities[i].entity.entity_type.attractors();
                if targets.len() > 0 && !self.any_entity_of_types(&targets) {
                    LevelState::Win
                } else {
                    LevelState::Playing
                }
            },
            None => LevelState::Loss,
        }
    }
}

/// Linear scan for a type in a relation list.
pub(crate) fn contains_type(types: &Vec<EntityType>, t: EntityType) -> (r: bool)
    ensures
        r == types@.contains(t),
{
    let mut i: usize = 0;
    while i < types.len()
        invariant
            0 <= i <= types@.len(),
            forall|k: int| 0 <= k < i ==> types@[k] != t,
        decreases types@.len() - i,
    {
        if types[i] == t {
            assert(types@.contains(t));
            return true;
        }
        i = i + 1;
    }
    false
}


/// The slot is not consumed by contact with an entity of type `etype`
/// standing at `epos`.
pub open spec fn survives_contact(sl: Slot, epos: Pos, etype: EntityType) -> bool {
    !(sl.entity.position == epos && attractors_of(etype).contains(sl.entity.entity_type))
}

/// The filter kept by one contact-resolution step.
pub open spec fn survives_pred(epos: Pos, etype: EntityType) -> spec_fn(Slot) -> bool {
    |sl: Slot| survives_contact(sl, epos, etype)
}

pub proof fn lemma_filter_push<A>(s: Seq<A>, x: A, p: spec_fn(A) -> bool)
    ensures
        s.push(x).filter(p) == if p(x) {
            s.filter(p).push(x)
        } else {
            s.filter(p)
        },
{
    reveal(Seq::filter);
    assert(s.push(x).drop_last() =~= s);
    assert(s.push(x).last() == x);
}

pub proof fn lemma_filter_identity<A>(s: Seq<A>, p: spec_fn(A) -> bool)
    requires
        forall|i: int| 0 <= i < s.len() ==> p(s[i]),
    ensures
        s.filter(p) == s,
    decreases s.len(),
{
    reveal(Seq::filter);
    if s.len() == 0 {
        assert(s.filter(p) =~= s);
    } else {
        lemma_filter_identity(s.drop_last(), p);
        assert(s.filter(p) =~= s);
    }
}

impl Level {
    /// Remove every entity sharing `entity`'s cell whose type `entity`'s
    /// type lists as an attractor.
    #[verifier::loop_isolation(false)]
    pub fn collide_entity(&mut self, entity: &Entity)
        ensures
            final(self).entities@ == old(self).entities@.filter(
                survives_pred(entity.position, entity.entity_type),
            ),
            final(self).next_id == old(self).next_id,
            final(self).path == old(self).path,
            final(self).next_level == old(self).next_level,
    {
        let ghost pred = survives_pred(entity.position, entity.entity_type);
        let ghost orig = self.entities@;
        let ghost n = orig.len();
        proof {
            reveal(Seq::filter);
            assert(orig.subrange(0, 0).filter(pred) =~= Seq::<Slot>::empty());
        }
        let attractors = entity.entity_type.attractors();
        let mut i: usize = 0;
        let ghost k: int = 0;
        while i < self.entities.len()
            invariant
                0 <= k <= n,
                n == orig.len(),
                i as int == orig.subrange(0, k).filter(pred).len(),
                self.entities@ == orig.subrange(0, k).filter(pred) + orig.subrange(k, n as int),
                attractors@ == attractors_of(entity.entity_type),
                self.next_id == old(self).next_id,
                self.path == old(self).path,
                self.next_level == old(self).next_level,
            decreases n - k,
        {
            proof {
                assert(self.entities@[i as int] == orig[k]);
                assert(orig.subrange(0, k + 1) =~= orig.subrange(0, k).push(orig[k]));
                lemma_filter_push(orig.subrange(0, k), orig[k], pred);
            }
            let sl = self.entities[i];
            let hit = sl.entity.position == entity.position && contains_type(
                &attractors,
                sl.entity.entity_type,
            );
            if hit {
                self.entities.remove(i);
                proof {
                    assert(self.entities@ =~= orig.subrange(0, k).filter(pred) + orig.subrange(
                        k + 1,
                        n as int,
                    ));
                }
            } else {
                i = i + 1;
                proof {
                    assert(survives_pred(entity.position, entity.entity_type)(orig[k]));
                    assert(self.entities@ =~= orig.subrange(0, k + 1).filter(pred) + orig.subrange(
                        k + 1,
                        n as int,
                    ));
                }
            }
            proof {
                k = k + 1;
            }
        }
        proof {
            assert(orig.subrange(0, n as int) =~= orig);
            assert(self.entities@ =~= orig.subrange(0, n as int).filter(pred));
        }
    }

    /// Resolution phase: after movement settles, let every entity consume
    /// co-located attractor targets. With distinct positions going in (the
    /// level invariant) there is nothing left to consume, so the entity set
    /// is unchanged.
    #[verifier::loop_isolation(false)]
    pub fn collide(&mut self)
        requires
            old(self).wf(),
        ensures
            final(self).entities@ == old(self).entities@,
            final(self).next_id == old(self).next_id,
            final(self).path == old(self).path,
            final(self).next_level == old(self).next_level,
            final(self).wf(),
    {
        let ghost orig = self.entities@;
        let mut ids: Vec<u64> = Vec::new();
        let mut i: usize = 0;
        while i < self.entities.len()
            invariant
                self.entities@ == orig,
            decreases self.entities@.len() - i,
        {
            ids.push(self.entities[i].id);
            i = i + 1;
        }
        let mut j: usize = 0;
        while j < ids.len()
            invariant
                self.entities@ == orig,
                self.next_id == old(self).next_id,
                self.path == old(self).path,
                self.next_level == old(self).next_level,
            decreases ids@.len() - j,
        {
            match self.find_index_of_id(ids[j]) {
                Some(k) => {
                    let ent = self.entities[k].entity;
                    let ghost pred = survives_pred(ent.position, ent.entity_type);
                    proof {
                        assert forall|a: int| 0 <= a < orig.len() implies pred(orig[a]) by {
                            if orig[a].entity.position == ent.position {
                                assert(a == k as int);
                                crate::entity::lemma_no_self_attraction(ent.entity_type);
                            }
                        }
                        lemma_filter_identity(orig, pred);
                    }
                    self.collide_entity(&ent);
                },
                None => {},
            }
            j = j + 1;
        }
    }
}

} // verus!
