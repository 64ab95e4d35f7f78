//! The decision phase: every acting entity picks an intended direction for
//! this turn — the player's comes from outside, the creatures flee the
//! nearest visible enemy, chase the nearest visible attractor, or fall back
//! to a bounded search toward the last place an attractor was seen.

use vstd::prelude::*;

use crate::entity::{
    attractors_of, dot, enemies_of, ent_ok, is_unit, manhattan, move_dir, pos_add, pos_neg, pos_ok,
    pos_perp, pos_sub, position_distance, property_of, snap_move, zero_pos, ControllerType, Entity,
    EntityController, EntityProperty, EntityType, Move, Pos,
};
use crate::level::{
    find_at, find_id, lemma_find_at, lemma_find_id, occupied, world, Cell, Level, Slot,
};
use crate::sight::{can_see_spec, pathfind_spec};

verus! {

/// How far every creature can see.
pub const VIEW_RADIUS: i32 = 3;

/// The visible-target candidate at index `j`: its position, its taxicab
/// distance, and the first step toward it.
pub open spec fn vis_candidate(
    w: Seq<Cell>,
    pos: Pos,
    types: Seq<EntityType>,
    radius: int,
    j: int,
) -> Option<(Pos, int, Pos)> {
    if types.contains(w[j].ty) {
        match can_see_spec(w, pos, w[j].pos, radius) {
            Some(dir) => Some((w[j].pos, manhattan(pos, w[j].pos), dir)),
            None => None,
        }
    } else {
        None
    }
}

/// The nearest visible candidate among the first `j` entities; on equal
/// distances the earliest (lowest-identifier) entity wins.
pub open spec fn best_vis_upto(
    w: Seq<Cell>,
    pos: Pos,
    types: Seq<EntityType>,
    radius: int,
    j: int,
) -> Option<(Pos, int, Pos)>
    decreases j,
{
    if j <= 0 {
        None
    } else {
        let prev = best_vis_upto(w, pos, types, radius, j - 1);
        let cur = vis_candidate(w, pos, types, radius, j - 1);
        match (prev, cur) {
            (None, c) => c,
            (p, None) => p,
            (Some(p), Some(c)) => if c.1 < p.1 {
                Some(c)
            } else {
                Some(p)
            },
        }
    }
}

/// The nearest visible entity of one of the given types, if any.
pub open spec fn best_visible(w: Seq<Cell>, pos: Pos, types: Seq<EntityType>, radius: int) -> Option<
    (Pos, int, Pos),
> {
    best_vis_upto(w, pos, types, radius, w.len() as int)
}

/// A found best candidate is one of the scanned candidates.
pub proof fn lemma_best_vis_upto(w: Seq<Cell>, pos: Pos, types: Seq<EntityType>, radius: int, j: int)
    requires
        0 <= j <= w.len(),
    ensures
        (best_vis_upto(w, pos, types, radius, j) matches Some(bv) ==> exists|jj: int|
            0 <= jj < j && vis_candidate(w, pos, types, radius, jj) == Some(bv)),
    decreases j,
{
    if j > 0 {
        lemma_best_vis_upto(w, pos, types, radius, j - 1);
    }
}

/// The flee heading: directly away from the threat if that cell is free,
/// else the perpendicular on the side away from the threat, else the other
/// perpendicular.
pub open spec fn flee_dir(w: Seq<Cell>, pos: Pos, avoid_pos: Pos, dir: Pos) -> Pos {
    let d1 = pos_neg(dir);
    if !occupied(w, pos_add(pos, d1)) {
        d1
    } else {
        let perp = pos_perp(d1);
        let delta = pos_sub(pos, avoid_pos);
        if dot(perp, delta) >= 0 {
            if !occupied(w, pos_add(pos, perp)) {
                perp
            } else {
                pos_neg(perp)
            }
        } else {
            let p2 = pos_neg(perp);
            if !occupied(w, pos_add(pos, p2)) {
                p2
            } else {
                pos_neg(p2)
            }
        }
    }
}

/// What one creature decides: the intended direction, and the new
/// remembered attractor position.
pub open spec fn move_decision(
    w: Seq<Cell>,
    pos: Pos,
    c: EntityController,
    radius: int,
    avoids: Seq<EntityType>,
    attrs: Seq<EntityType>,
) -> (Pos, Option<Pos>) {
    match best_visible(w, pos, avoids, radius) {
        Some(bv) => (flee_dir(w, pos, bv.0, bv.2), c.last_attractor_pos),
        None => match best_visible(w, pos, attrs, radius) {
            Some(bv) => (bv.2, Some(bv.0)),
            None => match c.last_attractor_pos {
                Some(lp) => match pathfind_spec(w, pos, lp, 2 * VIEW_RADIUS) {
                    Some(dirp) => if dirp != zero_pos() {
                        (dirp, Some(lp))
                    } else {
                        (zero_pos(), None)
                    },
                    None => (zero_pos(), None),
                },
                None => (zero_pos(), None),
            },
        },
    }
}

/// What the decision phase decides for one entity.
pub open spec fn decide(w: Seq<Cell>, e: Entity, player_move: Move) -> (Pos, Option<Pos>) {
    match e.controller {
        Some(c) => {
            if c.controller_type is Player {
                (move_dir(player_move), c.last_attractor_pos)
            } else {
                move_decision(
                    w,
                    e.position,
                    c,
                    VIEW_RADIUS as int,
                    enemies_of(e.entity_type),
                    attractors_of(e.entity_type),
                )
            }
        },
        None => (zero_pos(), None),
    }
}

/// The slot after the decision phase: the decided move snapped to a
/// cardinal direction, and the updated attractor memory.
pub open spec fn decided_slot(w: Seq<Cell>, sl: Slot, player_move: Move) -> Slot {
    match sl.entity.controller {
        Some(c) => {
            let dn = decide(w, sl.entity, player_move);
            Slot {
                id: sl.id,
                entity: Entity {
                    position: sl.entity.position,
                    entity_type: sl.entity.entity_type,
                    controller: Some(
                        EntityController {
                            next_move: snap_move(dn.0),
                            last_attractor_pos: dn.1,
                            controller_type: c.controller_type,
                        },
                    ),
                },
            }
        },
        None => sl,
    }
}

/// `sl` with its controller's remembered attractor position replaced.
pub open spec fn with_last(sl: Slot, v: Option<Pos>) -> Slot {
    match sl.entity.controller {
        Some(c) => Slot {
            id: sl.id,
            entity: Entity {
                position: sl.entity.position,
                entity_type: sl.entity.entity_type,
                controller: Some(
                    EntityController {
                        next_move: c.next_move,
                        last_attractor_pos: v,
                        controller_type: c.controller_type,
                    },
                ),
            },
        },
        None => sl,
    }
}

/// Exec mirror of `pos_neg`.
pub(crate) fn pneg(d: Pos) -> (r: Pos)
    ensures
        r == pos_neg(d),
{
    Pos {
        x: #[verifier::truncate] ((-(d.x as i64)) as i32),
        y: #[verifier::truncate] ((-(d.y as i64)) as i32),
    }
}

/// Exec mirror of `pos_perp`.
pub(crate) fn pperp(d: Pos) -> (r: Pos)
    ensures
        r == pos_perp(d),
{
    Pos { x: #[verifier::truncate] ((-(d.y as i64)) as i32), y: d.x }
}

/// Exec mirror of `pos_add`.
pub(crate) fn padd(a: Pos, d: Pos) -> (r: Pos)
    ensures
        r == pos_add(a, d),
{
    Pos {
        x: #[verifier::truncate] ((a.x as i64 + d.x as i64) as i32),
        y: #[verifier::truncate] ((a.y as i64 + d.y as i64) as i32),
    }
}

/// Exec mirror of `pos_sub`.
pub(crate) fn psub(a: Pos, b: Pos) -> (r: Pos)
    ensures
        r == pos_sub(a, b),
{
    Pos {
        x: #[verifier::truncate] ((a.x as i64 - b.x as i64) as i32),
        y: #[verifier::truncate] ((a.y as i64 - b.y as i64) as i32),
    }
}

/// Sign test of the dot product, computed wide enough never to overflow.
pub(crate) fn dot_nonneg(a: Pos, b: Pos) -> (r: bool)
    ensures
        r == (dot(a, b) >= 0),
{
    proof {
        lemma_mul_i32_bounds(a.x as int, b.x as int);
        lemma_mul_i32_bounds(a.y as int, b.y as int);
    }
    let s: i128 = (a.x as i128) * (b.x as i128) + (a.y as i128) * (b.y as i128);
    s >= 0
}

/// The product of two `i32` values stays far inside `i128`.
proof fn lemma_mul_i32_bounds(x: int, y: int)
    requires
        -0x8000_0000 <= x <= 0x7fff_ffff,
        -0x8000_0000 <= y <= 0x7fff_ffff,
    ensures
        -0x4000_0000_0000_0000 <= x * y <= 0x4000_0000_0000_0000,
{
    assert(-0x4000_0000_0000_0000 <= x * y <= 0x4000_0000_0000_0000) by (nonlinear_arith)
        requires
            -0x8000_0000 <= x <= 0x7fff_ffff,
            -0x8000_0000 <= y <= 0x7fff_ffff,
    ;
}

/// Replacing one entity's attractor memory with an in-field position keeps
/// the level well formed.
proof fn lemma_wf_with_last(lv_old: Level, lv_new: Level, i: int, v: Option<Pos>)
    requires
        lv_old.wf(),
        0 <= i < lv_old.entities@.len(),
        lv_new.entities@ == lv_old.entities@.update(i, with_last(lv_old.entities@[i], v)),
        lv_new.next_id == lv_old.next_id,
        v matches Some(p) ==> pos_ok(p),
    ensures
        lv_new.wf(),
{
    assert forall|k: int| 0 <= k < lv_new.entities@.len() implies ent_ok(
        lv_new.entities@[k].entity,
    ) by {
        if k != i {
            assert(lv_new.entities@[k] == lv_old.entities@[k]);
        }
    }
}

impl Level {
    /// Overwrite the remembered attractor position of the entity at `i`.
    fn set_last_at(&mut self, i: usize, v: Option<Pos>)
        requires
            i < old(self).entities@.len(),
        ensures
            final(self).entities@ == old(self).entities@.update(
                i as int,
                with_last(old(self).entities@[i as int], v),
            ),
            final(self).next_id == old(self).next_id,
            final(self).path == old(self).path,
            final(self).next_level == old(self).next_level,
    {
        let sl = &mut self.entities[i];
        match &mut sl.entity.controller {
            Some(c) => {
                c.last_attractor_pos = v;
            },
            None => {},
        }
        proof {
            assert(final(self).entities@ =~= old(self).entities@.update(
                i as int,
                with_last(old(self).entities@[i as int], v),
            ));
        }
    }

    /// The decision for one creature, exactly as `move_decision` states it;
    /// stores the updated attractor memory and returns the heading.
    pub fn get_move_direction(
        &mut self,
        entity_id: u64,
        view_radius: i32,
        avoids: Vec<EntityType>,
        attractors: Vec<EntityType>,
    ) -> (r: Pos)
        requires
            old(self).wf(),
            (match find_id(old(self).entities@, entity_id) {
                Some(i) => old(self).entities@[i].entity.controller is Some,
                None => false,
            }),
            0 <= view_radius <= 1000,
        ensures
            final(self).wf(),
            final(self).next_id == old(self).next_id,
            final(self).path == old(self).path,
            final(self).next_level == old(self).next_level,
            (match find_id(old(self).entities@, entity_id) {
                Some(i) => (match old(self).entities@[i].entity.controller {
                    Some(c) => {
                        let dn = move_decision(
                            world(old(self).entities@),
                            old(self).entities@[i].entity.position,
                            c,
                            view_radius as int,
                            avoids@,
                            attractors@,
                        );
                        r == dn.0 && final(self).entities@ == old(self).entities@.update(
                            i,
                            with_last(old(self).entities@[i], dn.1),
                        )
                    },
                    None => false,
                }),
                None => false,
            }),
    {
        let ghost w = world(self.entities@);
        proof {
            lemma_find_id(self.entities@, entity_id);
        }
        let idx = match self.find_index_of_id(entity_id) {
            Some(i) => i,
            None => {
                proof {
                    assert(false);
                }
                0
            },
        };
        let ent = self.entities[idx].entity;
        let ghost c = ent.controller->Some_0;
        let ghost dn = move_decision(w, ent.position, c, view_radius as int, avoids@, attractors@);

        // Nearest visible enemy.
        let best_avoid = self.best_visible_exec(&ent, view_radius, &avoids);
        proof {
            assert(best_avoid matches Some(b) ==> best_visible(w, ent.position, avoids@, view_radius as int)
                == Some((b.0, b.1 as int, b.2)));
            assert(best_avoid is None ==> best_visible(w, ent.position, avoids@, view_radius as int)
                is None);
        }
        match best_avoid {
            Some((avoid_pos, _, dir)) => {
                // Flee: away from the threat, with a perpendicular fallback.
                let d1 = pneg(dir);
                let r = if self.is_empty(padd(ent.position, d1)) {
                    d1
                } else {
                    let perp = pperp(d1);
                    let delta = psub(ent.position, avoid_pos);
                    if dot_nonneg(perp, delta) {
                        if self.is_empty(padd(ent.position, perp)) {
                            perp
                        } else {
                            pneg(perp)
                        }
                    } else {
                        let p2 = pneg(perp);
                        if self.is_empty(padd(ent.position, p2)) {
                            p2
                        } else {
                            pneg(p2)
                        }
                    }
                };
                proof {
                    assert(dn.0 == flee_dir(w, ent.position, avoid_pos, dir));
                    assert(dn.1 == c.last_attractor_pos);
                    assert(self.entities@ =~= self.entities@.update(
                        idx as int,
                        with_last(self.entities@[idx as int], dn.1),
                    ));
                }
                r
            },
            None => {
                // Nearest visible attractor.
                let best_attr = self.best_visible_exec(&ent, view_radius, &attractors);
                proof {
                    assert(best_attr matches Some(b) ==> best_visible(w, ent.position, attractors@, view_radius as int)
                        == Some((b.0, b.1 as int, b.2)));
                    assert(best_attr is None ==> best_visible(w, ent.position, attractors@, view_radius as int)
                        is None);
                }
                match best_attr {
                    Some((attractor_pos, _, dir)) => {
                        proof {
                            lemma_best_vis_upto(
                                w,
                                ent.position,
                                attractors@,
                                view_radius as int,
                                w.len() as int,
                            );
                            let jj = choose|jj: int|
                                0 <= jj < w.len() && vis_candidate(
                                    w,
                                    ent.position,
                                    attractors@,
                                    view_radius as int,
                                    jj,
                                ) == best_visible(w, ent.position, attractors@, view_radius as int);
                            assert(w[jj].pos == attractor_pos);
                            assert(pos_ok(attractor_pos));
                        }
                        let ghost pre = *self;
                        self.set_last_at(idx, Some(attractor_pos));
                        proof {
                            lemma_wf_with_last(pre, *self, idx as int, Some(attractor_pos));
                        }
                        dir
                    },
                    None => {
                        // Fall back to the remembered attractor position.
                        let last = match &self.entities[idx].entity.controller {
                            Some(cc) => cc.last_attractor_pos,
                            None => None,
                        };
                        match last {
                            Some(last_pos) => {
                                let found = self.pathfind(
                                    ent.position,
                                    last_pos,
                                    VIEW_RADIUS * 2,
                                );
                                let nonzero = match found {
                                    Some(d) => d.x != 0 || d.y != 0,
                                    None => false,
                                };
                                if nonzero {
                                    let d = match found {
                                        Some(d) => d,
                                        None => Pos { x: 0, y: 0 },
                                    };
                                    proof {
                                        assert(self.entities@ =~= self.entities@.update(
                                            idx as int,
                                            with_last(self.entities@[idx as int], dn.1),
                                        ));
                                    }
                                    d
                                } else {
                                    let ghost pre = *self;
                                    self.set_last_at(idx, None);
                                    proof {
                                        lemma_wf_with_last(pre, *self, idx as int, None);
                                    }
                                    Pos { x: 0, y: 0 }
                                }
                            },
                            None => {
                                proof {
                                    assert(self.entities@ =~= self.entities@.update(
                                        idx as int,
                                        with_last(self.entities@[idx as int], dn.1),
                                    ));
                                }
                                Pos { x: 0, y: 0 }
                            },
                        }
                    },
                }
            },
        }
    }

    /// Scan for the nearest visible entity of one of the given types.
    #[verifier::loop_isolation(false)]
    fn best_visible_exec(&self, ent: &Entity, view_radius: i32, types: &Vec<EntityType>) -> (r:
        Option<(Pos, i32, Pos)>)
        requires
            self.wf(),
            pos_ok(ent.position),
            0 <= view_radius <= 1000,
        ensures
            (match r {
                Some(b) => best_visible(world(self.entities@), ent.position, types@, view_radius as int)
                    == Some((b.0, b.1 as int, b.2)),
                None => best_visible(world(self.entities@), ent.position, types@, view_radius as int)
                    is None,
            }),
    {
        let ghost w = world(self.entities@);
        let mut best: Option<(Pos, i32, Pos)> = None;
        let mut j: usize = 0;
        while j < self.entities.len()
            invariant
                0 <= j <= self.entities@.len(),
                (match best {
                    Some(b) => best_vis_upto(w, ent.position, types@, view_radius as int, j as int)
                        == Some((b.0, b.1 as int, b.2)),
                    None => best_vis_upto(w, ent.position, types@, view_radius as int, j as int)
                        is None,
                }),
            decreases self.entities@.len() - j,
        {
            let other = self.entities[j].entity;
            let mut cur: Option<(Pos, i32, Pos)> = None;
            if crate::level::contains_type(types, other.entity_type) {
                let distance = ent.distance(&other);
                match self.can_see(ent, &other, view_radius) {
                    Some(dir) => {
                        cur = Some((other.position, distance, dir));
                    },
                    None => {},
                }
            }
            proof {
                assert(match cur {
                    Some(cb) => vis_candidate(w, ent.position, types@, view_radius as int, j as int)
                        == Some((cb.0, cb.1 as int, cb.2)),
                    None => vis_candidate(w, ent.position, types@, view_radius as int, j as int)
                        is None,
                });
            }
            match cur {
                Some(cb) => {
                    match best {
                        Some(b) => {
                            if cb.1 < b.1 {
                                best = Some(cb);
                            }
                        },
                        None => {
                            best = Some(cb);
                        },
                    }
                },
                None => {},
            }
            j = j + 1;
        }
        best
    }
}


/// `sl` with its controller's chosen move replaced.
pub open spec fn with_next(sl: Slot, m: Move) -> Slot {
    match sl.entity.controller {
        Some(c) => Slot {
            id: sl.id,
            entity: Entity {
                position: sl.entity.position,
                entity_type: sl.entity.entity_type,
                controller: Some(
                    EntityController {
                        next_move: m,
                        last_attractor_pos: c.last_attractor_pos,
                        controller_type: c.controller_type,
                    },
                ),
            },
        },
        None => sl,
    }
}

impl Level {
    /// Overwrite the chosen move of the entity at `i`.
    fn set_next_move_at(&mut self, i: usize, m: Move)
        requires
            i < old(self).entities@.len(),
        ensures
            final(self).entities@ == old(self).entities@.update(
                i as int,
                with_next(old(self).entities@[i as int], m),
            ),
            final(self).next_id == old(self).next_id,
            final(self).path == old(self).path,
            final(self).next_level == old(self).next_level,
    {
        let sl = &mut self.entities[i];
        match &mut sl.entity.controller {
            Some(c) => {
                c.next_move = m;
            },
            None => {},
        }
        proof {
            assert(final(self).entities@ =~= old(self).entities@.update(
                i as int,
                with_next(old(self).entities@[i as int], m),
            ));
        }
    }

    /// Decision phase: store each acting entity's intended move for this
    /// turn. Positions, types, identities and leashes are untouched; each
    /// decision reads the same world, so the order of the sweep does not
    /// matter.
    #[verifier::loop_isolation(false)]
    pub fn calc_moves(&mut self, player_move: Move)
        requires
            old(self).wf(),
        ensures
            final(self).wf(),
            final(self).entities@.len() == old(self).entities@.len(),
            forall|k: int|
                0 <= k < old(self).entities@.len() ==> final(self).entities@[k] == decided_slot(
                    world(old(self).entities@),
                    old(self).entities@[k],
                    player_move,
                ),
            final(self).next_id == old(self).next_id,
            final(self).path == old(self).path,
            final(self).next_level == old(self).next_level,
    {
        let ghost w0 = world(old(self).entities@);
        let n = self.entities.len();
        let mut i: usize = 0;
        while i < n
            invariant
                self.wf(),
                n == old(self).entities@.len(),
                self.entities@.len() == n,
                0 <= i <= n,
                world(self.entities@) == w0,
                forall|k: int|
                    0 <= k < i ==> self.entities@[k] == decided_slot(
                        w0,
                        old(self).entities@[k],
                        player_move,
                    ),
                forall|k: int| i <= k < n ==> self.entities@[k] == old(self).entities@[k],
                self.next_id == old(self).next_id,
                self.path == old(self).path,
                self.next_level == old(self).next_level,
            decreases n - i,
        {
            let ghost pre = *self;
            let slot = self.entities[i];
            match slot.entity.controller {
                Some(c) => {
                    let direction = match c.controller_type {
                        ControllerType::Player => player_move.direction(),
                        _ => {
                            let id = slot.id;
                            proof {
                                lemma_find_id(self.entities@, id);
                                match find_id(self.entities@, id) {
                                    Some(j) => {
                                        if j != i as int {
                                            assert(self.entities@[j].id
                                                != self.entities@[i as int].id);
                                            assert(false);
                                        }
                                    },
                                    None => {
                                        assert(self.entities@[i as int].id != id);
                                        assert(false);
                                    },
                                }
                            }
                            let enemies = slot.entity.entity_type.enemies();
                            let attractors = slot.entity.entity_type.attractors();
                            let d = self.get_move_direction(id, VIEW_RADIUS, enemies, attractors);
                            proof {
                                assert(world(self.entities@) =~= w0);
                            }
                            d
                        },
                    };
                    let next_move = match Move::from_direction(direction) {
                        Some(m) => m,
                        None => Move::Wait,
                    };
                    let ghost mid = *self;
                    self.set_next_move_at(i, next_move);
                    proof {
                        assert forall|k: int|
                            0 <= k < self.entities@.len() implies ent_ok(
                            self.entities@[k].entity,
                        ) by {
                            if k != i as int {
                                assert(self.entities@[k] == mid.entities@[k]);
                            } else {
                                assert(ent_ok(mid.entities@[k].entity));
                            }
                        }
                        assert(self.wf());
                        assert(world(self.entities@) =~= w0);
                        assert(self.entities@[i as int] == decided_slot(
                            w0,
                            old(self).entities@[i as int],
                            player_move,
                        ));
                    }
                },
                None => {
                    proof {
                        assert(self.entities@[i as int] == decided_slot(
                            w0,
                            old(self).entities@[i as int],
                            player_move,
                        ));
                    }
                },
            }
            i = i + 1;
        }
    }
}


/// The step to `np` is allowed by the entity's leash, if it has one.
pub open spec fn chain_allows(e: Entity, np: Pos) -> bool {
    match chain_of(e) {
        Some(ch) => manhattan(np, ch.origin) <= ch.distance,
        None => true,
    }
}

/// The chain constraining an entity, if it is a leashed guard.
pub open spec fn chain_of(e: Entity) -> Option<crate::entity::Chain> {
    match e.controller {
        Some(c) => match c.controller_type {
            ControllerType::Dog { chain } => chain,
            _ => None,
        },
        None => None,
    }
}

/// A leashed guard sits within its allowed distance of its anchor;
/// unleashed entities satisfy this trivially.
pub open spec fn chained_within(e: Entity) -> bool {
    match chain_of(e) {
        Some(ch) => manhattan(e.position, ch.origin) <= ch.distance,
        None => true,
    }
}

/// How one stored entity may change over the movement phase: identity,
/// type, controller shape, chosen move and leash are kept; the attractor
/// memory may be cleared; a guard inside its leash stays inside.
pub open spec fn ctrl_evolved(a: Option<EntityController>, b: Option<EntityController>) -> bool {
    match (a, b) {
        (None, None) => true,
        (Some(ca), Some(cb)) => cb.controller_type == ca.controller_type && cb.next_move
            == ca.next_move && (cb.last_attractor_pos == ca.last_attractor_pos
            || cb.last_attractor_pos is None),
        _ => false,
    }
}

pub open spec fn slot_evolved(x: Slot, y: Slot) -> bool {
    &&& y.id == x.id
    &&& y.entity.entity_type == x.entity.entity_type
    &&& ctrl_evolved(x.entity.controller, y.entity.controller)
    &&& (chained_within(x.entity) ==> chained_within(y.entity))
}

/// `y` descends from some stored entity of `a`.
pub open spec fn descends(a: Seq<Slot>, y: Slot) -> bool {
    exists|i: int| 0 <= i < a.len() && slot_evolved(#[trigger] a[i], y)
}

/// Every entity surviving the movement phase descends from a stored entity,
/// changed only as `slot_evolved` allows.
pub open spec fn evolves(a: Seq<Slot>, b: Seq<Slot>) -> bool {
    forall|j: int| 0 <= j < b.len() ==> descends(a, #[trigger] b[j])
}

pub proof fn lemma_evolves_refl(s: Seq<Slot>)
    ensures
        evolves(s, s),
{
    assert forall|j: int| 0 <= j < s.len() implies descends(s, #[trigger] s[j]) by {
        assert(slot_evolved(s[j], s[j]));
    }
}

pub proof fn lemma_evolves_trans(a: Seq<Slot>, b: Seq<Slot>, c: Seq<Slot>)
    requires
        evolves(a, b),
        evolves(b, c),
    ensures
        evolves(a, c),
{
    assert forall|j: int| 0 <= j < c.len() implies descends(a, #[trigger] c[j]) by {
        assert(descends(b, c[j]));
        let i2 = choose|i2: int| 0 <= i2 < b.len() && slot_evolved(#[trigger] b[i2], c[j]);
        assert(descends(a, b[i2]));
        let i1 = choose|i1: int| 0 <= i1 < a.len() && slot_evolved(#[trigger] a[i1], b[i2]);
        assert(slot_evolved(a[i1], c[j]));
    }
}

pub proof fn lemma_evolves_remove(s: Seq<Slot>, i: int)
    requires
        0 <= i < s.len(),
    ensures
        evolves(s, s.remove(i)),
{
    let r = s.remove(i);
    assert forall|j: int| 0 <= j < r.len() implies descends(s, #[trigger] r[j]) by {
        if j < i {
            assert(r[j] == s[j]);
            assert(slot_evolved(s[j], r[j]));
        } else {
            assert(r[j] == s[j + 1]);
            assert(slot_evolved(s[j + 1], r[j]));
        }
    }
}

pub proof fn lemma_evolves_update(s: Seq<Slot>, i: int, y: Slot)
    requires
        0 <= i < s.len(),
        slot_evolved(s[i], y),
    ensures
        evolves(s, s.update(i, y)),
{
    let r = s.update(i, y);
    assert forall|j: int| 0 <= j < r.len() implies descends(s, #[trigger] r[j]) by {
        if j == i {
            assert(slot_evolved(s[i], r[j]));
        } else {
            assert(slot_evolved(s[j], r[j]));
        }
    }
}

/// The surviving entity with a given identifier descends from the stored
/// entity with that identifier, when identifiers are unique.
pub proof fn lemma_evolved_slot_by_id(s0: Seq<Slot>, cur: Seq<Slot>, idx: int, k: int)
    requires
        evolves(s0, cur),
        0 <= idx < s0.len(),
        0 <= k < cur.len(),
        cur[k].id == s0[idx].id,
        forall|a: int, b: int| 0 <= a < b < s0.len() ==> s0[a].id != s0[b].id,
    ensures
        slot_evolved(s0[idx], cur[k]),
{
    assert(descends(s0, cur[k]));
    let i = choose|i: int| 0 <= i < s0.len() && slot_evolved(#[trigger] s0[i], cur[k]);
    if i != idx {
        if i < idx {
            assert(s0[i].id != s0[idx].id);
        } else {
            assert(s0[idx].id != s0[i].id);
        }
        assert(false);
    }
}

/// The intended direction of an entity: its controller's chosen move, or
/// the push direction handed down, or standing still.
pub open spec fn intent_dir_of(e: Entity, over: Option<Pos>) -> Pos {
    match e.controller {
        Some(c) => move_dir(c.next_move),
        None => match over {
            Some(d) => d,
            None => zero_pos(),
        },
    }
}

pub open spec fn intent_at(s: Seq<Slot>, p: Pos, over: Option<Pos>) -> Pos {
    match find_at(world(s), p) {
        Some(i) => intent_dir_of(s[i].entity, over),
        None => zero_pos(),
    }
}

/// Every acting entity has chosen to stand still.
pub open spec fn all_waiting(s: Seq<Slot>) -> bool {
    forall|i: int|
        0 <= i < s.len() ==> (match (#[trigger] s[i]).entity.controller {
            Some(c) => c.next_move == Move::Wait,
            None => true,
        })
}

/// Entities whose identifier is not among the visited ones.
pub open spec fn unvisited_pred(visited: Seq<u64>) -> spec_fn(Slot) -> bool {
    |sl: Slot| !visited.contains(sl.id)
}

/// Entities not yet visited by the movement recursion.
pub open spec fn unvisited_count(s: Seq<Slot>, visited: Seq<u64>) -> nat {
    s.filter(unvisited_pred(visited)).len()
}

/// Visiting an entity that is present and unvisited shrinks the measure.
pub proof fn lemma_unvisited_push(s: Seq<Slot>, visited: Seq<u64>, id: u64)
    requires
        !visited.contains(id),
    ensures
        unvisited_count(s, visited.push(id)) <= unvisited_count(s, visited),
        (exists|k: int| 0 <= k < s.len() && s[k].id == id) ==> unvisited_count(s, visited.push(id))
            < unvisited_count(s, visited),
    decreases s.len(),
{
    reveal(Seq::filter);
    let p1 = unvisited_pred(visited);
    let p2 = unvisited_pred(visited.push(id));
    if s.len() == 0 {
        assert(s.filter(p1).len() == 0);
        assert(s.filter(p2).len() == 0);
    } else {
        let s0 = s.drop_last();
        let x = s.last();
        lemma_unvisited_push(s0, visited, id);
        assert(s.filter(p1) == if p1(x) {
            s0.filter(p1).push(x)
        } else {
            s0.filter(p1)
        });
        assert(s.filter(p2) == if p2(x) {
            s0.filter(p2).push(x)
        } else {
            s0.filter(p2)
        });
        if p2(x) {
            assert(unvisited_pred(visited.push(id))(x));
            assert(!visited.push(id).contains(x.id));
            assert forall|kk: int| 0 <= kk < visited.len() implies visited[kk] != x.id by {
                assert(visited.push(id)[kk] == visited[kk]);
                assert(!visited.push(id).contains(x.id));
            }
            assert(unvisited_pred(visited)(x));
            assert(p1(x));
        }
        if exists|k: int| 0 <= k < s.len() && s[k].id == id {
            let k = choose|k: int| 0 <= k < s.len() && s[k].id == id;
            if k == s.len() - 1 {
                assert(x.id == id);
                assert(visited.push(id)[visited.len() as int] == id);
                assert(visited.push(id).contains(x.id));
                assert(!unvisited_pred(visited.push(id))(x));
                assert(!p2(x));
                assert(unvisited_pred(visited)(x));
                assert(p1(x));
            } else {
                assert(s0[k] == s[k]);
                assert(exists|kk: int| 0 <= kk < s0.len() && s0[kk].id == id);
            }
        }
    }
}

/// `sl` with its entity moved to `p`.
pub open spec fn with_pos(sl: Slot, p: Pos) -> Slot {
    Slot {
        id: sl.id,
        entity: Entity {
            position: p,
            entity_type: sl.entity.entity_type,
            controller: sl.entity.controller,
        },
    }
}

/// Linear membership scan over the visited identifiers.
fn contains_u64(v: &Vec<u64>, id: u64) -> (r: bool)
    ensures
        r == v@.contains(id),
{
    let mut i: usize = 0;
    while i < v.len()
        invariant
            0 <= i <= v@.len(),
            forall|k: int| 0 <= k < i ==> v@[k] != id,
        decreases v@.len() - i,
    {
        if v[i] == id {
            assert(v@.contains(id));
            return true;
        }
        i = i + 1;
    }
    false
}

/// The cell lies inside the playing field.
fn pos_ok_exec(p: Pos) -> (r: bool)
    ensures
        r == pos_ok(p),
{
    -crate::entity::COORD_BOUND <= p.x && p.x <= crate::entity::COORD_BOUND
        && -crate::entity::COORD_BOUND <= p.y && p.y <= crate::entity::COORD_BOUND
}

impl Level {
    /// Move the entity at `i` to `p`.
    fn set_position_at(&mut self, i: usize, p: Pos)
        requires
            i < old(self).entities@.len(),
        ensures
            final(self).entities@ == old(self).entities@.update(
                i as int,
                with_pos(old(self).entities@[i as int], p),
            ),
            final(self).next_id == old(self).next_id,
            final(self).path == old(self).path,
            final(self).next_level == old(self).next_level,
    {
        let sl = &mut self.entities[i];
        sl.entity.position = p;
        proof {
            assert(final(self).entities@ =~= old(self).entities@.update(
                i as int,
                with_pos(old(self).entities@[i as int], p),
            ));
        }
    }
}


/// Moving one entity onto a free in-field cell keeps the level well
/// formed.
proof fn lemma_wf_after_move(pre: Level, post: Level, k: int, next_pos: Pos)
    requires
        pre.wf(),
        0 <= k < pre.entities@.len(),
        post.entities@ == pre.entities@.update(k, with_pos(pre.entities@[k], next_pos)),
        post.next_id == pre.next_id,
        !occupied(world(pre.entities@), next_pos),
        pos_ok(next_pos),
    ensures
        post.wf(),
{
    lemma_find_at(world(pre.entities@), next_pos);
    assert forall|a: int, b: int|
        0 <= a < b < post.entities@.len() implies post.entities@[a].entity.position
        != post.entities@[b].entity.position by {
        if a == k {
            assert(world(pre.entities@)[b].pos == pre.entities@[b].entity.position);
        } else if b == k {
            assert(world(pre.entities@)[a].pos == pre.entities@[a].entity.position);
        }
    }
    assert forall|a: int| 0 <= a < post.entities@.len() implies ent_ok(
        post.entities@[a].entity,
    ) by {
        if a != k {
            assert(post.entities@[a] == pre.entities@[a]);
        }
    }
}

/// What consuming the occupant of `np` does to the entity list: the mover
/// (the entity with `entity_id`, if it still stands at `position`) forgets
/// its remembered target, and the first occupant of `np` is removed.
pub open spec fn consume_spec(s: Seq<Slot>, position: Pos, entity_id: u64, np: Pos) -> Seq<Slot> {
    let s1 = match find_at(world(s), position) {
        Some(k) => if s[k].id == entity_id {
            s.update(k, with_last(s[k], None))
        } else {
            s
        },
        None => s,
    };
    match find_at(world(s), np) {
        Some(b) => s1.remove(b),
        None => s1,
    }
}

/// What stepping the mover onto its won cell does: if the entity with
/// `entity_id` still stands at `position`, it moves to `np`; if it was
/// displaced or consumed by the cascade it triggered, nothing moves and
/// the attempt counts as failed.
pub open spec fn finish_spec(s: Seq<Slot>, position: Pos, entity_id: u64, np: Pos) -> (
    Seq<Slot>,
    bool,
) {
    match find_at(world(s), position) {
        Some(k0) => if s[k0].id == entity_id {
            (s.update(k0, with_pos(s[k0], np)), true)
        } else {
            (s, false)
        },
        None => (s, false),
    }
}

/// The full functional model of one movement attempt: what `move_entity`
/// does to the entity list, the visited set, and its result. Mirrors the
/// resolution rules of the movement phase: a still or already-visited
/// entity stays; a step outside the field or beyond a guard's leash is
/// refused; otherwise the target cell is contested (`attempt_spec`) and,
/// if won, the mover steps onto it, rejecting a swap back into `prev`.
pub open spec fn move_spec(
    s: Seq<Slot>,
    v: Seq<u64>,
    prev: Option<Pos>,
    position: Pos,
    over: Option<Pos>,
) -> (Seq<Slot>, Seq<u64>, bool)
    decreases unvisited_count(s, v), 0int,
    via move_spec_dec
{
    match find_at(world(s), position) {
        None => (s, v, false),
        Some(i) => {
            let e = s[i].entity;
            let d = intent_dir_of(e, over);
            if d == zero_pos() {
                (s, v, false)
            } else if v.contains(s[i].id) {
                (s, v, false)
            } else {
                let v1 = v.push(s[i].id);
                let np = pos_add(position, d);
                if !(pos_ok(np) && chain_allows(e, np)) {
                    (s, v1, false)
                } else {
                    let r = am_spec(s, v1, position, d, s[i].id);
                    if r.2 {
                        let f = finish_spec(r.0, position, s[i].id, np);
                        (
                            f.0,
                            r.1,
                            f.1 && (match prev {
                                Some(pp) => np != pp,
                                None => true,
                            }),
                        )
                    } else {
                        (r.0, r.1, false)
                    }
                }
            }
        },
    }
}

#[via_fn]
proof fn move_spec_dec(s: Seq<Slot>, v: Seq<u64>, prev: Option<Pos>, position: Pos, over: Option<Pos>) {
    match find_at(world(s), position) {
        Some(i) => {
            lemma_find_at(world(s), position);
            let d = intent_dir_of(s[i].entity, over);
            if d != zero_pos() && !v.contains(s[i].id) {
                assert(0 <= i < s.len());
                assert(s[i].id == s[i].id);
                assert(exists|k: int| 0 <= k < s.len() && s[k].id == s[i].id);
                lemma_unvisited_push(s, v, s[i].id);
            }
        },
        None => {},
    }
}

/// The functional model of contesting the target cell (`attempt_move`):
/// an empty cell is won outright; a pushable, non-hunted occupant is
/// pushed onward; otherwise the occupant tries its own move, and failing
/// that a hunted occupant is consumed.
pub open spec fn am_spec(
    s: Seq<Slot>,
    v: Seq<u64>,
    position: Pos,
    direction: Pos,
    entity_id: u64,
) -> (Seq<Slot>, Seq<u64>, bool)
    decreases unvisited_count(s, v), 1int,
{
    let np = pos_add(position, direction);
    match find_at(world(s), np) {
        None => (s, v, true),
        Some(b) => match find_at(world(s), position) {
            Some(i) => {
                let attracted = attractors_of(s[i].entity.entity_type).contains(
                    s[b].entity.entity_type,
                );
                let pushable = property_of(s[b].entity.entity_type) == Some(
                    EntityProperty::Pushable,
                );
                if !attracted && pushable {
                    move_spec(s, v, Some(position), np, Some(direction))
                } else {
                    let r = move_spec(s, v, Some(position), np, None);
                    if r.2 {
                        (r.0, r.1, true)
                    } else if attracted {
                        (consume_spec(r.0, position, entity_id, np), r.1, true)
                    } else {
                        (r.0, r.1, false)
                    }
                }
            },
            None => (s, v, false),
        },
    }
}

impl Level {
    /// Consume whatever occupies the target cell: clear the mover's
    /// attractor memory and remove the occupant. Leaves the target cell
    /// free.
    #[verifier::rlimit(100)]
    fn consume_target(&mut self, position: Pos, entity_id: u64, next_pos: Pos) -> (r: bool)
        requires
            old(self).wf(),
            next_pos != position,
        ensures
            final(self).wf(),
            evolves(old(self).entities@, final(self).entities@),
            !occupied(world(final(self).entities@), next_pos),
            final(self).entities@ == consume_spec(
                old(self).entities@,
                position,
                entity_id,
                next_pos,
            ),
            r,
            final(self).next_id == old(self).next_id,
            final(self).path == old(self).path,
            final(self).next_level == old(self).next_level,
    {
        proof {
            lemma_evolves_refl(old(self).entities@);
        }
        match self.find_index(position) {
            Some(k) => {
                if self.entities[k].id == entity_id {
                    let ghost pre2 = *self;
                    self.set_last_at(k, None);
                    proof {
                        lemma_wf_with_last(pre2, *self, k as int, None);
                        lemma_evolves_update(
                            pre2.entities@,
                            k as int,
                            with_last(pre2.entities@[k as int], None),
                        );
                        assert(world(self.entities@) =~= world(pre2.entities@));
                    }
                }
            },
            None => {},
        }
        let ghost pre_rm = *self;
        let _ = self.remove_entity(next_pos);
        proof {
            lemma_find_at(world(pre_rm.entities@), next_pos);
            match find_at(world(pre_rm.entities@), next_pos) {
                Some(ri) => {
                    lemma_evolves_remove(pre_rm.entities@, ri);
                    lemma_evolves_trans(old(self).entities@, pre_rm.entities@, self.entities@);
                },
                None => {
                    lemma_evolves_trans(old(self).entities@, pre_rm.entities@, self.entities@);
                },
            }
            lemma_find_at(world(self.entities@), next_pos);
            match find_at(world(self.entities@), next_pos) {
                Some(j2) => {
                    match find_at(world(pre_rm.entities@), next_pos) {
                        Some(ri) => {
                            let srm = pre_rm.entities@;
                            assert(self.entities@[j2] == if j2 < ri {
                                srm[j2]
                            } else {
                                srm[j2 + 1]
                            });
                            assert(world(srm)[if j2 < ri {
                                j2
                            } else {
                                j2 + 1
                            }].pos == next_pos);
                            assert(false);
                        },
                        None => {
                            assert(world(self.entities@) =~= world(pre_rm.entities@));
                            assert(false);
                        },
                    }
                },
                None => {},
            }
        }
        true
    }

    /// Complete a successful movement attempt: step the mover itself onto
    /// the (now free) target cell. If the mover is no longer where it was —
    /// it was displaced or consumed by the cascade it triggered — its move
    /// is treated as failed instead of moving a bystander.
    fn finish_move(&mut self, position: Pos, entity_id: u64, next_pos: Pos) -> (r: bool)
        requires
            old(self).wf(),
            !occupied(world(old(self).entities@), next_pos),
            pos_ok(next_pos),
            forall|k: int|
                0 <= k < old(self).entities@.len() && (#[trigger] old(self).entities@[k]).id
                    == entity_id ==> (match chain_of(old(self).entities@[k].entity) {
                    Some(ch) => manhattan(next_pos, ch.origin) <= ch.distance,
                    None => true,
                }),
        ensures
            final(self).wf(),
            evolves(old(self).entities@, final(self).entities@),
            r ==> !occupied(world(final(self).entities@), position),
            ({
                let f = finish_spec(old(self).entities@, position, entity_id, next_pos);
                final(self).entities@ == f.0 && r == f.1
            }),
            final(self).next_id == old(self).next_id,
            final(self).path == old(self).path,
            final(self).next_level == old(self).next_level,
    {
        proof {
            lemma_evolves_refl(old(self).entities@);
            lemma_find_at(world(old(self).entities@), position);
        }
        match self.find_index(position) {
            Some(k) => {
                if self.entities[k].id == entity_id {
                    let ghost pre_mv = *self;
                    self.set_position_at(k, next_pos);
                    proof {
                        let moved_slot = with_pos(pre_mv.entities@[k as int], next_pos);
                        assert(chained_within(moved_slot.entity)) by {
                            assert(chain_of(moved_slot.entity) == chain_of(
                                pre_mv.entities@[k as int].entity,
                            ));
                        }
                        assert(slot_evolved(pre_mv.entities@[k as int], moved_slot));
                        lemma_evolves_update(pre_mv.entities@, k as int, moved_slot);
                        lemma_wf_after_move(pre_mv, *self, k as int, next_pos);
                        lemma_find_at(world(pre_mv.entities@), position);
                        lemma_find_at(world(self.entities@), position);
                        match find_at(world(self.entities@), position) {
                            Some(j2) => {
                                assert(world(self.entities@)[j2].pos == position);
                                if j2 == k as int {
                                    assert(next_pos != position);
                                } else {
                                    assert(world(pre_mv.entities@)[j2].pos == position);
                                    assert(world(pre_mv.entities@)[k as int].pos == position);
                                }
                                assert(false);
                            },
                            None => {},
                        }
                    }
                    true
                } else {
                    false
                }
            },
            None => false,
        }
    }

    /// Resolve what happens at the target cell of a move: step into an
    /// empty cell, cascade a push into the occupant, displace it along its
    /// own intent, or consume it. Returns whether the target cell was won;
    /// the mover itself is stepped afterwards by `finish_move`.
    #[verifier::rlimit(100)]
    fn attempt_move(
        &mut self,
        position: Pos,
        direction: Pos,
        entity_id: u64,
        visited: &mut Vec<u64>,
    ) -> (moved: bool)
        requires
            old(self).wf(),
            is_unit(direction),
            (match find_at(world(old(self).entities@), position) {
                Some(i) => old(self).entities@[i].id == entity_id && pos_ok(
                    pos_add(position, direction),
                ) && pos_add(position, direction) != position,
                None => false,
            }),
        ensures
            final(self).wf(),
            evolves(old(self).entities@, final(self).entities@),
            old(visited)@.is_prefix_of(final(visited)@),
            moved ==> !occupied(world(final(self).entities@), pos_add(position, direction)),
            ({
                let r = am_spec(old(self).entities@, old(visited)@, position, direction, entity_id);
                final(self).entities@ == r.0 && final(visited)@ == r.1 && moved == r.2
            }),
            final(self).next_id == old(self).next_id,
            final(self).path == old(self).path,
            final(self).next_level == old(self).next_level,
        decreases unvisited_count(self.entities@, visited@), 1int,
    {
        let ghost s0 = old(self).entities@;
        let ghost va = old(visited)@;
        proof {
            lemma_find_at(world(s0), position);
            lemma_evolves_refl(s0);
            assert(va.is_prefix_of(va)) by {
                assert(va.subrange(0, va.len() as int) =~= va);
            }
        }
        let idx = match self.find_index(position) {
            Some(i) => i,
            None => {
                proof {
                    assert(false);
                }
                0
            },
        };
        let entity = self.entities[idx].entity;
        let next_pos = padd(position, direction);
        let occ = self.find_index(next_pos);
        match occ {
            Some(oidx) => {
                let other = self.entities[oidx].entity;
                let attractors = entity.entity_type.attractors();
                let mover_attracted = crate::level::contains_type(&attractors, other.entity_type);
                let other_pushable = match other.entity_type.property() {
                    Some(crate::entity::EntityProperty::Pushable) => true,
                    _ => false,
                };
                let ghost m = am_spec(s0, va, position, direction, entity_id);
                if !mover_attracted && other_pushable {
                    // Push the occupant onward in the same direction first.
                    let r1 = self.move_entity(Some(position), next_pos, Some(direction), visited);
                    proof {
                        let r = move_spec(s0, va, Some(position), next_pos, Some(direction));
                        assert(self.entities@ == r.0 && visited@ == r.1 && r1 == r.2);
                        assert(m == r);
                    }
                    r1
                } else {
                    let res = self.move_entity(Some(position), next_pos, None, visited);
                    let ghost r = move_spec(s0, va, Some(position), next_pos, None);
                    proof {
                        assert(self.entities@ == r.0 && visited@ == r.1 && res == r.2);
                    }
                    if res {
                        proof {
                            assert(m == (r.0, r.1, true));
                        }
                        true
                    } else if mover_attracted {
                        let ghost mid = *self;
                        let c = self.consume_target(position, entity_id, next_pos);
                        proof {
                            lemma_evolves_trans(s0, mid.entities@, self.entities@);
                            assert(self.entities@ == consume_spec(
                                r.0,
                                position,
                                entity_id,
                                next_pos,
                            ));
                            assert(m == (consume_spec(r.0, position, entity_id, next_pos), r.1, true));
                        }
                        c
                    } else {
                        proof {
                            assert(m == (r.0, r.1, false));
                        }
                        false
                    }
                }
            },
            None => {
                proof {
                    assert(am_spec(s0, va, position, direction, entity_id) == (s0, va, true));
                }
                true
            },
        }
    }

    /// One entity's movement attempt, cascading through pushes and
    /// displacement of the occupant of the target cell. Marks the entity
    /// visited; a visited entity is not processed twice in one turn.
    /// Returns whether the mover vacated `position` (and did not merely
    /// swap back into the cell recorded in `prev_pos`).
    ///
    /// Leashed guards refuse a step that would end beyond their chain, and
    /// any step that would leave the playing field is refused.
    #[verifier::rlimit(100)]
    pub fn move_entity(
        &mut self,
        prev_pos: Option<Pos>,
        position: Pos,
        override_direction: Option<Pos>,
        visited: &mut Vec<u64>,
    ) -> (moved_on: bool)
        requires
            old(self).wf(),
            occupied(world(old(self).entities@), position),
            (override_direction matches Some(d) ==> is_unit(d)),
        ensures
            final(self).wf(),
            evolves(old(self).entities@, final(self).entities@),
            old(visited)@.is_prefix_of(final(visited)@),
            intent_at(old(self).entities@, position, override_direction) == zero_pos()
                ==> (final(self).entities@ == old(self).entities@ && final(visited)@ == old(
                visited,
            )@ && !moved_on),
            moved_on ==> !occupied(world(final(self).entities@), position),
            ({
                let r = move_spec(
                    old(self).entities@,
                    old(visited)@,
                    prev_pos,
                    position,
                    override_direction,
                );
                final(self).entities@ == r.0 && final(visited)@ == r.1 && moved_on == r.2
            }),
            final(self).next_id == old(self).next_id,
            final(self).path == old(self).path,
            final(self).next_level == old(self).next_level,
        decreases unvisited_count(self.entities@, visited@), 0int,
    {
        let ghost s0 = old(self).entities@;
        let ghost v0 = old(visited)@;
        proof {
            lemma_find_at(world(s0), position);
            lemma_evolves_refl(s0);
            assert(v0.is_prefix_of(v0)) by {
                assert(v0.subrange(0, v0.len() as int) =~= v0);
            }
        }
        let idx = match self.find_index(position) {
            Some(i) => i,
            None => {
                proof {
                    assert(false);
                }
                0
            },
        };
        let entity = self.entities[idx].entity;
        let entity_id = self.entities[idx].id;
        let direction = match entity.controller {
            Some(c) => c.next_move.direction(),
            None => match override_direction {
                Some(d) => d,
                None => Pos { x: 0, y: 0 },
            },
        };
        proof {
            assert(direction == intent_at(s0, position, override_direction));
        }
        if direction.x == 0 && direction.y == 0 {
            proof {
                assert(move_spec(s0, v0, prev_pos, position, override_direction) == (
                    s0,
                    v0,
                    false,
                ));
            }
            return false;
        }
        if contains_u64(visited, entity_id) {
            proof {
                assert(move_spec(s0, v0, prev_pos, position, override_direction) == (
                    s0,
                    v0,
                    false,
                ));
            }
            return false;
        }
        visited.push(entity_id);
        proof {
            assert(v0.is_prefix_of(visited@)) by {
                assert(visited@.subrange(0, v0.len() as int) =~= v0);
            }
        }
        let next_pos = padd(position, direction);
        proof {
            assert(is_unit(direction));
            assert(pos_ok(position));
            assert(next_pos != position);
        }
        if !pos_ok_exec(next_pos) {
            proof {
                assert(move_spec(s0, v0, prev_pos, position, override_direction) == (
                    s0,
                    v0.push(entity_id),
                    false,
                ));
            }
            return false;
        }
        // A leashed guard may not end its move beyond its chain.
        let blocked_by_chain = match entity.controller {
            Some(c) => match c.controller_type {
                ControllerType::Dog { chain } => match chain {
                    Some(ch) => position_distance(next_pos, ch.origin) > ch.distance,
                    None => false,
                },
                _ => false,
            },
            None => false,
        };
        if blocked_by_chain {
            proof {
                assert(!chain_allows(entity, next_pos));
                assert(move_spec(s0, v0, prev_pos, position, override_direction) == (
                    s0,
                    v0.push(entity_id),
                    false,
                ));
            }
            return false;
        }
        proof {
            lemma_unvisited_push(s0, v0, entity_id);
        }
        let moved = self.attempt_move(position, direction, entity_id, visited);
        let mut result = false;
        if moved {
            proof {
                assert(!occupied(world(self.entities@), next_pos));
            }
            let ghost pre_fin = *self;
            proof {
                assert forall|k: int|
                    0 <= k < pre_fin.entities@.len() && (#[trigger] pre_fin.entities@[k]).id
                        == entity_id implies (match chain_of(pre_fin.entities@[k].entity) {
                    Some(ch) => manhattan(next_pos, ch.origin) <= ch.distance,
                    None => true,
                }) by {
                    lemma_evolved_slot_by_id(s0, pre_fin.entities@, idx as int, k);
                    assert(chain_of(pre_fin.entities@[k].entity) == chain_of(entity));
                }
            }
            result = self.finish_move(position, entity_id, next_pos);
            proof {
                lemma_evolves_trans(s0, pre_fin.entities@, self.entities@);
            }
        }
        let ghost m = am_spec(s0, v0.push(entity_id), position, direction, entity_id);
        let moved_on = result && (match prev_pos {
            Some(pp) => !(next_pos.x == pp.x && next_pos.y == pp.y),
            None => true,
        });
        proof {
            let r = move_spec(s0, v0, prev_pos, position, override_direction);
            if moved {
                let f = finish_spec(m.0, position, entity_id, next_pos);
                assert(self.entities@ == f.0 && result == f.1);
                assert(r == (
                    f.0,
                    m.1,
                    f.1 && (match prev_pos {
                        Some(pp) => next_pos != pp,
                        None => true,
                    }),
                ));
            } else {
                assert(r == (m.0, m.1, false));
            }
            assert(self.entities@ == r.0 && visited@ == r.1 && moved_on == r.2);
        }
        moved_on
    }
}


/// The slot with its chosen move reset to `Wait`.
pub open spec fn waiting_slot(sl: Slot) -> Slot {
    with_next(sl, Move::Wait)
}

/// The creature at `i` has nothing to react to: no visible enemy, no
/// visible attractor, and no remembered attractor position.
pub open spec fn quiet_slot(s: Seq<Slot>, i: int) -> bool {
    match s[i].entity.controller {
        None => true,
        Some(c) => c.controller_type is Player || (best_visible(
            world(s),
            s[i].entity.position,
            enemies_of(s[i].entity.entity_type),
            VIEW_RADIUS as int,
        ) is None && best_visible(
            world(s),
            s[i].entity.position,
            attractors_of(s[i].entity.entity_type),
            VIEW_RADIUS as int,
        ) is None && c.last_attractor_pos is None),
    }
}

/// No autonomous creature has anything to react to.
pub open spec fn quiet(s: Seq<Slot>) -> bool {
    forall|i: int| 0 <= i < s.len() ==> quiet_slot(s, i)
}

/// What a whole turn preserves of one entity: identity, type, controller
/// kind (including the leash), and the leash bound.
pub open spec fn guard_slot_kept(x: Slot, y: Slot) -> bool {
    &&& y.id == x.id
    &&& y.entity.entity_type == x.entity.entity_type
    &&& (match (x.entity.controller, y.entity.controller) {
        (None, None) => true,
        (Some(ca), Some(cb)) => cb.controller_type == ca.controller_type,
        _ => false,
    })
    &&& (chained_within(x.entity) ==> chained_within(y.entity))
}

pub open spec fn guard_descends(a: Seq<Slot>, y: Slot) -> bool {
    exists|i: int| 0 <= i < a.len() && guard_slot_kept(#[trigger] a[i], y)
}

/// Every entity surviving a turn descends from a stored entity with the
/// same identity, type and controller kind; a guard inside its leash is
/// still inside it.
pub open spec fn guards_kept(a: Seq<Slot>, b: Seq<Slot>) -> bool {
    forall|j: int| 0 <= j < b.len() ==> guard_descends(a, #[trigger] b[j])
}

/// The movement phase visits the entity with the smaller row-major key
/// first: top row (largest y) before lower rows, then left to right.
pub open spec fn key_lt(a: Slot, b: Slot) -> bool {
    a.entity.position.y > b.entity.position.y || (a.entity.position.y == b.entity.position.y
        && a.entity.position.x < b.entity.position.x)
}

/// Index of the first key-minimal slot among the first `j` (for `j >= 1`).
pub open spec fn min_key_upto(s: Seq<Slot>, j: int) -> int
    decreases j,
{
    if j <= 1 {
        0
    } else {
        let m = min_key_upto(s, j - 1);
        if key_lt(s[j - 1], s[m]) {
            j - 1
        } else {
            m
        }
    }
}

pub proof fn lemma_min_key_upto_range(s: Seq<Slot>, j: int)
    requires
        1 <= j,
    ensures
        0 <= min_key_upto(s, j) < j,
    decreases j,
{
    if j > 1 {
        lemma_min_key_upto_range(s, j - 1);
    }
}

/// The identifiers in the order the movement phase visits them: repeatedly
/// the first key-minimal entity of what remains. Positions are unique in a
/// well-formed level, so this order is the unique row-major one.
pub open spec fn sel_sort_ids(s: Seq<Slot>) -> Seq<u64>
    decreases s.len(),
    via sel_sort_ids_dec
{
    if s.len() == 0 {
        Seq::empty()
    } else {
        let m = min_key_upto(s, s.len() as int);
        seq![s[m].id] + sel_sort_ids(s.remove(m))
    }
}

#[via_fn]
proof fn sel_sort_ids_dec(s: Seq<Slot>) {
    if s.len() > 0 {
        lemma_min_key_upto_range(s, s.len() as int);
    }
}

/// Folding the movement attempts over a visitation order: each listed
/// identifier that still exists gets one movement attempt from wherever
/// its entity now stands, all sharing one visited set.
pub open spec fn run_moves(s: Seq<Slot>, v: Seq<u64>, ids: Seq<u64>) -> Seq<Slot>
    decreases ids.len(),
{
    if ids.len() == 0 {
        s
    } else {
        match find_id(s, ids[0]) {
            Some(k) => {
                let r = move_spec(s, v, None, s[k].entity.position, None);
                run_moves(r.0, r.1, ids.drop_first())
            },
            None => run_moves(s, v, ids.drop_first()),
        }
    }
}

/// What the movement phase does to the entity list: resolve every entity
/// once, in row-major order.
pub open spec fn make_spec(s: Seq<Slot>) -> Seq<Slot> {
    run_moves(s, Seq::empty(), sel_sort_ids(s))
}

/// The entity list with every chosen move reset to `Wait`.
pub open spec fn reset_slots(s: Seq<Slot>) -> Seq<Slot> {
    s.map_values(|sl: Slot| waiting_slot(sl))
}

/// The entity list after the decision phase: every acting entity carries
/// its decided move and updated attractor memory.
pub open spec fn calc_slots(s: Seq<Slot>, player_move: Move) -> Seq<Slot> {
    Seq::new(s.len(), |i: int| decided_slot(world(s), s[i], player_move))
}

/// What one full turn does to the entity list: reset the chosen moves,
/// decide, then resolve the movement phase. Resolution-phase consumption
/// is a no-op on a well-formed level (positions are distinct), so the
/// movement result is the turn's result.
pub open spec fn turn_spec(s: Seq<Slot>, player_move: Move) -> Seq<Slot> {
    make_spec(calc_slots(reset_slots(s), player_move))
}

impl Level {
    /// Movement phase: visit the entities in a fixed order — top row first,
    /// then left to right — and resolve each one's intended move, with the
    /// shared visited set guarding against processing an entity twice. The
    /// result is exactly the fold of the per-entity movement model over
    /// that order. A turn in which every acting entity waits moves nothing.
    #[verifier::loop_isolation(false)]
    #[verifier::rlimit(100)]
    pub fn make_moves(&mut self)
        requires
            old(self).wf(),
        ensures
            final(self).wf(),
            evolves(old(self).entities@, final(self).entities@),
            final(self).entities@ == make_spec(old(self).entities@),
            all_waiting(old(self).entities@) ==> final(self).entities@ == old(self).entities@,
            final(self).next_id == old(self).next_id,
            final(self).path == old(self).path,
            final(self).next_level == old(self).next_level,
    {
        let ghost s_in = old(self).entities@;
        // Snapshot the entities, then sort the identifiers by the row-major
        // key by repeatedly taking the first key-minimal remainder.
        let mut rest: Vec<Slot> = Vec::new();
        let mut i: usize = 0;
        while i < self.entities.len()
            invariant
                *self == *old(self),
                i <= s_in.len(),
                rest@ == s_in.subrange(0, i as int),
            decreases s_in.len() - i,
        {
            rest.push(self.entities[i]);
            proof {
                assert(rest@ =~= s_in.subrange(0, i + 1));
            }
            i = i + 1;
        }
        proof {
            assert(rest@ =~= s_in);
        }
        let mut ids: Vec<u64> = Vec::new();
        while rest.len() > 0
            invariant
                *self == *old(self),
                sel_sort_ids(s_in) == ids@ + sel_sort_ids(rest@),
            decreases rest@.len(),
        {
            let mut best: usize = 0;
            let mut j: usize = 1;
            while j < rest.len()
                invariant
                    *self == *old(self),
                    1 <= j <= rest@.len(),
                    best < j,
                    best as int == min_key_upto(rest@, j as int),
                decreases rest@.len() - j,
            {
                let a = rest[j];
                let b = rest[best];
                let smaller = a.entity.position.y > b.entity.position.y || (a.entity.position.y
                    == b.entity.position.y && a.entity.position.x < b.entity.position.x);
                proof {
                    assert(smaller == key_lt(rest@[j as int], rest@[best as int]));
                }
                if smaller {
                    best = j;
                }
                j = j + 1;
            }
            let ghost pre_rest = rest@;
            let ghost pre_ids = ids@;
            proof {
                lemma_min_key_upto_range(pre_rest, pre_rest.len() as int);
                assert(best as int == min_key_upto(pre_rest, pre_rest.len() as int));
            }
            ids.push(rest[best].id);
            rest.remove(best);
            proof {
                assert(sel_sort_ids(pre_rest) == seq![pre_rest[best as int].id] + sel_sort_ids(
                    pre_rest.remove(best as int),
                ));
                assert(ids@ + sel_sort_ids(rest@) =~= pre_ids + sel_sort_ids(pre_rest));
            }
        }
        proof {
            assert(sel_sort_ids(rest@) =~= Seq::<u64>::empty());
            assert(ids@ + sel_sort_ids(rest@) =~= ids@);
            assert(ids@ == sel_sort_ids(s_in));
        }
        // Resolve the moves in that order.
        let mut visited: Vec<u64> = Vec::new();
        let mut q: usize = 0;
        proof {
            assert(ids@.subrange(0, ids@.len() as int) =~= ids@);
        }
        while q < ids.len()
            invariant
                self.wf(),
                q <= ids@.len(),
                evolves(s_in, self.entities@),
                all_waiting(s_in) ==> self.entities@ == s_in,
                run_moves(self.entities@, visited@, ids@.subrange(q as int, ids@.len() as int))
                    == run_moves(s_in, Seq::<u64>::empty(), ids@),
                self.next_id == old(self).next_id,
                self.path == old(self).path,
                self.next_level == old(self).next_level,
            decreases ids@.len() - q,
        {
            let id = ids[q];
            let ghost rem = ids@.subrange(q as int, ids@.len() as int);
            proof {
                assert(rem[0] == id);
                assert(rem.drop_first() =~= ids@.subrange(q + 1, ids@.len() as int));
            }
            match self.find_index_of_id(id) {
                Some(k) => {
                    let position = self.entities[k].entity.position;
                    proof {
                        lemma_find_at(world(self.entities@), position);
                        match find_at(world(self.entities@), position) {
                            Some(_) => {},
                            None => {
                                assert(world(self.entities@)[k as int].pos == position);
                                assert(false);
                            },
                        }
                        if all_waiting(s_in) {
                            assert(intent_at(self.entities@, position, None) == zero_pos());
                        }
                    }
                    let ghost pre = *self;
                    let ghost vpre = visited@;
                    let _ = self.move_entity(None, position, None, &mut visited);
                    proof {
                        lemma_evolves_trans(s_in, pre.entities@, self.entities@);
                        let r = move_spec(pre.entities@, vpre, None, position, None);
                        assert(self.entities@ == r.0 && visited@ == r.1);
                        assert(run_moves(pre.entities@, vpre, rem) == run_moves(
                            self.entities@,
                            visited@,
                            rem.drop_first(),
                        ));
                    }
                },
                None => {
                    proof {
                        assert(run_moves(self.entities@, visited@, rem) == run_moves(
                            self.entities@,
                            visited@,
                            rem.drop_first(),
                        ));
                    }
                },
            }
            q = q + 1;
        }
        proof {
            assert(ids@.subrange(q as int, ids@.len() as int) =~= Seq::<u64>::empty());
            assert(self.entities@ == make_spec(s_in));
        }
    }

    /// Advance one full turn: reset every chosen move, run the decision
    /// phase with the supplied player move, resolve the movement phase in
    /// the fixed order, and remove entities consumed on contact.
    ///
    /// The contract carries the engine's three standing guarantees: the
    /// level invariant (distinct positions) is preserved; every surviving
    /// entity keeps its identity, type and controller kind, and a leashed
    /// guard inside its leash stays inside it; and a turn in which the
    /// player waits and no creature has anything to react to leaves every
    /// entity in place, with only the chosen moves reset to `Wait`.
    #[verifier::loop_isolation(false)]
    #[verifier::rlimit(100)]
    pub fn turn(&mut self, player_move: Move)
        requires
            old(self).wf(),
        ensures
            final(self).wf(),
            final(self).entities@ == turn_spec(old(self).entities@, player_move),
            guards_kept(old(self).entities@, final(self).entities@),
            (player_move == Move::Wait && quiet(old(self).entities@))
                ==> (final(self).entities@.len() == old(self).entities@.len() && (forall|i: int|
                0 <= i < old(self).entities@.len() ==> final(self).entities@[i] == waiting_slot(
                    old(self).entities@[i],
                ))),
            final(self).next_id == old(self).next_id,
            final(self).path == old(self).path,
            final(self).next_level == old(self).next_level,
    {
        let ghost s_in = old(self).entities@;
        let ghost w0 = world(s_in);
        // Reset every chosen move.
        let mut i: usize = 0;
        while i < self.entities.len()
            invariant
                self.entities@.len() == s_in.len(),
                forall|k: int| 0 <= k < i ==> self.entities@[k] == waiting_slot(s_in[k]),
                forall|k: int| i <= k < s_in.len() ==> self.entities@[k] == s_in[k],
                self.next_id == old(self).next_id,
                self.path == old(self).path,
                self.next_level == old(self).next_level,
            decreases s_in.len() - i,
        {
            self.set_next_move_at(i, Move::Wait);
            i = i + 1;
        }
        let ghost s_reset = self.entities@;
        proof {
            assert(world(s_reset) =~= w0);
            assert forall|k: int| 0 <= k < s_reset.len() implies ent_ok(s_reset[k].entity) by {
                assert(ent_ok(s_in[k].entity));
            }
            assert(self.wf());
        }
        self.calc_moves(player_move);
        let ghost s_calc = self.entities@;
        self.make_moves();
        let ghost s_move = self.entities@;
        self.collide();
        proof {
            // The phases compose into the turn model.
            assert(s_reset =~= reset_slots(s_in));
            assert(s_calc =~= calc_slots(s_reset, player_move));
            assert(final(self).entities@ == turn_spec(s_in, player_move));
            // Each decided slot keeps identity, type, controller kind and leash.
            assert forall|k: int| 0 <= k < s_calc.len() implies guard_slot_kept(
                s_in[k],
                #[trigger] s_calc[k],
            ) by {
                assert(s_calc[k] == decided_slot(w0, s_reset[k], player_move));
                assert(s_reset[k] == waiting_slot(s_in[k]));
            }
            // Movement only evolves slots, which keeps the same facts.
            assert forall|j: int| 0 <= j < s_move.len() implies guard_descends(
                s_in,
                #[trigger] s_move[j],
            ) by {
                assert(descends(s_calc, s_move[j]));
                let i2 = choose|i2: int|
                    0 <= i2 < s_calc.len() && slot_evolved(#[trigger] s_calc[i2], s_move[j]);
                assert(guard_slot_kept(s_in[i2], s_calc[i2]));
                assert(guard_slot_kept(s_in[i2], s_move[j]));
            }
            assert(guards_kept(s_in, final(self).entities@));
            // The quiet case: every decision is Wait and nothing moves.
            if player_move == Move::Wait && quiet(s_in) {
                assert forall|k: int| 0 <= k < s_calc.len() implies #[trigger] s_calc[k]
                    == waiting_slot(s_in[k]) by {
                    assert(quiet_slot(s_in, k));
                    assert(s_calc[k] == decided_slot(w0, s_reset[k], player_move));
                    assert(s_reset[k] == waiting_slot(s_in[k]));
                }
                assert(all_waiting(s_calc));
                assert(s_move == s_calc);
                assert(final(self).entities@ =~= s_calc);
            }
        }
    }
}

} // verus!
