//! The engine's standing guarantees, stated and proved once over the
//! specification model. The turn-level guarantees — the position invariant,
//! the leash bound, and the no-reaction turn changing nothing — live in the
//! contract of `Level::turn`; the lemmas here cover the outcome query, the
//! visibility radius, and the composition of turns.

use vstd::prelude::*;

use crate::entity::{
    attractors_of, manhattan, pos_sub, ControllerType, Entity, EntityController, EntityType, Move,
    Pos,
};
use crate::level::{exists_type, find_player, state_of, world, Cell, LevelState, Slot};
use crate::moves::{
    calc_slots, guard_descends, guard_slot_kept, guards_kept, make_spec, move_spec, reset_slots,
    run_moves, sel_sort_ids, turn_spec,
};
use crate::sight::{can_see_spec, sight_clear, step_dir};

verus! {

/// Win condition: with a player present whose type hunts at least one
/// attractor type, the level reports Win exactly when no entity of any of
/// those types remains; with no player it reports Loss. `get_state` is a
/// pure read, so once the last attractor-type entity is gone the level
/// keeps reporting Win until something is put back.
pub proof fn law_win_condition(s: Seq<Slot>)
    ensures
        (match find_player(s) {
            Some(i) => {
                let targets = attractors_of(s[i].entity.entity_type);
                (state_of(s) == LevelState::Win) <==> (targets.len() > 0 && !exists_type(
                    world(s),
                    targets,
                ))
            },
            None => state_of(s) == LevelState::Loss,
        }),
{
}

/// Visibility at the radius: two cells exactly `view_radius` apart along a
/// clear line see each other; one cell farther apart they never do.
pub proof fn law_visibility_radius(w: Seq<Cell>, a: Pos, b: Pos, view_radius: int)
    requires
        view_radius >= 1,
    ensures
        manhattan(a, b) == view_radius && sight_clear(w, a, b) ==> can_see_spec(
            w,
            a,
            b,
            view_radius,
        ) is Some,
        manhattan(a, b) == view_radius + 1 ==> can_see_spec(w, a, b, view_radius) is None,
{
    let d = manhattan(a, b);
    if d == view_radius && sight_clear(w, a, b) {
        if d == 1 {
            assert(can_see_spec(w, a, b, view_radius) == Some(pos_sub(b, a)));
        } else {
            assert(step_dir(w, a, b, 1) is Some);
        }
    }
}

/// Turn-to-turn composition: what one turn keeps of every surviving
/// entity — identity, type, controller kind, and a leashed guard's bound —
/// is kept across any sequence of turns.
pub proof fn law_guards_kept_trans(a: Seq<Slot>, b: Seq<Slot>, c: Seq<Slot>)
    requires
        guards_kept(a, b),
        guards_kept(b, c),
    ensures
        guards_kept(a, c),
{
    assert forall|j: int| 0 <= j < c.len() implies guard_descends(a, #[trigger] c[j]) by {
        assert(guard_descends(b, c[j]));
        let i2 = choose|i2: int| 0 <= i2 < b.len() && guard_slot_kept(#[trigger] b[i2], c[j]);
        assert(guard_descends(a, b[i2]));
        let i1 = choose|i1: int| 0 <= i1 < a.len() && guard_slot_kept(#[trigger] a[i1], b[i2]);
        assert(guard_slot_kept(a[i1], c[j]));
    }
}

/// The box-push example, computed from the turn model alone: a player beside a single pushable box, stepping
/// toward it with the cell beyond free, pushes the box one cell and takes
/// its place.
pub proof fn law_example_box_push()
    ensures
        ({
            let player = Slot {
                id: 0,
                entity: Entity {
                    position: Pos { x: 0, y: 0 },
                    entity_type: EntityType::Cat,
                    controller: Some(
                        EntityController {
                            next_move: Move::Wait,
                            last_attractor_pos: None,
                            controller_type: ControllerType::Player,
                        },
                    ),
                },
            };
            let boxed = Slot {
                id: 1,
                entity: Entity {
                    position: Pos { x: 1, y: 0 },
                    entity_type: EntityType::Box,
                    controller: None,
                },
            };
            let moved_player = Slot {
                id: 0,
                entity: Entity {
                    position: Pos { x: 1, y: 0 },
                    entity_type: EntityType::Cat,
                    controller: Some(
                        EntityController {
                            next_move: Move::Right,
                            last_attractor_pos: None,
                            controller_type: ControllerType::Player,
                        },
                    ),
                },
            };
            let moved_box = Slot {
                id: 1,
                entity: Entity {
                    position: Pos { x: 2, y: 0 },
                    entity_type: EntityType::Box,
                    controller: None,
                },
            };
            turn_spec(seq![player, boxed], Move::Right) == seq![moved_player, moved_box]
        }),
{
    reveal_with_fuel(crate::level::find_from, 4);
    reveal_with_fuel(crate::level::find_id_from, 4);
    reveal_with_fuel(crate::moves::min_key_upto, 4);
    reveal_with_fuel(crate::moves::sel_sort_ids, 4);
    reveal_with_fuel(crate::moves::run_moves, 4);
    reveal_with_fuel(crate::moves::move_spec, 6);
    reveal_with_fuel(crate::moves::am_spec, 6);
    let player = Slot {
        id: 0,
        entity: Entity {
            position: Pos { x: 0, y: 0 },
            entity_type: EntityType::Cat,
            controller: Some(
                EntityController {
                    next_move: Move::Wait,
                    last_attractor_pos: None,
                    controller_type: ControllerType::Player,
                },
            ),
        },
    };
    let boxed = Slot {
        id: 1,
        entity: Entity {
            position: Pos { x: 1, y: 0 },
            entity_type: EntityType::Box,
            controller: None,
        },
    };
    let moved_player = Slot {
        id: 0,
        entity: Entity {
            position: Pos { x: 1, y: 0 },
            entity_type: EntityType::Cat,
            controller: Some(
                EntityController {
                    next_move: Move::Right,
                    last_attractor_pos: None,
                    controller_type: ControllerType::Player,
                },
            ),
        },
    };
    let moved_box = Slot {
        id: 1,
        entity: Entity {
            position: Pos { x: 2, y: 0 },
            entity_type: EntityType::Box,
            controller: None,
        },
    };
    let decided_player = Slot {
        id: 0,
        entity: Entity {
            position: Pos { x: 0, y: 0 },
            entity_type: EntityType::Cat,
            controller: Some(
                EntityController {
                    next_move: Move::Right,
                    last_attractor_pos: None,
                    controller_type: ControllerType::Player,
                },
            ),
        },
    };
    let s = seq![player, boxed];
    assert(crate::moves::reset_slots(s) =~= s);
    let sc = seq![decided_player, boxed];
    assert(crate::moves::calc_slots(s, Move::Right) =~= sc);
    assert(calc_slots(reset_slots(s), Move::Right) == sc) by {
        assert(reset_slots(s) == s);
        assert(calc_slots(s, Move::Right) == sc);
    }
    // The visitation order: the player's row-major key precedes the box's.
    assert(sc.remove(0) =~= seq![boxed]);
    assert(seq![boxed].remove(0) =~= Seq::<Slot>::empty());
    assert(sel_sort_ids(sc) =~= seq![0u64, 1u64]);
    // The player's attempt pushes the box, then steps after it.
    let s1 = seq![decided_player, moved_box];
    let s2 = seq![moved_player, moved_box];
    assert(move_spec(sc, seq![0u64], Some(Pos { x: 0, y: 0 }), Pos { x: 1, y: 0 }, Some(Pos { x: 1, y: 0 })).0
        =~= s1) by {
        assert(sc.update(1, crate::moves::with_pos(sc[1], Pos { x: 2, y: 0 })) =~= s1);
    }
    assert(move_spec(sc, Seq::<u64>::empty(), None, Pos { x: 0, y: 0 }, None) == (
        s2,
        seq![0u64, 1u64],
        true,
    )) by {
        assert(sc.update(1, crate::moves::with_pos(sc[1], Pos { x: 2, y: 0 })) =~= s1);
        assert(s1.update(0, crate::moves::with_pos(s1[0], Pos { x: 1, y: 0 })) =~= s2);
    }
    // The box's own attempt afterwards stands still.
    assert(move_spec(s2, seq![0u64, 1u64], None, Pos { x: 2, y: 0 }, None) == (
        s2,
        seq![0u64, 1u64],
        false,
    ));
    assert(run_moves(sc, Seq::<u64>::empty(), seq![0u64, 1u64]) == s2) by {
        assert(seq![0u64, 1u64].drop_first() =~= seq![1u64]);
        assert(seq![1u64].drop_first() =~= Seq::<u64>::empty());
    }
    assert(make_spec(sc) == s2);
    assert(turn_spec(s, Move::Right) == s2);
}

/// A helper shape for the push-chain examples: a pushable box standing at
/// `(x, 0)` with a given identifier.
pub open spec fn box_at(id: u64, x: i32) -> Slot {
    Slot {
        id,
        entity: Entity {
            position: Pos { x, y: 0 },
            entity_type: EntityType::Box,
            controller: None,
        },
    }
}

/// A player-controlled entity at `(0, 0)` with a chosen move.
pub open spec fn player_with(m: Move) -> Slot {
    Slot {
        id: 0,
        entity: Entity {
            position: Pos { x: 0, y: 0 },
            entity_type: EntityType::Cat,
            controller: Some(
                EntityController {
                    next_move: m,
                    last_attractor_pos: None,
                    controller_type: ControllerType::Player,
                },
            ),
        },
    }
}

/// The player at `(0, 0)` moved to `(x, 0)` carrying a chosen move.
pub open spec fn player_moved(m: Move, x: i32) -> Slot {
    Slot {
        id: 0,
        entity: Entity {
            position: Pos { x, y: 0 },
            entity_type: EntityType::Cat,
            controller: Some(
                EntityController {
                    next_move: m,
                    last_attractor_pos: None,
                    controller_type: ControllerType::Player,
                },
            ),
        },
    }
}

/// Push-chain correctness, the free case, from the turn model: a
/// player pushing into a line of three boxes with the cell beyond the last
/// box empty shifts all three boxes, and itself, by exactly one cell.
#[verifier::rlimit(100)]
pub proof fn law_push_chain_shifts()
    ensures
        turn_spec(
            seq![player_with(Move::Wait), box_at(1, 1), box_at(2, 2), box_at(3, 3)],
            Move::Right,
        ) == seq![player_moved(Move::Right, 1), box_at(1, 2), box_at(2, 3), box_at(3, 4)],
{
    reveal_with_fuel(crate::level::find_from, 8);
    reveal_with_fuel(crate::level::find_id_from, 8);
    reveal_with_fuel(crate::moves::min_key_upto, 8);
    reveal_with_fuel(crate::moves::sel_sort_ids, 8);
    reveal_with_fuel(crate::moves::run_moves, 8);
    reveal_with_fuel(crate::moves::move_spec, 12);
    reveal_with_fuel(crate::moves::am_spec, 12);
    let s = seq![player_with(Move::Wait), box_at(1, 1), box_at(2, 2), box_at(3, 3)];
    let sc = seq![player_with(Move::Right), box_at(1, 1), box_at(2, 2), box_at(3, 3)];
    assert(crate::moves::reset_slots(s) =~= s);
    assert(crate::moves::calc_slots(s, Move::Right) =~= sc);
    assert(sc.remove(0) =~= seq![box_at(1, 1), box_at(2, 2), box_at(3, 3)]);
    assert(seq![box_at(1, 1), box_at(2, 2), box_at(3, 3)].remove(0) =~= seq![
        box_at(2, 2),
        box_at(3, 3),
    ]);
    assert(seq![box_at(2, 2), box_at(3, 3)].remove(0) =~= seq![box_at(3, 3)]);
    assert(seq![box_at(3, 3)].remove(0) =~= Seq::<Slot>::empty());
    assert(sel_sort_ids(sc) =~= seq![0u64, 1u64, 2u64, 3u64]);
    // The cascade from the innermost box outward.
    let sa = seq![player_with(Move::Right), box_at(1, 1), box_at(2, 2), box_at(3, 4)];
    let sb = seq![player_with(Move::Right), box_at(1, 1), box_at(2, 3), box_at(3, 4)];
    let sd = seq![player_with(Move::Right), box_at(1, 2), box_at(2, 3), box_at(3, 4)];
    let se = seq![player_moved(Move::Right, 1), box_at(1, 2), box_at(2, 3), box_at(3, 4)];
    assert(move_spec(sc, Seq::<u64>::empty(), None, Pos { x: 0, y: 0 }, None) == (
        se,
        seq![0u64, 1u64, 2u64, 3u64],
        true,
    )) by {
        assert(sc.update(3, crate::moves::with_pos(sc[3], Pos { x: 4, y: 0 })) =~= sa);
        assert(sa.update(2, crate::moves::with_pos(sa[2], Pos { x: 3, y: 0 })) =~= sb);
        assert(sb.update(1, crate::moves::with_pos(sb[1], Pos { x: 2, y: 0 })) =~= sd);
        assert(sd.update(0, crate::moves::with_pos(sd[0], Pos { x: 1, y: 0 })) =~= se);
    }
    assert(run_moves(sc, Seq::<u64>::empty(), seq![0u64, 1u64, 2u64, 3u64]) == se) by {
        assert(seq![0u64, 1u64, 2u64, 3u64].drop_first() =~= seq![1u64, 2u64, 3u64]);
        assert(seq![1u64, 2u64, 3u64].drop_first() =~= seq![2u64, 3u64]);
        assert(seq![2u64, 3u64].drop_first() =~= seq![3u64]);
        assert(seq![3u64].drop_first() =~= Seq::<u64>::empty());
        assert(move_spec(se, seq![0u64, 1u64, 2u64, 3u64], None, Pos { x: 2, y: 0 }, None) == (
            se,
            seq![0u64, 1u64, 2u64, 3u64],
            false,
        ));
        assert(move_spec(se, seq![0u64, 1u64, 2u64, 3u64], None, Pos { x: 3, y: 0 }, None) == (
            se,
            seq![0u64, 1u64, 2u64, 3u64],
            false,
        ));
        assert(move_spec(se, seq![0u64, 1u64, 2u64, 3u64], None, Pos { x: 4, y: 0 }, None) == (
            se,
            seq![0u64, 1u64, 2u64, 3u64],
            false,
        ));
    }
    assert(turn_spec(s, Move::Right) == se);
}

/// Push-chain correctness, the blocked case, from the turn model:
/// with a collidable wall in the cell beyond the last box, neither the
/// player nor any box moves.
#[verifier::rlimit(100)]
pub proof fn law_push_chain_blocked()
    ensures
        ({
            let wall = Slot {
                id: 4,
                entity: Entity {
                    position: Pos { x: 4, y: 0 },
                    entity_type: EntityType::Wall,
                    controller: None,
                },
            };
            turn_spec(
                seq![player_with(Move::Wait), box_at(1, 1), box_at(2, 2), box_at(3, 3), wall],
                Move::Right,
            ) == seq![player_with(Move::Right), box_at(1, 1), box_at(2, 2), box_at(3, 3), wall]
        }),
{
    reveal_with_fuel(crate::level::find_from, 9);
    reveal_with_fuel(crate::level::find_id_from, 9);
    reveal_with_fuel(crate::moves::min_key_upto, 9);
    reveal_with_fuel(crate::moves::sel_sort_ids, 9);
    reveal_with_fuel(crate::moves::run_moves, 9);
    reveal_with_fuel(crate::moves::move_spec, 12);
    reveal_with_fuel(crate::moves::am_spec, 12);
    let wall = Slot {
        id: 4,
        entity: Entity {
            position: Pos { x: 4, y: 0 },
            entity_type: EntityType::Wall,
            controller: None,
        },
    };
    let s = seq![player_with(Move::Wait), box_at(1, 1), box_at(2, 2), box_at(3, 3), wall];
    let sc = seq![player_with(Move::Right), box_at(1, 1), box_at(2, 2), box_at(3, 3), wall];
    assert(crate::moves::reset_slots(s) =~= s);
    assert(crate::moves::calc_slots(s, Move::Right) =~= sc);
    assert(sc.remove(0) =~= seq![box_at(1, 1), box_at(2, 2), box_at(3, 3), wall]);
    assert(seq![box_at(1, 1), box_at(2, 2), box_at(3, 3), wall].remove(0) =~= seq![
        box_at(2, 2),
        box_at(3, 3),
        wall,
    ]);
    assert(seq![box_at(2, 2), box_at(3, 3), wall].remove(0) =~= seq![box_at(3, 3), wall]);
    assert(seq![box_at(3, 3), wall].remove(0) =~= seq![wall]);
    assert(seq![wall].remove(0) =~= Seq::<Slot>::empty());
    assert(sel_sort_ids(sc) =~= seq![0u64, 1u64, 2u64, 3u64, 4u64]);
    // The cascade reaches the wall and fails all the way back out.
    assert(move_spec(sc, Seq::<u64>::empty(), None, Pos { x: 0, y: 0 }, None) == (
        sc,
        seq![0u64, 1u64, 2u64, 3u64],
        false,
    ));
    assert(run_moves(sc, Seq::<u64>::empty(), seq![0u64, 1u64, 2u64, 3u64, 4u64]) == sc) by {
        let v = seq![0u64, 1u64, 2u64, 3u64];
        assert(seq![0u64, 1u64, 2u64, 3u64, 4u64].drop_first() =~= seq![1u64, 2u64, 3u64, 4u64]);
        assert(seq![1u64, 2u64, 3u64, 4u64].drop_first() =~= seq![2u64, 3u64, 4u64]);
        assert(seq![2u64, 3u64, 4u64].drop_first() =~= seq![3u64, 4u64]);
        assert(seq![3u64, 4u64].drop_first() =~= seq![4u64]);
        assert(seq![4u64].drop_first() =~= Seq::<u64>::empty());
        assert(move_spec(sc, v, None, Pos { x: 1, y: 0 }, None) == (sc, v, false));
        assert(move_spec(sc, v, None, Pos { x: 2, y: 0 }, None) == (sc, v, false));
        assert(move_spec(sc, v, None, Pos { x: 3, y: 0 }, None) == (sc, v, false));
        assert(move_spec(sc, v, None, Pos { x: 4, y: 0 }, None) == (sc, v, false));
    }
    assert(turn_spec(s, Move::Right) == sc);
}

} // verus!