use mousehunt::entity::{
    position_distance, Chain, ControllerType, Entity, EntityController, EntityProperty, EntityType,
    Move, Pos,
};
use mousehunt::level::{Level, LevelState};

fn at(x: i32, y: i32) -> Pos {
    Pos { x, y }
}

fn scenery(x: i32, y: i32, entity_type: EntityType) -> Entity {
    Entity { position: at(x, y), entity_type, controller: None }
}

fn creature(x: i32, y: i32, entity_type: EntityType) -> Entity {
    Entity {
        position: at(x, y),
        entity_type,
        controller: EntityController::from_entity_type(entity_type),
    }
}

fn player(x: i32, y: i32, entity_type: EntityType) -> Entity {
    Entity {
        position: at(x, y),
        entity_type,
        controller: Some(EntityController {
            next_move: Move::Wait,
            last_attractor_pos: None,
            controller_type: ControllerType::Player,
        }),
    }
}

fn chained_dog(x: i32, y: i32, origin: Pos, distance: i32) -> Entity {
    Entity {
        position: at(x, y),
        entity_type: EntityType::Dog,
        controller: Some(EntityController {
            next_move: Move::Wait,
            last_attractor_pos: None,
            controller_type: ControllerType::Dog { chain: Some(Chain { origin, distance }) },
        }),
    }
}

fn positions(level: &Level) -> Vec<Pos> {
    let mut out = Vec::new();
    for slot in &level.entities {
        out.push(slot.entity.position);
    }
    out
}

#[test]
fn wait_turn_changes_nothing() {
    let mut level = Level::empty();
    level.set_entity(player(0, 0, EntityType::Cat));
    level.set_entity(scenery(3, 3, EntityType::Wall));
    level.set_entity(scenery(5, 5, EntityType::Box));
    level.turn(Move::Wait);
    assert!(level.get_entity(at(0, 0)).is_some());
    assert!(level.get_entity(at(3, 3)).is_some());
    assert!(level.get_entity(at(5, 5)).is_some());
    assert_eq!(level.entities.len(), 3);
}

#[test]
fn player_steps_onto_empty_cell() {
    let mut level = Level::empty();
    level.set_entity(player(0, 0, EntityType::Cat));
    level.turn(Move::Right);
    assert!(level.get_entity(at(1, 0)).is_some());
    assert!(level.get_entity(at(0, 0)).is_none());
}

#[test]
fn push_single_box() {
    let mut level = Level::empty();
    level.set_entity(player(0, 0, EntityType::Cat));
    level.set_entity(scenery(1, 0, EntityType::Box));
    level.turn(Move::Right);
    assert_eq!(level.get_entity(at(1, 0)).unwrap().entity_type, EntityType::Cat);
    assert_eq!(level.get_entity(at(2, 0)).unwrap().entity_type, EntityType::Box);
}

#[test]
fn push_chain_of_three_shifts_when_beyond_is_empty() {
    let mut level = Level::empty();
    level.set_entity(player(0, 0, EntityType::Cat));
    level.set_entity(scenery(1, 0, EntityType::Box));
    level.set_entity(scenery(2, 0, EntityType::Box));
    level.set_entity(scenery(3, 0, EntityType::Box));
    level.turn(Move::Right);
    assert_eq!(level.get_entity(at(1, 0)).unwrap().entity_type, EntityType::Cat);
    assert_eq!(level.get_entity(at(2, 0)).unwrap().entity_type, EntityType::Box);
    assert_eq!(level.get_entity(at(3, 0)).unwrap().entity_type, EntityType::Box);
    assert_eq!(level.get_entity(at(4, 0)).unwrap().entity_type, EntityType::Box);
    assert!(level.get_entity(at(0, 0)).is_none());
}

#[test]
fn push_chain_of_three_blocked_by_collidable() {
    let mut level = Level::empty();
    level.set_entity(player(0, 0, EntityType::Cat));
    level.set_entity(scenery(1, 0, EntityType::Box));
    level.set_entity(scenery(2, 0, EntityType::Box));
    level.set_entity(scenery(3, 0, EntityType::Box));
    level.set_entity(scenery(4, 0, EntityType::Wall));
    level.turn(Move::Right);
    assert_eq!(level.get_entity(at(0, 0)).unwrap().entity_type, EntityType::Cat);
    assert_eq!(level.get_entity(at(1, 0)).unwrap().entity_type, EntityType::Box);
    assert_eq!(level.get_entity(at(2, 0)).unwrap().entity_type, EntityType::Box);
    assert_eq!(level.get_entity(at(3, 0)).unwrap().entity_type, EntityType::Box);
    assert_eq!(level.get_entity(at(4, 0)).unwrap().entity_type, EntityType::Wall);
}

#[test]
fn leash_blocks_guard_beyond_chain() {
    let mut level = Level::empty();
    level.set_entity(chained_dog(2, 0, at(0, 0), 2));
    level.set_entity(scenery(5, 0, EntityType::Bone));
    level.turn(Move::Wait);
    // The dog sees the bone and wants to step to (3,0), but that cell is
    // three steps from its anchor: the move is refused.
    assert_eq!(level.get_entity(at(2, 0)).unwrap().entity_type, EntityType::Dog);
    assert!(level.get_entity(at(3, 0)).is_none());
}

#[test]
fn guard_moves_freely_inside_chain() {
    let mut level = Level::empty();
    level.set_entity(chained_dog(2, 0, at(0, 0), 3));
    level.set_entity(scenery(5, 0, EntityType::Bone));
    level.turn(Move::Wait);
    assert_eq!(level.get_entity(at(3, 0)).unwrap().entity_type, EntityType::Dog);
}

#[test]
fn predator_consumes_adjacent_attractor() {
    let mut level = Level::empty();
    level.set_entity(creature(0, 0, EntityType::Dog));
    level.set_entity(scenery(1, 0, EntityType::Bone));
    level.turn(Move::Wait);
    assert_eq!(level.get_entity(at(1, 0)).unwrap().entity_type, EntityType::Dog);
    assert_eq!(level.entities.len(), 1);
}

#[test]
fn prey_flees_predator() {
    // Player at (0,0), a prey at (3,0), a predator at (5,0): the prey sees
    // the predator two cells away and flees to (2,0); the predator gives
    // chase to (4,0).
    let mut level = Level::empty();
    level.set_entity(player(0, 0, EntityType::Bush));
    level.set_entity(creature(3, 0, EntityType::Mouse));
    level.set_entity(creature(5, 0, EntityType::Cat));
    level.turn(Move::Wait);
    assert_eq!(level.get_entity(at(2, 0)).unwrap().entity_type, EntityType::Mouse);
    assert_eq!(level.get_entity(at(4, 0)).unwrap().entity_type, EntityType::Cat);
    assert!(level.get_entity(at(0, 0)).is_some());
}

#[test]
fn positions_stay_unique_after_turns() {
    let mut level = Level::empty();
    level.set_entity(player(0, 0, EntityType::Bush));
    level.set_entity(creature(3, 0, EntityType::Mouse));
    level.set_entity(creature(5, 0, EntityType::Cat));
    level.set_entity(scenery(1, 1, EntityType::Box));
    for _ in 0..4 {
        level.turn(Move::Wait);
        let ps = positions(&level);
        for i in 0..ps.len() {
            for j in (i + 1)..ps.len() {
                assert_ne!(ps[i], ps[j]);
            }
        }
    }
}

#[test]
fn win_after_last_attractor_removed() {
    let mut level = Level::empty();
    level.set_entity(player(0, 0, EntityType::Cat));
    level.set_entity(scenery(4, 4, EntityType::Mouse));
    assert!(matches!(level.get_state(), LevelState::Playing));
    level.remove_entity(at(4, 4));
    assert!(matches!(level.get_state(), LevelState::Win));
    // A pure read: it keeps reporting Win until something changes.
    assert!(matches!(level.get_state(), LevelState::Win));
}

#[test]
fn loss_without_player() {
    let level = Level::empty();
    assert!(matches!(level.get_state(), LevelState::Loss));
    let mut level = Level::empty();
    level.set_entity(scenery(1, 1, EntityType::Wall));
    assert!(matches!(level.get_state(), LevelState::Loss));
}

#[test]
fn playing_when_player_hunts_nothing() {
    let mut level = Level::empty();
    level.set_entity(player(0, 0, EntityType::Bush));
    assert!(matches!(level.get_state(), LevelState::Playing));
}

#[test]
fn set_entity_evicts_occupant() {
    let mut level = Level::empty();
    level.set_entity(scenery(1, 1, EntityType::Bush));
    let evicted = level.set_entity(scenery(1, 1, EntityType::Box));
    assert_eq!(evicted.unwrap().entity_type, EntityType::Bush);
    assert_eq!(level.get_entity(at(1, 1)).unwrap().entity_type, EntityType::Box);
    assert_eq!(level.entities.len(), 1);
}

#[test]
fn remove_entity_returns_the_occupant() {
    let mut level = Level::empty();
    level.set_entity(scenery(2, 3, EntityType::Water));
    let removed = level.remove_entity(at(2, 3));
    assert_eq!(removed.unwrap().entity_type, EntityType::Water);
    assert!(level.remove_entity(at(2, 3)).is_none());
    assert!(level.get_entity(at(2, 3)).is_none());
}

#[test]
fn predator_remembers_and_takes_its_target() {
    let mut level = Level::empty();
    level.set_entity(creature(0, 0, EntityType::Dog));
    level.set_entity(scenery(2, 0, EntityType::Bone));
    level.turn(Move::Wait);
    // The dog saw the bone, stepped toward it and remembered its cell.
    let dog = level.get_entity(at(1, 0)).unwrap();
    assert_eq!(dog.entity_type, EntityType::Dog);
    assert_eq!(dog.controller.as_ref().unwrap().last_attractor_pos, Some(at(2, 0)));
    level.turn(Move::Wait);
    assert_eq!(level.get_entity(at(2, 0)).unwrap().entity_type, EntityType::Dog);
    assert_eq!(level.entities.len(), 1);
}

#[test]
fn pathfind_returns_reverse_bfs_hop() {
    let level = Level::empty();
    // The search is seeded from the target and scans Moore neighbors in a
    // fixed order, so the first frontier cell to discover (0,0) is the
    // diagonal (1,-1).
    assert_eq!(level.pathfind(at(0, 0), at(2, 0), 6), Some(at(1, -1)));
    // A target far beyond the step bound is not found.
    assert_eq!(level.pathfind(at(0, 0), at(9, 9), 6), None);
}

#[test]
fn move_direction_roundtrip() {
    for m in [Move::Wait, Move::Up, Move::Down, Move::Left, Move::Right] {
        assert_eq!(Move::from_direction(m.direction()), Some(m));
    }
    assert_eq!(Move::from_direction(at(1, 1)), None);
    assert_eq!(Move::from_direction(at(2, 0)), None);
    assert_eq!(Move::Up.direction(), at(0, 1));
    assert_eq!(Move::Down.direction(), at(0, -1));
}

#[test]
fn relation_tables() {
    assert_eq!(EntityType::Cat.enemies(), vec![EntityType::Dog]);
    assert_eq!(EntityType::Mouse.enemies(), vec![EntityType::Cat]);
    assert!(EntityType::Dog.enemies().is_empty());
    assert_eq!(EntityType::Cat.attractors(), vec![EntityType::Mouse, EntityType::Fish]);
    assert_eq!(EntityType::Dog.attractors(), vec![EntityType::Cat, EntityType::Bone]);
    assert_eq!(EntityType::Mouse.attractors(), vec![EntityType::Cheese]);
    assert!(EntityType::Wall.attractors().is_empty());
    assert_eq!(EntityType::Wall.property(), Some(EntityProperty::Collidable));
    assert_eq!(EntityType::Water.property(), Some(EntityProperty::Collidable));
    assert_eq!(EntityType::Box.property(), Some(EntityProperty::Pushable));
    assert_eq!(EntityType::Cheese.property(), Some(EntityProperty::Pushable));
    assert_eq!(EntityType::Cat.property(), None);
}

#[test]
fn default_controllers() {
    let cat = EntityController::from_entity_type(EntityType::Cat).unwrap();
    assert!(matches!(cat.controller_type, ControllerType::Cat));
    assert_eq!(cat.next_move, Move::Wait);
    assert_eq!(cat.last_attractor_pos, None);
    let dog = EntityController::from_entity_type(EntityType::Dog).unwrap();
    assert!(matches!(dog.controller_type, ControllerType::Dog { chain: None }));
    assert!(EntityController::from_entity_type(EntityType::Bush).is_none());
    assert!(EntityController::from_entity_type(EntityType::Wall).is_none());
}

#[test]
fn taxicab_distance() {
    assert_eq!(position_distance(at(0, 0), at(3, 4)), 7);
    assert_eq!(position_distance(at(-2, 5), at(1, -1)), 9);
    assert_eq!(position_distance(at(2, 2), at(2, 2)), 0);
    let a = scenery(0, 0, EntityType::Bush);
    let b = scenery(1, 2, EntityType::Bush);
    assert_eq!(a.distance(&b), 3);
}

#[test]
fn leash_bound_holds_over_many_turns() {
    // A leashed guard chasing a bait around its anchor never leaves the
    // leash, whatever sequence of turns runs.
    let mut level = Level::empty();
    level.set_entity(chained_dog(1, 0, at(0, 0), 2));
    level.set_entity(scenery(4, 0, EntityType::Bone));
    for _ in 0..6 {
        level.turn(Move::Wait);
        for slot in &level.entities {
            if slot.entity.entity_type == EntityType::Dog {
                let p = slot.entity.position;
                assert!(position_distance(p, at(0, 0)) <= 2);
            }
        }
    }
}

#[test]
fn win_persists_across_turns() {
    let mut level = Level::empty();
    level.set_entity(player(0, 0, EntityType::Cat));
    level.set_entity(scenery(4, 4, EntityType::Mouse));
    level.remove_entity(at(4, 4));
    assert!(matches!(level.get_state(), LevelState::Win));
    level.turn(Move::Wait);
    level.turn(Move::Up);
    assert!(matches!(level.get_state(), LevelState::Win));
}

#[test]
fn player_lookup_and_mutation() {
    let mut level = Level::empty();
    level.set_entity(scenery(1, 1, EntityType::Wall));
    assert!(level.get_player().is_none());
    assert!(level.get_player_mut().is_none());
    level.set_entity(player(2, 2, EntityType::Cat));
    assert_eq!(level.get_player().unwrap().position, at(2, 2));
    let p = level.get_player_mut().unwrap();
    p.controller.as_mut().unwrap().next_move = Move::Up;
    assert_eq!(
        level.get_player().unwrap().controller.as_ref().unwrap().next_move,
        Move::Up
    );
}
