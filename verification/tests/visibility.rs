use mousehunt::entity::{Entity, EntityType, Pos};
use mousehunt::level::Level;

fn at(x: i32, y: i32) -> Pos {
    Pos { x, y }
}

fn scenery(x: i32, y: i32, entity_type: EntityType) -> Entity {
    Entity { position: at(x, y), entity_type, controller: None }
}

#[test]
fn sees_exactly_at_radius_but_not_beyond() {
    let level = Level::empty();
    let a = scenery(0, 0, EntityType::Cat);
    let near = scenery(3, 0, EntityType::Mouse);
    let far = scenery(4, 0, EntityType::Mouse);
    assert_eq!(level.can_see(&a, &near, 3), Some(at(1, 0)));
    assert_eq!(level.can_see(&a, &far, 3), None);
}

#[test]
fn line_blocked_by_occupied_cell() {
    let mut level = Level::empty();
    level.set_entity(scenery(1, 0, EntityType::Wall));
    let a = scenery(0, 0, EntityType::Cat);
    let b = scenery(2, 0, EntityType::Mouse);
    assert_eq!(level.can_see(&a, &b, 3), None);
}

#[test]
fn adjacent_target_always_visible() {
    let mut level = Level::empty();
    level.set_entity(scenery(5, 5, EntityType::Wall));
    let a = scenery(0, 0, EntityType::Cat);
    let b = scenery(0, 1, EntityType::Mouse);
    assert_eq!(level.can_see(&a, &b, 3), Some(at(0, 1)));
}

#[test]
fn corner_point_straddles_two_cells() {
    // The midpoint of (0,0)-(1,1) sits on a half-integer corner; with a
    // positive delta product the candidates are (1,0) and (0,1), in that
    // order.
    let level = Level::empty();
    let a = scenery(0, 0, EntityType::Cat);
    let b = scenery(1, 1, EntityType::Mouse);
    assert_eq!(level.can_see(&a, &b, 3), Some(at(1, 0)));

    let mut one_blocked = Level::empty();
    one_blocked.set_entity(scenery(1, 0, EntityType::Wall));
    assert_eq!(one_blocked.can_see(&a, &b, 3), Some(at(0, 1)));

    let mut both_blocked = Level::empty();
    both_blocked.set_entity(scenery(1, 0, EntityType::Wall));
    both_blocked.set_entity(scenery(0, 1, EntityType::Wall));
    assert_eq!(both_blocked.can_see(&a, &b, 3), None);
}

#[test]
fn corner_point_with_negative_delta_product() {
    // Between (0,0) and (1,-1) the corner candidates are both-ceil then
    // both-floor: (1,0) and (0,-1).
    let level = Level::empty();
    let a = scenery(0, 0, EntityType::Cat);
    let b = scenery(1, -1, EntityType::Mouse);
    assert_eq!(level.can_see(&a, &b, 3), Some(at(1, 0)));

    let mut one_blocked = Level::empty();
    one_blocked.set_entity(scenery(1, 0, EntityType::Wall));
    assert_eq!(one_blocked.can_see(&a, &b, 3), Some(at(0, -1)));
}

#[test]
fn shallow_diagonal_rounds_to_nearest_cell() {
    // From (0,0) to (2,1) the sampled points round to (1,0) and (1,1).
    let level = Level::empty();
    let a = scenery(0, 0, EntityType::Cat);
    let b = scenery(2, 1, EntityType::Mouse);
    assert_eq!(level.can_see(&a, &b, 3), Some(at(1, 0)));

    let mut blocked = Level::empty();
    blocked.set_entity(scenery(1, 0, EntityType::Wall));
    assert_eq!(blocked.can_see(&a, &b, 3), None);
}

#[test]
fn self_is_never_visible() {
    let level = Level::empty();
    let a = scenery(0, 0, EntityType::Cat);
    assert_eq!(level.can_see(&a, &a, 3), None);
}
