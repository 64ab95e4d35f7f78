use mousehunt::entity::{ControllerType, Entity, EntityController, EntityType, Move, Pos};
use mousehunt::level::{Level, LevelState};
use mousehunt::model::{Mode, Model};

fn at(x: i32, y: i32) -> Pos {
    Pos { x, y }
}

fn scenery(x: i32, y: i32, entity_type: EntityType) -> Entity {
    Entity { position: at(x, y), entity_type, controller: None }
}

fn player(x: i32, y: i32, entity_type: EntityType) -> Entity {
    Entity {
        position: at(x, y),
        entity_type,
        controller: Some(EntityController {
            next_move: Move::Wait,
            last_attractor_pos: None,
            controller_type: ControllerType::Player,
        }),
    }
}

#[test]
fn new_model_is_empty_and_playing_mode() {
    let model = Model::new();
    assert!(matches!(model.mode, Mode::Play));
    assert!(model.level.is_none());
}

#[test]
fn model_without_level_ignores_everything() {
    let mut model = Model::new();
    model.make_move(Move::Right);
    model.set_entity(scenery(1, 1, EntityType::Box));
    model.remove_entity(at(1, 1));
    assert!(model.level.is_none());
    assert!(model.next_level().is_none());
    assert!(model.reset_level().is_none());
}

#[test]
fn model_forwards_to_its_level() {
    let mut model = Model { mode: Mode::Edit, level: Some(Level::empty()) };
    model.set_entity(player(0, 0, EntityType::Cat));
    model.set_entity(scenery(3, 0, EntityType::Mouse));
    assert!(matches!(model.level.as_ref().unwrap().get_state(), LevelState::Playing));
    model.make_move(Move::Right);
    let level = model.level.as_ref().unwrap();
    assert!(level.get_entity(at(1, 0)).is_some());
    model.remove_entity(at(3, 0));
    assert!(matches!(model.level.as_ref().unwrap().get_state(), LevelState::Win));
}

#[test]
fn model_hands_out_level_paths() {
    let mut level = Level::empty();
    level.path = "levels/first.json".to_string();
    level.next_level = Some("levels/second.json".to_string());
    let model = Model { mode: Mode::Play, level: Some(level) };
    assert_eq!(model.reset_level(), Some("levels/first.json".to_string()));
    assert_eq!(model.next_level(), Some("levels/second.json".to_string()));
}
