//! Entities of the simulation: grid positions, move directions, the closed
//! set of entity types with their static relation tables, and controllers.

use vstd::prelude::*;

verus! {

/// A grid cell coordinate; also used as a step vector between cells.
#[derive(Clone, Copy, PartialEq, Eq, Structural, Debug)]
pub struct Pos {
    pub x: i32,
    pub y: i32,
}

/// Half-width of the playing field. Keeping every entity this close to the
/// origin keeps all coordinate arithmetic far away from `i32` overflow.
pub const COORD_BOUND: i32 = 1_000_000;

/// The position lies inside the playing field.
pub open spec fn pos_ok(p: Pos) -> bool {
    -COORD_BOUND <= p.x <= COORD_BOUND && -COORD_BOUND <= p.y <= COORD_BOUND
}

pub open spec fn abs_val(v: int) -> int {
    if v < 0 {
        -v
    } else {
        v
    }
}

/// Taxicab distance between two cells.
pub open spec fn manhattan(a: Pos, b: Pos) -> int {
    abs_val(a.x - b.x) + abs_val(a.y - b.y)
}

pub open spec fn zero_pos() -> Pos {
    Pos { x: 0, y: 0 }
}

pub open spec fn pos_add(a: Pos, d: Pos) -> Pos {
    Pos { x: (a.x + d.x) as i32, y: (a.y + d.y) as i32 }
}

pub open spec fn pos_sub(a: Pos, b: Pos) -> Pos {
    Pos { x: (a.x - b.x) as i32, y: (a.y - b.y) as i32 }
}

pub open spec fn pos_neg(d: Pos) -> Pos {
    Pos { x: (-d.x) as i32, y: (-d.y) as i32 }
}

/// Left-hand perpendicular of a step vector.
pub open spec fn pos_perp(d: Pos) -> Pos {
    Pos { x: (-d.y) as i32, y: d.x }
}

pub open spec fn dot(a: Pos, b: Pos) -> int {
    a.x * b.x + a.y * b.y
}

/// A unit step in one of the four cardinal directions.
pub open spec fn is_unit(d: Pos) -> bool {
    d == (Pos { x: 0, y: 1 }) || d == (Pos { x: 0, y: -1i32 }) || d == (Pos { x: 1, y: 0 }) || d
        == (Pos { x: -1i32, y: 0 })
}

/// Taxicab distance between two in-field cells.
pub fn position_distance(pos1: Pos, pos2: Pos) -> (r: i32)
    requires
        pos_ok(pos1),
        pos_ok(pos2),
    ensures
        r == manhattan(pos1, pos2),
{
    let dx: i32 = if pos1.x >= pos2.x {
        pos1.x - pos2.x
    } else {
        pos2.x - pos1.x
    };
    let dy: i32 = if pos1.y >= pos2.y {
        pos1.y - pos2.y
    } else {
        pos2.y - pos1.y
    };
    dx + dy
}

/// One turn's worth of movement: stand still or step one cell.
#[derive(Clone, Copy, PartialEq, Eq, Structural, Debug)]
pub enum Move {
    Wait,
    Up,
    Down,
    Left,
    Right,
}

pub open spec fn move_dir(m: Move) -> Pos {
    match m {
        Move::Wait => Pos { x: 0, y: 0 },
        Move::Up => Pos { x: 0, y: 1 },
        Move::Down => Pos { x: 0, y: -1i32 },
        Move::Right => Pos { x: 1, y: 0 },
        Move::Left => Pos { x: -1i32, y: 0 },
    }
}

pub open spec fn move_from_dir(d: Pos) -> Option<Move> {
    if d == (Pos { x: 0, y: 0 }) {
        Some(Move::Wait)
    } else if d == (Pos { x: 0, y: 1 }) {
        Some(Move::Up)
    } else if d == (Pos { x: 0, y: -1i32 }) {
        Some(Move::Down)
    } else if d == (Pos { x: 1, y: 0 }) {
        Some(Move::Right)
    } else if d == (Pos { x: -1i32, y: 0 }) {
        Some(Move::Left)
    } else {
        None
    }
}

/// The cardinal move for a vector, or `Wait` for anything unmappable.
pub open spec fn snap_move(d: Pos) -> Move {
    match move_from_dir(d) {
        Some(m) => m,
        None => Move::Wait,
    }
}

impl Move {
    pub fn direction(self) -> (r: Pos)
        ensures
            r == move_dir(self),
    {
        match self {
            Move::Wait => Pos { x: 0, y: 0 },
            Move::Up => Pos { x: 0, y: 1 },
            Move::Down => Pos { x: 0, y: -1i32 },
            Move::Right => Pos { x: 1, y: 0 },
            Move::Left => Pos { x: -1i32, y: 0 },
        }
    }

    pub fn from_direction(direction: Pos) -> (r: Option<Self>)
        ensures
            r == move_from_dir(direction),
    {
        if direction.x == 0 && direction.y == 0 {
            Some(Move::Wait)
        } else if direction.x == 0 && direction.y == 1 {
            Some(Move::Up)
        } else if direction.x == 0 && direction.y == -1 {
            Some(Move::Down)
        } else if direction.x == 1 && direction.y == 0 {
            Some(Move::Right)
        } else if direction.x == -1 && direction.y == 0 {
            Some(Move::Left)
        } else {
            None
        }
    }
}

/// The closed set of entity types.
#[derive(Clone, Copy, PartialEq, Eq, Structural, Debug)]
pub enum EntityType {
    Bush,
    Cat,
    Dog,
    Mouse,
    Doghouse,
    Box,
    Cheese,
    Bone,
    Fence,
    Wall,
    Water,
    Fish,
}

/// Types this type flees from. Relations are directed: `Dog` being an enemy
/// of `Cat` does not make `Cat` an enemy of `Dog`.
pub open spec fn enemies_of(t: EntityType) -> Seq<EntityType> {
    match t {
        EntityType::Cat => seq![EntityType::Dog],
        EntityType::Mouse => seq![EntityType::Cat],
        _ => Seq::<EntityType>::empty(),
    }
}

/// Types this type is drawn to and consumes on contact.
pub open spec fn attractors_of(t: EntityType) -> Seq<EntityType> {
    match t {
        EntityType::Cat => seq![EntityType::Mouse, EntityType::Fish],
        EntityType::Dog => seq![EntityType::Cat, EntityType::Bone],
        EntityType::Mouse => seq![EntityType::Cheese],
        _ => Seq::<EntityType>::empty(),
    }
}

pub open spec fn property_of(t: EntityType) -> Option<EntityProperty> {
    match t {
        EntityType::Bush | EntityType::Doghouse | EntityType::Fence | EntityType::Wall
            | EntityType::Water => Some(EntityProperty::Collidable),
        EntityType::Box | EntityType::Cheese | EntityType::Bone => Some(EntityProperty::Pushable),
        _ => None,
    }
}

/// No type is its own attractor, so an entity never consumes itself.
pub proof fn lemma_no_self_attraction(t: EntityType)
    ensures
        !attractors_of(t).contains(t),
{
    assert forall|i: int| 0 <= i < attractors_of(t).len() implies attractors_of(t)[i] != t by {}
}

impl EntityType {
    pub fn enemies(&self) -> (r: Vec<Self>)
        ensures
            r@ == enemies_of(*self),
    {
        match self {
            EntityType::Cat => {
                let v = vec![EntityType::Dog];
                assert(v@ =~= enemies_of(EntityType::Cat));
                v
            },
            EntityType::Mouse => {
                let v = vec![EntityType::Cat];
                assert(v@ =~= enemies_of(EntityType::Mouse));
                v
            },
            _ => {
                let v = Vec::new();
                assert(v@ =~= enemies_of(*self));
                v
            },
        }
    }

    pub fn attractors(&self) -> (r: Vec<Self>)
        ensures
            r@ == attractors_of(*self),
    {
        match self {
            EntityType::Cat => {
                let v = vec![EntityType::Mouse, EntityType::Fish];
                assert(v@ =~= attractors_of(EntityType::Cat));
                v
            },
            EntityType::Dog => {
                let v = vec![EntityType::Cat, EntityType::Bone];
                assert(v@ =~= attractors_of(EntityType::Dog));
                v
            },
            EntityType::Mouse => {
                let v = vec![EntityType::Cheese];
                assert(v@ =~= attractors_of(EntityType::Mouse));
                v
            },
            _ => {
                let v = Vec::new();
                assert(v@ =~= attractors_of(*self));
                v
            },
        }
    }

    pub fn property(&self) -> (r: Option<EntityProperty>)
        ensures
            r == property_of(*self),
    {
        match self {
            EntityType::Bush | EntityType::Doghouse | EntityType::Fence | EntityType::Wall
                | EntityType::Water => Some(EntityProperty::Collidable),
            EntityType::Box | EntityType::Cheese | EntityType::Bone => Some(
                EntityProperty::Pushable,
            ),
            _ => None,
        }
    }
}

#[derive(Clone, Copy, PartialEq, Eq, Structural, Debug)]
pub enum EntityProperty {
    Collidable,
    Pushable,
}

/// A leash: the guard may not end a move farther than `distance` (taxicab)
/// from `origin`.
#[derive(Clone, Copy, PartialEq, Eq, Structural, Debug)]
pub struct Chain {
    pub origin: Pos,
    pub distance: i32,
}

#[derive(Clone, Copy, PartialEq, Eq, Debug)]
pub enum ControllerType {
    Player,
    Cat,
    Dog { chain: Option<Chain> },
    Mouse,
}

/// Per-entity acting state: the direction chosen this turn and the last cell
/// where a desired attractor was seen.
#[derive(Clone, Copy, PartialEq, Eq, Debug)]
pub struct EntityController {
    pub next_move: Move,
    pub last_attractor_pos: Option<Pos>,
    pub controller_type: ControllerType,
}

/// The default controller for a type, if that type acts at all.
pub open spec fn controller_for(t: EntityType) -> Option<EntityController> {
    match t {
        EntityType::Cat => Some(
            EntityController {
                next_move: Move::Wait,
                last_attractor_pos: None,
                controller_type: ControllerType::Cat,
            },
        ),
        EntityType::Dog => Some(
            EntityController {
                next_move: Move::Wait,
                last_attractor_pos: None,
                controller_type: ControllerType::Dog { chain: None },
            },
        ),
        EntityType::Mouse => Some(
            EntityController {
                next_move: Move::Wait,
                last_attractor_pos: None,
                controller_type: ControllerType::Mouse,
            },
        ),
        _ => None,
    }
}

impl EntityController {
    pub fn from_entity_type(entity_type: EntityType) -> (r: Option<Self>)
        ensures
            r == controller_for(entity_type),
    {
        match entity_type {
            EntityType::Cat => Some(
                EntityController {
                    next_move: Move::Wait,
                    last_attractor_pos: None,
                    controller_type: ControllerType::Cat,
                },
            ),
            EntityType::Dog => Some(
                EntityController {
                    next_move: Move::Wait,
                    last_attractor_pos: None,
                    controller_type: ControllerType::Dog { chain: None },
                },
            ),
            EntityType::Mouse => Some(
                EntityController {
                    next_move: Move::Wait,
                    last_attractor_pos: None,
                    controller_type: ControllerType::Mouse,
                },
            ),
            _ => None,
        }
    }
}

/// One simulated object: a cell, a type, and (for acting entities) a
/// controller. Entities without a controller are immobile scenery.
#[derive(Clone, Copy, PartialEq, Eq, Debug)]
pub struct Entity {
    pub position: Pos,
    pub entity_type: EntityType,
    pub controller: Option<EntityController>,
}

/// The controller's remembered positions lie inside the playing field.
pub open spec fn ctrl_ok(c: EntityController) -> bool {
    &&& (c.last_attractor_pos matches Some(p) ==> pos_ok(p))
    &&& (c.controller_type matches ControllerType::Dog { chain: Some(ch) } ==> pos_ok(ch.origin))
}

/// The entity sits inside the playing field.
pub open spec fn ent_ok(e: Entity) -> bool {
    &&& pos_ok(e.position)
    &&& (e.controller matches Some(c) ==> ctrl_ok(c))
}

impl Entity {
    pub fn distance(&self, other: &Self) -> (r: i32)
        requires
            pos_ok(self.position),
            pos_ok(other.position),
        ensures
            r == manhattan(self.position, other.position),
    {
        position_distance(self.position, other.position)
    }
}

} // verus!
