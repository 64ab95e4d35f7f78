//! The model around a level: the play/edit mode and the currently loaded
//! level. Reading and writing level files is the caller's concern; the
//! model only hands out which path to load next.

use vstd::prelude::*;

use crate::entity::{ent_ok, Entity, Move, Pos};
use crate::level::{find_at, world, Level, Slot};
use crate::moves::{guards_kept, turn_spec};

verus! {

#[derive(Clone, Copy, PartialEq, Eq, Structural, Debug)]
pub enum Mode {
    Play,
    Edit,
}

pub struct Model {
    pub mode: Mode,
    pub level: Option<Level>,
}

impl Model {
    /// A fresh model in play mode with no level loaded yet.
    pub fn new() -> (r: Self)
        ensures
            r.mode is Play,
            r.level is None,
    {
        Model { mode: Mode::Play, level: None }
    }

    /// Advance the loaded level one turn with the given player move.
    pub fn make_move(&mut self, player_move: Move)
        requires
            (old(self).level matches Some(l) ==> l.wf()),
        ensures
            final(self).mode == old(self).mode,
            (match (old(self).level, final(self).level) {
                (None, None) => final(self).level is None,
                (Some(l0), Some(l1)) => l1.wf() && l1.entities@ == turn_spec(
                    l0.entities@,
                    player_move,
                ) && guards_kept(l0.entities@, l1.entities@) && l1.path == l0.path
                    && l1.next_level == l0.next_level && l1.next_id == l0.next_id,
                _ => false,
            }),
    {
        match &mut self.level {
            Some(level) => {
                level.turn(player_move);
            },
            None => {},
        }
    }

    /// Put an entity into the loaded level, evicting any occupant of its
    /// cell.
    pub fn set_entity(&mut self, entity: Entity)
        requires
            ent_ok(entity),
            (old(self).level matches Some(l) ==> l.next_id < u64::MAX),
        ensures
            final(self).mode == old(self).mode,
            (match (old(self).level, final(self).level) {
                (None, None) => true,
                (Some(l0), Some(l1)) => l1.next_id == l0.next_id + 1 && (l0.wf() ==> l1.wf())
                    && l1.path == l0.path && l1.next_level == l0.next_level && (match find_at(
                    world(l0.entities@),
                    entity.position,
                ) {
                    Some(i) => l1.entities@ == l0.entities@.remove(i).push(
                        Slot { id: l0.next_id, entity },
                    ),
                    None => l1.entities@ == l0.entities@.push(Slot { id: l0.next_id, entity }),
                }),
                _ => false,
            }),
    {
        match &mut self.level {
            Some(level) => {
                let _ = level.set_entity(entity);
            },
            None => {},
        }
    }

    /// Remove the entity at `position` from the loaded level, if any.
    pub fn remove_entity(&mut self, position: Pos)
        ensures
            final(self).mode == old(self).mode,
            (match (old(self).level, final(self).level) {
                (None, None) => true,
                (Some(l0), Some(l1)) => l1.next_id == l0.next_id && (l0.wf() ==> l1.wf())
                    && l1.path == l0.path && l1.next_level == l0.next_level && (match find_at(
                    world(l0.entities@),
                    position,
                ) {
                    Some(i) => l1.entities@ == l0.entities@.remove(i),
                    None => l1.entities@ == l0.entities@,
                }),
                _ => false,
            }),
    {
        match &mut self.level {
            Some(level) => {
                let _ = level.remove_entity(position);
            },
            None => {},
        }
    }

    /// The path of the follow-up level, for the caller to load.
    pub fn next_level(&self) -> (r: Option<String>)
        ensures
            (match self.level {
                Some(l) => (match l.next_level {
                    Some(p) => r matches Some(rp) && rp@ == p@,
                    None => r is None,
                }),
                None => r is None,
            }),
    {
        match &self.level {
            Some(level) => match &level.next_level {
                Some(p) => Some(p.clone()),
                None => None,
            },
            None => None,
        }
    }

    /// The path the current level came from, for the caller to reload.
    pub fn reset_level(&self) -> (r: Option<String>)
        ensures
            (match self.level {
                Some(l) => r matches Some(rp) && rp@ == l.path@,
                None => r is None,
            }),
    {
        match &self.level {
            Some(level) => Some(level.path.clone()),
            None => None,
        }
    }
}

} // verus!
