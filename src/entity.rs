use vstd::prelude::*;

verus! {

/// Handle of an entity: its slot in the level's entity arena.
#[derive(Clone, Copy, Debug, PartialEq, Eq, Structural)]
pub struct Entity(pub usize);

/// Handle of a container of entities: the level root, which holds everything that moves,
/// or the layer of static tiles.
#[derive(Clone, Copy, Debug, PartialEq, Eq, Structural)]
pub struct Container(pub usize);

/// What an entity on the grid is, as far as collisions are concerned.
#[derive(Clone, Copy, Debug, PartialEq, Eq, Structural)]
pub enum EntityKind {
    Wall,
    Pit,
    Platform,
    Pullable,
    Pushable,
}

/// Whether an occupant of kind `kind` stops a mover. `player` tells whether the mover is
/// the player: pits stop only the player, platforms stop everything but the player.
pub open spec fn kind_blocks(kind: EntityKind, player: bool) -> bool {
    match kind {
        EntityKind::Wall | EntityKind::Pullable | EntityKind::Pushable => true,
        EntityKind::Pit => player,
        EntityKind::Platform => !player,
    }
}

impl EntityKind {
    /// Whether this occupant stops a mover; see `kind_blocks`.
    pub fn blocks(&self, player: bool) -> (r: bool)
        ensures
            r == kind_blocks(*self, player),
    {
        match self {
            EntityKind::Wall | EntityKind::Pullable | EntityKind::Pushable => true,
            EntityKind::Pit => player,
            EntityKind::Platform => !player,
        }
    }
}

} // verus!
