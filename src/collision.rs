use vstd::prelude::*;

use crate::entity::{kind_blocks, Entity, EntityKind};
use crate::grid::Grid;
use crate::pos::{Dir, TilePos};

verus! {

/// One cell of the occupancy map.
#[derive(Clone, Copy, Debug, PartialEq, Eq, Structural)]
pub enum CollisionEntry {
    Free,
    Occupied { entity: Entity, kind: EntityKind },
}

/// Which entity, if any, stands on each cell of the level.
pub struct CollisionMap(pub Grid<CollisionEntry>);

/// What an attempted move resolves to.
pub enum CollisionResult {
    /// The move goes ahead; each listed entity advances one cell.
    Push(Vec<Entity>),
    /// The move is blocked.
    Collision,
    /// The mover or the cell it heads for lies outside the map.
    OutOfBounds,
}

/// The mathematical value of a `CollisionResult`.
pub enum PushOutcome {
    Push(Seq<Entity>),
    Collision,
    OutOfBounds,
}

impl View for CollisionResult {
    type V = PushOutcome;

    open spec fn view(&self) -> PushOutcome {
        match self {
            CollisionResult::Push(v) => PushOutcome::Push(v@),
            CollisionResult::Collision => PushOutcome::Collision,
            CollisionResult::OutOfBounds => PushOutcome::OutOfBounds,
        }
    }
}

impl CollisionMap {
    pub open spec fn wf(&self) -> bool {
        self.0.wf()
    }

    pub open spec fn in_bounds(&self, p: TilePos) -> bool {
        self.0.in_bounds(p)
    }

    pub open spec fn entry(&self, p: TilePos) -> Option<CollisionEntry> {
        self.0.spec_get(p)
    }

    /// Whether cell `p` stops a mover: cells outside the map always do.
    pub open spec fn spec_blocked(&self, p: TilePos, player: bool) -> bool {
        match self.entry(p) {
            None => true,
            Some(CollisionEntry::Free) => false,
            Some(CollisionEntry::Occupied { kind, .. }) => kind_blocks(kind, player),
        }
    }

    /// The pullable that follows a mover leaving `pos` in direction `dir`, if any: one stands
    /// right behind the mover, and the cell the mover leaves does not stop non-players.
    pub open spec fn spec_pulled(&self, pos: TilePos, dir: Dir) -> Seq<Entity> {
        let behind = pos.stepped(dir.spec_opposite());
        if !self.spec_blocked(pos, false) {
            match self.entry(behind) {
                Some(CollisionEntry::Occupied { entity, kind: EntityKind::Pullable }) => seq![
                    entity,
                ],
                _ => seq![],
            }
        } else {
            seq![]
        }
    }

    /// How the move of `pusher`, standing on `pos`, in direction `dir` resolves.
    pub open spec fn push_outcome(&self, pusher: Entity, pos: TilePos, dir: Dir) -> PushOutcome {
        let dest = pos.stepped(dir);
        let tail = self.spec_pulled(pos, dir).push(pusher);
        if !self.in_bounds(pos) || !self.in_bounds(dest) {
            PushOutcome::OutOfBounds
        } else {
            match self.entry(dest) {
                Some(CollisionEntry::Occupied { entity, kind: EntityKind::Pushable }) => {
                    if self.spec_blocked(dest.stepped(dir), false) {
                        PushOutcome::Collision
                    } else {
                        PushOutcome::Push(seq![entity] + tail)
                    }
                },
                Some(CollisionEntry::Occupied { kind: EntityKind::Wall, .. })
                | Some(CollisionEntry::Occupied { kind: EntityKind::Pullable, .. })
                | Some(CollisionEntry::Occupied { kind: EntityKind::Pit, .. }) => {
                    PushOutcome::Collision
                },
                _ => PushOutcome::Push(tail),
            }
        }
    }

    /// An empty map of the given size.
    pub fn new(width: i32, height: i32) -> (r: CollisionMap)
        requires
            0 <= width,
            0 <= height,
            width * height <= usize::MAX,
        ensures
            r.wf(),
            r.0.width == width,
            r.0.height == height,
            forall|p: TilePos| r.in_bounds(p) ==> r.entry(p) == Some(CollisionEntry::Free),
    {
        CollisionMap(Grid::new(width, height, CollisionEntry::Free))
    }

    /// Whether cell `pos` stops a mover; `player` tells whether the mover is the player.
    pub fn is_blocked(&self, pos: TilePos, player: bool) -> (r: bool)
        requires
            self.wf(),
        ensures
            r == self.spec_blocked(pos, player),
    {
        match self.0.get(pos) {
            None => true,
            Some(CollisionEntry::Free) => false,
            Some(CollisionEntry::Occupied { entity: _, kind }) => kind.blocks(player),
        }
    }

    /// Resolves the move of `pusher`, standing on `pusher_pos`, in direction `direction`:
    /// which entities advance (the pushed object first, then the pulled one, then the
    /// pusher), or why nothing moves.
    pub fn player_push_collision(&self, pusher: Entity, pusher_pos: TilePos, direction: Dir) -> (r:
        CollisionResult)
        requires
            self.wf(),
            self.0.width <= i32::MAX,
            self.0.height <= i32::MAX,
        ensures
            r@ == self.push_outcome(pusher, pusher_pos, direction),
    {
        if !(0 <= pusher_pos.x && pusher_pos.x < self.0.width && 0 <= pusher_pos.y && pusher_pos.y
            < self.0.height) {
            return CollisionResult::OutOfBounds;
        }
        let dest = pusher_pos.neighbor(direction);
        let mut moving_entities: Vec<Entity> = Vec::new();
        match self.0.get(dest) {
            None => {
                return CollisionResult::OutOfBounds;
            },
            Some(CollisionEntry::Occupied { entity: pushed, kind }) => {
                match kind {
                    EntityKind::Pushable => {
                        if self.is_blocked(dest.neighbor(direction), false) {
                            return CollisionResult::Collision;
                        } else {
                            moving_entities.push(*pushed);
                        }
                    },
                    EntityKind::Wall | EntityKind::Pullable | EntityKind::Pit => {
                        return CollisionResult::Collision;
                    },
                    EntityKind::Platform => {},
                }
            },
            Some(CollisionEntry::Free) => {},
        }
        let opp = pusher_pos.neighbor(direction.opposite());
        if !self.is_blocked(pusher_pos, false) {
            if let Some(CollisionEntry::Occupied { entity, kind }) = self.0.get(opp) {
                if matches!(kind, EntityKind::Pullable) {
                    moving_entities.push(*entity);
                }
            }
        }
        moving_entities.push(pusher);
        proof {
            let tail = self.spec_pulled(pusher_pos, direction).push(pusher);
            match self.entry(dest) {
                Some(CollisionEntry::Occupied { entity, kind: EntityKind::Pushable }) => {
                    assert(moving_entities@ =~= seq![entity] + tail);
                },
                _ => {
                    assert(moving_entities@ =~= tail);
                },
            }
        }
        CollisionResult::Push(moving_entities)
    }
}

} // verus!

verus! {

/// A mover standing outside the map always resolves to `OutOfBounds`, never to
/// `Collision`.
pub proof fn lemma_outside_is_out_of_bounds(m: CollisionMap, pusher: Entity, pos: TilePos, dir: Dir)
    requires
        !m.in_bounds(pos),
    ensures
        m.push_outcome(pusher, pos, dir) == PushOutcome::OutOfBounds,
{
}

} // verus!
