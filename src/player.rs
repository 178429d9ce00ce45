use vstd::prelude::*;

use crate::collision::{CollisionEntry, CollisionResult, PushOutcome};
use crate::entity::{Container, Entity, EntityKind};
use crate::history::{HistoryBundle, HistoryEvent};
use crate::pos::{Dir, TilePos};
use crate::undo::lemma_move_keeps_wf;
use crate::world::{
    lemma_occupant_stands_there, slot_ok, translate, world_event,
    slot_view, EntityView, GameWorld, SokobanEntity,
};

verus! {

/// The four movement inputs of the player.
#[derive(Clone, Copy, Debug, PartialEq, Eq, Structural)]
pub enum PlayerAction {
    Up,
    Right,
    Down,
    Left,
}

impl PlayerAction {
    pub open spec fn spec_dir(self) -> Dir {
        match self {
            PlayerAction::Up => Dir::Up,
            PlayerAction::Right => Dir::Right,
            PlayerAction::Down => Dir::Down,
            PlayerAction::Left => Dir::Left,
        }
    }

    /// The direction this input moves the player in.
    pub fn dir(&self) -> (r: Dir)
        ensures
            r == self.spec_dir(),
    {
        match self {
            PlayerAction::Up => Dir::Up,
            PlayerAction::Right => Dir::Right,
            PlayerAction::Down => Dir::Down,
            PlayerAction::Left => Dir::Left,
        }
    }
}

/// Places the player, with an empty history, on `pos` in the container `tilemap_entity`.
pub struct SpawnPlayer {
    pub pos: TilePos,
    pub tilemap_entity: Container,
}

impl SpawnPlayer {
    pub fn new(pos: TilePos, tilemap_entity: Container) -> (r: SpawnPlayer)
        ensures
            r.pos == pos,
            r.tilemap_entity == tilemap_entity,
    {
        SpawnPlayer { pos, tilemap_entity }
    }

    /// Adds the player to `entities` and returns its handle.
    pub fn apply(self, entities: &mut Vec<Option<SokobanEntity>>) -> (r: Entity)
        ensures
            r.0 == old(entities)@.len(),
            final(entities)@.len() == old(entities)@.len() + 1,
            forall|k: int| 0 <= k < old(entities)@.len() ==> final(entities)@[k] == old(entities)@[k],
            slot_view(final(entities)@[r.0 as int]) == Some(
                EntityView {
                    pos: self.pos,
                    kind: None,
                    parent: self.tilemap_entity,
                    has_history: true,
                    log: Seq::empty(),
                    previous: self.pos,
                },
            ),
    {
        let r = Entity(entities.len());
        entities.push(
            Some(
                SokobanEntity {
                    pos: self.pos,
                    kind: None,
                    history: Some(HistoryBundle::new(self.pos)),
                    parent: self.tilemap_entity,
                },
            ),
        );
        r
    }
}

/// Every entity that a resolved move lists stands on a cell it may leave in `dir`, and
/// none is listed twice.
pub proof fn lemma_push_list_valid(w: GameWorld, dir: Dir, list: Seq<Entity>)
    requires
        w.wf(),
        w.player is Some,
        w.synced(),
        w.entities@.len() <= usize::MAX,
        w.collision.push_outcome(w.player_entity(), w.player_view().pos, dir) == PushOutcome::Push(list),
    ensures
        forall|k: int|
            0 <= k < list.len() ==> {
                &&& (#[trigger] list[k]).0 < w.entities@.len()
                &&& w.slots()[list[k].0 as int] matches Some(v) && v.pos.can_step(dir)
                    && v.has_history
            },
        forall|a: int, b: int| 0 <= a < b < list.len() ==> list[a] != list[b],
{
    let m = w.collision;
    let slots = w.slots();
    let n = slots.len() as int;
    let pos = w.player_view().pos;
    let dest = pos.stepped(dir);
    let behind = pos.stepped(dir.spec_opposite());
    let pulled = m.spec_pulled(pos, dir);
    let tail = pulled.push(w.player_entity());
    assert(m.in_bounds(pos) && m.in_bounds(dest));
    if pulled.len() > 0 {
        let e = pulled[0];
        assert(m.entry(behind) == Some(CollisionEntry::Occupied { entity: e, kind: EntityKind::Pullable }));
        lemma_occupant_stands_there(slots, behind, n, e, EntityKind::Pullable);
        assert(m.in_bounds(behind));
        assert(slot_ok(slots[e.0 as int], w.time.0, w.level_root));
    }
    match m.entry(dest) {
        Some(CollisionEntry::Occupied { entity, kind: EntityKind::Pushable }) => {
            lemma_occupant_stands_there(slots, dest, n, entity, EntityKind::Pushable);
            assert(slot_ok(slots[entity.0 as int], w.time.0, w.level_root));
            assert(list == seq![entity] + tail);
        },
        _ => {
            assert(list == tail);
        },
    }
}

impl GameWorld {
    /// The player tries to move one cell in `direction`. When the move resolves to a push,
    /// the listed entities advance and the step is recorded; otherwise, and in a level
    /// without exactly one player, nothing changes. Returns whether the player moved.
    pub fn player_movement(&mut self, direction: Dir) -> (moved: bool)
        requires
            old(self).wf(),
            old(self).synced(),
            old(self).time.0 < usize::MAX,
        ensures
            final(self).wf(),
            old(self).player is None ==> {
                &&& !moved
                &&& final(self).slots() == old(self).slots()
                &&& final(self).records() == old(self).records()
                &&& final(self).time == old(self).time
            },
            old(self).player is Some ==> match old(self).collision.push_outcome(
                old(self).player_entity(),
                old(self).player_view().pos,
                direction,
            ) {
                PushOutcome::Push(list) => {
                    &&& moved
                    &&& (final(self).slots(), final(self).records()) == world_event(
                        translate(old(self).slots(), list, direction),
                        old(self).records(),
                        old(self).time.0,
                        HistoryEvent::Record,
                    )
                    &&& final(self).time.0 == old(self).time.0 + 1
                },
                _ => {
                    &&& !moved
                    &&& final(self).slots() == old(self).slots()
                    &&& final(self).records() == old(self).records()
                    &&& final(self).time == old(self).time
                },
            },
            final(self).collision == old(self).collision,
            final(self).player == old(self).player,
            final(self).level_root == old(self).level_root,
    {
        // the arena's length fits in a usize
        let _ = self.entities.len();
        let player = match self.player {
            Some(p) => p,
            None => {
                return false;
            },
        };
        let player_pos = match &self.entities[player.0] {
            Some(e) => e.pos,
            None => {
                return false;
            },
        };
        match self.collision.player_push_collision(player, player_pos, direction) {
            CollisionResult::Push(push) => {
                proof {
                    lemma_push_list_valid(*self, direction, push@);
                    lemma_move_keeps_wf(
                        self.slots(),
                        self.records(),
                        self.time.0,
                        self.player,
                        self.level_root,
                        push@,
                        direction,
                    );
                }
                self.translate(&push, direction);
                self.apply_history_event(HistoryEvent::Record);
                true
            },
            _ => false,
        }
    }
}

} // verus!

verus! {

/// Pushing a pushable that has a free cell behind it moves both the player and the
/// pushable one cell in the direction of the push.
pub proof fn lemma_push_moves_both(w: GameWorld, dir: Dir, pushed: Entity)
    requires
        w.wf(),
        w.player is Some,
        w.synced(),
        w.entities@.len() <= usize::MAX,
        w.collision.in_bounds(w.player_view().pos),
        w.collision.entry(w.player_view().pos.stepped(dir)) == Some(
            CollisionEntry::Occupied { entity: pushed, kind: EntityKind::Pushable },
        ),
        w.collision.entry(w.player_view().pos.stepped(dir).stepped(dir)) == Some(
            CollisionEntry::Free,
        ),
    ensures
        ({
            let p = w.player_view().pos;
            let outcome = w.collision.push_outcome(w.player_entity(), p, dir);
            &&& outcome is Push
            &&& ({
                let after = world_event(
                    translate(w.slots(), outcome->Push_0, dir),
                    w.records(),
                    w.time.0,
                    HistoryEvent::Record,
                ).0;
                &&& after[w.player_entity().0 as int]->Some_0.pos == p.stepped(dir)
                &&& after[pushed.0 as int]->Some_0.pos == p.stepped(dir).stepped(dir)
            })
        }),
{
    let p = w.player_view().pos;
    let list = w.collision.push_outcome(w.player_entity(), p, dir)->Push_0;
    lemma_push_list_valid(w, dir, list);
    lemma_occupant_stands_there(
        w.slots(),
        p.stepped(dir),
        w.slots().len() as int,
        pushed,
        EntityKind::Pushable,
    );
    assert(list[0] == pushed);
    assert(list[list.len() - 1] == w.player_entity());
    assert(list.contains(pushed));
    assert(list.contains(w.player_entity()));
}

/// Pushing a pushable into a wall resolves to a collision, on which `player_movement`
/// changes nothing.
pub proof fn lemma_push_into_wall_blocked(w: GameWorld, dir: Dir, pushed: Entity, wall: Entity)
    requires
        w.wf(),
        w.player is Some,
        w.collision.in_bounds(w.player_view().pos),
        w.collision.entry(w.player_view().pos.stepped(dir)) == Some(
            CollisionEntry::Occupied { entity: pushed, kind: EntityKind::Pushable },
        ),
        w.collision.entry(w.player_view().pos.stepped(dir).stepped(dir)) == Some(
            CollisionEntry::Occupied { entity: wall, kind: EntityKind::Wall },
        ),
    ensures
        w.collision.push_outcome(w.player_entity(), w.player_view().pos, dir) == PushOutcome::Collision,
{
}

/// Walking away from a pullable right behind the player, onto a free cell, moves both one
/// cell: the player first, the pullable trailing into the cell the player left.
pub proof fn lemma_pull_follows(w: GameWorld, dir: Dir, pulled: Entity)
    requires
        w.wf(),
        w.player is Some,
        w.synced(),
        w.entities@.len() <= usize::MAX,
        w.collision.entry(w.player_view().pos) == Some(CollisionEntry::Free),
        w.collision.entry(w.player_view().pos.stepped(dir.spec_opposite())) == Some(
            CollisionEntry::Occupied { entity: pulled, kind: EntityKind::Pullable },
        ),
        w.collision.entry(w.player_view().pos.stepped(dir)) == Some(CollisionEntry::Free),
    ensures
        ({
            let p = w.player_view().pos;
            let outcome = w.collision.push_outcome(w.player_entity(), p, dir);
            &&& outcome == PushOutcome::Push(seq![pulled, w.player_entity()])
            &&& ({
                let after = world_event(
                    translate(w.slots(), seq![pulled, w.player_entity()], dir),
                    w.records(),
                    w.time.0,
                    HistoryEvent::Record,
                ).0;
                &&& after[w.player_entity().0 as int]->Some_0.pos == p.stepped(dir)
                &&& after[pulled.0 as int]->Some_0.pos == p
            })
        }),
{
    let p = w.player_view().pos;
    let behind = p.stepped(dir.spec_opposite());
    let list = seq![pulled, w.player_entity()];
    assert(w.collision.spec_pulled(p, dir) == seq![pulled]);
    assert(seq![pulled].push(w.player_entity()) =~= list);
    lemma_push_list_valid(w, dir, list);
    lemma_occupant_stands_there(
        w.slots(),
        behind,
        w.slots().len() as int,
        pulled,
        EntityKind::Pullable,
    );
    assert(list[0] == pulled);
    assert(list[1] == w.player_entity());
    assert(list.contains(pulled));
    assert(list.contains(w.player_entity()));
}

} // verus!
