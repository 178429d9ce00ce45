use vstd::prelude::*;

use crate::collision::{CollisionEntry, CollisionMap};
use crate::entity::{Container, Entity, EntityKind};
use crate::history::{
    apply_event, time_after, timeline_wf, CurrentTime, History, HistoryBundle, HistoryEvent,
    PreviousComponent, Timeline,
};
use crate::pos::{Dir, TilePos};

verus! {

/// An entity of the level: where it stands, what it is, and, for the entities that can
/// move, the history of its position.
pub struct SokobanEntity {
    pub pos: TilePos,
    /// `None` for the player, who is no obstacle of the collision map.
    pub kind: Option<EntityKind>,
    pub history: Option<HistoryBundle>,
    /// The container the entity belongs to.
    pub parent: Container,
}

/// The `previous` of an entity without a history: a fixed value, since nothing reads it.
pub open spec fn no_previous() -> TilePos {
    TilePos { x: 0, y: 0 }
}

/// The mathematical value of a `SokobanEntity`. `log` and `previous` only mean something
/// when `has_history` holds.
pub struct EntityView {
    pub pos: TilePos,
    pub kind: Option<EntityKind>,
    pub parent: Container,
    pub has_history: bool,
    pub log: Seq<(usize, TilePos)>,
    pub previous: TilePos,
}

impl View for SokobanEntity {
    type V = EntityView;

    open spec fn view(&self) -> EntityView {
        match self.history {
            Some(h) => EntityView {
                pos: self.pos,
                kind: self.kind,
                parent: self.parent,
                has_history: true,
                log: h.history.0@,
                previous: h.previous.0,
            },
            None => EntityView {
                pos: self.pos,
                kind: self.kind,
                parent: self.parent,
                has_history: false,
                log: Seq::empty(),
                previous: no_previous(),
            },
        }
    }
}

pub open spec fn timeline_of(v: EntityView) -> Timeline {
    Timeline { pos: v.pos, log: v.log, previous: v.previous }
}

pub open spec fn with_timeline(v: EntityView, s: Timeline) -> EntityView {
    EntityView { pos: s.pos, log: s.log, previous: s.previous, ..v }
}

/// What a history event does to one slot of the arena: only entities with a history change.
pub open spec fn slot_event(s: Option<EntityView>, t: usize, ev: HistoryEvent) -> Option<
    EntityView,
> {
    match s {
        Some(v) => if v.has_history {
            Some(with_timeline(v, apply_event(timeline_of(v), t, ev)))
        } else {
            Some(v)
        },
        None => None,
    }
}

pub open spec fn slots_event(slots: Seq<Option<EntityView>>, t: usize, ev: HistoryEvent) -> Seq<
    Option<EntityView>,
> {
    slots.map_values(|s: Option<EntityView>| slot_event(s, t, ev))
}

pub open spec fn slot_view(s: Option<SokobanEntity>) -> Option<EntityView> {
    match s {
        Some(e) => Some(e@),
        None => None,
    }
}

/// An entity with a history, captured when it was removed from the level.
pub struct HistoryStore {
    pub pos: TilePos,
    pub history: History,
    pub previous: PreviousComponent,
    pub kind: EntityKind,
    pub level_entity: Container,
}

impl View for HistoryStore {
    type V = EntityView;

    /// The entity that resurrecting this record brings back.
    open spec fn view(&self) -> EntityView {
        EntityView {
            pos: self.pos,
            kind: Some(self.kind),
            parent: self.level_entity,
            has_history: true,
            log: self.history.0@,
            previous: self.previous.0,
        }
    }
}

/// The removed entities, each with the step at which it was removed, latest last.
pub struct DespawnHistory(pub Vec<(usize, HistoryStore)>);

pub open spec fn record_view(r: (usize, HistoryStore)) -> (usize, EntityView) {
    (r.0, r.1@)
}

/// The pit that a resurrected entity had fallen into.
pub open spec fn pit_view(pos: TilePos, parent: Container) -> EntityView {
    EntityView {
        pos,
        kind: Some(EntityKind::Pit),
        parent,
        has_history: false,
        log: Seq::empty(),
        previous: no_previous(),
    }
}

/// Resurrection on a rewind from step `t`: every record on top of the stack tagged `t` is
/// popped and brings back its entity, then the pit it fell into, as new slots.
pub open spec fn resurrect(
    slots: Seq<Option<EntityView>>,
    records: Seq<(usize, EntityView)>,
    t: usize,
) -> (Seq<Option<EntityView>>, Seq<(usize, EntityView)>)
    decreases records.len(),
{
    if records.len() > 0 && records.last().0 == t {
        let v = records.last().1;
        resurrect(
            slots.push(Some(v)).push(Some(pit_view(v.pos, v.parent))),
            records.drop_last(),
            t,
        )
    } else {
        (slots, records)
    }
}

/// The slots and the despawn records after the event `ev` at step `t`.
pub open spec fn world_event(
    slots: Seq<Option<EntityView>>,
    records: Seq<(usize, EntityView)>,
    t: usize,
    ev: HistoryEvent,
) -> (Seq<Option<EntityView>>, Seq<(usize, EntityView)>) {
    match ev {
        HistoryEvent::Rewind => {
            let (s, r) = resurrect(slots, records, t);
            (slots_event(s, t, ev), r)
        },
        _ => (slots_event(slots, t, ev), records),
    }
}

/// The occupant that the collision map shows on `p`, looking at the first `n` slots: the
/// last of them with a kind standing there.
pub open spec fn occupant(slots: Seq<Option<EntityView>>, p: TilePos, n: int) -> CollisionEntry
    decreases n,
{
    if n <= 0 {
        CollisionEntry::Free
    } else {
        match slots[n - 1] {
            Some(v) => match v.kind {
                Some(k) => if v.pos == p {
                    CollisionEntry::Occupied { entity: Entity((n - 1) as usize), kind: k }
                } else {
                    occupant(slots, p, n - 1)
                },
                None => occupant(slots, p, n - 1),
            },
            None => occupant(slots, p, n - 1),
        }
    }
}

pub proof fn lemma_occupant_stands_there(
    slots: Seq<Option<EntityView>>,
    p: TilePos,
    n: int,
    e: Entity,
    k: EntityKind,
)
    requires
        n <= slots.len(),
        n <= usize::MAX,
        occupant(slots, p, n) == (CollisionEntry::Occupied { entity: e, kind: k }),
    ensures
        e.0 < n,
        slots[e.0 as int] matches Some(v) && v.pos == p && v.kind == Some(k),
    decreases n,
{
    if n > 0 {
        match slots[n - 1] {
            Some(v) => match v.kind {
                Some(kk) => if v.pos != p {
                    lemma_occupant_stands_there(slots, p, n - 1, e, k);
                },
                None => lemma_occupant_stands_there(slots, p, n - 1, e, k),
            },
            None => lemma_occupant_stands_there(slots, p, n - 1, e, k),
        }
    }
}

impl SokobanEntity {
    /// Applies `ev`, happening at step `time`, to the entity's history, if it has one.
    pub fn handle_history_event(&mut self, time: usize, ev: HistoryEvent)
        ensures
            Some(final(self)@) == slot_event(Some(old(self)@), time, ev),
    {
        match &mut self.history {
            Some(h) => h.handle_history_event(&mut self.pos, time, ev),
            None => {},
        }
    }
}

/// A slot that respects the invariants at step `t`: pushables and pullables have a
/// history, pits have none, and an entity with a history is at rest and belongs to `root`.
pub open spec fn slot_ok(s: Option<EntityView>, t: usize, root: Container) -> bool {
    match s {
        Some(v) => {
            &&& (v.kind == Some(EntityKind::Pushable) || v.kind == Some(EntityKind::Pullable))
                ==> v.has_history
            &&& v.kind == Some(EntityKind::Pit) ==> !v.has_history
            &&& v.has_history ==> timeline_wf(timeline_of(v), t) && v.parent == root
        },
        None => true,
    }
}

/// A despawn record that respects the invariants at step `t`: taken at or before `t`, of a
/// pushable with a history at rest at the step it was taken, belonging to `root`.
pub open spec fn record_ok(r: (usize, EntityView), t: usize, root: Container) -> bool {
    &&& r.0 <= t
    &&& r.1.has_history
    &&& r.1.kind == Some(EntityKind::Pushable)
    &&& timeline_wf(timeline_of(r.1), r.0)
    &&& r.1.parent == root
}

/// Whether slot `s` holds a pit.
pub open spec fn is_pit(s: Option<EntityView>) -> bool {
    s matches Some(v) && v.kind == Some(EntityKind::Pit)
}

/// The pits, and the pits that the despawn records will bring back, stand on distinct cells.
pub open spec fn pits_apart(slots: Seq<Option<EntityView>>, records: Seq<(usize, EntityView)>) -> bool {
    &&& forall|i: int, j: int|
        0 <= i < slots.len() && 0 <= j < slots.len() && i != j && is_pit(#[trigger] slots[i])
            && is_pit(#[trigger] slots[j]) ==> slots[i]->Some_0.pos != slots[j]->Some_0.pos
    &&& forall|i: int, k: int|
        0 <= i < slots.len() && 0 <= k < records.len() && is_pit(#[trigger] slots[i])
            ==> slots[i]->Some_0.pos != (#[trigger] records[k]).1.pos
    &&& forall|k: int, l: int|
        0 <= k < records.len() && 0 <= l < records.len() && k != l ==> (#[trigger] records[k]).1.pos
            != (#[trigger] records[l]).1.pos
}

/// The invariants of a level at step `t`: the player, if any, exists, has a history and no
/// kind;
/// every slot and every record respects the invariants; the records are in step order; no
/// two pits share a cell.
pub open spec fn world_wf(
    slots: Seq<Option<EntityView>>,
    records: Seq<(usize, EntityView)>,
    t: usize,
    player: Option<Entity>,
    root: Container,
) -> bool {
    &&& player matches Some(p) ==> p.0 < slots.len() && (slots[p.0 as int] matches Some(v)
        && v.kind is None && v.has_history)
    &&& forall|i: int| 0 <= i < slots.len() ==> slot_ok(#[trigger] slots[i], t, root)
    &&& forall|i: int| 0 <= i < records.len() ==> record_ok(#[trigger] records[i], t, root)
    &&& forall|a: int, b: int| 0 <= a < b < records.len() ==> records[a].0 <= records[b].0
    &&& pits_apart(slots, records)
}

/// A collision map of the given size that shows, on every cell, the occupant of that cell
/// among `entities`.
pub fn init_collision_map(width: i32, height: i32, entities: &Vec<Option<SokobanEntity>>) -> (r:
    CollisionMap)
    requires
        0 <= width,
        0 <= height,
        width * height <= usize::MAX,
    ensures
        r.wf(),
        r.0.width == width,
        r.0.height == height,
        forall|p: TilePos|
            r.in_bounds(p) ==> #[trigger] r.entry(p) == Some(
                occupant(
                    entities@.map_values(|s: Option<SokobanEntity>| slot_view(s)),
                    p,
                    entities@.len() as int,
                ),
            ),
{
    let ghost slots = entities@.map_values(|s: Option<SokobanEntity>| slot_view(s));
    let mut map = CollisionMap::new(width, height);
    let n = entities.len();
    let mut i: usize = 0;
    while i < n
        invariant
            n == entities@.len(),
            slots == entities@.map_values(|s: Option<SokobanEntity>| slot_view(s)),
            i <= n,
            map.wf(),
            map.0.width == width,
            map.0.height == height,
            forall|p: TilePos|
                map.in_bounds(p) ==> #[trigger] map.entry(p) == Some(occupant(slots, p, i as int)),
        decreases n - i,
    {
        let ghost m0 = map;
        proof {
            assert(slots[i as int] == slot_view(entities@[i as int]));
        }
        if let Some(e) = &entities[i] {
            if let Some(kind) = e.kind {
                map.0.set(e.pos, CollisionEntry::Occupied { entity: Entity(i), kind });
            }
        }
        proof {
            assert forall|p: TilePos| map.in_bounds(p) implies #[trigger] map.entry(p) == Some(
                occupant(slots, p, i + 1),
            ) by {
                assert(m0.entry(p) == Some(occupant(slots, p, i as int)));
            }
        }
        i = i + 1;
    }
    map
}

/// Every entity of `slots` whose handle is in `list` moves one cell in `dir`.
pub open spec fn translate(slots: Seq<Option<EntityView>>, list: Seq<Entity>, dir: Dir) -> Seq<
    Option<EntityView>,
> {
    Seq::new(
        slots.len(),
        |j: int|
            match slots[j] {
                Some(v) => if list.contains(Entity(j as usize)) {
                    Some(EntityView { pos: v.pos.stepped(dir), ..v })
                } else {
                    Some(v)
                },
                None => None,
            },
    )
}

/// The state of a level being played.
pub struct GameWorld {
    /// The entity arena: an entity's handle is its slot; removed entities leave `None`.
    pub entities: Vec<Option<SokobanEntity>>,
    pub time: CurrentTime,
    pub collision: CollisionMap,
    pub despawn_history: DespawnHistory,
    /// The player, when the level has exactly one.
    pub player: Option<Entity>,
    /// The container of the movable entities.
    pub level_root: Container,
}

impl GameWorld {
    pub open spec fn slots(&self) -> Seq<Option<EntityView>> {
        self.entities@.map_values(|s: Option<SokobanEntity>| slot_view(s))
    }

    pub open spec fn records(&self) -> Seq<(usize, EntityView)> {
        self.despawn_history.0@.map_values(|r: (usize, HistoryStore)| record_view(r))
    }

    pub open spec fn player_entity(&self) -> Entity {
        self.player->Some_0
    }

    pub open spec fn player_view(&self) -> EntityView {
        self.slots()[self.player_entity().0 as int]->Some_0
    }

    /// The invariants the level keeps at every step.
    pub open spec fn wf(&self) -> bool {
        &&& self.collision.wf()
        &&& world_wf(self.slots(), self.records(), self.time.0, self.player, self.level_root)
    }

    /// Where entity `e` stands, if it is in the level.
    pub fn position(&self, e: Entity) -> (r: Option<TilePos>)
        ensures
            r == if e.0 < self.slots().len() {
                match self.slots()[e.0 as int] {
                    Some(v) => Some(v.pos),
                    None => None,
                }
            } else {
                None
            },
    {
        if e.0 < self.entities.len() {
            match &self.entities[e.0] {
                Some(ent) => Some(ent.pos),
                None => None,
            }
        } else {
            None
        }
    }

    /// The kind of entity `e`, if it is in the level and has one.
    pub fn kind(&self, e: Entity) -> (r: Option<EntityKind>)
        ensures
            r == if e.0 < self.slots().len() {
                match self.slots()[e.0 as int] {
                    Some(v) => v.kind,
                    None => None,
                }
            } else {
                None
            },
    {
        if e.0 < self.entities.len() {
            match &self.entities[e.0] {
                Some(ent) => ent.kind,
                None => None,
            }
        } else {
            None
        }
    }

    /// Applies `ev` to every entity with a history, at the current step, then moves the
    /// step counter. A `Rewind` first resurrects the entities removed at the step it undoes.
    pub fn handle_history_event(&mut self, ev: HistoryEvent)
        requires
            old(self).wf(),
            old(self).time.0 < usize::MAX,
        ensures
            final(self).wf(),
            (final(self).slots(), final(self).records()) == world_event(
                old(self).slots(),
                old(self).records(),
                old(self).time.0,
                ev,
            ),
            final(self).time.0 == time_after(old(self).time.0, ev),
            final(self).collision == old(self).collision,
            final(self).player == old(self).player,
            final(self).level_root == old(self).level_root,
    {
        proof {
            crate::undo::lemma_event_keeps_wf(
                self.slots(),
                self.records(),
                self.time.0,
                self.player,
                self.level_root,
                ev,
            );
        }
        self.apply_history_event(ev);
    }

    /// `handle_history_event` for a level that may have moves pending.
    pub(crate) fn apply_history_event(&mut self, ev: HistoryEvent)
        requires
            old(self).time.0 < usize::MAX,
        ensures
            (final(self).slots(), final(self).records()) == world_event(
                old(self).slots(),
                old(self).records(),
                old(self).time.0,
                ev,
            ),
            final(self).time.0 == time_after(old(self).time.0, ev),
            final(self).collision == old(self).collision,
            final(self).player == old(self).player,
            final(self).level_root == old(self).level_root,
    {
        if ev == HistoryEvent::Rewind {
            self.rewind();
        }
        let ghost s0 = self.slots();
        let t = self.time.0;
        let n = self.entities.len();
        let mut i: usize = 0;
        while i < n
            invariant
                n == self.entities@.len(),
                s0.len() == n,
                i <= n,
                t == self.time.0,
                t == old(self).time.0,
                self.collision == old(self).collision,
                self.player == old(self).player,
                self.level_root == old(self).level_root,
                self.records() == if ev == HistoryEvent::Rewind {
                    resurrect(old(self).slots(), old(self).records(), t).1
                } else {
                    old(self).records()
                },
                s0 == if ev == HistoryEvent::Rewind {
                    resurrect(old(self).slots(), old(self).records(), t).0
                } else {
                    old(self).slots()
                },
                forall|j: int| 0 <= j < i ==> self.slots()[j] == slot_event(s0[j], t, ev),
                forall|j: int| i <= j < n ==> self.slots()[j] == s0[j],
            decreases n - i,
        {
            let ghost before = self.slots();
            match &mut self.entities[i] {
                Some(e) => e.handle_history_event(t, ev),
                None => {},
            }
            proof {
                assert(self.slots() =~= before.update(i as int, slot_event(before[i as int], t, ev)));
            }
            i = i + 1;
        }
        proof {
            assert(self.slots() =~= slots_event(s0, t, ev));
        }
        self.time.handle(ev);
    }

    /// Brings back the entities removed at the current step: pops every despawn record on
    /// top of the stack tagged with the current step, and spawns its entity and the pit it
    /// fell into.
    pub fn rewind(&mut self)
        ensures
            (final(self).slots(), final(self).records()) == resurrect(
                old(self).slots(),
                old(self).records(),
                old(self).time.0,
            ),
            final(self).time == old(self).time,
            final(self).collision == old(self).collision,
            final(self).player == old(self).player,
            final(self).level_root == old(self).level_root,
    {
        let t = self.time.0;
        loop
            invariant
                t == self.time.0,
                self.time == old(self).time,
                self.collision == old(self).collision,
                self.player == old(self).player,
                self.level_root == old(self).level_root,
                resurrect(self.slots(), self.records(), t) == resurrect(
                    old(self).slots(),
                    old(self).records(),
                    t,
                ),
            ensures
                (self.slots(), self.records()) == resurrect(
                    old(self).slots(),
                    old(self).records(),
                    t,
                ),
            decreases self.despawn_history.0@.len(),
        {
            let n = self.despawn_history.0.len();
            if n == 0 {
                break ;
            }
            if self.despawn_history.0[n - 1].0 != t {
                break ;
            }
            let ghost slots0 = self.slots();
            let ghost records0 = self.records();
            match self.despawn_history.0.pop() {
                Some((_, despawn)) => {
                    let pos = despawn.pos;
                    let parent = despawn.level_entity;
                    let ghost v = despawn@;
                    self.entities.push(
                        Some(
                            SokobanEntity {
                                pos,
                                kind: Some(despawn.kind),
                                history: Some(
                                    HistoryBundle {
                                        history: despawn.history,
                                        previous: despawn.previous,
                                    },
                                ),
                                parent,
                            },
                        ),
                    );
                    self.entities.push(
                        Some(
                            SokobanEntity {
                                pos,
                                kind: Some(EntityKind::Pit),
                                history: None,
                                parent,
                            },
                        ),
                    );
                    proof {
                        assert(records0.last().1 == v);
                        assert(self.records() =~= records0.drop_last());
                        assert(self.slots() =~= slots0.push(Some(v)).push(
                            Some(pit_view(v.pos, v.parent)),
                        ));
                    }
                },
                None => {
                    break ;
                },
            }
        }
    }

    /// Removes `entity` from the level, keeping everything needed to bring it back in a
    /// despawn record tagged with the current step.
    pub fn despawn_sokoban_entity(&mut self, entity: Entity)
        requires
            entity.0 < old(self).entities@.len(),
            old(self).slots()[entity.0 as int] matches Some(v) && v.has_history && v.kind is Some,
        ensures
            final(self).slots() == old(self).slots().update(entity.0 as int, None),
            final(self).records() == old(self).records().push(
                (
                    old(self).time.0,
                    EntityView {
                        parent: old(self).level_root,
                        ..old(self).slots()[entity.0 as int]->Some_0
                    },
                ),
            ),
            final(self).time == old(self).time,
            final(self).collision == old(self).collision,
            final(self).player == old(self).player,
            final(self).level_root == old(self).level_root,
    {
        let mut slot: Option<SokobanEntity> = None;
        std::mem::swap(&mut slot, &mut self.entities[entity.0]);
        if let Some(e) = slot {
            if let Some(kind) = e.kind {
                if let Some(h) = e.history {
                    let despawn = HistoryStore {
                        pos: e.pos,
                        history: h.history,
                        previous: h.previous,
                        kind,
                        level_entity: self.level_root,
                    };
                    self.despawn_history.0.push((self.time.0, despawn));
                }
            }
        }
        proof {
            assert(self.slots() =~= old(self).slots().update(entity.0 as int, None));
            assert(self.records() =~= old(self).records().push(
                (
                    old(self).time.0,
                    EntityView {
                        parent: old(self).level_root,
                        ..old(self).slots()[entity.0 as int]->Some_0
                    },
                ),
            ));
        }
    }

    /// Rebuilds the collision map from where the entities stand now.
    pub fn sync_collision_map(&mut self)
        requires
            old(self).collision.wf(),
        ensures
            old(self).wf() ==> final(self).wf(),
            final(self).synced(),
            final(self).collision.wf(),
            final(self).collision.0.width == old(self).collision.0.width,
            final(self).collision.0.height == old(self).collision.0.height,
            final(self).entities == old(self).entities,
            final(self).time == old(self).time,
            final(self).despawn_history == old(self).despawn_history,
            final(self).player == old(self).player,
            final(self).level_root == old(self).level_root,
    {
        // the map's cell count fits in a usize
        let _ = self.collision.0.cells.len();
        self.collision = init_collision_map(
            self.collision.0.width,
            self.collision.0.height,
            &self.entities,
        );
    }

    /// Moves each entity of `list` one cell in `dir`.
    pub(crate) fn translate(&mut self, list: &Vec<Entity>, dir: Dir)
        requires
            forall|k: int|
                0 <= k < list@.len() ==> {
                    &&& (#[trigger] list@[k]).0 < old(self).entities@.len()
                    &&& old(self).slots()[list@[k].0 as int] matches Some(v) && v.pos.can_step(dir)
                },
            forall|a: int, b: int| 0 <= a < b < list@.len() ==> list@[a] != list@[b],
        ensures
            final(self).slots() == translate(old(self).slots(), list@, dir),
            final(self).time == old(self).time,
            final(self).despawn_history == old(self).despawn_history,
            final(self).collision == old(self).collision,
            final(self).player == old(self).player,
            final(self).level_root == old(self).level_root,
    {
        let ghost s0 = self.slots();
        let n = self.entities.len();
        let mut k: usize = 0;
        proof {
            assert(self.slots() =~= translate(s0, list@.subrange(0, 0), dir));
        }
        while k < list.len()
            invariant
                k <= list@.len(),
                s0 == old(self).slots(),
                self.entities@.len() == s0.len(),
                s0.len() == n,
                self.slots() == translate(s0, list@.subrange(0, k as int), dir),
                self.time == old(self).time,
                self.despawn_history == old(self).despawn_history,
                self.collision == old(self).collision,
                self.player == old(self).player,
                self.level_root == old(self).level_root,
                forall|k: int|
                    0 <= k < list@.len() ==> {
                        &&& (#[trigger] list@[k]).0 < s0.len()
                        &&& s0[list@[k].0 as int] matches Some(v) && v.pos.can_step(dir)
                    },
                forall|a: int, b: int| 0 <= a < b < list@.len() ==> list@[a] != list@[b],
            decreases list@.len() - k,
        {
            let e = list[k];
            let ghost before = self.slots();
            let ghost done = list@.subrange(0, k as int);
            let ghost next = list@.subrange(0, k + 1);
            proof {
                assert(!done.contains(e)) by {
                    if done.contains(e) {
                        let a = choose|a: int| 0 <= a < done.len() && done[a] == e;
                        assert(list@[a] == list@[k as int]);
                    }
                }
                assert(before[e.0 as int] == s0[e.0 as int]);
            }
            match &mut self.entities[e.0] {
                Some(ent) => ent.pos.add_dir(dir),
                None => {},
            }
            proof {
                assert forall|j: int| 0 <= j < s0.len() implies (#[trigger] next.contains(
                    Entity(j as usize),
                )) == (done.contains(Entity(j as usize)) || e == Entity(j as usize)) by {
                    if next.contains(Entity(j as usize)) && !(e == Entity(j as usize)) {
                        let a = choose|a: int| 0 <= a < next.len() && next[a] == Entity(j as usize);
                        assert(done[a] == Entity(j as usize));
                    }
                    if done.contains(Entity(j as usize)) {
                        let a = choose|a: int| 0 <= a < done.len() && done[a] == Entity(j as usize);
                        assert(next[a] == Entity(j as usize));
                    }
                    if e == Entity(j as usize) {
                        assert(next[k as int] == e);
                    }
                }
                assert forall|j: int| 0 <= j < s0.len() implies #[trigger] self.slots()[j]
                    == translate(s0, next, dir)[j] by {
                    if j != e.0 as int {
                        assert(self.slots()[j] == before[j]);
                        assert(e != Entity(j as usize));
                    }
                }
                assert(self.slots() =~= translate(s0, next, dir));
            }
            k = k + 1;
        }
        proof {
            assert(list@.subrange(0, list@.len() as int) =~= list@);
        }
    }

    /// The collision map shows, on every cell, the occupant of that cell.
    pub open spec fn synced(&self) -> bool {
        forall|p: TilePos|
            self.collision.in_bounds(p) ==> #[trigger] self.collision.entry(p) == Some(
                occupant(self.slots(), p, self.slots().len() as int),
            )
    }
}

} // verus!
