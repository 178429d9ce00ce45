use vstd::prelude::*;

use crate::collision::{CollisionMap, PushOutcome};
use crate::entity::{Container, Entity, EntityKind};
use crate::history::{time_after, HistoryEvent};
use crate::pos::{Dir, TilePos};
use crate::reach::{reachable, reachable_cells};
use crate::world::{
    is_pit, record_ok, slot_ok, slots_event, translate, world_event, world_wf, EntityView, GameWorld,
};

verus! {

/// Whether slot `s` holds a pit standing on `p`.
pub open spec fn is_pit_at(s: Option<EntityView>, p: TilePos) -> bool {
    s matches Some(v) && v.kind == Some(EntityKind::Pit) && v.pos == p
}

/// The first slot from `j` on that holds a pit standing on `p`.
pub open spec fn pit_at(slots: Seq<Option<EntityView>>, p: TilePos, j: int) -> Option<int>
    decreases slots.len() - j,
{
    if j < 0 || j >= slots.len() {
        None
    } else if is_pit_at(slots[j], p) {
        Some(j)
    } else {
        pit_at(slots, p, j + 1)
    }
}

proof fn lemma_pit_at(slots: Seq<Option<EntityView>>, p: TilePos, j: int)
    ensures
        pit_at(slots, p, j) matches Some(k) ==> 0 <= j <= k < slots.len() && is_pit_at(
            slots[k],
            p,
        ),
    decreases slots.len() - j,
{
    if 0 <= j < slots.len() && !is_pit_at(slots[j], p) {
        lemma_pit_at(slots, p, j + 1);
    }
}

/// Slot `i` of the pit pass: a pushable with a history that stands on a pit is removed
/// together with the first pit on its cell (the only one, on a level that keeps its
/// invariants: see `lemma_pit_step_takes_that_pit`), and recorded at step `t` under the
/// container `root`.
pub open spec fn pit_step(
    slots: Seq<Option<EntityView>>,
    records: Seq<(usize, EntityView)>,
    t: usize,
    root: Container,
    i: int,
) -> (Seq<Option<EntityView>>, Seq<(usize, EntityView)>) {
    match slots[i] {
        Some(v) => if v.kind == Some(EntityKind::Pushable) && v.has_history {
            match pit_at(slots, v.pos, 0) {
                Some(j) => (
                    slots.update(i, None).update(j, None),
                    records.push((t, EntityView { parent: root, ..v })),
                ),
                None => (slots, records),
            }
        } else {
            (slots, records)
        },
        None => (slots, records),
    }
}

/// The pit pass over the first `n` slots, in slot order.
pub open spec fn pit_pass(
    slots: Seq<Option<EntityView>>,
    records: Seq<(usize, EntityView)>,
    t: usize,
    root: Container,
    n: int,
) -> (Seq<Option<EntityView>>, Seq<(usize, EntityView)>)
    decreases n,
{
    if n <= 0 {
        (slots, records)
    } else {
        let (s, r) = pit_pass(slots, records, t, root, n - 1);
        pit_step(s, r, t, root, n - 1)
    }
}

/// Whether slot `k` holds a pushable with a history standing on a pit.
pub open spec fn pushable_on_pit(slots: Seq<Option<EntityView>>, k: int) -> bool {
    slots[k] matches Some(v) && v.kind == Some(EntityKind::Pushable) && v.has_history && pit_at(
        slots,
        v.pos,
        0,
    ) is Some
}

proof fn lemma_pit_at_none(slots: Seq<Option<EntityView>>, p: TilePos, from: int)
    requires
        0 <= from,
        pit_at(slots, p, from) is None,
    ensures
        forall|k: int| from <= k < slots.len() ==> !is_pit_at(#[trigger] slots[k], p),
    decreases slots.len() - from,
{
    if from < slots.len() {
        lemma_pit_at_none(slots, p, from + 1);
    }
}

proof fn lemma_pit_pass_clears(
    slots: Seq<Option<EntityView>>,
    records: Seq<(usize, EntityView)>,
    t: usize,
    root: Container,
    n: int,
)
    requires
        0 <= n <= slots.len(),
    ensures
        ({
            let s = pit_pass(slots, records, t, root, n).0;
            &&& s.len() == slots.len()
            &&& forall|k: int| 0 <= k < s.len() ==> #[trigger] s[k] == slots[k] || s[k] is None
            &&& forall|k: int| 0 <= k < n ==> !pushable_on_pit(s, k)
        }),
    decreases n,
{
    if n > 0 {
        lemma_pit_pass_clears(slots, records, t, root, n - 1);
        let (s, r) = pit_pass(slots, records, t, root, n - 1);
        let s2 = pit_step(s, r, t, root, n - 1).0;
        lemma_pit_at(s, match s[n - 1] {
            Some(v) => v.pos,
            None => TilePos { x: 0, y: 0 },
        }, 0);
        assert forall|k: int| 0 <= k < n implies !pushable_on_pit(s2, k) by {
            if k < n - 1 && s2[k] is Some {
                assert(s2[k] == s[k]);
                if let Some(v) = s[k] {
                    if v.kind == Some(EntityKind::Pushable) && v.has_history {
                        assert(!pushable_on_pit(s, k));
                        lemma_pit_at_none(s, v.pos, 0);
                        lemma_pit_at(s2, v.pos, 0);
                        if let Some(q) = pit_at(s2, v.pos, 0) {
                            assert(s2[q] == s[q]);
                        }
                    }
                }
            }
        }
        assert forall|k: int| 0 <= k < s2.len() implies #[trigger] s2[k] == slots[k] || s2[k] is None by {
            assert(s2[k] == s[k] || s2[k] is None);
        }
    }
}

proof fn lemma_pit_at_unique(slots: Seq<Option<EntityView>>, p: TilePos, from: int, j: int)
    requires
        0 <= from <= j < slots.len(),
        is_pit_at(slots[j], p),
        forall|k: int| from <= k < slots.len() && is_pit_at(#[trigger] slots[k], p) ==> k == j,
    ensures
        pit_at(slots, p, from) == Some(j),
    decreases j - from,
{
    if from < j {
        lemma_pit_at_unique(slots, p, from + 1, j);
    }
}

/// On a level that keeps its invariants, the pit pass step for a pushable standing on the
/// cell of pit `j` removes the pushable and that pit, and records the pushable at step `t`.
pub proof fn lemma_pit_step_takes_that_pit(
    slots: Seq<Option<EntityView>>,
    records: Seq<(usize, EntityView)>,
    t: usize,
    player: Option<Entity>,
    root: Container,
    i: int,
    j: int,
)
    requires
        world_wf(slots, records, t, player, root),
        0 <= i < slots.len(),
        0 <= j < slots.len(),
        slots[i] matches Some(v) && v.kind == Some(EntityKind::Pushable),
        is_pit_at(slots[j], slots[i]->Some_0.pos),
    ensures
        pit_step(slots, records, t, root, i) == (
            slots.update(i, None).update(j, None),
            records.push((t, EntityView { parent: root, ..slots[i]->Some_0 })),
        ),
{
    let v = slots[i]->Some_0;
    assert(slot_ok(slots[i], t, root));
    assert forall|k: int| 0 <= k < slots.len() && is_pit_at(#[trigger] slots[k], v.pos) implies k
        == j by {
        if k != j {
            assert(is_pit(slots[k]) && is_pit(slots[j]));
        }
    }
    lemma_pit_at_unique(slots, v.pos, 0, j);
}

proof fn lemma_pit_step_wf(
    slots: Seq<Option<EntityView>>,
    records: Seq<(usize, EntityView)>,
    t: usize,
    player: Option<Entity>,
    root: Container,
    i: int,
)
    requires
        world_wf(slots, records, t, player, root),
        0 <= i < slots.len(),
    ensures
        ({
            let (s, r) = pit_step(slots, records, t, root, i);
            &&& world_wf(s, r, t, player, root)
            &&& s.len() == slots.len()
        }),
{
    if let Some(v) = slots[i] {
        if v.kind == Some(EntityKind::Pushable) && v.has_history {
            lemma_pit_at(slots, v.pos, 0);
            if let Some(j) = pit_at(slots, v.pos, 0) {
                let s = slots.update(i, None).update(j, None);
                let rv = EntityView { parent: root, ..v };
                let r = records.push((t, rv));
                assert(slot_ok(slots[i], t, root));
                assert forall|k: int| 0 <= k < s.len() implies slot_ok(#[trigger] s[k], t, root) by {
                    assert(slot_ok(slots[k], t, root));
                }
                assert forall|k: int| 0 <= k < r.len() implies record_ok(#[trigger] r[k], t, root) by {
                    if k < records.len() {
                        assert(r[k] == records[k]);
                    }
                }
                assert forall|a: int, b: int| 0 <= a < b < r.len() implies r[a].0 <= r[b].0 by {
                    assert(r[a] == records[a]);
                    if b < records.len() {
                        assert(r[b] == records[b]);
                    } else {
                        assert(record_ok(records[a], t, root));
                    }
                }
            }
        }
    }
}

proof fn lemma_pit_pass_wf(
    slots: Seq<Option<EntityView>>,
    records: Seq<(usize, EntityView)>,
    t: usize,
    player: Option<Entity>,
    root: Container,
    n: int,
)
    requires
        world_wf(slots, records, t, player, root),
        n <= slots.len(),
    ensures
        ({
            let (s, r) = pit_pass(slots, records, t, root, n);
            &&& world_wf(s, r, t, player, root)
            &&& s.len() == slots.len()
        }),
    decreases n,
{
    if n > 0 {
        lemma_pit_pass_wf(slots, records, t, player, root, n - 1);
        let (s, r) = pit_pass(slots, records, t, root, n - 1);
        lemma_pit_step_wf(s, r, t, player, root, n - 1);
    }
}

/// The cell the player must reach to pull a pullable standing on `p` one cell in `d`: the
/// cell next to it in `d`, open to the player and to the pullable, with the cell beyond
/// open to the player.
pub open spec fn pull_target(m: CollisionMap, p: TilePos, d: Dir) -> Option<TilePos> {
    if p.can_step(d) && p.stepped(d).can_step(d) {
        let dest = p.stepped(d);
        if !(m.spec_blocked(dest, true) || m.spec_blocked(dest.stepped(d), true)
            || m.spec_blocked(dest, false)) {
            Some(dest)
        } else {
            None
        }
    } else {
        None
    }
}

/// The cell the player must reach to push a pushable standing on `p` one cell against `d`:
/// the cell next to it in `d`, open to the player, while the cell on the other side is open
/// to the pushable.
pub open spec fn push_target(m: CollisionMap, p: TilePos, d: Dir) -> Option<TilePos> {
    if p.can_step(d) && p.can_step(d.spec_opposite()) {
        if !(m.spec_blocked(p.stepped(d), true) || m.spec_blocked(
            p.stepped(d.spec_opposite()),
            false,
        )) {
            Some(p.stepped(d))
        } else {
            None
        }
    } else {
        None
    }
}

/// The cell from which the player could move entity `v` with a move along `d`, if any.
pub open spec fn move_target(m: CollisionMap, v: EntityView, d: Dir) -> Option<TilePos> {
    match v.kind {
        Some(EntityKind::Pullable) => pull_target(m, v.pos, d),
        Some(EntityKind::Pushable) => push_target(m, v.pos, d),
        _ => None,
    }
}

/// The cell from which the player could move the entity of slot `s` along `d`, if any.
pub open spec fn slot_target(m: CollisionMap, s: Option<EntityView>, d: Dir) -> Option<TilePos> {
    match s {
        Some(v) => move_target(m, v, d),
        None => None,
    }
}

/// The level is won when the player, standing on `start`, can reach no cell from which it
/// could move a pullable or a pushable.
pub open spec fn is_won(m: CollisionMap, slots: Seq<Option<EntityView>>, start: TilePos) -> bool {
    forall|j: int, d: Dir|
        0 <= j < slots.len() ==> (#[trigger] slot_target(m, slots[j], d) matches Some(c)
            ==> !reachable(m, start, c))
}

/// The cell from which the player could move an entity of kind `kind` standing on `pos`
/// with a move along `d`; see `move_target`.
pub fn target_cell(m: &CollisionMap, pos: TilePos, kind: Option<EntityKind>, d: Dir) -> (r: Option<
    TilePos,
>)
    requires
        m.wf(),
    ensures
        forall|v: EntityView| v.pos == pos && v.kind == kind ==> r == move_target(*m, v, d),
{
    match kind {
        Some(EntityKind::Pullable) => {
            if let Some(dest) = pos.checked_neighbor(d) {
                if let Some(dest2) = dest.checked_neighbor(d) {
                    if !(m.is_blocked(dest, true) || m.is_blocked(dest2, true) || m.is_blocked(
                        dest,
                        false,
                    )) {
                        return Some(dest);
                    }
                }
            }
            None
        },
        Some(EntityKind::Pushable) => {
            if let Some(dest) = pos.checked_neighbor(d) {
                if let Some(opp) = pos.checked_neighbor(d.opposite()) {
                    if !(m.is_blocked(dest, true) || m.is_blocked(opp, false)) {
                        return Some(dest);
                    }
                }
            }
            None
        },
        _ => None,
    }
}

/// The slots, the despawn records and the step after the player of `g`, if there is one,
/// tries to move along `movement`, if at all.
pub open spec fn after_move(g: GameWorld, movement: Option<Dir>) -> (
    Seq<Option<EntityView>>,
    Seq<(usize, EntityView)>,
    usize,
) {
    match (movement, g.player) {
        (Some(d), Some(p)) => match g.collision.push_outcome(p, g.player_view().pos, d) {
            PushOutcome::Push(list) => (
                slots_event(translate(g.slots(), list, d), g.time.0, HistoryEvent::Record),
                g.records(),
                (g.time.0 + 1) as usize,
            ),
            _ => (g.slots(), g.records(), g.time.0),
        },
        _ => (g.slots(), g.records(), g.time.0),
    }
}

/// The slots, the despawn records and the step after the history event `history`, if any.
pub open spec fn after_history(
    st: (Seq<Option<EntityView>>, Seq<(usize, EntityView)>, usize),
    history: Option<HistoryEvent>,
) -> (Seq<Option<EntityView>>, Seq<(usize, EntityView)>, usize) {
    match history {
        Some(ev) => {
            let (s, r) = world_event(st.0, st.1, st.2, ev);
            (s, r, time_after(st.2, ev) as usize)
        },
        None => st,
    }
}

impl GameWorld {
    /// One tick of play, in the order the simulation depends on: the player's move (and its
    /// `Record`), then the history event asked for, then the pit pass, then the rebuild of
    /// the collision map from the new positions, then the win check on it. Returns whether
    /// the level is won.
    pub fn update(&mut self, movement: Option<Dir>, history: Option<HistoryEvent>) -> (won: bool)
        requires
            old(self).wf(),
            old(self).synced(),
            old(self).time.0 < usize::MAX - 1,
        ensures
            final(self).wf(),
            final(self).synced(),
            final(self).collision.0.width == old(self).collision.0.width,
            final(self).collision.0.height == old(self).collision.0.height,
            ({
                let (s, r, t) = after_history(after_move(*old(self), movement), history);
                &&& (final(self).slots(), final(self).records()) == pit_pass(
                    s,
                    r,
                    t,
                    old(self).level_root,
                    s.len() as int,
                )
                &&& final(self).time.0 == t
            }),
            final(self).player == old(self).player,
            final(self).level_root == old(self).level_root,
            won == (final(self).player is Some && is_won(
                final(self).collision,
                final(self).slots(),
                final(self).player_view().pos,
            )),
    {
        if let Some(dir) = movement {
            self.player_movement(dir);
        }
        if let Some(ev) = history {
            self.handle_history_event(ev);
        }
        self.despawn_on_pit();
        self.sync_collision_map();
        self.check_win()
    }

    /// Whether the level is won: it has a player, and no pullable or pushable can still be
    /// moved by the player from where it stands.
    pub fn check_win(&self) -> (won: bool)
        requires
            self.wf(),
        ensures
            won == (self.player is Some && is_won(self.collision, self.slots(), self.player_view().pos)),
    {
        let player = match self.player {
            Some(p) => p,
            None => {
                return false;
            },
        };
        let start = match &self.entities[player.0] {
            Some(e) => e.pos,
            None => {
                return false;
            },
        };
        let visited = reachable_cells(&self.collision, start);
        let n = self.entities.len();
        let mut j: usize = 0;
        while j < n
            invariant
                n == self.entities@.len(),
                j <= n,
                self.wf(),
                start == self.player_view().pos,
                visited.width == self.collision.0.width,
                visited.height == self.collision.0.height,
                visited.wf(),
                forall|c: TilePos|
                    self.collision.in_bounds(c) ==> (#[trigger] visited.spec_get(c) == Some(true)
                        <==> reachable(self.collision, start, c)),
                forall|jj: int, d: Dir|
                    0 <= jj < j ==> (#[trigger] slot_target(self.collision, self.slots()[jj], d) matches Some(
                        c,
                    ) ==> !reachable(self.collision, start, c)),
            decreases n - j,
        {
            if let Some(e) = &self.entities[j] {
                let mut i: usize = 0;
                while i < 4
                    invariant
                        i <= 4,
                        j < n,
                        n == self.entities@.len(),
                        self.collision.wf(),
                        visited.wf(),
                        visited.width == self.collision.0.width,
                        visited.height == self.collision.0.height,
                        start == self.player_view().pos,
                        self.slots()[j as int] == Some(e@),
                        forall|c: TilePos|
                            self.collision.in_bounds(c) ==> (#[trigger] visited.spec_get(c) == Some(
                                true,
                            ) <==> reachable(self.collision, start, c)),
                        forall|d: Dir|
                            d.index() < i ==> (#[trigger] move_target(self.collision, e@, d) matches Some(
                                c,
                            ) ==> !reachable(self.collision, start, c)),
                    decreases 4 - i,
                {
                    let d = Dir::cardinal(i);
                    if let Some(c) = target_cell(&self.collision, e.pos, e.kind, d) {
                        proof {
                            assert(move_target(self.collision, e@, d) == Some(c));
                        }
                        match visited.get(c) {
                            Some(seen) => {
                                if *seen {
                                    proof {
                                        assert(slot_target(self.collision, self.slots()[j as int], d)
                                            == Some(c));
                                        assert(reachable(self.collision, start, c));
                                    }
                                    return false;
                                }
                            },
                            None => {},
                        }
                    }
                    i = i + 1;
                }
                proof {
                    assert forall|jj: int, d: Dir|
                        0 <= jj < j + 1 implies (#[trigger] slot_target(
                        self.collision,
                        self.slots()[jj],
                        d,
                    ) matches Some(c) ==> !reachable(self.collision, start, c)) by {
                        if jj == j {
                            assert(d.index() < 4);
                        }
                    }
                }
            }
            j = j + 1;
        }
        true
    }

    /// The first slot that holds a pit standing on `p`.
    pub fn find_pit(&self, p: TilePos) -> (r: Option<usize>)
        ensures
            match pit_at(self.slots(), p, 0) {
                Some(j) => r == Some(j as usize),
                None => r is None,
            },
    {
        let n = self.entities.len();
        let mut j: usize = 0;
        while j < n
            invariant
                n == self.entities@.len(),
                j <= n,
                pit_at(self.slots(), p, 0) == pit_at(self.slots(), p, j as int),
            decreases n - j,
        {
            let found = match &self.entities[j] {
                Some(e) => matches!(e.kind, Some(EntityKind::Pit)) && e.pos == p,
                None => false,
            };
            if found {
                return Some(j);
            }
            j = j + 1;
        }
        None
    }

    /// Removes every pushable that stands on a pit, together with the pit: the pushable
    /// fills the pit and is kept in the despawn history, tagged with the current step.
    pub fn despawn_on_pit(&mut self)
        requires
            old(self).wf(),
        ensures
            final(self).wf(),
            forall|k: int| 0 <= k < final(self).slots().len() ==> !pushable_on_pit(final(self).slots(), k),
            (final(self).slots(), final(self).records()) == pit_pass(
                old(self).slots(),
                old(self).records(),
                old(self).time.0,
                old(self).level_root,
                old(self).entities@.len() as int,
            ),
            final(self).time == old(self).time,
            final(self).collision == old(self).collision,
            final(self).player == old(self).player,
            final(self).level_root == old(self).level_root,
    {
        let n = self.entities.len();
        let mut i: usize = 0;
        while i < n
            invariant
                i <= n,
                n == old(self).entities@.len(),
                n == self.entities@.len(),
                (self.slots(), self.records()) == pit_pass(
                    old(self).slots(),
                    old(self).records(),
                    old(self).time.0,
                    old(self).level_root,
                    i as int,
                ),
                self.time == old(self).time,
                self.collision == old(self).collision,
                self.player == old(self).player,
                self.level_root == old(self).level_root,
                old(self).wf(),
            decreases n - i,
        {
            proof {
                lemma_pit_pass_wf(
                    old(self).slots(),
                    old(self).records(),
                    old(self).time.0,
                    old(self).player,
                    old(self).level_root,
                    i as int,
                );
            }
            let ghost s0 = self.slots();
            let ghost r0 = self.records();
            let (candidate, pos) = match &self.entities[i] {
                Some(e) => (
                    matches!(e.kind, Some(EntityKind::Pushable)) && e.history.is_some(),
                    e.pos,
                ),
                None => (false, TilePos { x: 0, y: 0 }),
            };
            if candidate {
                proof {
                    lemma_pit_at(s0, pos, 0);
                }
                if let Some(j) = self.find_pit(pos) {
                    self.despawn_sokoban_entity(Entity(i));
                    assert(self.slots().len() == self.entities@.len());
                    self.entities.set(j, None);
                    proof {
                        assert(self.slots() =~= s0.update(i as int, None).update(j as int, None));
                    }
                }
            }
            i = i + 1;
        }
        proof {
            lemma_pit_pass_wf(
                old(self).slots(),
                old(self).records(),
                old(self).time.0,
                old(self).player,
                old(self).level_root,
                n as int,
            );
            lemma_pit_pass_clears(
                old(self).slots(),
                old(self).records(),
                old(self).time.0,
                old(self).level_root,
                n as int,
            );
        }
    }
}

} // verus!
