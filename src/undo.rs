use vstd::prelude::*;

use crate::entity::{Container, Entity};
use crate::history::{
    lemma_rewind_undoes_record, lemma_rewind_undoes_reset, origin, rewind, time_after,
    timeline_wf, HistoryEvent, Timeline,
};
use crate::pos::Dir;
use crate::world::{
    is_pit, pits_apart, pit_view, record_ok, resurrect, slot_event, slot_ok, slots_event, timeline_of, translate,
    world_event, world_wf, EntityView,
};

verus! {

/// Every entity with a history is at rest at step `t` (see `timeline_wf`).
pub open spec fn slots_wf(slots: Seq<Option<EntityView>>, t: usize) -> bool {
    forall|j: int|
        0 <= j < slots.len() ==> (#[trigger] slots[j] matches Some(v) ==> (v.has_history
            ==> timeline_wf(timeline_of(v), t)))
}

/// A move only lists entities that exist and have a history.
pub open spec fn move_valid(slots: Seq<Option<EntityView>>, list: Seq<Entity>) -> bool {
    forall|k: int|
        0 <= k < list.len() ==> {
            &&& 0 <= (#[trigger] list[k]).0 < slots.len()
            &&& slots[list[k].0 as int] matches Some(v) && v.has_history
        }
}

/// The slots after each move of `moves` (the listed entities advance one cell in the
/// given direction) followed by a `Record`, starting at step `t`.
pub open spec fn moves_recorded(
    slots: Seq<Option<EntityView>>,
    t: usize,
    moves: Seq<(Seq<Entity>, Dir)>,
) -> Seq<Option<EntityView>>
    decreases moves.len(),
{
    if moves.len() == 0 {
        slots
    } else {
        moves_recorded(
            slots_event(translate(slots, moves[0].0, moves[0].1), t, HistoryEvent::Record),
            (t + 1) as usize,
            moves.drop_first(),
        )
    }
}

/// Whether every move of `moves`, made one after the other from `slots`, is valid.
pub open spec fn moves_valid(
    slots: Seq<Option<EntityView>>,
    t: usize,
    moves: Seq<(Seq<Entity>, Dir)>,
) -> bool
    decreases moves.len(),
{
    if moves.len() == 0 {
        true
    } else {
        &&& move_valid(slots, moves[0].0)
        &&& moves_valid(
            slots_event(translate(slots, moves[0].0, moves[0].1), t, HistoryEvent::Record),
            (t + 1) as usize,
            moves.drop_first(),
        )
    }
}

/// The slots, the despawn records and the step after `n` rewinds from step `t`.
pub open spec fn rewinds(
    slots: Seq<Option<EntityView>>,
    records: Seq<(usize, EntityView)>,
    t: usize,
    n: nat,
) -> (Seq<Option<EntityView>>, Seq<(usize, EntityView)>, usize)
    decreases n,
{
    if n == 0 {
        (slots, records, t)
    } else {
        let (s, r) = world_event(slots, records, t, HistoryEvent::Rewind);
        rewinds(s, r, time_after(t, HistoryEvent::Rewind) as usize, (n - 1) as nat)
    }
}

proof fn lemma_rewinds_last(
    slots: Seq<Option<EntityView>>,
    records: Seq<(usize, EntityView)>,
    t: usize,
    n: nat,
)
    ensures
        rewinds(slots, records, t, n + 1) == ({
            let (s, r, c) = rewinds(slots, records, t, n);
            let (s2, r2) = world_event(s, r, c, HistoryEvent::Rewind);
            (s2, r2, time_after(c, HistoryEvent::Rewind) as usize)
        }),
    decreases n,
{
    reveal_with_fuel(rewinds, 2);
    if n > 0 {
        let (s, r) = world_event(slots, records, t, HistoryEvent::Rewind);
        lemma_rewinds_last(s, r, time_after(t, HistoryEvent::Rewind) as usize, (n - 1) as nat);
    }
}

/// One valid move and its `Record` at step `t`: the result is at rest at step `t + 1`,
/// the `Rewind` from `t + 1` takes it back, and every entity keeps its origin.
proof fn lemma_move_record(slots: Seq<Option<EntityView>>, t: usize, list: Seq<Entity>, dir: Dir)
    requires
        slots_wf(slots, t),
        move_valid(slots, list),
        slots.len() <= usize::MAX,
        t < usize::MAX,
    ensures
        ({
            let s1 = slots_event(translate(slots, list, dir), t, HistoryEvent::Record);
            &&& s1.len() == slots.len()
            &&& slots_wf(s1, (t + 1) as usize)
            &&& slots_event(s1, (t + 1) as usize, HistoryEvent::Rewind) == slots
            &&& forall|j: int|
                0 <= j < slots.len() ==> match (#[trigger] slots[j], s1[j]) {
                    (Some(v), Some(v1)) => v1.has_history == v.has_history && v1.kind == v.kind
                        && if v.has_history {
                        origin(timeline_of(v1)) == origin(timeline_of(v))
                    } else {
                        v1 == v
                    },
                    (None, None) => true,
                    _ => false,
                }
        }),
{
    let moved = translate(slots, list, dir);
    let s1 = slots_event(moved, t, HistoryEvent::Record);
    assert forall|j: int| 0 <= j < slots.len() implies {
        &&& (#[trigger] slots[j] matches Some(v) ==> {
            &&& s1[j] matches Some(v1)
            &&& v1.has_history == v.has_history
            &&& v1.kind == v.kind
            &&& if v.has_history {
                &&& timeline_wf(timeline_of(v1), (t + 1) as usize)
                &&& origin(timeline_of(v1)) == origin(timeline_of(v))
                &&& slot_event(s1[j], (t + 1) as usize, HistoryEvent::Rewind) == slots[j]
            } else {
                &&& v1 == v
                &&& slot_event(s1[j], (t + 1) as usize, HistoryEvent::Rewind) == slots[j]
            }
        })
        &&& (slots[j] is None ==> s1[j] is None)
    } by {
        if let Some(v) = slots[j] {
            if v.has_history {
                let mv = moved[j]->Some_0;
                lemma_rewind_undoes_record(timeline_of(v), t, mv.pos);
                assert(timeline_of(mv) == Timeline { pos: mv.pos, ..timeline_of(v) });
            } else {
                if list.contains(Entity(j as usize)) {
                    let k = choose|k: int| 0 <= k < list.len() && list[k] == Entity(j as usize);
                    assert(move_valid(slots, list));
                    assert(0 <= list[k].0 < slots.len());
                }
            }
        }
    }
    assert(slots_event(s1, (t + 1) as usize, HistoryEvent::Rewind) =~= slots);
}

/// Undo is the exact inverse of moving: after any sequence of valid moves, each followed by
/// a `Record`, as many rewinds give back every entity as it was, the despawn records as they
/// were, and the starting step.
pub proof fn lemma_rewinds_undo_moves(
    slots: Seq<Option<EntityView>>,
    records: Seq<(usize, EntityView)>,
    t: usize,
    moves: Seq<(Seq<Entity>, Dir)>,
)
    requires
        slots_wf(slots, t),
        forall|i: int| 0 <= i < records.len() ==> (#[trigger] records[i]).0 <= t,
        moves_valid(slots, t, moves),
        slots.len() <= usize::MAX,
        t + moves.len() < usize::MAX,
    ensures
        rewinds(
            moves_recorded(slots, t, moves),
            records,
            (t + moves.len()) as usize,
            moves.len(),
        ) == (slots, records, t),
    decreases moves.len(),
{
    if moves.len() > 0 {
        let (list, dir) = moves[0];
        let s1 = slots_event(translate(slots, list, dir), t, HistoryEvent::Record);
        let rest = moves.drop_first();
        lemma_move_record(slots, t, list, dir);
        lemma_rewinds_undo_moves(s1, records, (t + 1) as usize, rest);
        lemma_rewinds_last(
            moves_recorded(s1, (t + 1) as usize, rest),
            records,
            (t + moves.len()) as usize,
            rest.len(),
        );
        assert(resurrect(s1, records, (t + 1) as usize) == (s1, records)) by {
            if records.len() > 0 {
                assert(records.last() == records[records.len() - 1]);
            }
        }
    }
}

/// A sequence of valid moves, each with its `Record`, ends at rest and keeps the origin of
/// every entity.
proof fn lemma_moves_keep_origin(
    slots: Seq<Option<EntityView>>,
    t: usize,
    moves: Seq<(Seq<Entity>, Dir)>,
)
    requires
        slots_wf(slots, t),
        moves_valid(slots, t, moves),
        slots.len() <= usize::MAX,
        t + moves.len() < usize::MAX,
    ensures
        ({
            let s = moves_recorded(slots, t, moves);
            &&& s.len() == slots.len()
            &&& slots_wf(s, (t + moves.len()) as usize)
            &&& forall|j: int|
                0 <= j < slots.len() ==> match (#[trigger] slots[j], s[j]) {
                    (Some(v), Some(v1)) => v1.has_history == v.has_history && v1.kind == v.kind
                        && if v.has_history {
                        origin(timeline_of(v1)) == origin(timeline_of(v))
                    } else {
                        v1 == v
                    },
                    (None, None) => true,
                    _ => false,
                }
        }),
    decreases moves.len(),
{
    if moves.len() > 0 {
        let (list, dir) = moves[0];
        let s1 = slots_event(translate(slots, list, dir), t, HistoryEvent::Record);
        lemma_move_record(slots, t, list, dir);
        lemma_moves_keep_origin(s1, (t + 1) as usize, moves.drop_first());
        let s = moves_recorded(slots, t, moves);
        assert forall|j: int| 0 <= j < slots.len() implies match (#[trigger] slots[j], s[j]) {
            (Some(v), Some(v1)) => v1.has_history == v.has_history && v1.kind == v.kind
                && if v.has_history {
                origin(timeline_of(v1)) == origin(timeline_of(v))
            } else {
                v1 == v
            },
            (None, None) => true,
            _ => false,
        } by {
            assert(s1[j] == s1[j]);
        }
    }
}

/// Reset goes back to the start: on a level whose entities have no history yet, after any
/// sequence of valid moves from step 0, a `Reset` puts every entity back where it stood at
/// step 0, and the `Rewind` right after it restores the position of every entity from just
/// before the reset.
pub proof fn lemma_reset_returns_to_start(
    slots: Seq<Option<EntityView>>,
    records: Seq<(usize, EntityView)>,
    moves: Seq<(Seq<Entity>, Dir)>,
)
    requires
        forall|j: int|
            0 <= j < slots.len() ==> (#[trigger] slots[j] matches Some(v) ==> (v.has_history
                ==> v.log.len() == 0 && v.previous == v.pos)),
        forall|i: int| 0 <= i < records.len() ==> (#[trigger] records[i]).0 == 0,
        moves_valid(slots, 0, moves),
        slots.len() <= usize::MAX,
        moves.len() + 1 < usize::MAX,
    ensures
        ({
            let n = moves.len() as usize;
            let before = moves_recorded(slots, 0, moves);
            let (after, r) = world_event(before, records, n, HistoryEvent::Reset);
            &&& after.len() == slots.len()
            &&& r == records
            &&& forall|j: int|
                0 <= j < slots.len() ==> (#[trigger] after[j] matches Some(v) ==> slots[j] matches Some(
                    v0,
                ) && v.pos == v0.pos)
            &&& world_event(after, r, (n + 1) as usize, HistoryEvent::Rewind) == (before, records)
        }),
{
    let n = moves.len() as usize;
    assert(slots_wf(slots, 0)) by {
        assert forall|j: int| 0 <= j < slots.len() implies (#[trigger] slots[j] matches Some(v)
            ==> (v.has_history ==> timeline_wf(timeline_of(v), 0))) by {}
    }
    lemma_moves_keep_origin(slots, 0, moves);
    let before = moves_recorded(slots, 0, moves);
    let after = slots_event(before, n, HistoryEvent::Reset);
    assert forall|j: int| 0 <= j < slots.len() implies {
        &&& (#[trigger] after[j] matches Some(v) ==> slots[j] matches Some(v0) && v.pos == v0.pos)
        &&& slot_event(after[j], (n + 1) as usize, HistoryEvent::Rewind) == before[j]
    } by {
        if let Some(v1) = before[j] {
            if v1.has_history {
                lemma_rewind_undoes_reset(timeline_of(v1), n);
            }
        }
    }
    assert(slots_event(after, (n + 1) as usize, HistoryEvent::Rewind) =~= before);
    assert(resurrect(after, records, (n + 1) as usize) == (after, records)) by {
        if records.len() > 0 {
            assert(records.last() == records[records.len() - 1]);
        }
    }
}

} // verus!

verus! {

proof fn lemma_resurrect_appends(
    slots: Seq<Option<EntityView>>,
    records: Seq<(usize, EntityView)>,
    t: usize,
)
    ensures
        resurrect(slots, records, t).0 == slots + resurrect(Seq::empty(), records, t).0,
        resurrect(slots, records, t).1 == resurrect(Seq::empty(), records, t).1,
    decreases records.len(),
{
    if records.len() > 0 && records.last().0 == t {
        let v = records.last().1;
        let extra = seq![Some(v), Some(pit_view(v.pos, v.parent))];
        lemma_resurrect_appends(
            slots.push(Some(v)).push(Some(pit_view(v.pos, v.parent))),
            records.drop_last(),
            t,
        );
        lemma_resurrect_appends(
            Seq::<Option<EntityView>>::empty().push(Some(v)).push(
                Some(pit_view(v.pos, v.parent)),
            ),
            records.drop_last(),
            t,
        );
        assert(slots.push(Some(v)).push(Some(pit_view(v.pos, v.parent))) =~= slots + extra);
        assert(Seq::<Option<EntityView>>::empty().push(Some(v)).push(
            Some(pit_view(v.pos, v.parent)),
        ) =~= extra);
        assert(slots + extra + resurrect(Seq::empty(), records.drop_last(), t).0 =~= slots + (extra
            + resurrect(Seq::empty(), records.drop_last(), t).0));
    } else {
        assert(slots + Seq::<Option<EntityView>>::empty() =~= slots);
    }
}

/// Removal and resurrection round-trip: an entity with a history that is removed at step
/// `t` (kept in a despawn record, as `despawn_sokoban_entity` does) comes back, on the
/// rewind from step `t`, in a new slot and exactly as the same rewind would have left it had
/// it never been removed, with a pit under it; every other slot and the remaining records
/// are as that rewind would have left them.
pub proof fn lemma_despawn_round_trip(
    slots: Seq<Option<EntityView>>,
    records: Seq<(usize, EntityView)>,
    t: usize,
    root: Container,
    i: int,
)
    requires
        0 <= i < slots.len(),
        slots[i] matches Some(v) && v.has_history && v.kind is Some && v.parent == root,
    ensures
        ({
            let v = slots[i]->Some_0;
            let n = slots.len() as int;
            let (s2, r2) = world_event(
                slots.update(i, None),
                records.push((t, EntityView { parent: root, ..v })),
                t,
                HistoryEvent::Rewind,
            );
            let (kept, r1) = world_event(slots, records, t, HistoryEvent::Rewind);
            &&& s2.len() == kept.len() + 2
            &&& s2[n] == kept[i]
            &&& s2[n + 1] == Some(pit_view(v.pos, root))
            &&& s2[i] is None
            &&& forall|j: int| 0 <= j < n && j != i ==> s2[j] == kept[j]
            &&& forall|j: int| n <= j < kept.len() ==> s2[j + 2] == kept[j]
            &&& r2 == r1
        }),
{
    let v = slots[i]->Some_0;
    let n = slots.len() as int;
    let d = slots.update(i, None);
    let rv = EntityView { parent: root, ..v };
    let records1 = records.push((t, rv));
    assert(rv == v);
    assert(records1.drop_last() =~= records);
    let d2 = d.push(Some(v)).push(Some(pit_view(v.pos, v.parent)));
    assert(resurrect(d, records1, t) == resurrect(d2, records, t));
    lemma_resurrect_appends(d2, records, t);
    lemma_resurrect_appends(slots, records, t);
}

} // verus!

verus! {

proof fn lemma_timeline_rewind_wf(s: Timeline, t: usize)
    requires
        timeline_wf(s, t),
    ensures
        timeline_wf(rewind(s, t), time_after(t, HistoryEvent::Rewind) as usize),
{
    if s.log.len() > 0 && s.log.last().0 + 1 == t {
        assert forall|i: int| 0 <= i < s.log.len() - 1 implies s.log[i].0 < t - 1 by {
            assert(s.log[i].0 < s.log[s.log.len() - 1].0);
        }
    } else if s.log.len() > 0 {
        assert forall|i: int| 0 <= i < s.log.len() implies s.log[i].0 < t - 1 by {
            if i < s.log.len() - 1 {
                assert(s.log[i].0 < s.log[s.log.len() - 1].0);
            }
        }
    }
}

proof fn lemma_resurrect_wf(
    slots: Seq<Option<EntityView>>,
    records: Seq<(usize, EntityView)>,
    t: usize,
    player: Option<Entity>,
    root: Container,
)
    requires
        world_wf(slots, records, t, player, root),
    ensures
        ({
            let (s, r) = resurrect(slots, records, t);
            &&& s.len() >= slots.len()
            &&& forall|i: int| 0 <= i < slots.len() ==> #[trigger] s[i] == slots[i]
            &&& forall|i: int| 0 <= i < s.len() ==> slot_ok(#[trigger] s[i], t, root)
            &&& r.len() <= records.len()
            &&& forall|i: int| 0 <= i < r.len() ==> #[trigger] r[i] == records[i]
            &&& r.len() > 0 ==> r.last().0 != t
            &&& pits_apart(s, r)
        }),
    decreases records.len(),
{
    if records.len() > 0 && records.last().0 == t {
        let v = records.last().1;
        let s1 = slots.push(Some(v)).push(Some(pit_view(v.pos, v.parent)));
        let r1 = records.drop_last();
        assert(record_ok(records[records.len() - 1], t, root));
        assert forall|i: int| 0 <= i < s1.len() implies slot_ok(#[trigger] s1[i], t, root) by {
            if i < slots.len() {
                assert(s1[i] == slots[i]);
            }
        }
        assert forall|i: int| 0 <= i < r1.len() implies record_ok(#[trigger] r1[i], t, root) by {
            assert(r1[i] == records[i]);
        }
        lemma_resurrect_wf(s1, r1, t, player, root);
        let (s, r) = resurrect(s1, r1, t);
        assert forall|i: int| 0 <= i < r.len() implies #[trigger] r[i] == records[i] by {
            assert(r1[i] == records[i]);
        }
    }
}

/// Every history event keeps the invariants of the level.
pub proof fn lemma_event_keeps_wf(
    slots: Seq<Option<EntityView>>,
    records: Seq<(usize, EntityView)>,
    t: usize,
    player: Option<Entity>,
    root: Container,
    ev: HistoryEvent,
)
    requires
        world_wf(slots, records, t, player, root),
        t < usize::MAX,
    ensures
        ({
            let (s, r) = world_event(slots, records, t, ev);
            world_wf(s, r, time_after(t, ev) as usize, player, root)
        }),
{
    let t2 = time_after(t, ev) as usize;
    let (s0, r) = match ev {
        HistoryEvent::Rewind => resurrect(slots, records, t),
        _ => (slots, records),
    };
    if ev == HistoryEvent::Rewind {
        lemma_resurrect_wf(slots, records, t, player, root);
        assert forall|i: int| 0 <= i < r.len() implies record_ok(#[trigger] r[i], t2, root) by {
            assert(r[i] == records[i]);
            assert(record_ok(records[i], t, root));
            if i < r.len() - 1 {
                assert(r[r.len() - 1] == records[r.len() - 1]);
                assert(records[i].0 <= records[r.len() - 1].0);
            }
        }
        assert forall|a: int, b: int| 0 <= a < b < r.len() implies r[a].0 <= r[b].0 by {
            assert(r[a] == records[a]);
            assert(r[b] == records[b]);
        }
    }
    let s = slots_event(s0, t, ev);
    assert forall|i: int| 0 <= i < s.len() implies slot_ok(#[trigger] s[i], t2, root) by {
        assert(slot_ok(s0[i], t, root));
        if let Some(v) = s0[i] {
            if v.has_history {
                let tl = timeline_of(v);
                match ev {
                    HistoryEvent::Record => {
                        lemma_rewind_undoes_record(tl, t, v.pos);
                        assert(Timeline { pos: v.pos, ..tl } == tl);
                    },
                    HistoryEvent::Reset => {
                        lemma_rewind_undoes_reset(tl, t);
                    },
                    HistoryEvent::Rewind => {
                        lemma_timeline_rewind_wf(tl, t);
                    },
                }
            }
        }
    }
    if let Some(p) = player {
        assert(s[p.0 as int] == slot_event(s0[p.0 as int], t, ev));
    }
    if ev != HistoryEvent::Rewind {
        assert(pits_apart(s0, r));
    }
    assert forall|i: int| 0 <= i < s.len() implies (is_pit(#[trigger] s[i]) <==> is_pit(s0[i])) && (
    is_pit(s[i]) ==> s[i] == s0[i]) by {
        assert(slot_ok(s0[i], t, root));
    }
}

/// A valid move followed by its `Record` keeps the invariants of the level.
pub proof fn lemma_move_keeps_wf(
    slots: Seq<Option<EntityView>>,
    records: Seq<(usize, EntityView)>,
    t: usize,
    player: Option<Entity>,
    root: Container,
    list: Seq<Entity>,
    dir: Dir,
)
    requires
        world_wf(slots, records, t, player, root),
        move_valid(slots, list),
        slots.len() <= usize::MAX,
        t < usize::MAX,
    ensures
        world_wf(
            slots_event(translate(slots, list, dir), t, HistoryEvent::Record),
            records,
            (t + 1) as usize,
            player,
            root,
        ),
{
    let s1 = slots_event(translate(slots, list, dir), t, HistoryEvent::Record);
    lemma_move_record(slots, t, list, dir);
    assert forall|i: int| 0 <= i < s1.len() implies slot_ok(#[trigger] s1[i], (t + 1) as usize, root) by {
        assert(slot_ok(slots[i], t, root));
    }
    assert forall|i: int| 0 <= i < records.len() implies record_ok(#[trigger] records[i], (t + 1) as usize, root) by {
        assert(record_ok(records[i], t, root));
    }
    if let Some(p) = player {
        assert(slot_ok(slots[p.0 as int], t, root));
    }
}

} // verus!
