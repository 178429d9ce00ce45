use vstd::prelude::*;

use crate::pos::TilePos;

verus! {

/// The step counter of the level being played.
#[derive(Clone, Copy, Debug, PartialEq, Eq, Structural)]
pub struct CurrentTime(pub usize);

/// The three events that drive the history.
#[derive(Clone, Copy, Debug, PartialEq, Eq, Structural)]
pub enum HistoryEvent {
    /// A step was taken: log the positions that changed.
    Record,
    /// Undo the last step.
    Rewind,
    /// Send everything back to where it started, as one undoable step.
    Reset,
}

/// The step counter after `ev`: one more after `Record` and `Reset`, one less (but not
/// below zero) after `Rewind`.
pub open spec fn time_after(t: usize, ev: HistoryEvent) -> int {
    match ev {
        HistoryEvent::Record | HistoryEvent::Reset => t + 1,
        HistoryEvent::Rewind => if t == 0 {
            0
        } else {
            t - 1
        },
    }
}

impl CurrentTime {
    /// Advances or rewinds the counter for `ev`.
    pub fn handle(&mut self, ev: HistoryEvent)
        requires
            old(self).0 < usize::MAX,
        ensures
            final(self).0 == time_after(old(self).0, ev),
    {
        match ev {
            HistoryEvent::Record => self.0 = self.0 + 1,
            HistoryEvent::Rewind => self.0 = self.0.saturating_sub(1),
            HistoryEvent::Reset => self.0 = self.0 + 1,
        }
    }
}

/// The logged earlier positions of an entity, each with the step at which it was left.
pub struct History(pub Vec<(usize, TilePos)>);

/// The position an entity had before the step that is being taken.
#[derive(Clone, Copy, Debug, PartialEq, Eq, Structural)]
pub struct PreviousComponent(pub TilePos);

impl PreviousComponent {
    pub fn get(&self) -> (r: &TilePos)
        ensures
            *r == self.0,
    {
        &self.0
    }
}

/// What an entity whose position can be undone carries.
pub struct HistoryBundle {
    pub history: History,
    pub previous: PreviousComponent,
}

/// The mathematical state of one position with a history.
pub struct Timeline {
    pub pos: TilePos,
    pub log: Seq<(usize, TilePos)>,
    pub previous: TilePos,
}

/// `Record` at step `t`: a position that changed since the last event logs its earlier value.
pub open spec fn record(s: Timeline, t: usize) -> Timeline {
    Timeline {
        pos: s.pos,
        log: if s.previous != s.pos {
            s.log.push((t, s.previous))
        } else {
            s.log
        },
        previous: s.pos,
    }
}

/// `Rewind` from step `t`: the entry logged at step `t - 1`, if it is the last one, is
/// taken back.
pub open spec fn rewind(s: Timeline, t: usize) -> Timeline {
    if s.log.len() > 0 && s.log.last().0 + 1 == t {
        Timeline { pos: s.log.last().1, log: s.log.drop_last(), previous: s.log.last().1 }
    } else {
        Timeline { pos: s.pos, log: s.log, previous: s.pos }
    }
}

/// `Reset` at step `t`: a position with a history logs where it is and goes back to its
/// oldest logged value.
pub open spec fn reset(s: Timeline, t: usize) -> Timeline {
    if s.log.len() > 0 {
        Timeline { pos: s.log[0].1, log: s.log.push((t, s.pos)), previous: s.log[0].1 }
    } else {
        Timeline { pos: s.pos, log: s.log, previous: s.pos }
    }
}

pub open spec fn apply_event(s: Timeline, t: usize, ev: HistoryEvent) -> Timeline {
    match ev {
        HistoryEvent::Record => record(s, t),
        HistoryEvent::Rewind => rewind(s, t),
        HistoryEvent::Reset => reset(s, t),
    }
}

/// A timeline at rest at step `t`: its entries are in increasing step order, all before
/// `t`, and no change is pending.
pub open spec fn timeline_wf(s: Timeline, t: usize) -> bool {
    &&& forall|i: int, j: int| 0 <= i < j < s.log.len() ==> s.log[i].0 < s.log[j].0
    &&& forall|i: int| 0 <= i < s.log.len() ==> s.log[i].0 < t
    &&& s.previous == s.pos
}

/// The position a timeline started from: its oldest logged value, or where it stands if it
/// never moved.
pub open spec fn origin(s: Timeline) -> TilePos {
    if s.log.len() > 0 {
        s.log[0].1
    } else {
        s.pos
    }
}

impl HistoryBundle {
    /// An empty history for an entity standing on `pos`.
    pub fn new(pos: TilePos) -> (r: HistoryBundle)
        ensures
            r.history.0@ == Seq::<(usize, TilePos)>::empty(),
            r.previous.0 == pos,
    {
        let r = HistoryBundle { history: History(Vec::new()), previous: PreviousComponent(pos) };
        assert(r.history.0@ =~= Seq::<(usize, TilePos)>::empty());
        r
    }

    pub open spec fn timeline(&self, pos: TilePos) -> Timeline {
        Timeline { pos, log: self.history.0@, previous: self.previous.0 }
    }

    /// Applies `ev`, happening at step `time`, to this history and the position `pos` it
    /// tracks.
    pub fn handle_history_event(&mut self, pos: &mut TilePos, time: usize, ev: HistoryEvent)
        ensures
            final(self).timeline(*final(pos)) == apply_event(old(self).timeline(*old(pos)), time, ev),
    {
        match ev {
            HistoryEvent::Record => {
                if self.previous.0 != *pos {
                    self.history.0.push((time, self.previous.0));
                }
            },
            HistoryEvent::Rewind => {
                let n = self.history.0.len();
                if n > 0 {
                    let (t, p) = self.history.0[n - 1];
                    if time > 0 && t == time - 1 {
                        self.history.0.pop();
                        *pos = p;
                        proof {
                            assert(self.history.0@ =~= old(self).history.0@.drop_last());
                        }
                    }
                }
            },
            HistoryEvent::Reset => {
                let n = self.history.0.len();
                if n > 0 {
                    let first = self.history.0[0].1;
                    self.history.0.push((time, *pos));
                    *pos = first;
                }
            },
        }
        self.previous.0 = *pos;
    }
}

/// Undoing a recorded step gives back the state before it: whatever position an entity
/// at rest moves to, a `Record` at step `t` followed by a `Rewind` from step `t + 1` leaves
/// it exactly as it was.
pub proof fn lemma_rewind_undoes_record(s: Timeline, t: usize, moved_to: TilePos)
    requires
        timeline_wf(s, t),
        t < usize::MAX,
    ensures
        rewind(record(Timeline { pos: moved_to, ..s }, t), (t + 1) as usize) == s,
        timeline_wf(record(Timeline { pos: moved_to, ..s }, t), (t + 1) as usize),
        origin(record(Timeline { pos: moved_to, ..s }, t)) == origin(s),
{
    let m = Timeline { pos: moved_to, ..s };
    let r = record(m, t);
    if s.pos != moved_to {
        assert(r.log.drop_last() =~= s.log);
        assert(r.log[0] == if s.log.len() > 0 { s.log[0] } else { (t, s.pos) });
    } else {
        assert(r.log =~= s.log);
        if s.log.len() > 0 {
            assert(s.log.last().0 < t);
        }
    }
}

/// A `Reset` at step `t` is undone by the `Rewind` from step `t + 1`, and it takes the
/// position back to where the timeline started.
pub proof fn lemma_rewind_undoes_reset(s: Timeline, t: usize)
    requires
        timeline_wf(s, t),
        t < usize::MAX,
    ensures
        reset(s, t).pos == origin(s),
        rewind(reset(s, t), (t + 1) as usize) == s,
        timeline_wf(reset(s, t), (t + 1) as usize),
{
    let r = reset(s, t);
    if s.log.len() > 0 {
        assert(r.log.drop_last() =~= s.log);
    } else {
        assert(r.log =~= s.log);
    }
}

} // verus!
