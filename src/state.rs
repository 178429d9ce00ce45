use vstd::prelude::*;

use crate::history::HistoryEvent;

verus! {

/// The screens of the game.
#[derive(Clone, Copy, Debug, PartialEq, Eq, Structural)]
pub enum GameState {
    AssetLoading,
    LevelSelect,
    LevelTransition,
    Play,
}

/// The game-wide inputs.
#[derive(Clone, Copy, Debug, PartialEq, Eq, Structural)]
pub enum GameAction {
    Undo,
    Reset,
    ToLevelSelect,
}

impl GameAction {
    /// The history event an input asks for: undo rewinds, reset resets.
    pub fn history_event(&self) -> (r: Option<HistoryEvent>)
        ensures
            r == match *self {
                GameAction::Undo => Some(HistoryEvent::Rewind),
                GameAction::Reset => Some(HistoryEvent::Reset),
                GameAction::ToLevelSelect => None,
            },
    {
        match self {
            GameAction::Undo => Some(HistoryEvent::Rewind),
            GameAction::Reset => Some(HistoryEvent::Reset),
            GameAction::ToLevelSelect => None,
        }
    }
}

/// The screens in which something is kept; it goes away on a change to any other.
pub struct DependOnState(pub Vec<GameState>);

impl DependOnState {
    /// Kept in `state` only.
    pub fn single(state: GameState) -> (r: DependOnState)
        ensures
            r.0@ == seq![state],
    {
        let mut v: Vec<GameState> = Vec::new();
        v.push(state);
        proof {
            assert(v@ =~= seq![state]);
        }
        DependOnState(v)
    }

    /// Whether a change to `next` keeps what depends on this.
    pub fn keeps(&self, next: GameState) -> (r: bool)
        ensures
            r == self.0@.contains(next),
    {
        let n = self.0.len();
        let mut i: usize = 0;
        while i < n
            invariant
                n == self.0@.len(),
                i <= n,
                forall|k: int| 0 <= k < i ==> self.0@[k] != next,
            decreases n - i,
        {
            if self.0[i] == next {
                return true;
            }
            i = i + 1;
        }
        false
    }
}

/// How many level buttons the level select screen puts in a row.
pub const LEVEL_SELECT_COLUMNS: usize = 5;

/// How many buttons row `r` of the level select screen holds, for `amount` levels.
pub open spec fn row_len(amount: int, r: int) -> int {
    if amount >= (r + 1) * 5 {
        5
    } else if amount > r * 5 {
        amount - r * 5
    } else {
        0
    }
}

/// The level buttons of the level select screen, row by row: one row more than there are
/// full rows of five, each row holding the next level indices in order.
pub fn level_select_rows(amount_levels: usize) -> (rows: Vec<Vec<usize>>)
    ensures
        rows@.len() == amount_levels / 5 + 1,
        forall|r: int|
            0 <= r < rows@.len() ==> (#[trigger] rows@[r])@ == Seq::new(
                row_len(amount_levels as int, r) as nat,
                |c: int| (r * 5 + c) as usize,
            ),
{
    let cols = LEVEL_SELECT_COLUMNS;
    let n_rows = amount_levels / cols + 1;
    let mut rows: Vec<Vec<usize>> = Vec::new();
    let mut r: usize = 0;
    while r < n_rows
        invariant
            cols == 5,
            n_rows == amount_levels / 5 + 1,
            r <= n_rows,
            rows@.len() == r,
            forall|k: int|
                0 <= k < r ==> (#[trigger] rows@[k])@ == Seq::new(
                    row_len(amount_levels as int, k) as nat,
                    |c: int| (k * 5 + c) as usize,
                ),
        decreases n_rows - r,
    {
        proof {
            assert(r * 5 <= amount_levels) by (nonlinear_arith)
                requires
                    r < amount_levels / 5 + 1,
            ;
        }
        let first = r * cols;
        let mut row: Vec<usize> = Vec::new();
        let mut c: usize = 0;
        while c < cols
            invariant
                cols == 5,
                first == r * 5,
                first <= amount_levels,
                c <= cols,
                row@.len() == c,
                c <= row_len(amount_levels as int, r as int),
                forall|k: int| 0 <= k < c ==> #[trigger] row@[k] == (r * 5 + k) as usize,
            ensures
                row@.len() == row_len(amount_levels as int, r as int),
                forall|k: int| 0 <= k < row@.len() ==> #[trigger] row@[k] == (r * 5 + k) as usize,
            decreases cols - c,
        {
            if c >= amount_levels - first {
                break ;
            }
            row.push(first + c);
            c = c + 1;
        }
        proof {
            assert(row@ =~= Seq::new(
                row_len(amount_levels as int, r as int) as nat,
                |k: int| (r * 5 + k) as usize,
            ));
        }
        rows.push(row);
        r = r + 1;
    }
    rows
}

} // verus!
