//! Game state: the fixed board together with the per-cell open state, the
//! mine counter shown to the player, and the game-over flag, with the two
//! click-driven transitions (reveal and flag toggle) and win/lose detection.
//! Once the game-over flag is set, every further input is a no-op.

use vstd::prelude::*;
use crate::board::{
    Board, GRID_SIDE, GRID_CELLS, INITIAL_NUM_MINES, in_bounds, cell_index, mine_at, mine_list_ok,
    adjacent_mine_count, neighbors, CellKind,
};
use crate::count::{count_of, lemma_count_absent, lemma_count_disjoint, lemma_count_update};
use crate::flood::{
    OpenState, flood_reveal, lemma_counts_under_reveal, new_zero_cells_closed, newly_revealed_reachable,
    reveal_monotone, zero_region_closed,
};

verus! {

/// What a flag toggle did, for the display update.
#[derive(Clone, Copy, PartialEq, Eq, Structural, Debug)]
pub enum FlagResult {
    /// The cell went from hidden to flagged; the mine counter went down.
    Placed,
    /// The cell went from flagged back to hidden; the mine counter went up.
    Removed,
    /// Nothing changed: the game is over, the click was out of bounds, or
    /// the cell is already revealed.
    NoChange,
}

/// What a primary click did.
#[derive(PartialEq, Eq, Debug)]
pub enum ClickResult {
    /// Nothing changed: the game is over, the click was out of bounds, or
    /// the cell is revealed or flagged.
    Ignored,
    /// A safe cell was revealed and the game goes on.
    Continued,
    /// A safe cell was revealed and with it every safe cell is revealed.
    Won,
    /// A mine was clicked; carries every mine's coordinates for display.
    Lost(Vec<(usize, usize)>),
}

/// Every cell that is not a mine is revealed: the win condition.
pub open spec fn all_safe_revealed(b: Seq<CellKind>, o: Seq<OpenState>) -> bool {
    forall|x: int, y: int|
        in_bounds(x, y) && !mine_at(b, x, y) ==> o[#[trigger] cell_index(x, y)]
            == OpenState::Revealed
}

/// The whole state of one game. The open-state grid is flat like the board's
/// cell grid, cell `(x, y)` at position `x * 9 + y`.
pub struct GameState {
    /// The immutable mine grid.
    pub board: Board,
    /// Per-cell open state; all cells start hidden.
    pub open: Vec<OpenState>,
    /// Display counter: the mine count less the flags placed. Over-flagging
    /// may push it below zero; that is display-only semantics.
    pub mine_counter: i32,
    /// Set exactly once, on a win or a loss; never cleared.
    pub game_over: bool,
}

impl GameState {
    /// The state invariant: a well-formed board, one open state per cell,
    /// the mine counter in step with the flags and reveals so far, and the
    /// zero-region closure that flood-fill reveals keep.
    pub open spec fn wf(&self) -> bool {
        &&& self.board.wf()
        &&& self.open@.len() == 81
        &&& self.mine_counter + count_of(self.open@, OpenState::Flagged) <= 10
        &&& self.mine_counter + count_of(self.open@, OpenState::Flagged) + count_of(
            self.open@,
            OpenState::Revealed,
        ) >= 10
        &&& zero_region_closed(self.board@, self.open@)
    }

    /// A fresh game on the given board: everything hidden, the counter at
    /// the standard mine count, the game running.
    pub fn new(board: Board) -> (gs: GameState)
        requires
            board.wf(),
        ensures
            gs.wf(),
            gs.board == board,
            gs.open@.len() == 81,
            forall|k: int| 0 <= k < 81 ==> gs.open@[k] == OpenState::Hidden,
            gs.mine_counter == 10,
            !gs.game_over,
    {
        let mut open: Vec<OpenState> = Vec::new();
        let mut k: usize = 0;
        while k < GRID_CELLS
            invariant
                open@.len() == k,
                k <= 81,
                forall|i: int| 0 <= i < k ==> open@[i] == OpenState::Hidden,
            decreases 81 - k,
        {
            open.push(OpenState::Hidden);
            k += 1;
        }
        proof {
            lemma_count_absent(open@, OpenState::Flagged);
            lemma_count_absent(open@, OpenState::Revealed);
        }
        let counter = INITIAL_NUM_MINES as i32;
        GameState { board, open, mine_counter: counter, game_over: false }
    }

    /// Toggles the flag on cell `(x, y)`. A click after game over, out of
    /// bounds, or on a revealed cell changes nothing. A hidden cell becomes
    /// flagged and the mine counter drops by one; a flagged cell becomes
    /// hidden again and the counter rises by one.
    pub fn toggle_flag(&mut self, x: usize, y: usize) -> (r: FlagResult)
        requires
            old(self).wf(),
        ensures
            final(self).wf(),
            final(self).board == old(self).board,
            final(self).game_over == old(self).game_over,
            old(self).game_over || x >= GRID_SIDE || y >= GRID_SIDE || old(self).open@[cell_index(
                x as int,
                y as int,
            )] == OpenState::Revealed ==> *final(self) == *old(self) && r == FlagResult::NoChange,
            !old(self).game_over && x < GRID_SIDE && y < GRID_SIDE && old(self).open@[cell_index(
                x as int,
                y as int,
            )] == OpenState::Hidden ==> final(self).open@ == old(self).open@.update(
                cell_index(x as int, y as int),
                OpenState::Flagged,
            ) && final(self).mine_counter == old(self).mine_counter - 1 && r == FlagResult::Placed,
            !old(self).game_over && x < GRID_SIDE && y < GRID_SIDE && old(self).open@[cell_index(
                x as int,
                y as int,
            )] == OpenState::Flagged ==> final(self).open@ == old(self).open@.update(
                cell_index(x as int, y as int),
                OpenState::Hidden,
            ) && final(self).mine_counter == old(self).mine_counter + 1 && r == FlagResult::Removed,
    {
        if self.game_over {
            return FlagResult::NoChange;
        }
        if x >= GRID_SIDE || y >= GRID_SIDE {
            return FlagResult::NoChange;
        }
        let idx = x * 9 + y;
        let st = self.open[idx];
        if st == OpenState::Revealed {
            return FlagResult::NoChange;
        }
        let ghost before = self.open@;
        proof {
            lemma_count_disjoint(before, OpenState::Flagged, OpenState::Revealed);
        }
        let r;
        if st == OpenState::Hidden {
            proof {
                lemma_count_update(before, idx as int, OpenState::Flagged, OpenState::Flagged);
                lemma_count_update(before, idx as int, OpenState::Flagged, OpenState::Revealed);
            }
            self.open[idx] = OpenState::Flagged;
            self.mine_counter = self.mine_counter - 1;
            r = FlagResult::Placed;
        } else {
            proof {
                lemma_count_update(before, idx as int, OpenState::Hidden, OpenState::Flagged);
                lemma_count_update(before, idx as int, OpenState::Hidden, OpenState::Revealed);
            }
            self.open[idx] = OpenState::Hidden;
            self.mine_counter = self.mine_counter + 1;
            r = FlagResult::Removed;
        }
        proof {
            assert forall|p: int, q: int, i: int, j: int|
                in_bounds(p, q) && in_bounds(i, j) && neighbors(p, q, i, j)
                    && self.open@[cell_index(p, q)] == OpenState::Revealed
                    && adjacent_mine_count(self.board@, p, q) == 0 implies self.open@[
                cell_index(i, j)] == OpenState::Revealed by {
                assert(cell_index(p, q) != idx);
                assert(before[cell_index(p, q)] == OpenState::Revealed);
                assert(before[cell_index(i, j)] == OpenState::Revealed);
                assert(cell_index(i, j) != idx);
            }
        }
        r
    }

    /// True exactly when every safe cell is revealed: the win condition. A
    /// cell still hidden or flagged is then always a mine.
    pub fn check_win(&self) -> (r: bool)
        requires
            self.wf(),
        ensures
            r == all_safe_revealed(self.board@, self.open@),
    {
        let mut x: usize = 0;
        while x < GRID_SIDE
            invariant
                self.wf(),
                x <= 9,
                forall|p: int, q: int|
                    in_bounds(p, q) && p < x && !mine_at(self.board@, p, q) ==> self.open@[
                        #[trigger] cell_index(p, q)] == OpenState::Revealed,
            decreases 9 - x,
        {
            let mut y: usize = 0;
            while y < GRID_SIDE
                invariant
                    self.wf(),
                    x < 9,
                    y <= 9,
                    forall|p: int, q: int|
                        in_bounds(p, q) && p < x && !mine_at(self.board@, p, q) ==> self.open@[
                            #[trigger] cell_index(p, q)] == OpenState::Revealed,
                    forall|q: int|
                        0 <= q < y && !mine_at(self.board@, x as int, q) ==> self.open@[
                            #[trigger] cell_index(x as int, q)] == OpenState::Revealed,
                decreases 9 - y,
            {
                if !self.board.is_mine(x, y) && self.open[x * 9 + y] != OpenState::Revealed {
                    proof {
                        assert(self.open@[cell_index(x as int, y as int)] != OpenState::Revealed);
                    }
                    return false;
                }
                y += 1;
            }
            x += 1;
        }
        true
    }

    /// Handles a primary click on cell `(x, y)`. After game over, out of
    /// bounds, or on a revealed or flagged cell it is a no-op (a flag blocks
    /// a direct reveal, even on a mine). On an unflagged mine the game is
    /// lost: the game-over flag is set and every mine's coordinates are
    /// returned for display. Otherwise the cell is flood-revealed and the
    /// win condition decides between going on and winning.
    pub fn click_reveal(&mut self, x: usize, y: usize) -> (r: ClickResult)
        requires
            old(self).wf(),
        ensures
            final(self).wf(),
            final(self).board == old(self).board,
            final(self).mine_counter == old(self).mine_counter,
            old(self).game_over || x >= GRID_SIDE || y >= GRID_SIDE || old(self).open@[cell_index(
                x as int,
                y as int,
            )] == OpenState::Revealed || old(self).open@[cell_index(x as int, y as int)]
                == OpenState::Flagged ==> *final(self) == *old(self) && r == ClickResult::Ignored,
            !old(self).game_over && x < GRID_SIDE && y < GRID_SIDE && old(self).open@[cell_index(
                x as int,
                y as int,
            )] == OpenState::Hidden && mine_at(old(self).board@, x as int, y as int)
                ==> final(self).open@ == old(self).open@ && final(self).game_over && (
            r matches ClickResult::Lost(ms) && mine_list_ok(old(self).board@, ms@)),
            !old(self).game_over && x < GRID_SIDE && y < GRID_SIDE && old(self).open@[cell_index(
                x as int,
                y as int,
            )] == OpenState::Hidden && !mine_at(old(self).board@, x as int, y as int) ==> {
                &&& reveal_monotone(old(self).open@, final(self).open@)
                &&& final(self).open@[cell_index(x as int, y as int)] == OpenState::Revealed
                &&& new_zero_cells_closed(old(self).board@, old(self).open@, final(self).open@)
                &&& newly_revealed_reachable(
                    old(self).board@,
                    old(self).open@,
                    final(self).open@,
                    x as int,
                    y as int,
                )
                &&& final(self).game_over == all_safe_revealed(old(self).board@, final(self).open@)
                &&& r == ClickResult::Won <==> all_safe_revealed(
                    old(self).board@,
                    final(self).open@,
                )
                &&& r == ClickResult::Continued <==> !all_safe_revealed(
                    old(self).board@,
                    final(self).open@,
                )
            },
    {
        if self.game_over {
            return ClickResult::Ignored;
        }
        if x >= GRID_SIDE || y >= GRID_SIDE {
            return ClickResult::Ignored;
        }
        let idx = x * 9 + y;
        let st = self.open[idx];
        if st == OpenState::Revealed || st == OpenState::Flagged {
            return ClickResult::Ignored;
        }
        if self.board.is_mine(x, y) {
            let ms = self.board.mine_list();
            self.game_over = true;
            return ClickResult::Lost(ms);
        }
        let ghost before = self.open@;
        flood_reveal(&self.board, &mut self.open, x, y, false);
        proof {
            lemma_counts_under_reveal(before, self.open@);
            assert forall|p: int, q: int, i: int, j: int|
                in_bounds(p, q) && in_bounds(i, j) && neighbors(p, q, i, j)
                    && self.open@[cell_index(p, q)] == OpenState::Revealed
                    && adjacent_mine_count(self.board@, p, q) == 0 implies self.open@[
                cell_index(i, j)] == OpenState::Revealed by {
                if before[cell_index(p, q)] == OpenState::Revealed {
                    assert(before[cell_index(i, j)] == OpenState::Revealed);
                }
            }
        }
        let won = self.check_win();
        if won {
            self.game_over = true;
            ClickResult::Won
        } else {
            ClickResult::Continued
        }
    }
}

} // verus!
