use minesweeper::board::Board;
use minesweeper::flood::OpenState;
use minesweeper::game::{ClickResult, FlagResult, GameState};

fn game_with_mines(idxs: &[usize]) -> GameState {
    GameState::new(Board::from_mine_indices(&idxs.to_vec()).unwrap())
}

fn cell(gs: &GameState, x: usize, y: usize) -> OpenState {
    gs.open[x * 9 + y]
}

fn revealed_count(gs: &GameState) -> usize {
    gs.open.iter().filter(|s| **s == OpenState::Revealed).count()
}

#[test]
fn new_game_starts_hidden() {
    let gs = game_with_mines(&[0]);
    assert_eq!(gs.mine_counter, 10);
    assert!(!gs.game_over);
    assert_eq!(revealed_count(&gs), 0);
    for s in gs.open.iter() {
        assert_eq!(*s, OpenState::Hidden);
    }
}

#[test]
fn flag_toggle_moves_counter_both_ways() {
    let mut gs = game_with_mines(&[0]);
    assert_eq!(gs.toggle_flag(3, 3), FlagResult::Placed);
    assert_eq!(cell(&gs, 3, 3), OpenState::Flagged);
    assert_eq!(gs.mine_counter, 9);
    assert_eq!(gs.toggle_flag(3, 3), FlagResult::Removed);
    assert_eq!(cell(&gs, 3, 3), OpenState::Hidden);
    assert_eq!(gs.mine_counter, 10);
}

#[test]
fn flag_on_revealed_cell_is_noop() {
    // Mine at (0,0); (8,8) is safe and revealing it cascades.
    let mut gs = game_with_mines(&[0]);
    gs.click_reveal(8, 8);
    assert_eq!(cell(&gs, 8, 8), OpenState::Revealed);
    assert_eq!(gs.toggle_flag(8, 8), FlagResult::NoChange);
    assert_eq!(cell(&gs, 8, 8), OpenState::Revealed);
    assert_eq!(gs.mine_counter, 10);
}

#[test]
fn counter_may_go_negative() {
    // Over-flagging is allowed; the counter is display-only.
    let mut gs = game_with_mines(&[0]);
    for k in 0..11 {
        assert_eq!(gs.toggle_flag(1 + k / 9, k % 9), FlagResult::Placed);
    }
    assert_eq!(gs.mine_counter, -1);
}

#[test]
fn click_on_flagged_cell_is_noop() {
    // Flag (3,3), then click it: the cell stays flagged and the click
    // leaves the mine counter where the flag put it.
    let mut gs = game_with_mines(&[0]);
    gs.toggle_flag(3, 3);
    assert_eq!(gs.mine_counter, 9);
    assert_eq!(gs.click_reveal(3, 3), ClickResult::Ignored);
    assert_eq!(cell(&gs, 3, 3), OpenState::Flagged);
    assert_eq!(gs.mine_counter, 9);
    assert!(!gs.game_over);
}

#[test]
fn click_on_flagged_mine_does_not_lose() {
    let mut gs = game_with_mines(&[40]);
    gs.toggle_flag(4, 4);
    assert_eq!(gs.click_reveal(4, 4), ClickResult::Ignored);
    assert!(!gs.game_over);
    assert_eq!(cell(&gs, 4, 4), OpenState::Flagged);
}

#[test]
fn click_on_mine_loses_and_reports_all_mines() {
    let mut gs = game_with_mines(&[0, 50]);
    let r = gs.click_reveal(0, 0);
    // Flat index 50 is (5,5).
    assert_eq!(r, ClickResult::Lost(vec![(0, 0), (5, 5)]));
    assert!(gs.game_over);
    // The open grid is untouched by a loss.
    assert_eq!(revealed_count(&gs), 0);
}

#[test]
fn input_after_game_over_is_ignored() {
    let mut gs = game_with_mines(&[0]);
    gs.click_reveal(0, 0);
    assert!(gs.game_over);
    assert_eq!(gs.click_reveal(8, 8), ClickResult::Ignored);
    assert_eq!(revealed_count(&gs), 0);
    assert_eq!(gs.toggle_flag(3, 3), FlagResult::NoChange);
    assert_eq!(gs.mine_counter, 10);
}

#[test]
fn out_of_bounds_input_is_ignored() {
    let mut gs = game_with_mines(&[0]);
    assert_eq!(gs.click_reveal(9, 0), ClickResult::Ignored);
    assert_eq!(gs.click_reveal(0, 9), ClickResult::Ignored);
    assert_eq!(gs.toggle_flag(9, 9), FlagResult::NoChange);
    assert_eq!(gs.mine_counter, 10);
    assert_eq!(revealed_count(&gs), 0);
}

#[test]
fn click_on_revealed_cell_is_noop() {
    let mut gs = game_with_mines(&[0, 1]);
    // (5,5) is far from both mines, so its count is zero and it cascades.
    gs.click_reveal(5, 5);
    assert_eq!(cell(&gs, 5, 5), OpenState::Revealed);
    let before = revealed_count(&gs);
    assert_eq!(gs.click_reveal(5, 5), ClickResult::Ignored);
    assert_eq!(revealed_count(&gs), before);
}

#[test]
fn zero_click_reveals_connected_region_once() {
    // Mine at (0,0) only: every cell but (0,1), (1,0), (1,1) has count 0,
    // and those three border the region, so a click at (8,8) reveals all
    // 80 safe cells and never touches the mine. Reveals are counted per
    // cell, so the total can never pass the number of cells.
    let mut gs = game_with_mines(&[0]);
    let r = gs.click_reveal(8, 8);
    assert_eq!(revealed_count(&gs), 80);
    assert_eq!(cell(&gs, 0, 0), OpenState::Hidden);
    assert_eq!(cell(&gs, 0, 1), OpenState::Revealed);
    assert_eq!(cell(&gs, 1, 0), OpenState::Revealed);
    assert_eq!(cell(&gs, 1, 1), OpenState::Revealed);
    assert_eq!(r, ClickResult::Won);
    assert!(gs.game_over);
}

#[test]
fn reveal_of_numbered_cell_does_not_cascade() {
    // (1,1) touches the mine at (0,0): revealing it uncovers just that cell.
    let mut gs = game_with_mines(&[0]);
    let r = gs.click_reveal(1, 1);
    assert_eq!(r, ClickResult::Continued);
    assert_eq!(revealed_count(&gs), 1);
    assert_eq!(cell(&gs, 1, 1), OpenState::Revealed);
    assert!(!gs.game_over);
}

#[test]
fn flood_fill_overrides_flags_on_its_way() {
    // A user cannot reveal a flagged cell directly, but a flood-fill wave
    // arriving from a zero-count neighbor flows through the flag. The
    // counter is not given back for the lost flag.
    let mut gs = game_with_mines(&[0]);
    gs.toggle_flag(5, 5);
    assert_eq!(gs.mine_counter, 9);
    let r = gs.click_reveal(8, 8);
    assert_eq!(cell(&gs, 5, 5), OpenState::Revealed);
    assert_eq!(gs.mine_counter, 9);
    assert_eq!(r, ClickResult::Won);
}

#[test]
fn win_check_accepts_exactly_the_won_position() {
    // Every safe cell revealed, mines hidden or flagged: won.
    let mut gs = game_with_mines(&[0, 40]);
    for i in 0..81 {
        if i != 0 && i != 40 {
            gs.open[i] = OpenState::Revealed;
        }
    }
    gs.open[40] = OpenState::Flagged;
    assert!(gs.check_win());
    // One safe cell still hidden: not won.
    gs.open[7] = OpenState::Hidden;
    assert!(!gs.check_win());
}

#[test]
fn winning_click_reports_won() {
    // Mines at (0,0) and (0,2): the safe cells split into no zero-region
    // around (0,1), so it must be clicked on its own; the last safe click
    // reports the win and sets the game-over flag.
    let mut gs = game_with_mines(&[0, 2]);
    let r1 = gs.click_reveal(8, 8);
    assert_eq!(r1, ClickResult::Continued);
    assert!(!gs.game_over);
    let r2 = gs.click_reveal(0, 1);
    assert_eq!(r2, ClickResult::Won);
    assert!(gs.game_over);
    assert_eq!(revealed_count(&gs), 79);
}

#[test]
fn single_mine_corner_click_cascades_to_win() {
    // 9x9 board, single mine at (0,0), one click at (8,8): one operation
    // reveals all 80 safe cells and ends in a win.
    let mut gs = game_with_mines(&[0]);
    let r = gs.click_reveal(8, 8);
    assert_eq!(r, ClickResult::Won);
    assert!(gs.game_over);
    assert_eq!(revealed_count(&gs), 80);
    for x in 0..9 {
        for y in 0..9 {
            if x == 0 && y == 0 {
                assert_eq!(cell(&gs, x, y), OpenState::Hidden);
            } else {
                assert_eq!(cell(&gs, x, y), OpenState::Revealed);
            }
        }
    }
}

#[test]
fn generated_game_plays() {
    // End-to-end over the random generator: flag one cell, reveal another.
    let mut gs = GameState::new(Board::generate(10).unwrap());
    let mut x = 0;
    let mut y = 0;
    for k in 0..81 {
        if !gs.board.is_mine(k / 9, k % 9) {
            x = k / 9;
            y = k % 9;
            break;
        }
    }
    let r = gs.click_reveal(x, y);
    assert_ne!(r, ClickResult::Ignored);
    assert_eq!(cell(&gs, x, y), OpenState::Revealed);
}
