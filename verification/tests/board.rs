use minesweeper::board::{Board, GRID_SIDE, INITIAL_NUM_MINES};

fn board_with_mines(idxs: &[usize]) -> Board {
    Board::from_mine_indices(&idxs.to_vec()).unwrap()
}

fn count_mines(b: &Board) -> usize {
    let mut n = 0;
    for x in 0..GRID_SIDE {
        for y in 0..GRID_SIDE {
            if b.is_mine(x, y) {
                n += 1;
            }
        }
    }
    n
}

#[test]
fn generate_places_exact_mine_count() {
    // Distinctness and bounds are forced by the grid representation: ten
    // mine cells means ten distinct in-bounds coordinates.
    let b = Board::generate(INITIAL_NUM_MINES).unwrap();
    assert_eq!(count_mines(&b), 10);
    assert_eq!(b.mine_list().len(), 10);
}

#[test]
fn generate_is_fresh_each_time() {
    for _ in 0..20 {
        let b = Board::generate(INITIAL_NUM_MINES).unwrap();
        assert_eq!(count_mines(&b), 10);
    }
}

#[test]
fn generate_rejects_too_many_mines() {
    assert!(Board::generate(82).is_none());
    assert!(Board::generate(usize::MAX).is_none());
}

#[test]
fn generate_extreme_counts() {
    let full = Board::generate(81).unwrap();
    assert_eq!(count_mines(&full), 81);
    let empty = Board::generate(0).unwrap();
    assert_eq!(count_mines(&empty), 0);
}

#[test]
fn from_mine_indices_rejects_bad_input() {
    assert!(Board::from_mine_indices(&vec![3, 3]).is_none());
    assert!(Board::from_mine_indices(&vec![0, 81]).is_none());
    assert!(Board::from_mine_indices(&vec![]).is_some());
}

#[test]
fn adjacency_counts_are_exact() {
    // Mines at (0,0) and (1,1); flat indices 0 and 10.
    let b = board_with_mines(&[0, 10]);
    // The 3x3 box of (0,1) holds both mines.
    assert_eq!(b.count_adjacent_mines(0, 1), 2);
    // The box of the corner (0,0) holds the cell itself and (1,1).
    assert_eq!(b.count_adjacent_mines(0, 0), 2);
    // The box of (2,2) holds only (1,1).
    assert_eq!(b.count_adjacent_mines(2, 2), 1);
    // Far away, no mines.
    assert_eq!(b.count_adjacent_mines(5, 5), 0);
    assert_eq!(b.count_adjacent_mines(8, 8), 0);
}

#[test]
fn adjacency_counts_at_edges() {
    // Mine at (8,8); flat index 80.
    let b = board_with_mines(&[80]);
    assert_eq!(b.count_adjacent_mines(7, 7), 1);
    assert_eq!(b.count_adjacent_mines(8, 7), 1);
    assert_eq!(b.count_adjacent_mines(7, 8), 1);
    assert_eq!(b.count_adjacent_mines(8, 8), 1);
    assert_eq!(b.count_adjacent_mines(6, 8), 0);
    // Opposite corner is untouched.
    assert_eq!(b.count_adjacent_mines(0, 0), 0);
}

#[test]
fn mine_list_is_sorted_and_complete() {
    // Flat index 5 is (0,5); 27 is (3,0); 80 is (8,8).
    let b = board_with_mines(&[27, 80, 5]);
    assert_eq!(b.mine_list(), vec![(0, 5), (3, 0), (8, 8)]);
}

#[test]
fn is_mine_matches_seed() {
    let b = board_with_mines(&[40]);
    assert!(b.is_mine(4, 4));
    assert!(!b.is_mine(4, 5));
    assert!(!b.is_mine(0, 0));
}
