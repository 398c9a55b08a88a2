//! The immutable mine grid: a fixed 9x9 board of cells, each empty or a mine,
//! created once from a set of distinct mine positions, plus the adjacent-mine
//! count that the reveal algorithm is driven by.

use vstd::prelude::*;
use vstd::seq_lib::group_to_multiset_ensures;
use crate::count::{count_of, lemma_count_absent, lemma_count_update};
use rand::seq::SliceRandom;

verus! {

/// Side length of the (square) board.
pub const GRID_SIDE: usize = 9;

/// Number of cells on the board.
pub const GRID_CELLS: usize = 81;

/// Number of mines a standard game is generated with.
pub const INITIAL_NUM_MINES: usize = 10;

/// What a cell of the board is; fixed once the board is generated.
#[derive(Clone, Copy, PartialEq, Eq, Structural, Debug)]
pub enum CellKind {
    Empty,
    Mine,
}

/// True when `(x, y)` is a cell of the 9x9 board.
pub open spec fn in_bounds(x: int, y: int) -> bool {
    0 <= x < 9 && 0 <= y < 9
}

/// Position of cell `(x, y)` in the flat, column-major cell sequence.
pub open spec fn cell_index(x: int, y: int) -> int {
    x * 9 + y
}

/// True when `(i, j)` lies in the 3x3 box around `(x, y)` (Chebyshev
/// distance at most 1; the box includes `(x, y)` itself).
pub open spec fn neighbors(x: int, y: int, i: int, j: int) -> bool {
    -1 <= i - x <= 1 && -1 <= j - y <= 1
}

/// True when cell `(x, y)` of `b` is in bounds and holds a mine.
pub open spec fn mine_at(b: Seq<CellKind>, x: int, y: int) -> bool {
    in_bounds(x, y) && b[cell_index(x, y)] == CellKind::Mine
}

/// 1 when cell `(x, y)` of `b` is an in-bounds mine, else 0.
pub open spec fn mine_ind(b: Seq<CellKind>, x: int, y: int) -> nat {
    if mine_at(b, x, y) {
        1
    } else {
        0
    }
}

/// Exact number of mines in the 3x3 box around `(x, y)`, counting only cells
/// that exist on the board; off-board positions contribute nothing.
pub open spec fn adjacent_mine_count(b: Seq<CellKind>, x: int, y: int) -> nat {
    mine_ind(b, x - 1, y - 1) + mine_ind(b, x - 1, y) + mine_ind(b, x - 1, y + 1) + mine_ind(
        b,
        x,
        y - 1,
    ) + mine_ind(b, x, y) + mine_ind(b, x, y + 1) + mine_ind(b, x + 1, y - 1) + mine_ind(
        b,
        x + 1,
        y,
    ) + mine_ind(b, x + 1, y + 1)
}

/// A list of flat cell indices may seed a board when every index names a
/// cell and no cell is named twice.
pub open spec fn valid_mine_indices(ms: Seq<usize>) -> bool {
    &&& forall|i: int| 0 <= i < ms.len() ==> ms[i] < 81
    &&& ms.no_duplicates()
}

/// The fixed mine grid. The flat cell sequence has one entry per board cell,
/// cell `(x, y)` at position `x * 9 + y`.
pub struct Board {
    pub cells: Vec<CellKind>,
}

impl View for Board {
    type V = Seq<CellKind>;

    open spec fn view(&self) -> Seq<CellKind> {
        self.cells@
    }
}

impl Board {
    /// A board is well formed when it has exactly one cell per grid position.
    pub open spec fn wf(&self) -> bool {
        self@.len() == 81
    }

    /// Bounds-checked mine query.
    pub fn is_mine(&self, x: usize, y: usize) -> (r: bool)
        requires
            self.wf(),
            x < GRID_SIDE,
            y < GRID_SIDE,
        ensures
            r == mine_at(self@, x as int, y as int),
    {
        self.cells[x * 9 + y] == CellKind::Mine
    }

    /// 1 when `(x, y)` is an in-bounds mine, 0 otherwise; the coordinates may
    /// point off the board.
    fn mine_indicator(&self, x: i32, y: i32) -> (r: u32)
        requires
            self.wf(),
        ensures
            r == mine_ind(self@, x as int, y as int),
    {
        if 0 <= x && x < 9 && 0 <= y && y < 9 {
            if self.cells[(x * 9 + y) as usize] == CellKind::Mine {
                1
            } else {
                0
            }
        } else {
            0
        }
    }

    /// Exact count of mines in the 3x3 box around `(x, y)`; edge and corner
    /// cells simply have fewer existing neighbors.
    pub fn count_adjacent_mines(&self, x: usize, y: usize) -> (n: u32)
        requires
            self.wf(),
            x < GRID_SIDE,
            y < GRID_SIDE,
        ensures
            n == adjacent_mine_count(self@, x as int, y as int),
    {
        let xi = x as i32;
        let yi = y as i32;
        self.mine_indicator(xi - 1, yi - 1) + self.mine_indicator(xi - 1, yi)
            + self.mine_indicator(xi - 1, yi + 1) + self.mine_indicator(xi, yi - 1)
            + self.mine_indicator(xi, yi) + self.mine_indicator(xi, yi + 1)
            + self.mine_indicator(xi + 1, yi - 1) + self.mine_indicator(xi + 1, yi)
            + self.mine_indicator(xi + 1, yi + 1)
    }

    /// Builds a board whose mines stand exactly at the given flat cell
    /// indices. Returns nothing when an index is out of range or repeated.
    pub fn from_mine_indices(mines: &Vec<usize>) -> (r: Option<Board>)
        ensures
            r is Some <==> valid_mine_indices(mines@),
            r matches Some(b) ==> {
                &&& b.wf()
                &&& count_of(b@, CellKind::Mine) == mines@.len()
                &&& forall|x: int, y: int|
                    in_bounds(x, y) ==> (mine_at(b@, x, y) <==> mines@.contains(
                        cell_index(x, y) as usize,
                    ))
            },
    {
        let n = mines.len();
        let mut i: usize = 0;
        while i < n
            invariant
                n == mines@.len(),
                i <= n,
                forall|k: int| 0 <= k < i ==> mines@[k] < 81,
                forall|k1: int, k2: int| 0 <= k1 < k2 < i ==> mines@[k1] != mines@[k2],
            decreases n - i,
        {
            if mines[i] >= GRID_CELLS {
                return None;
            }
            let mut j: usize = 0;
            while j < i
                invariant
                    n == mines@.len(),
                    i < n,
                    j <= i,
                    forall|k: int| 0 <= k < j ==> mines@[k] != mines@[i as int],
                decreases i - j,
            {
                if mines[j] == mines[i] {
                    return None;
                }
                j += 1;
            }
            i += 1;
        }
        let mut cells: Vec<CellKind> = Vec::new();
        let mut k: usize = 0;
        while k < GRID_CELLS
            invariant
                cells@.len() == k,
                k <= 81,
                forall|c: int| 0 <= c < k ==> cells@[c] == CellKind::Empty,
            decreases 81 - k,
        {
            cells.push(CellKind::Empty);
            k += 1;
        }
        proof {
            lemma_count_absent(cells@, CellKind::Mine);
        }
        let mut p: usize = 0;
        while p < n
            invariant
                n == mines@.len(),
                p <= n,
                cells@.len() == 81,
                valid_mine_indices(mines@),
                count_of(cells@, CellKind::Mine) == p,
                forall|c: int|
                    0 <= c < 81 ==> cells@[c] == (if (exists|q: int|
                        0 <= q < p && mines@[q] == c) {
                        CellKind::Mine
                    } else {
                        CellKind::Empty
                    }),
            decreases n - p,
        {
            let m = mines[p];
            proof {
                assert(forall|q: int| 0 <= q < p ==> mines@[q] != mines@[p as int]);
                assert(cells@[m as int] == CellKind::Empty);
                lemma_count_update(cells@, m as int, CellKind::Mine, CellKind::Mine);
            }
            cells[m] = CellKind::Mine;
            p += 1;
        }
        let b = Board { cells };
        proof {
            assert forall|x: int, y: int| in_bounds(x, y) implies (mine_at(b@, x, y) <==> mines@
                .contains(cell_index(x, y) as usize)) by {
                let c = cell_index(x, y);
                assert(0 <= c < 81);
                if mines@.contains(c as usize) {
                    let q = choose|q: int| 0 <= q < mines@.len() && mines@[q] == c as usize;
                    assert(b@[c] == CellKind::Mine);
                }
                if b@[c] == CellKind::Mine {
                    let q = choose|q: int| 0 <= q < n && mines@[q] == c;
                    assert(mines@[q] == c as usize);
                }
            }
        }
        Some(b)
    }

    /// Generates a board by drawing `mine_count` distinct cells uniformly at
    /// random. Returns nothing exactly when more mines are asked for than the
    /// board has cells.
    pub fn generate(mine_count: usize) -> (r: Option<Board>)
        ensures
            r is Some <==> mine_count <= GRID_CELLS,
            r matches Some(b) ==> b.wf() && count_of(b@, CellKind::Mine) == mine_count,
    {
        if mine_count > GRID_CELLS {
            return None;
        }
        let mut ids: Vec<u64> = Vec::new();
        let mut k: usize = 0;
        while k < GRID_CELLS
            invariant
                ids@.len() == k,
                k <= 81,
                forall|i: int| 0 <= i < k ==> ids@[i] == i,
            decreases 81 - k,
        {
            ids.push(k as u64);
            k += 1;
        }
        let ghost before = ids@;
        shuffle_cells(&mut ids);
        proof {
            broadcast use group_to_multiset_ensures;

            assert(before.no_duplicates());
            before.lemma_multiset_has_no_duplicates();
            assert forall|v: u64| ids@.to_multiset().contains(v) implies ids@.to_multiset().count(v)
                == 1 by {
                assert(before.to_multiset().count(v) > 0);
            }
            ids@.lemma_multiset_has_no_duplicates_conv();
            assert forall|i: int| 0 <= i < ids@.len() implies ids@[i] < 81 by {
                assert(ids@.contains(ids@[i]));
                assert(before.to_multiset().count(ids@[i]) > 0);
                assert(before.contains(ids@[i]));
                let q = choose|q: int| 0 <= q < before.len() && before[q] == ids@[i];
            }
        }
        let mut mines: Vec<usize> = Vec::new();
        let mut p: usize = 0;
        while p < mine_count
            invariant
                mine_count <= 81,
                ids@.len() == 81,
                forall|i: int| 0 <= i < 81 ==> ids@[i] < 81,
                ids@.no_duplicates(),
                p <= mine_count,
                mines@.len() == p,
                forall|i: int| 0 <= i < p ==> mines@[i] == ids@[i] as usize,
            decreases mine_count - p,
        {
            mines.push(ids[p] as usize);
            p += 1;
        }
        proof {
            assert forall|k1: int, k2: int| 0 <= k1 < k2 < mines@.len() implies mines@[k1]
                != mines@[k2] by {
                assert(ids@[k1] != ids@[k2]);
            }
            assert(mines@.no_duplicates());
        }
        let r = Board::from_mine_indices(&mines);
        proof {
            assert(r is Some);
        }
        r
    }

    /// Every mine on the board, as coordinates, in increasing cell-index
    /// order (so column-major, each coordinate pair at most once).
    pub fn mine_list(&self) -> (ms: Vec<(usize, usize)>)
        requires
            self.wf(),
        ensures
            mine_list_ok(self@, ms@),
    {
        let mut ms: Vec<(usize, usize)> = Vec::new();
        let mut x: usize = 0;
        while x < GRID_SIDE
            invariant
                self.wf(),
                x <= 9,
                forall|k: int|
                    0 <= k < ms@.len() ==> in_bounds(ms@[k].0 as int, ms@[k].1 as int) && mine_at(
                        self@,
                        ms@[k].0 as int,
                        ms@[k].1 as int,
                    ),
                forall|k1: int, k2: int|
                    0 <= k1 < k2 < ms@.len() ==> cell_index(ms@[k1].0 as int, ms@[k1].1 as int)
                        < cell_index(ms@[k2].0 as int, ms@[k2].1 as int),
                forall|k: int|
                    0 <= k < ms@.len() ==> cell_index(ms@[k].0 as int, ms@[k].1 as int) < cell_index(
                        x as int,
                        0,
                    ),
                forall|p: int, q: int|
                    in_bounds(p, q) && p < x && mine_at(self@, p, q) ==> ms@.contains(
                        ((p as usize), (q as usize)),
                    ),
            decreases 9 - x,
        {
            let mut y: usize = 0;
            while y < GRID_SIDE
                invariant
                    self.wf(),
                    x < 9,
                    y <= 9,
                    forall|k: int|
                        0 <= k < ms@.len() ==> in_bounds(ms@[k].0 as int, ms@[k].1 as int)
                            && mine_at(self@, ms@[k].0 as int, ms@[k].1 as int),
                    forall|k1: int, k2: int|
                        0 <= k1 < k2 < ms@.len() ==> cell_index(ms@[k1].0 as int, ms@[k1].1 as int)
                            < cell_index(ms@[k2].0 as int, ms@[k2].1 as int),
                    forall|k: int|
                        0 <= k < ms@.len() ==> cell_index(ms@[k].0 as int, ms@[k].1 as int)
                            < cell_index(x as int, y as int),
                    forall|p: int, q: int|
                        in_bounds(p, q) && cell_index(p, q) < cell_index(x as int, y as int)
                            && mine_at(self@, p, q) ==> ms@.contains(((p as usize), (q as usize))),
                decreases 9 - y,
            {
                if self.is_mine(x, y) {
                    let ghost old_ms = ms@;
                    ms.push((x, y));
                    proof {
                        assert(ms@ == old_ms.push((x, y)));
                        assert(ms@[ms@.len() - 1] == ((x, y)));
                        assert forall|p: int, q: int|
                            in_bounds(p, q) && cell_index(p, q) < cell_index(
                                x as int,
                                y as int,
                            ) + 1 && mine_at(self@, p, q) implies ms@.contains(
                            ((p as usize), (q as usize)),
                        ) by {
                            let pq = ((p as usize), (q as usize));
                            if cell_index(p, q) < cell_index(x as int, y as int) {
                                assert(old_ms.contains(pq));
                                let k = choose|k: int| 0 <= k < old_ms.len() && old_ms[k] == pq;
                                assert(ms@[k] == pq);
                            } else {
                                assert(p == x && q == y);
                                assert(ms@[ms@.len() - 1] == pq);
                            }
                        }
                    }
                } else {
                    proof {
                        assert forall|p: int, q: int|
                            in_bounds(p, q) && cell_index(p, q) < cell_index(
                                x as int,
                                y as int,
                            ) + 1 && mine_at(self@, p, q) implies ms@.contains(
                            ((p as usize), (q as usize)),
                        ) by {
                            assert(cell_index(p, q) != cell_index(x as int, y as int));
                        }
                    }
                }
                y += 1;
            }
            x += 1;
        }
        ms
    }
}

/// The full mine coordinate list of board `b`: each entry an in-bounds mine,
/// entries strictly increasing by cell index, and every mine present.
pub open spec fn mine_list_ok(b: Seq<CellKind>, ms: Seq<(usize, usize)>) -> bool {
    &&& forall|k: int|
        0 <= k < ms.len() ==> in_bounds(ms[k].0 as int, ms[k].1 as int) && mine_at(
            b,
            ms[k].0 as int,
            ms[k].1 as int,
        )
    &&& forall|k1: int, k2: int|
        0 <= k1 < k2 < ms.len() ==> cell_index(ms[k1].0 as int, ms[k1].1 as int) < cell_index(
            ms[k2].0 as int,
            ms[k2].1 as int,
        )
    &&& forall|p: int, q: int|
        in_bounds(p, q) && mine_at(b, p, q) ==> ms.contains(((p as usize), (q as usize)))
}

/// Relies on rand's `SliceRandom::shuffle` (a Fisher-Yates shuffle that only
/// swaps elements in place): it permutes the slice, so the multiset of
/// elements, and with it the length, is unchanged.
#[verifier::external_body]
fn shuffle_cells(v: &mut Vec<u64>)
    ensures
        final(v)@.len() == old(v)@.len(),
        final(v)@.to_multiset() == old(v)@.to_multiset(),
{
    let mut rng = rand::rng();
    v.as_mut_slice().shuffle(&mut rng);
}

} // verus!
