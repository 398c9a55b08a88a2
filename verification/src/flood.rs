//! The reveal engine: flood-fill reveal of a cell and, when it has no
//! adjacent mines, of its whole connected zero-count region together with the
//! bordering non-zero cells. A flag blocks a direct reveal but not the wave
//! of a flood fill arriving from a neighboring zero-count cell.

use vstd::prelude::*;
use crate::board::{
    Board, GRID_SIDE, in_bounds, cell_index, neighbors, adjacent_mine_count, mine_at, mine_ind,
    CellKind,
};
use crate::count::{count_of, lemma_count_le_len, lemma_count_update};

verus! {

/// What the player sees of a cell; mutable during play. A cell only ever
/// moves to `Revealed`, never back.
#[derive(Clone, Copy, PartialEq, Eq, Structural, Debug)]
pub enum OpenState {
    Hidden,
    Revealed,
    Flagged,
}

/// `post` differs from `pre` only where a cell that was not revealed became
/// revealed: reveals are monotonic and nothing else changes.
pub open spec fn reveal_monotone(pre: Seq<OpenState>, post: Seq<OpenState>) -> bool {
    &&& post.len() == pre.len()
    &&& forall|k: int|
        0 <= k < pre.len() && post[k] != pre[k] ==> post[k] == OpenState::Revealed && pre[k]
            != OpenState::Revealed
}

/// Every cell newly revealed between `pre` and `post` that has no adjacent
/// mines has its whole 3x3 box revealed in `post`.
pub open spec fn new_zero_cells_closed(
    b: Seq<CellKind>,
    pre: Seq<OpenState>,
    post: Seq<OpenState>,
) -> bool {
    forall|p: int, q: int, i: int, j: int|
        in_bounds(p, q) && in_bounds(i, j) && neighbors(p, q, i, j) && post[cell_index(p, q)]
            == OpenState::Revealed && pre[cell_index(p, q)] != OpenState::Revealed
            && adjacent_mine_count(b, p, q) == 0 ==> post[cell_index(i, j)] == OpenState::Revealed
}

/// As `new_zero_cells_closed`, except that nothing is asked of the one cell
/// `(x, y)` whose own box is still being worked through.
pub open spec fn new_zero_cells_closed_but(
    b: Seq<CellKind>,
    pre: Seq<OpenState>,
    post: Seq<OpenState>,
    x: int,
    y: int,
) -> bool {
    forall|p: int, q: int, i: int, j: int|
        in_bounds(p, q) && in_bounds(i, j) && neighbors(p, q, i, j) && !(p == x && q == y)
            && post[cell_index(p, q)] == OpenState::Revealed && pre[cell_index(p, q)]
            != OpenState::Revealed && adjacent_mine_count(b, p, q) == 0 ==> post[cell_index(i, j)]
            == OpenState::Revealed
}

/// A zero-path on board `b` is a run of in-bounds cells, each bordering the
/// next, in which every cell but possibly the last has no adjacent mines.
pub open spec fn zero_path(b: Seq<CellKind>, path: Seq<(int, int)>) -> bool {
    &&& path.len() >= 1
    &&& forall|k: int| 0 <= k < path.len() ==> in_bounds(#[trigger] path[k].0, path[k].1)
    &&& forall|k: int|
        0 <= k < path.len() - 1 ==> adjacent_mine_count(b, #[trigger] path[k].0, path[k].1) == 0
            && neighbors(path[k].0, path[k].1, path[k + 1].0, path[k + 1].1)
}

/// Cell `(i, j)` lies in the connected zero region of `(x, y)` or on its
/// rim: some zero-path leads from `(x, y)` to it. The one-cell path makes
/// every cell reachable from itself.
pub open spec fn zero_reachable(b: Seq<CellKind>, x: int, y: int, i: int, j: int) -> bool {
    exists|path: Seq<(int, int)>|
        zero_path(b, path) && path[0] == (x, y) && path.last() == (i, j)
}

/// Every cell newly revealed between `pre` and `post` is zero-reachable from
/// the clicked cell `(x, y)`: the flood fill reveals nothing outside the
/// connected zero region of the click and its rim.
pub open spec fn newly_revealed_reachable(
    b: Seq<CellKind>,
    pre: Seq<OpenState>,
    post: Seq<OpenState>,
    x: int,
    y: int,
) -> bool {
    forall|i: int, j: int|
        in_bounds(i, j) && post[cell_index(i, j)] == OpenState::Revealed && pre[cell_index(i, j)]
            != OpenState::Revealed ==> zero_reachable(b, x, y, i, j)
}

/// Putting the zero-count cell `(x, y)` in front of a zero-path that starts
/// beside it gives a zero-path again.
proof fn lemma_zero_path_prepend(b: Seq<CellKind>, x: int, y: int, path: Seq<(int, int)>)
    requires
        zero_path(b, path),
        in_bounds(x, y),
        adjacent_mine_count(b, x, y) == 0,
        neighbors(x, y, path[0].0, path[0].1),
    ensures
        zero_path(b, seq![(x, y)].add(path)),
        (seq![(x, y)].add(path))[0] == (x, y),
        (seq![(x, y)].add(path)).last() == path.last(),
{
    let p2 = seq![(x, y)].add(path);
    assert(p2.len() == path.len() + 1);
    assert forall|k: int| 0 <= k < p2.len() implies in_bounds(#[trigger] p2[k].0, p2[k].1) by {
        if k == 0 {
            assert(p2[0] == (x, y));
        } else {
            assert(p2[k] == path[k - 1]);
        }
    }
    assert forall|k: int| 0 <= k < p2.len() - 1 implies adjacent_mine_count(
        b,
        #[trigger] p2[k].0,
        p2[k].1,
    ) == 0 && neighbors(p2[k].0, p2[k].1, p2[k + 1].0, p2[k + 1].1) by {
        if k == 0 {
            assert(p2[0] == (x, y));
            assert(p2[1] == path[0]);
        } else {
            assert(p2[k] == path[k - 1]);
            assert(p2[k + 1] == path[k]);
        }
    }
    assert(p2.last() == path[path.len() - 1]);
}

/// Every revealed cell with no adjacent mines has its whole 3x3 box
/// revealed. This is the shape a board reached by flood-fill reveals always
/// has; the reveal engine reestablishes it after every click.
pub open spec fn zero_region_closed(b: Seq<CellKind>, o: Seq<OpenState>) -> bool {
    forall|p: int, q: int, i: int, j: int|
        in_bounds(p, q) && in_bounds(i, j) && neighbors(p, q, i, j) && o[cell_index(p, q)]
            == OpenState::Revealed && adjacent_mine_count(b, p, q) == 0 ==> o[cell_index(i, j)]
            == OpenState::Revealed
}

/// Changing no cell but ones that become revealed can only keep the revealed
/// count growing, the flagged count shrinking, and their sum growing.
pub proof fn lemma_counts_under_reveal(a: Seq<OpenState>, b: Seq<OpenState>)
    requires
        a.len() == b.len(),
        forall|k: int|
            0 <= k < a.len() && b[k] != a[k] ==> b[k] == OpenState::Revealed && a[k]
                != OpenState::Revealed,
    ensures
        count_of(b, OpenState::Revealed) >= count_of(a, OpenState::Revealed),
        count_of(b, OpenState::Flagged) <= count_of(a, OpenState::Flagged),
        count_of(b, OpenState::Flagged) + count_of(b, OpenState::Revealed) >= count_of(
            a,
            OpenState::Flagged,
        ) + count_of(a, OpenState::Revealed),
    decreases a.len(),
{
    if a.len() > 0 {
        assert forall|k: int|
            0 <= k < a.drop_last().len() && b.drop_last()[k] != a.drop_last()[k] implies b
            .drop_last()[k] == OpenState::Revealed && a.drop_last()[k] != OpenState::Revealed by {
            assert(a.drop_last()[k] == a[k]);
            assert(b.drop_last()[k] == b[k]);
        }
        lemma_counts_under_reveal(a.drop_last(), b.drop_last());
    }
}

/// Reveals cell `(x, y)`. A cell already revealed, or flagged when
/// `allow_flag_override` is false, is left alone. Otherwise the cell becomes
/// revealed, and when it has no adjacent mines the whole 3x3 box around it is
/// revealed the same way, with the override set, so that the wave flows
/// through flags. Terminates because a reveal is never undone: the measure is
/// the number of not-yet-revealed cells, so at most one reveal per cell.
#[verifier::loop_isolation(false)]
pub fn flood_reveal(board: &Board, open: &mut Vec<OpenState>, x: usize, y: usize,
    allow_flag_override: bool)
    requires
        board.wf(),
        old(open)@.len() == 81,
        x < GRID_SIDE,
        y < GRID_SIDE,
    ensures
        reveal_monotone(old(open)@, final(open)@),
        old(open)@[cell_index(x as int, y as int)] == OpenState::Revealed ==> final(open)@ == old(
            open,
        )@,
        old(open)@[cell_index(x as int, y as int)] == OpenState::Flagged && !allow_flag_override
            ==> final(open)@ == old(open)@,
        !(old(open)@[cell_index(x as int, y as int)] == OpenState::Flagged && !allow_flag_override)
            ==> final(open)@[cell_index(x as int, y as int)] == OpenState::Revealed,
        new_zero_cells_closed(board@, old(open)@, final(open)@),
        newly_revealed_reachable(board@, old(open)@, final(open)@, x as int, y as int),
    decreases 81 - count_of(old(open)@, OpenState::Revealed),
{
    let ghost pre = open@;
    let idx = x * 9 + y;
    let cur = open[idx];
    if cur == OpenState::Revealed {
        return ;
    }
    if cur == OpenState::Flagged && !allow_flag_override {
        return ;
    }
    let n = board.count_adjacent_mines(x, y);
    open[idx] = OpenState::Revealed;
    proof {
        lemma_count_update(pre, idx as int, OpenState::Revealed, OpenState::Revealed);
        assert forall|p: int, q: int|
            in_bounds(p, q) && cell_index(p, q) == idx implies p == x && q == y by {
            assert(p * 9 + q == x * 9 + y);
        }
        // The clicked cell is reachable from itself by the one-cell path.
        let unit: Seq<(int, int)> = seq![(x as int, y as int)];
        assert(unit[0] == (x as int, y as int));
        assert(unit.last() == (x as int, y as int));
        assert(zero_path(board@, unit));
        assert(zero_reachable(board@, x as int, y as int, x as int, y as int));
    }
    if n == 0 {
        let mut di: usize = 0;
        while di < 3
            invariant
                di <= 3,
                open@[cell_index(x as int, y as int)] == OpenState::Revealed,
                reveal_monotone(pre, open@),
                count_of(open@, OpenState::Revealed) > count_of(pre, OpenState::Revealed),
                new_zero_cells_closed_but(board@, pre, open@, x as int, y as int),
                newly_revealed_reachable(board@, pre, open@, x as int, y as int),
                forall|i: int, j: int|
                    x - 1 <= i < x - 1 + di && y - 1 <= j < y + 2 && in_bounds(i, j) ==> open@[
                        #[trigger] cell_index(i, j)] == OpenState::Revealed,
            decreases 3 - di,
        {
            let mut dj: usize = 0;
            while dj < 3
                invariant
                    dj <= 3,
                    open@[cell_index(x as int, y as int)] == OpenState::Revealed,
                    reveal_monotone(pre, open@),
                    count_of(open@, OpenState::Revealed) > count_of(pre, OpenState::Revealed),
                    new_zero_cells_closed_but(board@, pre, open@, x as int, y as int),
                    newly_revealed_reachable(board@, pre, open@, x as int, y as int),
                    forall|i: int, j: int|
                        x - 1 <= i < x - 1 + di && y - 1 <= j < y + 2 && in_bounds(i, j) ==> open@[
                            #[trigger] cell_index(i, j)] == OpenState::Revealed,
                    forall|i: int, j: int|
                        i == x - 1 + di && y - 1 <= j < y - 1 + dj && in_bounds(i, j) ==> open@[
                            #[trigger] cell_index(i, j)] == OpenState::Revealed,
                decreases 3 - dj,
            {
                if x + di >= 1 && x + di <= 9 && y + dj >= 1 && y + dj <= 9 {
                    let nx = x + di - 1;
                    let ny = y + dj - 1;
                    let ghost mid = open@;
                    proof {
                        lemma_count_le_len(mid, OpenState::Revealed);
                    }
                    flood_reveal(board, open, nx, ny, true);
                    proof {
                        lemma_flood_step(
                            board@,
                            pre,
                            mid,
                            open@,
                            x as int,
                            y as int,
                            nx as int,
                            ny as int,
                        );
                        lemma_counts_under_reveal(mid, open@);
                    }
                }
                dj += 1;
            }
            di += 1;
        }
        proof {
            assert forall|p: int, q: int, i: int, j: int|
                in_bounds(p, q) && in_bounds(i, j) && neighbors(p, q, i, j) && open@[cell_index(
                    p,
                    q,
                )] == OpenState::Revealed && pre[cell_index(p, q)] != OpenState::Revealed
                && adjacent_mine_count(board@, p, q) == 0 implies open@[cell_index(i, j)]
                == OpenState::Revealed by {
                if p == x && q == y {
                    assert(x - 1 <= i < x - 1 + 3 && y - 1 <= j < y + 2);
                    assert(open@[cell_index(i, j)] == OpenState::Revealed);
                }
            }
        }
    }
}

/// How one recursive reveal of the neighbor `(nx, ny)` of the zero-count cell
/// `(x, y)` carries the loop's facts from the state `mid` before the call to
/// the state `post` after it; `pre` is the state the whole operation started
/// from.
proof fn lemma_flood_step(
    b: Seq<CellKind>,
    pre: Seq<OpenState>,
    mid: Seq<OpenState>,
    post: Seq<OpenState>,
    x: int,
    y: int,
    nx: int,
    ny: int,
)
    requires
        pre.len() == 81,
        in_bounds(x, y),
        in_bounds(nx, ny),
        neighbors(x, y, nx, ny),
        adjacent_mine_count(b, x, y) == 0,
        pre[cell_index(x, y)] != OpenState::Revealed,
        mid[cell_index(x, y)] == OpenState::Revealed,
        reveal_monotone(pre, mid),
        reveal_monotone(mid, post),
        new_zero_cells_closed_but(b, pre, mid, x, y),
        new_zero_cells_closed(b, mid, post),
        newly_revealed_reachable(b, pre, mid, x, y),
        newly_revealed_reachable(b, mid, post, nx, ny),
        post[cell_index(nx, ny)] == OpenState::Revealed,
    ensures
        post[cell_index(x, y)] == OpenState::Revealed,
        post[cell_index(nx, ny)] == OpenState::Revealed,
        reveal_monotone(pre, post),
        new_zero_cells_closed_but(b, pre, post, x, y),
        newly_revealed_reachable(b, pre, post, x, y),
{
    assert(post[cell_index(x, y)] == OpenState::Revealed);
    assert(post[cell_index(nx, ny)] == OpenState::Revealed);
    assert forall|k: int| 0 <= k < 81 && post[k] != pre[k] implies post[k] == OpenState::Revealed
        && pre[k] != OpenState::Revealed by {
        if mid[k] != pre[k] {
        } else {
        }
    }
    assert forall|p: int, q: int, i: int, j: int|
        in_bounds(p, q) && in_bounds(i, j) && neighbors(p, q, i, j) && !(p == x && q == y)
            && post[cell_index(p, q)] == OpenState::Revealed && pre[cell_index(p, q)]
            != OpenState::Revealed && adjacent_mine_count(b, p, q) == 0 implies post[cell_index(
        i,
        j,
    )] == OpenState::Revealed by {
        if mid[cell_index(p, q)] == OpenState::Revealed {
            assert(mid[cell_index(i, j)] == OpenState::Revealed);
        }
    }
    assert forall|i: int, j: int|
        in_bounds(i, j) && post[cell_index(i, j)] == OpenState::Revealed && pre[cell_index(i, j)]
            != OpenState::Revealed implies zero_reachable(b, x, y, i, j) by {
        if mid[cell_index(i, j)] == OpenState::Revealed {
            // Already reachable before the call; a path does not depend on
            // the open state.
            assert(zero_reachable(b, x, y, i, j));
        } else {
            // Newly revealed by the recursive call: a path from (nx, ny),
            // with the zero-count cell (x, y) put in front of it.
            assert(zero_reachable(b, nx, ny, i, j));
            let path = choose|path: Seq<(int, int)>|
                zero_path(b, path) && path[0] == (nx, ny) && path.last() == (i, j);
            assert(neighbors(x, y, path[0].0, path[0].1));
            lemma_zero_path_prepend(b, x, y, path);
            let p2 = seq![(x, y)].add(path);
            assert(zero_path(b, p2) && p2[0] == (x, y) && p2.last() == (i, j));
        }
    }
}

/// Law: a reveal operation started on a safe cell never uncovers a mine.
/// Every newly revealed cell lies at the end of a zero-path from the click;
/// that path either is the one safe cell itself or ends beside a zero-count
/// cell, and no neighbor of a zero-count cell holds a mine.
pub proof fn lemma_reveal_stays_safe(
    b: Seq<CellKind>,
    pre: Seq<OpenState>,
    post: Seq<OpenState>,
    x: int,
    y: int,
)
    requires
        in_bounds(x, y),
        !mine_at(b, x, y),
        newly_revealed_reachable(b, pre, post, x, y),
    ensures
        forall|i: int, j: int|
            in_bounds(i, j) && mine_at(b, i, j) && post[#[trigger] cell_index(i, j)]
                == OpenState::Revealed ==> pre[cell_index(i, j)] == OpenState::Revealed,
{
    assert forall|i: int, j: int|
        in_bounds(i, j) && mine_at(b, i, j) && post[#[trigger] cell_index(i, j)]
            == OpenState::Revealed implies pre[cell_index(i, j)] == OpenState::Revealed by {
        if pre[cell_index(i, j)] != OpenState::Revealed {
            assert(zero_reachable(b, x, y, i, j));
            let path = choose|path: Seq<(int, int)>|
                zero_path(b, path) && path[0] == (x, y) && path.last() == (i, j);
            if path.len() == 1 {
                assert(path.last() == path[0]);
                assert(mine_at(b, x, y));
            } else {
                let k = path.len() - 2;
                assert(adjacent_mine_count(b, path[k].0, path[k].1) == 0);
                assert(neighbors(path[k].0, path[k].1, path[k + 1].0, path[k + 1].1));
                assert(path[k + 1] == (i, j));
                assert(mine_ind(b, i, j) == 1);
                assert(adjacent_mine_count(b, path[k].0, path[k].1) >= 1);
            }
        }
    }
}

/// Law: in a zero-region-closed state, once the head of a zero-path is
/// revealed, its whole connected zero-count region along the path is revealed
/// too, down to the bordering cell the path may end in. So one reveal of a
/// zero-count cell uncovers its entire connected zero region and that
/// region's rim.
pub proof fn lemma_zero_region_revealed(b: Seq<CellKind>, o: Seq<OpenState>, path: Seq<(int, int)>)
    requires
        o.len() == 81,
        zero_region_closed(b, o),
        zero_path(b, path),
        o[cell_index(path[0].0, path[0].1)] == OpenState::Revealed,
    ensures
        o[cell_index(path.last().0, path.last().1)] == OpenState::Revealed,
    decreases path.len(),
{
    if path.len() > 1 {
        let x0 = path[0].0;
        let y0 = path[0].1;
        let x1 = path[1].0;
        let y1 = path[1].1;
        assert(in_bounds(x0, y0) && in_bounds(x1, y1));
        assert(adjacent_mine_count(b, x0, y0) == 0 && neighbors(x0, y0, x1, y1));
        assert(o[cell_index(x1, y1)] == OpenState::Revealed);
        let rest = path.subrange(1, path.len() as int);
        assert forall|k: int| 0 <= k < rest.len() - 1 implies adjacent_mine_count(
            b,
            rest[k].0,
            rest[k].1,
        ) == 0 && neighbors(rest[k].0, rest[k].1, rest[k + 1].0, rest[k + 1].1) by {
            assert(rest[k] == path[k + 1]);
            assert(rest[k + 1] == path[k + 2]);
        }
        lemma_zero_region_revealed(b, o, rest);
        assert(rest.last() == path.last());
    }
}

/// Law: together with `newly_revealed_reachable`, this pins the effect of a
/// reveal exactly. In a zero-region-closed state in which `(x, y)` is
/// revealed, every cell zero-reachable from `(x, y)` is revealed: the whole
/// connected zero region of the click, and its rim, is uncovered.
pub proof fn lemma_reachable_region_revealed(
    b: Seq<CellKind>,
    o: Seq<OpenState>,
    x: int,
    y: int,
    i: int,
    j: int,
)
    requires
        o.len() == 81,
        zero_region_closed(b, o),
        zero_reachable(b, x, y, i, j),
        o[cell_index(x, y)] == OpenState::Revealed,
    ensures
        o[cell_index(i, j)] == OpenState::Revealed,
{
    let path = choose|path: Seq<(int, int)>|
        zero_path(b, path) && path[0] == (x, y) && path.last() == (i, j);
    lemma_zero_region_revealed(b, o, path);
}

} // verus!
