//! The rules of play: revealing cells, with the cascade over cells that
//! have no mine around them, and flagging.

use crate::gameboard::{shifted, BoardError, CellState, GameStatus, Gameboard};
use crate::grid::{
    adjacent, adjacent_mines, cascade, cascade_path, flag_toggled, hidden_blanks, in_bounds,
    is_square, lemma_reached_is_hidden_blank, lemma_reaches_start, lemma_reaches_step,
    lemma_uncover_one, mine_positions, reaches, revealed, status, uncovered, with_cell, Grid,
};
use vstd::prelude::*;

verus! {

/// Plays the game on one board.
pub struct GameboardController {
    /// The board that is played on.
    pub gameboard: Gameboard,
    /// The cell that the player has selected, if any, as `[x, y]`.
    pub selected_cell: Option<[usize; 2]>,
}

impl GameboardController {
    /// The board that is played on is well formed.
    pub open spec fn wf(&self) -> bool {
        self.gameboard.wf()
    }

    /// A controller for a game on `gameboard`, with no cell selected.
    pub fn new(gameboard: Gameboard) -> (controller: GameboardController)
        requires
            gameboard.wf(),
        ensures
            controller.wf(),
            controller.gameboard == gameboard,
            controller.selected_cell is None,
    {
        GameboardController { gameboard, selected_cell: None }
    }

    /// Reveals the cell at `(x, y)`.
    ///
    /// A hidden mine explodes, and no other cell changes. A hidden blank
    /// cell is uncovered; where no mine lies next to it the reveal
    /// spreads to its hidden blank neighbours, and so on from each cell
    /// uncovered in this way. A cell that is revealed, flagged or
    /// exploded stays as it is. The result says where the game then
    /// stands. Off the board nothing changes and `OutOfBounds` comes back.
    /// No mine is ever added, removed or moved.
    pub fn open_cell(&mut self, x: usize, y: usize) -> (r: Result<GameStatus, BoardError>)
        requires
            old(self).wf(),
        ensures
            final(self).wf(),
            final(self).selected_cell == old(self).selected_cell,
            final(self).gameboard@ == revealed(old(self).gameboard@, x as int, y as int),
            mine_positions(final(self).gameboard@) == mine_positions(old(self).gameboard@),
            match r {
                Ok(s) => in_bounds(old(self).gameboard@, x as int, y as int) && s == status(
                    final(self).gameboard@,
                ),
                Err(e) => !in_bounds(old(self).gameboard@, x as int, y as int) && e
                    == BoardError::OutOfBounds && final(self).gameboard@ == old(self).gameboard@,
            },
    {
        if x >= self.gameboard.size() || y >= self.gameboard.size() {
            return Err(BoardError::OutOfBounds);
        }
        match self.gameboard.get(x, y) {
            CellState::HiddenMine => {
                self.gameboard.put(x, y, CellState::Exploded);
                assert(mine_positions(self.gameboard@) =~= mine_positions(old(self).gameboard@));
            },
            CellState::HiddenBlank => {
                uncover_region(&mut self.gameboard, x, y);
            },
            _ => {},
        }
        Ok(self.gameboard.status())
    }

    /// Puts a flag on the hidden cell at `(x, y)`, or takes it off again.
    ///
    /// A cell that is revealed or exploded stays as it is, and no other
    /// cell changes. Off the board nothing changes and `OutOfBounds`
    /// comes back. No mine is ever added, removed or moved.
    pub fn toggle_flag(&mut self, x: usize, y: usize) -> (r: Result<(), BoardError>)
        requires
            old(self).wf(),
        ensures
            final(self).wf(),
            final(self).selected_cell == old(self).selected_cell,
            final(self).gameboard@ == flag_toggled(old(self).gameboard@, x as int, y as int),
            mine_positions(final(self).gameboard@) == mine_positions(old(self).gameboard@),
            match r {
                Ok(_) => in_bounds(old(self).gameboard@, x as int, y as int),
                Err(e) => !in_bounds(old(self).gameboard@, x as int, y as int) && e
                    == BoardError::OutOfBounds && final(self).gameboard@ == old(self).gameboard@,
            },
    {
        if x >= self.gameboard.size() || y >= self.gameboard.size() {
            return Err(BoardError::OutOfBounds);
        }
        let cell: CellState = self.gameboard.get(x, y);
        self.gameboard.put(x, y, cell.toggled());
        assert(mine_positions(self.gameboard@) =~= mine_positions(old(self).gameboard@));
        Ok(())
    }

    /// Where the game stands.
    pub fn status(&self) -> (s: GameStatus)
        requires
            self.wf(),
        ensures
            s == status(self.gameboard@),
    {
        self.gameboard.status()
    }

    /// Selects the cell at `(x, y)`, or clears the selection where the
    /// coordinate is not on the board. The board does not change.
    pub fn select(&mut self, x: usize, y: usize)
        requires
            old(self).wf(),
        ensures
            final(self).wf(),
            final(self).gameboard == old(self).gameboard,
            match final(self).selected_cell {
                Some(cell) => in_bounds(old(self).gameboard@, x as int, y as int) && cell[0] == x
                    && cell[1] == y,
                None => !in_bounds(old(self).gameboard@, x as int, y as int),
            },
    {
        if x < self.gameboard.size() && y < self.gameboard.size() {
            self.selected_cell = Some([x, y]);
        } else {
            self.selected_cell = None;
        }
    }
}

/// Uncovers the hidden blank cell `(x, y)` and, where no mine lies next
/// to an uncovered cell, its hidden blank neighbours in turn. The cells
/// still to look at wait on a work list; a cell's own state tells
/// whether it has been dealt with, so none is uncovered twice.
#[verifier::rlimit(40)]
fn uncover_region(board: &mut Gameboard, x: usize, y: usize)
    requires
        old(board).wf(),
        in_bounds(old(board)@, x as int, y as int),
        old(board)@[y as int][x as int] == CellState::HiddenBlank,
    ensures
        final(board).wf(),
        final(board)@ == cascade(old(board)@, x as int, y as int),
        mine_positions(final(board)@) == mine_positions(old(board)@),
{
    let ghost g0 = board@;
    let ghost start = (x as int, y as int);
    let mut pending: Vec<(usize, usize)> = Vec::new();
    pending.push((x, y));
    proof {
        lemma_reaches_start(g0, start.0, start.1);
        assert(pending@[0] == (x, y));
        assert(queued(pending@, start.0, start.1));
        assert forall|a: int, b: int| queued(pending@, a, b) implies a == start.0 && b
            == start.1 by {
            let k = choose|k: int|
                0 <= k < pending@.len() && (#[trigger] pending@[k]).0 == a && pending@[k].1 == b;
        }
    }
    while pending.len() > 0
        invariant
            board.wf(),
            partial_cascade(g0, board@, start),
            spreading(g0, board@, pending@),
            awaited(g0, board@, pending@, start.0, start.1),
            forall|a: int, b: int| #[trigger] queued(pending@, a, b) ==> reaches(g0, start, (a, b)),
        decreases hidden_blanks(board@).len(), pending@.len(),
    {
        let ghost before = pending@;
        let ghost cur0 = board@;
        let top: Option<(usize, usize)> = pending.pop();
        let (cx, cy) = top.unwrap();
        let ghost c = (cx as int, cy as int);
        proof {
            lemma_popped(before, pending@);
            lemma_reached_is_hidden_blank(g0, start, c.0, c.1);
            lemma_counts_kept(g0, cur0, start, c.0, c.1);
        }
        match board.get(cx, cy) {
            CellState::HiddenBlank => {
                let k: u8 = board.adjacent(cx, cy);
                if k == 0 {
                    board.put(cx, cy, CellState::RevealedBlank);
                    let ghost popped = pending@;
                    enqueue_neighbors(board, &mut pending, cx, cy);
                    proof {
                        assert forall|a: int, b: int| queued(pending@, a, b) implies reaches(
                            g0,
                            start,
                            (a, b),
                        ) by {
                            if !queued(popped, a, b) {
                                assert(cur0[b][a] == CellState::HiddenBlank);
                                assert(g0[b][a] == CellState::HiddenBlank);
                                lemma_reaches_step(g0, start, c, (a, b));
                            }
                        }
                    }
                } else {
                    board.put(cx, cy, CellState::RevealedNumber(k));
                }
                proof {
                    lemma_uncover_one(cur0, c.0, c.1, uncovered(g0, c.0, c.1));
                }
            },
            _ => {},
        }
        proof {
            lemma_turn(g0, cur0, board@, before, pending@, start, c);
        }
    }
    proof {
        assert(pending@ =~= Seq::<(usize, usize)>::empty());
        lemma_cascade_done(g0, board@, start.0, start.1);
        lemma_counts_kept(g0, board@, start, start.0, start.1);
    }
}

/// Puts every neighbour of `(x, y)` that is on the board, hidden and
/// blank on the work list.
#[verifier::rlimit(40)]
fn enqueue_neighbors(board: &Gameboard, pending: &mut Vec<(usize, usize)>, x: usize, y: usize)
    requires
        board.wf(),
        in_bounds(board@, x as int, y as int),
    ensures
        final(pending)@.len() <= old(pending)@.len() + 8,
        forall|a: int, b: int|
            #[trigger] queued(old(pending)@, a, b) ==> queued(final(pending)@, a, b),
        forall|a: int, b: int|
            #[trigger] queued(final(pending)@, a, b) ==> queued(old(pending)@, a, b) || (adjacent(
                (x as int, y as int),
                (a, b),
            ) && in_bounds(board@, a, b) && board@[b][a] == CellState::HiddenBlank),
        forall|a: int, b: int|
            adjacent((x as int, y as int), (a, b)) && in_bounds(board@, a, b) && board@[b][a]
                == CellState::HiddenBlank ==> #[trigger] queued(final(pending)@, a, b),
{
    enqueue_neighbor(board, pending, x, y, -1, -1);
    enqueue_neighbor(board, pending, x, y, 0, -1);
    enqueue_neighbor(board, pending, x, y, 1, -1);
    enqueue_neighbor(board, pending, x, y, -1, 0);
    let ghost half = pending@;
    assert forall|a: int, b: int| #[trigger] queued(half, a, b) implies queued(old(pending)@, a, b)
        || (adjacent((x as int, y as int), (a, b)) && in_bounds(board@, a, b) && board@[b][a]
        == CellState::HiddenBlank) by {}
    enqueue_neighbor(board, pending, x, y, 1, 0);
    enqueue_neighbor(board, pending, x, y, -1, 1);
    enqueue_neighbor(board, pending, x, y, 0, 1);
    enqueue_neighbor(board, pending, x, y, 1, 1);
    assert forall|a: int, b: int| #[trigger] queued(pending@, a, b) implies queued(half, a, b) || (
    adjacent((x as int, y as int), (a, b)) && in_bounds(board@, a, b) && board@[b][a]
        == CellState::HiddenBlank) by {}
}

/// Puts the neighbour of `(x, y)` in direction `(dx, dy)` on the work
/// list if it is on the board, hidden and blank.
fn enqueue_neighbor(
    board: &Gameboard,
    pending: &mut Vec<(usize, usize)>,
    x: usize,
    y: usize,
    dx: i8,
    dy: i8,
)
    requires
        board.wf(),
        in_bounds(board@, x as int, y as int),
        -1 <= dx <= 1,
        -1 <= dy <= 1,
    ensures
        final(pending)@.len() <= old(pending)@.len() + 1,
        forall|a: int, b: int|
            #[trigger] queued(old(pending)@, a, b) ==> queued(final(pending)@, a, b),
        forall|a: int, b: int|
            #[trigger] queued(final(pending)@, a, b) ==> queued(old(pending)@, a, b) || (a == x
                + dx && b == y + dy && in_bounds(board@, a, b) && board@[b][a]
                == CellState::HiddenBlank),
        in_bounds(board@, x + dx, y + dy) && board@[y + dy][x + dx] == CellState::HiddenBlank
            ==> queued(final(pending)@, x + dx, y + dy),
{
    let n: usize = board.size();
    match (shifted(x, dx, n), shifted(y, dy, n)) {
        (Some(nx), Some(ny)) => {
            match board.get(nx, ny) {
                CellState::HiddenBlank => {
                    pending.push((nx, ny));
                    proof {
                        let before = old(pending)@;
                        let after = pending@;
                        assert(after[before.len() as int] == (nx, ny));
                        assert forall|a: int, b: int| queued(before, a, b) implies queued(
                            after,
                            a,
                            b,
                        ) by {
                            let k = choose|k: int|
                                0 <= k < before.len() && (#[trigger] before[k]).0 == a
                                    && before[k].1 == b;
                            assert(after[k] == before[k]);
                        }
                        assert forall|a: int, b: int| queued(after, a, b) implies queued(
                            before,
                            a,
                            b,
                        ) || (a == nx && b == ny) by {
                            let k = choose|k: int|
                                0 <= k < after.len() && (#[trigger] after[k]).0 == a && after[k].1
                                    == b;
                            if k < before.len() {
                                assert(before[k] == after[k]);
                            }
                        }
                    }
                },
                _ => {},
            }
        },
        _ => {},
    }
}

/// `(x, y)` stands in the work list.
spec fn queued(pending: Seq<(usize, usize)>, x: int, y: int) -> bool {
    exists|k: int| 0 <= k < pending.len() && (#[trigger] pending[k]).0 == x && pending[k].1 == y
}

/// The cascade from `start` over `g0` has come as far as `cur`: each
/// cell is either untouched, or reached and uncovered.
spec fn partial_cascade(g0: Grid, cur: Grid, start: (int, int)) -> bool {
    &&& is_square(g0)
    &&& is_square(cur)
    &&& cur.len() == g0.len()
    &&& forall|x: int, y: int|
        in_bounds(g0, x, y) ==> (#[trigger] cur[y][x]) == g0[y][x] || (reaches(g0, start, (x, y))
            && cur[y][x] == uncovered(g0, x, y))
}

/// A cell that the cascade must not forget is either uncovered already
/// or stands in the work list.
spec fn awaited(g0: Grid, cur: Grid, pending: Seq<(usize, usize)>, x: int, y: int) -> bool {
    in_bounds(g0, x, y) && g0[y][x] == CellState::HiddenBlank ==> cur[y][x]
        != CellState::HiddenBlank || queued(pending, x, y)
}

/// All eight neighbours of `(x, y)` are awaited.
spec fn settled(g0: Grid, cur: Grid, pending: Seq<(usize, usize)>, x: int, y: int) -> bool {
    &&& awaited(g0, cur, pending, x - 1, y - 1)
    &&& awaited(g0, cur, pending, x, y - 1)
    &&& awaited(g0, cur, pending, x + 1, y - 1)
    &&& awaited(g0, cur, pending, x - 1, y)
    &&& awaited(g0, cur, pending, x + 1, y)
    &&& awaited(g0, cur, pending, x - 1, y + 1)
    &&& awaited(g0, cur, pending, x, y + 1)
    &&& awaited(g0, cur, pending, x + 1, y + 1)
}

/// Around every cell that was uncovered and has no mine next to it, the
/// neighbours are awaited.
spec fn spreading(g0: Grid, cur: Grid, pending: Seq<(usize, usize)>) -> bool {
    forall|x: int, y: int|
        in_bounds(g0, x, y) && g0[y][x] == CellState::HiddenBlank && cur[y][x]
            != CellState::HiddenBlank && adjacent_mines(g0, x, y) == 0 ==> #[trigger] settled(
            g0,
            cur,
            pending,
            x,
            y,
        )
}

/// Taking the last entry off the work list loses that entry and no other.
proof fn lemma_popped(before: Seq<(usize, usize)>, popped: Seq<(usize, usize)>)
    requires
        before.len() > 0,
        popped == before.subrange(0, before.len() - 1),
    ensures
        queued(before, before.last().0 as int, before.last().1 as int),
        forall|a: int, b: int| #[trigger] queued(popped, a, b) ==> queued(before, a, b),
        forall|a: int, b: int|
            #[trigger] queued(before, a, b) ==> queued(popped, a, b) || (a == before.last().0 && b
                == before.last().1),
{
    assert(before[before.len() - 1] == before.last());
    assert forall|a: int, b: int| queued(popped, a, b) implies queued(before, a, b) by {
        let k = choose|k: int|
            0 <= k < popped.len() && (#[trigger] popped[k]).0 == a && popped[k].1 == b;
        assert(before[k] == popped[k]);
    }
    assert forall|a: int, b: int| queued(before, a, b) implies queued(popped, a, b) || (a
        == before.last().0 && b == before.last().1) by {
        let k = choose|k: int|
            0 <= k < before.len() && (#[trigger] before[k]).0 == a && before[k].1 == b;
        if k < popped.len() {
            assert(popped[k] == before[k]);
        }
    }
}

/// While a cascade runs no mine comes or goes, so the counts of
/// neighbouring mines stay what they were.
proof fn lemma_counts_kept(g0: Grid, cur: Grid, start: (int, int), x: int, y: int)
    requires
        partial_cascade(g0, cur, start),
    ensures
        adjacent_mines(cur, x, y) == adjacent_mines(g0, x, y),
        mine_positions(cur) == mine_positions(g0),
{
    assert forall|i: int, j: int| in_bounds(g0, i, j) implies (#[trigger] cur[j][i]).is_mine()
        == g0[j][i].is_mine() by {
        if cur[j][i] != g0[j][i] {
            let path = choose|path: Seq<(int, int)>|
                #[trigger] cascade_path(g0, path) && path[0] == start && path.last() == (i, j);
            assert(path[path.len() - 1] == (i, j));
        }
    }
    assert(mine_positions(cur) =~= mine_positions(g0));
}

/// One turn of the cascade keeps what the loop relies on: the cell
/// taken off the work list is uncovered if it was not yet, and where it
/// has no mine around it, its hidden neighbours now wait on the list.
#[verifier::rlimit(40)]
proof fn lemma_turn(
    g0: Grid,
    cur0: Grid,
    cur1: Grid,
    before: Seq<(usize, usize)>,
    after: Seq<(usize, usize)>,
    start: (int, int),
    c: (int, int),
)
    requires
        partial_cascade(g0, cur0, start),
        spreading(g0, cur0, before),
        awaited(g0, cur0, before, start.0, start.1),
        reaches(g0, start, c),
        cur0[c.1][c.0] != CellState::HiddenBlank ==> cur1 == cur0,
        cur0[c.1][c.0] == CellState::HiddenBlank ==> cur1 == with_cell(
            cur0,
            c.0,
            c.1,
            uncovered(g0, c.0, c.1),
        ),
        forall|a: int, b: int|
            #[trigger] queued(before, a, b) ==> queued(after, a, b) || (a == c.0 && b == c.1),
        cur0[c.1][c.0] == CellState::HiddenBlank && adjacent_mines(g0, c.0, c.1) == 0 ==> forall|
            a: int,
            b: int,
        |
            adjacent(c, (a, b)) && in_bounds(g0, a, b) && cur1[b][a] == CellState::HiddenBlank
                ==> #[trigger] queued(after, a, b),
    ensures
        partial_cascade(g0, cur1, start),
        spreading(g0, cur1, after),
        awaited(g0, cur1, after, start.0, start.1),
{
    lemma_reached_is_hidden_blank(g0, start, c.0, c.1);
    assert(cur1[c.1][c.0] != CellState::HiddenBlank);
    assert forall|a: int, b: int| in_bounds(g0, a, b) implies ((#[trigger] cur1[b][a]) == g0[b][a]
        || (reaches(g0, start, (a, b)) && cur1[b][a] == uncovered(g0, a, b))) && (cur0[b][a]
        != CellState::HiddenBlank ==> cur1[b][a] != CellState::HiddenBlank) by {
        assert(cur0[b][a] == g0[b][a] || (reaches(g0, start, (a, b)) && cur0[b][a] == uncovered(
            g0,
            a,
            b,
        )));
    }
    assert(is_square(cur1));
    assert forall|a: int, b: int| awaited(g0, cur0, before, a, b) implies awaited(
        g0,
        cur1,
        after,
        a,
        b,
    ) by {
        if in_bounds(g0, a, b) {
            assert(cur0[b][a] != CellState::HiddenBlank ==> cur1[b][a] != CellState::HiddenBlank);
        }
    }
    assert forall|a: int, b: int|
        in_bounds(g0, a, b) && g0[b][a] == CellState::HiddenBlank && cur1[b][a]
            != CellState::HiddenBlank && adjacent_mines(g0, a, b) == 0 implies #[trigger] settled(
        g0,
        cur1,
        after,
        a,
        b,
    ) by {
        if a == c.0 && b == c.1 && cur0[b][a] == CellState::HiddenBlank {
            lemma_fresh_settled(g0, cur1, after, c);
        } else {
            assert(cur0[b][a] != CellState::HiddenBlank);
            assert(settled(g0, cur0, before, a, b));
        }
    }
}

/// Around a cell whose hidden neighbours all wait on the work list, the
/// neighbours are awaited.
proof fn lemma_fresh_settled(g0: Grid, cur: Grid, pending: Seq<(usize, usize)>, c: (int, int))
    requires
        cur.len() == g0.len(),
        forall|a: int, b: int|
            adjacent(c, (a, b)) && in_bounds(g0, a, b) && cur[b][a] == CellState::HiddenBlank
                ==> #[trigger] queued(pending, a, b),
    ensures
        settled(g0, cur, pending, c.0, c.1),
{
    assert(adjacent(c, (c.0 - 1, c.1 - 1)));
    assert(adjacent(c, (c.0, c.1 - 1)));
    assert(adjacent(c, (c.0 + 1, c.1 - 1)));
    assert(adjacent(c, (c.0 - 1, c.1)));
    assert(adjacent(c, (c.0 + 1, c.1)));
    assert(adjacent(c, (c.0 - 1, c.1 + 1)));
    assert(adjacent(c, (c.0, c.1 + 1)));
    assert(adjacent(c, (c.0 + 1, c.1 + 1)));
}

/// Where the neighbours of a cell are awaited, each single neighbour is.
proof fn lemma_settled_covers(
    g0: Grid,
    cur: Grid,
    pending: Seq<(usize, usize)>,
    c: (int, int),
    n: (int, int),
)
    requires
        settled(g0, cur, pending, c.0, c.1),
        adjacent(c, n),
    ensures
        awaited(g0, cur, pending, n.0, n.1),
{
    let dx = n.0 - c.0;
    let dy = n.1 - c.1;
    assert(-1 <= dx <= 1 && -1 <= dy <= 1 && !(dx == 0 && dy == 0));
    if dy == -1 {
        if dx == -1 {
            assert(n == (c.0 - 1, c.1 - 1));
        } else if dx == 0 {
            assert(n == (c.0, c.1 - 1));
        } else {
            assert(n == (c.0 + 1, c.1 - 1));
        }
    } else if dy == 0 {
        if dx == -1 {
            assert(n == (c.0 - 1, c.1));
        } else {
            assert(n == (c.0 + 1, c.1));
        }
    } else {
        if dx == -1 {
            assert(n == (c.0 - 1, c.1 + 1));
        } else if dx == 0 {
            assert(n == (c.0, c.1 + 1));
        } else {
            assert(n == (c.0 + 1, c.1 + 1));
        }
    }
}

/// Once the work list is empty, every cell along a cascade path has been
/// uncovered.
proof fn lemma_path_uncovered(g0: Grid, cur: Grid, path: Seq<(int, int)>, i: int)
    requires
        spreading(g0, cur, Seq::empty()),
        awaited(g0, cur, Seq::empty(), path[0].0, path[0].1),
        cascade_path(g0, path),
        0 <= i < path.len(),
    ensures
        cur[path[i].1][path[i].0] != CellState::HiddenBlank,
    decreases i,
{
    let none = Seq::<(usize, usize)>::empty();
    let here = path[i];
    assert(in_bounds(g0, here.0, here.1) && g0[here.1][here.0] == CellState::HiddenBlank);
    assert(!queued(none, here.0, here.1));
    if i > 0 {
        lemma_path_uncovered(g0, cur, path, i - 1);
        let via = path[i - 1];
        assert(in_bounds(g0, via.0, via.1) && g0[via.1][via.0] == CellState::HiddenBlank);
        assert(adjacent_mines(g0, via.0, via.1) == 0 && adjacent(via, path[i - 1 + 1]));
        assert(settled(g0, cur, none, via.0, via.1));
        lemma_settled_covers(g0, cur, none, via, here);
    }
}

/// Once the work list is empty, the board is the cascade of the board
/// that the reveal began on.
proof fn lemma_cascade_done(g0: Grid, cur: Grid, x: int, y: int)
    requires
        partial_cascade(g0, cur, (x, y)),
        spreading(g0, cur, Seq::empty()),
        awaited(g0, cur, Seq::empty(), x, y),
    ensures
        cur == cascade(g0, x, y),
{
    let done = cascade(g0, x, y);
    assert forall|j: int| 0 <= j < cur.len() implies #[trigger] cur[j] =~= done[j] by {
        assert(cur[j].len() == g0[j].len());
        assert forall|i: int| 0 <= i < cur[j].len() implies cur[j][i] == #[trigger] done[j][i] by {
            assert(in_bounds(g0, i, j));
            if reaches(g0, (x, y), (i, j)) {
                let path = choose|path: Seq<(int, int)>|
                    #[trigger] cascade_path(g0, path) && path[0] == (x, y) && path.last() == (i, j);
                lemma_path_uncovered(g0, cur, path, path.len() - 1);
                assert(path[path.len() - 1] == (i, j));
            }
        }
    }
    assert(cur =~= done);
}

} // verus!
