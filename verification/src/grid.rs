//! The mathematical model of a board and of the rules of the game.
//!
//! A grid is a sequence of rows; `g[y][x]` is the cell in column `x` of
//! row `y`. Everything here is ghost code: the executable board and
//! controller state their contracts with these functions.

use crate::gameboard::{CellState, GameStatus};
use vstd::prelude::*;

verus! {

/// The model of a board: rows of cells.
pub type Grid = Seq<Seq<CellState>>;

/// Every row is as long as the grid has rows.
pub open spec fn is_square(g: Grid) -> bool {
    forall|y: int| 0 <= y < g.len() ==> (#[trigger] g[y]).len() == g.len()
}

/// `(x, y)` names a cell of the grid.
pub open spec fn in_bounds(g: Grid, x: int, y: int) -> bool {
    0 <= x < g.len() && 0 <= y < g.len()
}

/// The grid with the cell at `(x, y)` replaced by `c`.
pub open spec fn with_cell(g: Grid, x: int, y: int, c: CellState) -> Grid {
    g.update(y, g[y].update(x, c))
}

/// `(x, y)` is on the grid and holds a mine, whatever its presentation.
pub open spec fn mine_at(g: Grid, x: int, y: int) -> bool {
    in_bounds(g, x, y) && g[y][x].is_mine()
}

/// 1 where `(x, y)` is on the grid and holds a mine, 0 elsewhere; a
/// coordinate off the grid counts for nothing and is never wrapped.
pub open spec fn mine_weight(g: Grid, x: int, y: int) -> nat {
    if mine_at(g, x, y) {
        1
    } else {
        0
    }
}

/// The number of mines among the eight neighbours of `(x, y)`.
pub open spec fn adjacent_mines(g: Grid, x: int, y: int) -> nat {
    mine_weight(g, x - 1, y - 1) + mine_weight(g, x, y - 1) + mine_weight(g, x + 1, y - 1)
        + mine_weight(g, x - 1, y) + mine_weight(g, x + 1, y)
        + mine_weight(g, x - 1, y + 1) + mine_weight(g, x, y + 1) + mine_weight(g, x + 1, y + 1)
}

/// The coordinates of the cells that hold a mine.
pub open spec fn mine_positions(g: Grid) -> Set<(int, int)> {
    Set::new(|p: (int, int)| mine_at(g, p.0, p.1))
}

/// The number of cells that hold a mine.
pub open spec fn mine_count(g: Grid) -> nat {
    mine_positions(g).len()
}

/// Every cell is hidden and without a flag, as on a board that has not
/// been played on.
pub open spec fn untouched(g: Grid) -> bool {
    forall|x: int, y: int|
        in_bounds(g, x, y) ==> (#[trigger] g[y][x]) == CellState::HiddenBlank || g[y][x]
            == CellState::HiddenMine
}

/// `b` is one of the eight neighbours of `a`.
pub open spec fn adjacent(a: (int, int), b: (int, int)) -> bool {
    a != b && a.0 - 1 <= b.0 <= a.0 + 1 && a.1 - 1 <= b.1 <= a.1 + 1
}

/// What a blank cell shows once revealed: nothing where no neighbour
/// holds a mine, else the number of neighbours that do.
pub open spec fn uncovered(g: Grid, x: int, y: int) -> CellState {
    if adjacent_mines(g, x, y) == 0 {
        CellState::RevealedBlank
    } else {
        CellState::RevealedNumber(adjacent_mines(g, x, y) as u8)
    }
}

/// A way for a reveal to spread: every cell of the path is on the grid,
/// hidden and blank, each is a neighbour of the one before it, and every
/// cell but the last has no mine among its neighbours.
pub open spec fn cascade_path(g: Grid, path: Seq<(int, int)>) -> bool {
    &&& path.len() > 0
    &&& forall|i: int|
        0 <= i < path.len() ==> in_bounds(g, (#[trigger] path[i]).0, path[i].1)
            && g[path[i].1][path[i].0] == CellState::HiddenBlank
    &&& forall|i: int|
        0 <= i < path.len() - 1 ==> adjacent_mines(g, (#[trigger] path[i]).0, path[i].1) == 0
            && adjacent(path[i], path[i + 1])
}

/// A reveal of `start` uncovers `target`: some cascade path leads from
/// the one to the other.
pub open spec fn reaches(g: Grid, start: (int, int), target: (int, int)) -> bool {
    exists|path: Seq<(int, int)>|
        #[trigger] cascade_path(g, path) && path[0] == start && path.last() == target
}

/// The grid after a reveal of the hidden blank cell `(x, y)`: the cells
/// that the reveal reaches are uncovered, all others are as before.
pub open spec fn cascade(g: Grid, x: int, y: int) -> Grid {
    Seq::new(
        g.len(),
        |j: int|
            Seq::new(
                g[j].len(),
                |i: int|
                    if reaches(g, (x, y), (i, j)) {
                        uncovered(g, i, j)
                    } else {
                        g[j][i]
                    },
            ),
    )
}

/// The grid after the player reveals `(x, y)`: a hidden mine explodes
/// and nothing else changes; a hidden blank cell starts a cascade; any
/// other cell, and any coordinate off the grid, leaves the grid as it is.
pub open spec fn revealed(g: Grid, x: int, y: int) -> Grid {
    if !in_bounds(g, x, y) {
        g
    } else {
        match g[y][x] {
            CellState::HiddenMine => with_cell(g, x, y, CellState::Exploded),
            CellState::HiddenBlank => cascade(g, x, y),
            _ => g,
        }
    }
}

/// The grid after the player toggles the flag on `(x, y)`.
pub open spec fn flag_toggled(g: Grid, x: int, y: int) -> Grid {
    if in_bounds(g, x, y) {
        with_cell(g, x, y, g[y][x].toggled())
    } else {
        g
    }
}

/// Some mine has exploded.
pub open spec fn has_exploded(g: Grid) -> bool {
    exists|x: int, y: int| in_bounds(g, x, y) && (#[trigger] g[y][x]) == CellState::Exploded
}

/// Every cell that holds no mine is revealed.
pub open spec fn all_safe_revealed(g: Grid) -> bool {
    forall|x: int, y: int|
        in_bounds(g, x, y) ==> (#[trigger] g[y][x]).is_mine() || g[y][x].is_revealed()
}

/// Where the game stands: lost once a mine has exploded; won when no
/// mine has exploded and every cell without a mine is revealed.
pub open spec fn status(g: Grid) -> GameStatus {
    if has_exploded(g) {
        GameStatus::Lost
    } else if all_safe_revealed(g) {
        GameStatus::Won
    } else {
        GameStatus::InProgress
    }
}

/// The coordinates of the cells that are hidden, blank and not flagged.
pub open spec fn hidden_blanks(g: Grid) -> Set<(int, int)> {
    Set::new(|p: (int, int)| in_bounds(g, p.0, p.1) && g[p.1][p.0] == CellState::HiddenBlank)
}

/// The coordinates `(x, y)` with `x < w` and `y < h`.
pub open spec fn rectangle(w: nat, h: nat) -> Set<(int, int)> {
    Set::new(|p: (int, int)| 0 <= p.0 < w && 0 <= p.1 < h)
}

/// The coordinates `(x, y)` with `x < w`, for one `y`.
spec fn row_segment(w: nat, y: int) -> Set<(int, int)> {
    Set::new(|p: (int, int)| 0 <= p.0 < w && p.1 == y)
}

/// A row segment is finite and holds `w` coordinates.
proof fn lemma_row_segment(w: nat, y: int)
    ensures
        row_segment(w, y).finite(),
        row_segment(w, y).len() == w,
    decreases w,
{
    if w == 0 {
        assert(row_segment(w, y) =~= Set::<(int, int)>::empty());
    } else {
        lemma_row_segment((w - 1) as nat, y);
        assert(row_segment(w, y) =~= row_segment((w - 1) as nat, y).insert((w - 1, y)));
    }
}

/// A rectangle of coordinates is finite and holds `w * h` of them.
pub proof fn lemma_rectangle(w: nat, h: nat)
    ensures
        rectangle(w, h).finite(),
        rectangle(w, h).len() == w * h,
    decreases h,
{
    if h == 0 {
        assert(rectangle(w, h) =~= Set::<(int, int)>::empty());
        assert(w * h == 0) by (nonlinear_arith)
            requires
                h == 0,
        ;
    } else {
        let below = rectangle(w, (h - 1) as nat);
        let top = row_segment(w, h - 1);
        lemma_rectangle(w, (h - 1) as nat);
        lemma_row_segment(w, h - 1);
        assert(rectangle(w, h) =~= below.union(top));
        assert(below.disjoint(top));
        vstd::set_lib::lemma_set_disjoint_lens(below, top);
        assert(w * h == w * (h - 1) + w) by (nonlinear_arith);
    }
}

/// The mines of a grid are finitely many: no more than it has cells.
pub proof fn lemma_mine_positions_finite(g: Grid)
    ensures
        mine_positions(g).finite(),
        mine_count(g) <= g.len() * g.len(),
{
    lemma_rectangle(g.len(), g.len());
    assert(mine_positions(g).subset_of(rectangle(g.len(), g.len())));
    vstd::set_lib::lemma_len_subset(mine_positions(g), rectangle(g.len(), g.len()));
}

/// A mine laid on a cell that held none is one mine more, there and
/// nowhere else.
pub proof fn lemma_mine_laid(g: Grid, x: int, y: int)
    requires
        is_square(g),
        in_bounds(g, x, y),
        !g[y][x].is_mine(),
    ensures
        mine_positions(with_cell(g, x, y, CellState::HiddenMine)) == mine_positions(g).insert(
            (x, y),
        ),
        mine_count(with_cell(g, x, y, CellState::HiddenMine)) == mine_count(g) + 1,
{
    lemma_mine_positions_finite(g);
    assert(mine_positions(with_cell(g, x, y, CellState::HiddenMine)) =~= mine_positions(g).insert(
        (x, y),
    ));
}

/// A grid whose every cell holds a mine has as many mines as cells.
pub proof fn lemma_all_mines(g: Grid)
    requires
        is_square(g),
        forall|x: int, y: int| in_bounds(g, x, y) ==> (#[trigger] g[y][x]).is_mine(),
    ensures
        mine_count(g) == g.len() * g.len(),
{
    lemma_rectangle(g.len(), g.len());
    assert(mine_positions(g) =~= rectangle(g.len(), g.len()));
}

/// The hidden blank cells of a grid are finitely many.
pub proof fn lemma_hidden_blanks_finite(g: Grid)
    ensures
        hidden_blanks(g).finite(),
{
    lemma_rectangle(g.len(), g.len());
    assert(hidden_blanks(g).subset_of(rectangle(g.len(), g.len())));
    vstd::set_lib::lemma_len_subset(hidden_blanks(g), rectangle(g.len(), g.len()));
}

/// Uncovering one hidden blank cell leaves one hidden blank cell fewer.
pub proof fn lemma_uncover_one(g: Grid, x: int, y: int, c: CellState)
    requires
        is_square(g),
        in_bounds(g, x, y),
        g[y][x] == CellState::HiddenBlank,
        c != CellState::HiddenBlank,
    ensures
        hidden_blanks(with_cell(g, x, y, c)).len() + 1 == hidden_blanks(g).len(),
{
    lemma_hidden_blanks_finite(g);
    assert(hidden_blanks(with_cell(g, x, y, c)) =~= hidden_blanks(g).remove((x, y)));
}

/// A cell that a cascade reaches is hidden and blank before it.
pub proof fn lemma_reached_is_hidden_blank(g: Grid, start: (int, int), x: int, y: int)
    requires
        reaches(g, start, (x, y)),
    ensures
        in_bounds(g, x, y),
        g[y][x] == CellState::HiddenBlank,
{
    let path = choose|path: Seq<(int, int)>|
        #[trigger] cascade_path(g, path) && path[0] == start && path.last() == (x, y);
    assert(path[path.len() - 1] == (x, y));
}

/// A hidden blank cell is reached by its own reveal.
pub proof fn lemma_reaches_start(g: Grid, x: int, y: int)
    requires
        in_bounds(g, x, y),
        g[y][x] == CellState::HiddenBlank,
    ensures
        reaches(g, (x, y), (x, y)),
{
    let path = seq![(x, y)];
    assert(cascade_path(g, path));
    assert(path[0] == (x, y) && path.last() == (x, y));
}

/// A reveal that reaches a cell without mines around it also reaches
/// each hidden blank neighbour of that cell.
pub proof fn lemma_reaches_step(g: Grid, start: (int, int), via: (int, int), next: (int, int))
    requires
        reaches(g, start, via),
        adjacent_mines(g, via.0, via.1) == 0,
        adjacent(via, next),
        in_bounds(g, next.0, next.1),
        g[next.1][next.0] == CellState::HiddenBlank,
    ensures
        reaches(g, start, next),
{
    let path = choose|path: Seq<(int, int)>|
        #[trigger] cascade_path(g, path) && path[0] == start && path.last() == via;
    let longer = path.push(next);
    assert forall|i: int| 0 <= i < longer.len() implies in_bounds(
        g,
        (#[trigger] longer[i]).0,
        longer[i].1,
    ) && g[longer[i].1][longer[i].0] == CellState::HiddenBlank by {
        if i < path.len() {
            assert(longer[i] == path[i]);
        }
    }
    assert forall|i: int| 0 <= i < longer.len() - 1 implies adjacent_mines(
        g,
        (#[trigger] longer[i]).0,
        longer[i].1,
    ) == 0 && adjacent(longer[i], longer[i + 1]) by {
        assert(longer[i] == path[i]);
        if i < path.len() - 1 {
            assert(longer[i + 1] == path[i + 1]);
        }
    }
    assert(cascade_path(g, longer));
    assert(longer[0] == start && longer.last() == next);
}

} // verus!
