//! What holds of the game whatever the board and whatever the player
//! does, proved from the model in [`crate::grid`].

use crate::gameboard::{CellState, GameStatus};
use crate::grid::{
    adjacent, adjacent_mines, cascade, flag_toggled, in_bounds, is_square,
    lemma_mine_positions_finite, lemma_reached_is_hidden_blank, lemma_reaches_start,
    lemma_reaches_step, mine_at, mine_count, mine_positions, mine_weight, reaches, revealed,
    status, uncovered, Grid,
};
use vstd::prelude::*;

verus! {

/// Revealing a cell neither adds, removes nor moves a mine: the cells
/// that hold one are the same before and after, and so is their number.
pub proof fn lemma_reveal_keeps_mines(g: Grid, x: int, y: int)
    requires
        is_square(g),
    ensures
        mine_positions(revealed(g, x, y)) == mine_positions(g),
        mine_count(revealed(g, x, y)) == mine_count(g),
{
    let after = revealed(g, x, y);
    assert forall|a: int, b: int| mine_at(after, a, b) == mine_at(g, a, b) by {
        if in_bounds(g, a, b) && in_bounds(g, x, y) && g[y][x] == CellState::HiddenBlank
            && reaches(g, (x, y), (a, b)) {
            lemma_reached_is_hidden_blank(g, (x, y), a, b);
        }
    }
    assert(mine_positions(after) =~= mine_positions(g));
}

/// Toggling a flag neither adds, removes nor moves a mine.
pub proof fn lemma_flag_keeps_mines(g: Grid, x: int, y: int)
    requires
        is_square(g),
    ensures
        mine_positions(flag_toggled(g, x, y)) == mine_positions(g),
        mine_count(flag_toggled(g, x, y)) == mine_count(g),
{
    assert(mine_positions(flag_toggled(g, x, y)) =~= mine_positions(g));
}

/// A grid never holds more mines than it has cells.
pub proof fn lemma_mines_fit(g: Grid)
    ensures
        mine_count(g) <= g.len() * g.len(),
{
    lemma_mine_positions_finite(g);
}

/// Toggling the flag of a cell twice gives the cell back as it was.
pub proof fn lemma_toggled_twice(c: CellState)
    ensures
        c.toggled().toggled() == c,
{
}

/// Toggling the flag on the same coordinate twice gives the grid back
/// as it was.
pub proof fn lemma_flag_twice(g: Grid, x: int, y: int)
    requires
        is_square(g),
    ensures
        flag_toggled(flag_toggled(g, x, y), x, y) == g,
{
    assert(flag_toggled(flag_toggled(g, x, y), x, y) =~~= g);
}

/// A reveal that lands on a hidden mine turns that cell into an
/// exploded mine and leaves every other cell as it was.
pub proof fn lemma_mine_explodes_alone(g: Grid, x: int, y: int)
    requires
        is_square(g),
        in_bounds(g, x, y),
        g[y][x] == CellState::HiddenMine,
    ensures
        revealed(g, x, y)[y][x] == CellState::Exploded,
        forall|a: int, b: int|
            in_bounds(g, a, b) && (a, b) != (x, y) ==> #[trigger] revealed(g, x, y)[b][a]
                == g[b][a],
{
}

/// A reveal that lands on a hidden mine loses the game.
pub proof fn lemma_revealed_mine_loses(g: Grid, x: int, y: int)
    requires
        is_square(g),
        in_bounds(g, x, y),
        g[y][x] == CellState::HiddenMine,
    ensures
        status(revealed(g, x, y)) == GameStatus::Lost,
{
    let after = revealed(g, x, y);
    assert(in_bounds(after, x, y) && after[y][x] == CellState::Exploded);
}

/// Neither a reveal nor a flag changes the shape of the grid.
pub proof fn lemma_moves_keep_shape(g: Grid, x: int, y: int)
    requires
        is_square(g),
    ensures
        is_square(revealed(g, x, y)),
        revealed(g, x, y).len() == g.len(),
        is_square(flag_toggled(g, x, y)),
        flag_toggled(g, x, y).len() == g.len(),
{
}

/// What a reveal of a hidden blank cell leaves in each cell: a cell
/// that the reveal reaches was hidden and blank and now shows the
/// number of mines around it; every other cell is as it was.
pub proof fn lemma_cascade_cells(g: Grid, x: int, y: int, a: int, b: int)
    requires
        is_square(g),
        in_bounds(g, a, b),
    ensures
        reaches(g, (x, y), (a, b)) ==> g[b][a] == CellState::HiddenBlank && cascade(g, x, y)[b][a]
            == uncovered(g, a, b),
        !reaches(g, (x, y), (a, b)) ==> cascade(g, x, y)[b][a] == g[b][a],
{
    if reaches(g, (x, y), (a, b)) {
        lemma_reached_is_hidden_blank(g, (x, y), a, b);
    }
}

/// The region that a reveal uncovers cannot be made larger: next to a
/// cell that it uncovered and that has no mine around it, no hidden
/// blank cell is left.
pub proof fn lemma_cascade_is_maximal(g: Grid, x: int, y: int, a: int, b: int, c: int, d: int)
    requires
        is_square(g),
        reaches(g, (x, y), (a, b)),
        adjacent_mines(g, a, b) == 0,
        adjacent((a, b), (c, d)),
        in_bounds(g, c, d),
    ensures
        cascade(g, x, y)[d][c] != CellState::HiddenBlank,
{
    if g[d][c] == CellState::HiddenBlank {
        lemma_reaches_step(g, (x, y), (a, b), (c, d));
    }
}

/// Revealing the same coordinate a second time changes nothing.
pub proof fn lemma_reveal_twice(g: Grid, x: int, y: int)
    requires
        is_square(g),
    ensures
        revealed(revealed(g, x, y), x, y) == revealed(g, x, y),
{
    if in_bounds(g, x, y) && g[y][x] == CellState::HiddenBlank {
        lemma_reaches_start(g, x, y);
    }
}

/// Revealing a cell that an earlier reveal has uncovered changes
/// nothing.
pub proof fn lemma_reveal_uncovered_again(g: Grid, x: int, y: int, a: int, b: int)
    requires
        is_square(g),
        in_bounds(g, x, y),
        g[y][x] == CellState::HiddenBlank,
        reaches(g, (x, y), (a, b)),
    ensures
        revealed(revealed(g, x, y), a, b) == revealed(g, x, y),
{
    lemma_reached_is_hidden_blank(g, (x, y), a, b);
}

/// The neighbours of `(x, y)` that hold a mine.
pub open spec fn neighbor_mines(g: Grid, x: int, y: int) -> Set<(int, int)> {
    Set::new(|p: (int, int)| adjacent((x, y), p) && mine_at(g, p.0, p.1))
}

/// `s` with `p` added where `p` holds a mine.
spec fn with_mine(s: Set<(int, int)>, g: Grid, p: (int, int)) -> Set<(int, int)> {
    if mine_at(g, p.0, p.1) {
        s.insert(p)
    } else {
        s
    }
}

proof fn lemma_with_mine(s: Set<(int, int)>, g: Grid, p: (int, int))
    requires
        s.finite(),
        !s.contains(p),
    ensures
        with_mine(s, g, p).finite(),
        with_mine(s, g, p).len() == s.len() + mine_weight(g, p.0, p.1),
{
}

/// The count of adjacent mines is the number of cells that are among
/// the eight neighbours of `(x, y)`, lie on the grid and hold a mine.
pub proof fn lemma_adjacent_mines_counts_neighbors(g: Grid, x: int, y: int)
    ensures
        neighbor_mines(g, x, y).finite(),
        adjacent_mines(g, x, y) == neighbor_mines(g, x, y).len(),
        adjacent_mines(g, x, y) <= 8,
{
    let s0 = Set::<(int, int)>::empty();
    let s1 = with_mine(s0, g, (x - 1, y - 1));
    lemma_with_mine(s0, g, (x - 1, y - 1));
    let s2 = with_mine(s1, g, (x, y - 1));
    lemma_with_mine(s1, g, (x, y - 1));
    let s3 = with_mine(s2, g, (x + 1, y - 1));
    lemma_with_mine(s2, g, (x + 1, y - 1));
    let s4 = with_mine(s3, g, (x - 1, y));
    lemma_with_mine(s3, g, (x - 1, y));
    let s5 = with_mine(s4, g, (x + 1, y));
    lemma_with_mine(s4, g, (x + 1, y));
    let s6 = with_mine(s5, g, (x - 1, y + 1));
    lemma_with_mine(s5, g, (x - 1, y + 1));
    let s7 = with_mine(s6, g, (x, y + 1));
    lemma_with_mine(s6, g, (x, y + 1));
    let s8 = with_mine(s7, g, (x + 1, y + 1));
    lemma_with_mine(s7, g, (x + 1, y + 1));
    assert(s8 =~= neighbor_mines(g, x, y));
}

} // verus!
