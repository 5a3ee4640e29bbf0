//! The board: a square grid of cells and the direct operations on it.

use crate::grid::{
    adjacent_mines, in_bounds, is_square, lemma_all_mines, lemma_mine_laid, mine_count,
    mine_positions, mine_weight, status, untouched, with_cell, Grid,
};
use crate::random::random_in_range;
use vstd::prelude::*;

verus! {

/// What a cell holds and how it is presented to the player.
#[derive(Clone, Copy, Debug, PartialEq, Eq, Structural)]
pub enum CellState {
    /// Unrevealed, no mine.
    HiddenBlank,
    /// Unrevealed, holds a mine.
    HiddenMine,
    /// Revealed, no mine among its neighbours.
    RevealedBlank,
    /// Revealed, with the number of mines among its neighbours (1 to 8).
    RevealedNumber(u8),
    /// A mine that the player revealed.
    Exploded,
    /// A flag on a cell that holds a mine.
    FlaggedMine,
    /// A flag on a cell that holds no mine.
    FlaggedBlank,
}

impl CellState {
    /// The cell holds a mine: hidden, flagged or exploded.
    pub open spec fn spec_is_mine(self) -> bool {
        self is HiddenMine || self is FlaggedMine || self is Exploded
    }

    /// The cell holds a mine: hidden, flagged or exploded.
    #[verifier::when_used_as_spec(spec_is_mine)]
    pub fn is_mine(self) -> (b: bool)
        ensures
            b == self.spec_is_mine(),
    {
        match self {
            CellState::HiddenMine | CellState::FlaggedMine | CellState::Exploded => true,
            _ => false,
        }
    }

    /// The cell shows its content and holds no mine.
    pub open spec fn spec_is_revealed(self) -> bool {
        self is RevealedBlank || self is RevealedNumber
    }

    /// The cell shows its content and holds no mine.
    #[verifier::when_used_as_spec(spec_is_revealed)]
    pub fn is_revealed(self) -> (b: bool)
        ensures
            b == self.spec_is_revealed(),
    {
        match self {
            CellState::RevealedBlank | CellState::RevealedNumber(_) => true,
            _ => false,
        }
    }

    /// The cell after the player toggled its flag: a hidden cell gains a
    /// flag, a flagged cell loses it, any other cell stays as it is.
    pub open spec fn spec_toggled(self) -> CellState {
        match self {
            CellState::HiddenMine => CellState::FlaggedMine,
            CellState::HiddenBlank => CellState::FlaggedBlank,
            CellState::FlaggedMine => CellState::HiddenMine,
            CellState::FlaggedBlank => CellState::HiddenBlank,
            other => other,
        }
    }

    /// The cell after the player toggled its flag.
    #[verifier::when_used_as_spec(spec_toggled)]
    pub fn toggled(self) -> (c: CellState)
        ensures
            c == self.spec_toggled(),
    {
        match self {
            CellState::HiddenMine => CellState::FlaggedMine,
            CellState::HiddenBlank => CellState::FlaggedBlank,
            CellState::FlaggedMine => CellState::HiddenMine,
            CellState::FlaggedBlank => CellState::HiddenBlank,
            other => other,
        }
    }
}

/// Where a game stands.
#[derive(Clone, Copy, Debug, PartialEq, Eq, Structural)]
pub enum GameStatus {
    /// Cells without a mine are still hidden and no mine has exploded.
    InProgress,
    /// Every cell without a mine is revealed and no mine has exploded.
    Won,
    /// A mine has exploded.
    Lost,
}

/// Why an operation on the board was refused.
#[derive(Clone, Copy, Debug, PartialEq, Eq, Structural)]
pub enum BoardError {
    /// A coordinate lies outside the grid.
    OutOfBounds,
    /// The mines asked for cannot all be placed on distinct cells.
    InvalidMinePlacement,
}

/// The size of the board of a standard game.
pub const BOARDSIZE: usize = 10;

/// The number of mines in a standard game.
pub const BOMBCOUNT: usize = 12;

/// How often `Gameboard::new` draws a coordinate for one mine before it
/// stops drawing and takes the first free cell instead.
pub const MAX_DRAWS_PER_MINE: usize = 64;

/// The list names the coordinate `(x, y)`.
pub open spec fn lists(mines: Seq<(usize, usize)>, x: int, y: int) -> bool {
    exists|i: int| 0 <= i < mines.len() && (#[trigger] mines[i]).0 == x && mines[i].1 == y
}

/// Entry `i` of the list can be laid on a board of `size` by `size`
/// cells: it is on the board and no earlier entry names the same cell.
pub open spec fn placeable(size: int, mines: Seq<(usize, usize)>, i: int) -> bool {
    &&& mines[i].0 < size
    &&& mines[i].1 < size
    &&& forall|j: int| 0 <= j < i ==> #[trigger] mines[j] != mines[i]
}

/// `mines` mines fit on a board of `size` by `size` cells.
fn fits(size: usize, mines: usize) -> (b: bool)
    ensures
        b == (mines <= size * size),
{
    match size.checked_mul(size) {
        Some(cells) => mines <= cells,
        None => true,
    }
}

/// The coordinate `v` moved by `d`, if that is a coordinate below `n`.
pub(crate) fn shifted(v: usize, d: i8, n: usize) -> (r: Option<usize>)
    requires
        v < n,
        -1 <= d <= 1,
    ensures
        match r {
            Some(w) => w == v + d && w < n,
            None => !(0 <= v + d < n),
        },
{
    if d < 0 {
        if v == 0 {
            None
        } else {
            Some(v - 1)
        }
    } else if d > 0 {
        if v + 1 < n {
            Some(v + 1)
        } else {
            None
        }
    } else {
        Some(v)
    }
}

/// A square board of cells.
pub struct Gameboard {
    /// The rows, top to bottom; each holds its cells left to right.
    cells: Vec<Vec<CellState>>,
}

impl View for Gameboard {
    type V = Grid;

    closed spec fn view(&self) -> Grid {
        Seq::new(self.cells@.len(), |y: int| self.cells@[y]@)
    }
}

impl Gameboard {
    /// The board is square. Every constructor establishes this and every
    /// operation keeps it.
    pub open spec fn wf(&self) -> bool {
        is_square(self@)
    }

    /// A board of `size` by `size` cells, all of them hidden and blank.
    pub fn empty(size: usize) -> (board: Gameboard)
        ensures
            board.wf(),
            board@.len() == size,
            forall|x: int, y: int| in_bounds(board@, x, y) ==> board@[y][x] == CellState::HiddenBlank,
    {
        let mut cells: Vec<Vec<CellState>> = Vec::new();
        let mut y: usize = 0;
        while y < size
            invariant
                y <= size,
                cells@.len() == y,
                forall|j: int| 0 <= j < y ==> (#[trigger] cells@[j])@.len() == size,
                forall|j: int, i: int|
                    0 <= j < y && 0 <= i < size ==> (#[trigger] cells@[j]@[i]) == CellState::HiddenBlank,
            decreases size - y,
        {
            let mut row: Vec<CellState> = Vec::new();
            let mut x: usize = 0;
            while x < size
                invariant
                    x <= size,
                    row@.len() == x,
                    forall|i: int| 0 <= i < x ==> (#[trigger] row@[i]) == CellState::HiddenBlank,
                decreases size - x,
            {
                row.push(CellState::HiddenBlank);
                x += 1;
            }
            cells.push(row);
            y += 1;
        }
        Gameboard { cells }
    }

    /// A fresh board of `size` by `size` cells on which `mines`
    /// mines lie hidden, each on a cell of its own, laid by chance.
    ///
    /// For each mine a coordinate is drawn, `x` and `y` each from 0 up to
    /// `size`; a coordinate whose cell holds a mine already is thrown
    /// away and another is drawn. After `MAX_DRAWS_PER_MINE` draws for
    /// one mine it goes on the first free cell instead, so that the board
    /// always gets all its mines. `InvalidMinePlacement` where the board
    /// has fewer cells than `mines`.
    pub fn new(size: usize, mines: usize) -> (r: Result<Gameboard, BoardError>)
        ensures
            match r {
                Ok(board) => {
                    &&& mines <= size * size
                    &&& board.wf()
                    &&& board@.len() == size
                    &&& untouched(board@)
                    &&& mine_count(board@) == mines
                },
                Err(e) => mines > size * size && e == BoardError::InvalidMinePlacement,
            },
    {
        if !fits(size, mines) {
            return Err(BoardError::InvalidMinePlacement);
        }
        let mut board: Gameboard = Gameboard::empty(size);
        proof {
            assert(mine_positions(board@) =~= Set::<(int, int)>::empty());
        }
        let mut rng = rand::thread_rng();
        let mut placed: usize = 0;
        while placed < mines
            invariant
                mines <= size * size,
                board.wf(),
                board@.len() == size,
                untouched(board@),
                placed <= mines,
                mine_count(board@) == placed,
            decreases mines - placed,
        {
            assert(size > 0) by (nonlinear_arith)
                requires
                    0 < size * size,
            ;
            let mut draws: usize = 0;
            let mut laid: bool = false;
            while !laid && draws < MAX_DRAWS_PER_MINE
                invariant
                    size > 0,
                    board.wf(),
                    board@.len() == size,
                    untouched(board@),
                    draws <= MAX_DRAWS_PER_MINE,
                    mine_count(board@) == if laid {
                        placed + 1
                    } else {
                        placed as int
                    },
                decreases MAX_DRAWS_PER_MINE - draws,
            {
                let x: usize = random_in_range(&mut rng, 0, size);
                let y: usize = random_in_range(&mut rng, 0, size);
                laid = board.place_mine(x, y).is_ok();
                draws += 1;
            }
            if !laid {
                let free: Option<(usize, usize)> = board.first_hidden_blank();
                proof {
                    // Fewer mines than cells lie on the board, so a cell is free.
                    if free is None {
                        lemma_all_mines(board@);
                    }
                }
                let (x, y) = free.unwrap();
                let put: Result<(), BoardError> = board.place_mine(x, y);
                assert(put is Ok);
            }
            placed += 1;
        }
        Ok(board)
    }

    /// A fresh board of `size` by `size` cells with a hidden mine on
    /// each listed coordinate `(x, y)` and on no other cell.
    ///
    /// The entries are laid in order. The first entry that cannot be
    /// laid decides the error: `OutOfBounds` where it is not on the
    /// board, `InvalidMinePlacement` where an earlier entry names the
    /// same cell.
    pub fn with_mines(size: usize, mines: &Vec<(usize, usize)>) -> (r: Result<
        Gameboard,
        BoardError,
    >)
        ensures
            match r {
                Ok(board) => {
                    &&& board.wf()
                    &&& board@.len() == size
                    &&& forall|i: int| 0 <= i < mines@.len() ==> placeable(size as int, mines@, i)
                    &&& forall|x: int, y: int|
                        in_bounds(board@, x, y) ==> (#[trigger] board@[y][x]) == if lists(
                            mines@,
                            x,
                            y,
                        ) {
                            CellState::HiddenMine
                        } else {
                            CellState::HiddenBlank
                        }
                    &&& mine_count(board@) == mines@.len()
                },
                Err(e) => exists|k: int|
                    {
                        &&& 0 <= k < mines@.len()
                        &&& !#[trigger] placeable(size as int, mines@, k)
                        &&& forall|i: int| 0 <= i < k ==> placeable(size as int, mines@, i)
                        &&& e == if mines@[k].0 < size && mines@[k].1 < size {
                            BoardError::InvalidMinePlacement
                        } else {
                            BoardError::OutOfBounds
                        }
                    },
            },
    {
        let mut board: Gameboard = Gameboard::empty(size);
        proof {
            assert(mine_positions(board@) =~= Set::<(int, int)>::empty());
        }
        let mut k: usize = 0;
        while k < mines.len()
            invariant
                board.wf(),
                board@.len() == size,
                k <= mines@.len(),
                forall|i: int| 0 <= i < k ==> placeable(size as int, mines@, i),
                forall|x: int, y: int|
                    in_bounds(board@, x, y) ==> (#[trigger] board@[y][x]) == if lists(
                        mines@.take(k as int),
                        x,
                        y,
                    ) {
                        CellState::HiddenMine
                    } else {
                        CellState::HiddenBlank
                    },
                mine_count(board@) == k,
            decreases mines@.len() - k,
        {
            let (x, y) = mines[k];
            let ghost laid = mines@.take(k as int);
            let ghost next = mines@.take(k + 1);
            proof {
                assert(next[k as int] == mines@[k as int]);
                assert forall|a: int, b: int| lists(laid, a, b) implies lists(next, a, b) by {
                    let i = choose|i: int|
                        0 <= i < laid.len() && (#[trigger] laid[i]).0 == a && laid[i].1 == b;
                    assert(next[i] == laid[i]);
                }
                assert forall|a: int, b: int| lists(next, a, b) implies lists(laid, a, b) || (a == x
                    && b == y) by {
                    let i = choose|i: int|
                        0 <= i < next.len() && (#[trigger] next[i]).0 == a && next[i].1 == b;
                    if i < k {
                        assert(laid[i] == next[i]);
                    }
                }
                if lists(laid, x as int, y as int) {
                    let i = choose|i: int|
                        0 <= i < laid.len() && (#[trigger] laid[i]).0 == x && laid[i].1 == y;
                    assert(mines@[i] == mines@[k as int]);
                }
                if x < size && y < size && !lists(laid, x as int, y as int) {
                    assert forall|j: int| 0 <= j < k implies #[trigger] mines@[j] != mines@[k as int] by {
                        if mines@[j] == mines@[k as int] {
                            assert(laid[j] == mines@[j]);
                            assert(lists(laid, x as int, y as int));
                        }
                    }
                }
            }
            match board.place_mine(x, y) {
                Ok(_) => {},
                Err(e) => {
                    proof {
                        assert(!placeable(size as int, mines@, k as int));
                    }
                    return Err(e);
                },
            }
            k += 1;
        }
        proof {
            assert(mines@.take(k as int) =~= mines@);
        }
        Ok(board)
    }

    /// Lays a mine on the hidden blank cell at `(x, y)`.
    ///
    /// Off the board the answer is `OutOfBounds`. On a cell that is not
    /// hidden and blank (it holds a mine already, or the player has
    /// revealed or flagged it) the answer is `InvalidMinePlacement`. In
    /// both cases the board stays as it is.
    pub fn place_mine(&mut self, x: usize, y: usize) -> (r: Result<(), BoardError>)
        requires
            old(self).wf(),
        ensures
            final(self).wf(),
            match r {
                Ok(_) => in_bounds(old(self)@, x as int, y as int) && old(self)@[y as int][x as int]
                    == CellState::HiddenBlank && final(self)@ == with_cell(
                    old(self)@,
                    x as int,
                    y as int,
                    CellState::HiddenMine,
                ) && mine_count(final(self)@) == mine_count(old(self)@) + 1,
                Err(e) => final(self)@ == old(self)@ && if in_bounds(
                    old(self)@,
                    x as int,
                    y as int,
                ) {
                    old(self)@[y as int][x as int] != CellState::HiddenBlank && e
                        == BoardError::InvalidMinePlacement
                } else {
                    e == BoardError::OutOfBounds
                },
            },
    {
        if x >= self.size() || y >= self.size() {
            return Err(BoardError::OutOfBounds);
        }
        match self.get(x, y) {
            CellState::HiddenBlank => {
                proof {
                    lemma_mine_laid(self@, x as int, y as int);
                }
                self.put(x, y, CellState::HiddenMine);
                Ok(())
            },
            _ => Err(BoardError::InvalidMinePlacement),
        }
    }

    /// The first hidden blank cell, going through the rows from the top
    /// and through each row from the left; `None` where there is none.
    pub fn first_hidden_blank(&self) -> (r: Option<(usize, usize)>)
        requires
            self.wf(),
        ensures
            match r {
                Some((x, y)) => in_bounds(self@, x as int, y as int) && self@[y as int][x as int]
                    == CellState::HiddenBlank && forall|i: int, j: int|
                    in_bounds(self@, i, j) && (j < y || (j == y && i < x)) ==> (
                    #[trigger] self@[j][i]) != CellState::HiddenBlank,
                None => forall|i: int, j: int|
                    in_bounds(self@, i, j) ==> (#[trigger] self@[j][i]) != CellState::HiddenBlank,
            },
    {
        let n: usize = self.size();
        let mut y: usize = 0;
        while y < n
            invariant
                self.wf(),
                n == self@.len(),
                y <= n,
                forall|i: int, j: int|
                    0 <= i < n && 0 <= j < y ==> (#[trigger] self@[j][i])
                        != CellState::HiddenBlank,
            decreases n - y,
        {
            let mut x: usize = 0;
            while x < n
                invariant
                    self.wf(),
                    n == self@.len(),
                    y < n,
                    x <= n,
                    forall|i: int, j: int|
                        0 <= i < n && (0 <= j < y || (j == y && i < x)) ==> (
                        #[trigger] self@[j][i]) != CellState::HiddenBlank,
                decreases n - x,
            {
                match self.get(x, y) {
                    CellState::HiddenBlank => {
                        return Some((x, y));
                    },
                    _ => {},
                }
                x += 1;
            }
            y += 1;
        }
        None
    }

    /// The number of rows, which is also the number of columns.
    pub fn size(&self) -> (n: usize)
        ensures
            n == self@.len(),
    {
        self.cells.len()
    }

    /// The cell at `(x, y)`, or `OutOfBounds` where the coordinate is not
    /// on the board.
    pub fn cell_at(&self, x: usize, y: usize) -> (r: Result<CellState, BoardError>)
        requires
            self.wf(),
        ensures
            match r {
                Ok(c) => in_bounds(self@, x as int, y as int) && c == self@[y as int][x as int],
                Err(e) => !in_bounds(self@, x as int, y as int) && e == BoardError::OutOfBounds,
            },
    {
        if x < self.size() && y < self.size() {
            Ok(self.get(x, y))
        } else {
            Err(BoardError::OutOfBounds)
        }
    }

    /// Replaces the cell at `(x, y)` and touches no other; off the board
    /// nothing changes and `OutOfBounds` comes back.
    pub fn set_cell(&mut self, x: usize, y: usize, cell: CellState) -> (r: Result<(), BoardError>)
        requires
            old(self).wf(),
        ensures
            final(self).wf(),
            match r {
                Ok(_) => in_bounds(old(self)@, x as int, y as int) && final(self)@ == with_cell(
                    old(self)@,
                    x as int,
                    y as int,
                    cell,
                ),
                Err(e) => !in_bounds(old(self)@, x as int, y as int) && e == BoardError::OutOfBounds
                    && final(self)@ == old(self)@,
            },
    {
        if x < self.size() && y < self.size() {
            self.put(x, y, cell);
            Ok(())
        } else {
            Err(BoardError::OutOfBounds)
        }
    }

    /// Counts the mines in the eight cells around `(x, y)`. Neighbours
    /// that would lie off the board are left out, never wrapped round.
    /// `OutOfBounds` where `(x, y)` itself is not on the board.
    pub fn count_adjacent_mines(&self, x: usize, y: usize) -> (r: Result<u8, BoardError>)
        requires
            self.wf(),
        ensures
            match r {
                Ok(k) => in_bounds(self@, x as int, y as int) && k == adjacent_mines(
                    self@,
                    x as int,
                    y as int,
                ),
                Err(e) => !in_bounds(self@, x as int, y as int) && e == BoardError::OutOfBounds,
            },
    {
        if x < self.size() && y < self.size() {
            Ok(self.adjacent(x, y))
        } else {
            Err(BoardError::OutOfBounds)
        }
    }

    /// Where the game on this board stands.
    pub fn status(&self) -> (s: GameStatus)
        requires
            self.wf(),
        ensures
            s == status(self@),
    {
        let n: usize = self.size();
        let mut exploded: bool = false;
        let mut cleared: bool = true;
        let mut y: usize = 0;
        while y < n
            invariant
                self.wf(),
                n == self@.len(),
                y <= n,
                exploded <==> exists|i: int, j: int|
                    0 <= i < n && 0 <= j < y && (#[trigger] self@[j][i]) == CellState::Exploded,
                cleared <==> forall|i: int, j: int|
                    0 <= i < n && 0 <= j < y ==> (#[trigger] self@[j][i]).is_mine()
                        || self@[j][i].is_revealed(),
            decreases n - y,
        {
            let mut x: usize = 0;
            while x < n
                invariant
                    self.wf(),
                    n == self@.len(),
                    y < n,
                    x <= n,
                    exploded <==> exists|i: int, j: int|
                        0 <= i < n && (0 <= j < y || (j == y && i < x)) && (
                        #[trigger] self@[j][i]) == CellState::Exploded,
                    cleared <==> forall|i: int, j: int|
                        0 <= i < n && (0 <= j < y || (j == y && i < x)) ==> (
                        #[trigger] self@[j][i]).is_mine() || self@[j][i].is_revealed(),
                decreases n - x,
            {
                let c: CellState = self.get(x, y);
                match c {
                    CellState::Exploded => {
                        exploded = true;
                    },
                    CellState::HiddenBlank | CellState::FlaggedBlank => {
                        cleared = false;
                    },
                    _ => {},
                }
                x += 1;
            }
            y += 1;
        }
        if exploded {
            GameStatus::Lost
        } else if cleared {
            GameStatus::Won
        } else {
            GameStatus::InProgress
        }
    }

    /// The cell at an in-range coordinate.
    pub(crate) fn get(&self, x: usize, y: usize) -> (c: CellState)
        requires
            self.wf(),
            in_bounds(self@, x as int, y as int),
        ensures
            c == self@[y as int][x as int],
    {
        assert(self@[y as int] == self.cells@[y as int]@);
        self.cells[y][x]
    }

    /// Replaces the cell at an in-range coordinate.
    pub(crate) fn put(&mut self, x: usize, y: usize, c: CellState)
        requires
            old(self).wf(),
            in_bounds(old(self)@, x as int, y as int),
        ensures
            final(self).wf(),
            final(self)@ == with_cell(old(self)@, x as int, y as int, c),
    {
        assert(self@[y as int] == self.cells@[y as int]@);
        self.cells[y][x] = c;
        assert(self@ =~~= with_cell(old(self)@, x as int, y as int, c));
    }

    /// 1 where the neighbour of `(x, y)` in direction `(dx, dy)` is on the
    /// board and holds a mine, else 0.
    fn neighbor_weight(&self, x: usize, y: usize, dx: i8, dy: i8) -> (w: u8)
        requires
            self.wf(),
            in_bounds(self@, x as int, y as int),
            -1 <= dx <= 1,
            -1 <= dy <= 1,
        ensures
            w == mine_weight(self@, x + dx, y + dy),
    {
        let n: usize = self.size();
        match (shifted(x, dx, n), shifted(y, dy, n)) {
            (Some(nx), Some(ny)) => if self.get(nx, ny).is_mine() {
                1
            } else {
                0
            },
            _ => 0,
        }
    }

    /// The number of mines among the neighbours of an in-range cell.
    pub(crate) fn adjacent(&self, x: usize, y: usize) -> (k: u8)
        requires
            self.wf(),
            in_bounds(self@, x as int, y as int),
        ensures
            k == adjacent_mines(self@, x as int, y as int),
            k <= 8,
    {
        let a: u8 = self.neighbor_weight(x, y, -1, -1) + self.neighbor_weight(x, y, 0, -1)
            + self.neighbor_weight(x, y, 1, -1);
        let b: u8 = self.neighbor_weight(x, y, -1, 0) + self.neighbor_weight(x, y, 1, 0);
        let c: u8 = self.neighbor_weight(x, y, -1, 1) + self.neighbor_weight(x, y, 0, 1)
            + self.neighbor_weight(x, y, 1, 1);
        a + b + c
    }
}

} // verus!
