use vstd::prelude::*;

verus! {

/// What the player sees of one cell.
#[derive(PartialEq, Eq, Structural, Hash, Debug, Clone, Copy)]
pub enum SquareState {
    Covered,
    Flagged,
    Revealed,
}

/// The overall outcome of the current deal.
#[derive(PartialEq, Eq, Structural, Debug, Clone, Copy)]
pub enum GameState {
    Ongoing,
    Won,
    Lost,
}

/// The preset board sizes, and a custom size chosen by the player.
#[derive(PartialEq, Eq, Structural, Debug, Clone, Copy)]
pub enum Difficulty {
    Beginner,
    Intermediate,
    Expert,
    Custom,
}

/// Why a board could not be built.
#[derive(PartialEq, Eq, Structural, Debug, Clone, Copy)]
pub enum GameError {
    /// The dimensions are zero, the grid is too large for `u32` indices, the
    /// mine count is not strictly below the number of cells, or an explicit
    /// mine layout is out of range or repeats an index.
    InvalidConfiguration,
}

/// A grid coordinate, `Position(row, col)`, both zero-based.
#[derive(PartialEq, Eq, Structural, Hash, Debug, Copy, Clone)]
pub struct Position(pub u32, pub u32);

/// One cell of the grid.
#[derive(PartialEq, Eq, Structural, Debug, Copy, Clone)]
pub struct Square {
    pub is_mine: bool,
    /// Number of mines among the cell's neighbors; zero on a mine.
    pub adjacent_mines: u32,
    pub state: SquareState,
}

/// `p` lies on a grid with `cols` columns and `rows` rows.
pub open spec fn in_grid(cols: nat, rows: nat, p: Position) -> bool {
    p.0 < rows && p.1 < cols
}

/// `q` is a neighbor of `p`: a different cell of the grid at Chebyshev distance one.
pub open spec fn is_neighbor(cols: nat, rows: nat, p: Position, q: Position) -> bool {
    &&& in_grid(cols, rows, q)
    &&& q != p
    &&& p.0 <= q.0 + 1 && q.0 <= p.0 + 1
    &&& p.1 <= q.1 + 1 && q.1 <= p.1 + 1
}

/// The neighbors of `p` on the grid.
pub open spec fn neighbors(cols: nat, rows: nat, p: Position) -> Set<Position> {
    Set::new(|q: Position| is_neighbor(cols, rows, p, q))
}

/// Row-major index of a position.
pub open spec fn cell_index(cols: nat, p: Position) -> int {
    p.0 * cols + p.1
}

/// The position at a row-major index.
pub open spec fn cell_position(cols: nat, k: int) -> Position {
    Position((k / cols as int) as u32, (k % cols as int) as u32)
}

/// An in-grid position has an index below the cell count, from which
/// division and remainder by the width give the position back.
pub proof fn lemma_index_in_grid(cols: nat, rows: nat, p: Position)
    requires
        in_grid(cols, rows, p),
    ensures
        0 <= cell_index(cols, p) < cols * rows,
        cell_index(cols, p) / cols as int == p.0,
        cell_index(cols, p) % cols as int == p.1,
        cell_position(cols, cell_index(cols, p)) == p,
{
    let r = p.0 as int;
    let c = p.1 as int;
    assert(0 <= r * cols + c < cols * rows) by (nonlinear_arith)
        requires
            0 <= r < rows,
            0 <= c < cols,
    ;
    vstd::arithmetic::div_mod::lemma_fundamental_div_mod_converse(r * cols + c, cols as int, r, c);
}

/// Every index below the cell count is the index of an in-grid position.
pub proof fn lemma_position_in_grid(cols: nat, rows: nat, k: int)
    requires
        0 <= k < cols * rows,
        cols * rows <= u32::MAX,
    ensures
        in_grid(cols, rows, cell_position(cols, k)),
        cell_index(cols, cell_position(cols, k)) == k,
{
    assert(cols > 0) by (nonlinear_arith)
        requires
            0 <= k < cols * rows,
    ;
    let c = cols as int;
    vstd::arithmetic::div_mod::lemma_fundamental_div_mod(k, c);
    let q = k / c;
    let m = k % c;
    assert(0 <= q < rows && q <= k) by (nonlinear_arith)
        requires
            k == c * q + m,
            0 <= m < c,
            0 <= k < c * rows,
    ;
    assert(q * c == c * q) by (nonlinear_arith);
}

/// The cells whose index is in `mines` and that neighbor `p`.
pub open spec fn mine_neighbors(cols: nat, rows: nat, mines: Seq<usize>, p: Position) -> Set<Position> {
    neighbors(cols, rows, p).filter(|q: Position| mines.contains(cell_index(cols, q) as usize))
}

/// The cell at index `k` of a freshly dealt grid whose mines are at `mines`.
pub open spec fn dealt_square(cols: nat, rows: nat, mines: Seq<usize>, k: int) -> Square {
    let is_mine = mines.contains(k as usize);
    Square {
        is_mine,
        adjacent_mines: if is_mine {
            0
        } else {
            mine_neighbors(cols, rows, mines, cell_position(cols, k)).len() as u32
        },
        state: SquareState::Covered,
    }
}

/// A freshly dealt grid: every cell covered, mines where `mines` says.
pub open spec fn dealt_cells(cols: nat, rows: nat, mines: Seq<usize>) -> Seq<Square> {
    Seq::new(cols * rows, |k: int| dealt_square(cols, rows, mines, k))
}

/// Number of flagged cells.
pub open spec fn flagged_count(cells: Seq<Square>) -> nat
    decreases cells.len(),
{
    if cells.len() == 0 {
        0
    } else {
        flagged_count(cells.drop_last()) + if cells.last().state == SquareState::Flagged {
            1nat
        } else {
            0nat
        }
    }
}

/// Two grids flag the same cells.
pub proof fn lemma_flagged_count_same(a: Seq<Square>, b: Seq<Square>)
    requires
        a.len() == b.len(),
        forall|k: int|
            0 <= k < a.len() ==> (#[trigger] a[k].state == SquareState::Flagged) == (b[k].state
                == SquareState::Flagged),
    ensures
        flagged_count(a) == flagged_count(b),
    decreases a.len(),
{
    if a.len() > 0 {
        lemma_flagged_count_same(a.drop_last(), b.drop_last());
    }
}

/// A grid with no flag.
pub proof fn lemma_flagged_count_zero(a: Seq<Square>)
    requires
        forall|k: int| 0 <= k < a.len() ==> (#[trigger] a[k]).state != SquareState::Flagged,
    ensures
        flagged_count(a) == 0,
    decreases a.len(),
{
    if a.len() > 0 {
        lemma_flagged_count_zero(a.drop_last());
    }
}

/// Changing one cell changes the count by what that cell's flag changed.
pub proof fn lemma_flagged_count_update(a: Seq<Square>, k: int, x: Square)
    requires
        0 <= k < a.len(),
    ensures
        flagged_count(a.update(k, x)) + (if a[k].state == SquareState::Flagged {
            1nat
        } else {
            0nat
        }) == flagged_count(a) + (if x.state == SquareState::Flagged {
            1nat
        } else {
            0nat
        }),
    decreases a.len(),
{
    if k < a.len() - 1 {
        assert(a.update(k, x).drop_last() == a.drop_last().update(k, x));
        lemma_flagged_count_update(a.drop_last(), k, x);
    } else {
        assert(a.update(k, x).drop_last() == a.drop_last());
    }
}

/// A grid with a flag on cell `k` has at least one flag.
pub proof fn lemma_flagged_count_positive(a: Seq<Square>, k: int)
    requires
        0 <= k < a.len(),
        a[k].state == SquareState::Flagged,
    ensures
        flagged_count(a) >= 1,
{
    lemma_flagged_count_update(a, k, Square { state: SquareState::Covered, ..a[k] });
}

/// Dimensions and a mine count from which a board can be dealt.
pub open spec fn valid_dims(cols: nat, rows: nat, num_mines: nat) -> bool {
    &&& cols > 0 && rows > 0
    &&& cols * rows <= u32::MAX
    &&& num_mines < cols * rows
}

/// A mine layout and start index from which a board can be dealt.
pub open spec fn valid_layout(cols: nat, rows: nat, mines: Seq<usize>, start_index: nat) -> bool {
    &&& valid_dims(cols, rows, mines.len())
    &&& mines_fit(cols * rows, mines)
    &&& start_index < cols * rows
    &&& !mines.contains(start_index as usize)
}

/// Distinct mine indices, each below `size`.
pub open spec fn mines_fit(size: nat, mines: Seq<usize>) -> bool {
    &&& mines.no_duplicates()
    &&& forall|i: int| 0 <= i < mines.len() ==> mines[i] < size
}

/// The grid has a cell per index, with mines and counts as `mines` deals them.
pub open spec fn grid_matches(cols: nat, rows: nat, mines: Seq<usize>, cells: Seq<Square>) -> bool {
    &&& cells.len() == cols * rows
    &&& forall|k: int|
        0 <= k < cols * rows ==> {
            let d = dealt_square(cols, rows, mines, k);
            &&& #[trigger] cells[k].is_mine == d.is_mine
            &&& cells[k].adjacent_mines == d.adjacent_mines
        }
}

/// A grid with the same mines and counts as a matching one matches too.
pub proof fn lemma_grid_matches_same(
    cols: nat,
    rows: nat,
    mines: Seq<usize>,
    a: Seq<Square>,
    c: Seq<Square>,
)
    requires
        grid_matches(cols, rows, mines, a),
        c.len() == a.len(),
        forall|k: int|
            0 <= k < a.len() ==> (#[trigger] c[k]).is_mine == a[k].is_mine && c[k].adjacent_mines
                == a[k].adjacent_mines,
    ensures
        grid_matches(cols, rows, mines, c),
{
    assert forall|k: int| 0 <= k < cols * rows implies {
        let d = dealt_square(cols, rows, mines, k);
        &&& #[trigger] c[k].is_mine == d.is_mine
        &&& c[k].adjacent_mines == d.adjacent_mines
    } by {
        assert(a[k].is_mine == dealt_square(cols, rows, mines, k).is_mine);
    }
}

/// Largest value the elapsed-time counter shows.
pub const MAX_GAME_TIME: u64 = 9999;

/// The state of a game, as a value: the grid as a row-major sequence of
/// cells, the mine layout and the bookkeeping around them.
pub struct Board {
    pub cols: nat,
    pub rows: nat,
    pub num_mines: nat,
    pub num_flagged: nat,
    /// Indices of the mines, in the order in which they were dealt.
    pub mines: Seq<usize>,
    /// An index kept free of mines when the deal was made, to which a mine
    /// under the first click is moved.
    pub start_index: nat,
    pub cells: Seq<Square>,
    /// No move has been committed yet in this deal.
    pub first_move: bool,
    /// Seconds shown by the clock when it was last read.
    pub elapsed: nat,
    pub state: GameState,
}

impl Board {
    pub open spec fn size(self) -> nat {
        self.cols * self.rows
    }

    pub open spec fn in_grid(self, p: Position) -> bool {
        in_grid(self.cols, self.rows, p)
    }

    pub open spec fn cell(self, p: Position) -> Square {
        self.cells[cell_index(self.cols, p)]
    }

    /// The board's invariant.
    pub open spec fn wf(self) -> bool {
        &&& valid_dims(self.cols, self.rows, self.num_mines)
        &&& self.mines.len() == self.num_mines
        &&& mines_fit(self.cols * self.rows, self.mines)
        &&& self.start_index < self.size()
        &&& grid_matches(self.cols, self.rows, self.mines, self.cells)
        &&& self.flags_consistent()
        &&& self.elapsed <= MAX_GAME_TIME
    }

    /// Flags placed never exceed the mines; until a loss they are exactly the
    /// flagged cells, and a lost board shows a mine.
    pub open spec fn flags_consistent(self) -> bool {
        &&& self.num_flagged <= self.num_mines
        &&& self.state != GameState::Lost ==> self.num_flagged == flagged_count(self.cells)
        &&& self.state == GameState::Lost ==> self.is_lost()
    }

    /// A deal on which no move has been made.
    pub open spec fn is_fresh_deal(self) -> bool {
        &&& self.cells == dealt_cells(self.cols, self.rows, self.mines)
        &&& !self.mines.contains(self.start_index as usize)
        &&& self.num_flagged == 0
        &&& self.first_move
        &&& self.elapsed == 0
        &&& self.state == GameState::Ongoing
    }
}

/// A fresh deal on a valid layout is well formed.
pub proof fn lemma_fresh_deal_wf(b: Board)
    requires
        valid_layout(b.cols, b.rows, b.mines, b.start_index),
        b.num_mines == b.mines.len(),
        b.is_fresh_deal(),
    ensures
        b.wf(),
{
    lemma_flagged_count_zero(b.cells);
}


impl Board {
    /// `toggle_flag_square`: flag a covered cell while flags remain, or take
    /// the flag off a flagged one; nothing once the game is decided.
    pub open spec fn toggled(self, p: Position) -> Board {
        let k = cell_index(self.cols, p);
        let c = self.cells[k];
        if self.state != GameState::Ongoing || c.state == SquareState::Revealed {
            self
        } else if c.state == SquareState::Flagged {
            Board {
                cells: self.cells.update(k, Square { state: SquareState::Covered, ..c }),
                num_flagged: (self.num_flagged - 1) as nat,
                ..self
            }
        } else if self.num_flagged >= self.num_mines {
            self
        } else {
            Board {
                cells: self.cells.update(k, Square { state: SquareState::Flagged, ..c }),
                num_flagged: self.num_flagged + 1,
                ..self
            }
        }
    }

    /// Every flag is placed, and every mine carries one.
    pub open spec fn is_won(self) -> bool {
        &&& self.num_flagged == self.num_mines
        &&& forall|k: int|
            0 <= k < self.cells.len() && #[trigger] self.cells[k].is_mine ==> self.cells[k].state
                == SquareState::Flagged
    }

    /// Some mine is revealed.
    pub open spec fn is_lost(self) -> bool {
        exists|k: int|
            0 <= k < self.cells.len() && #[trigger] self.cells[k].is_mine && self.cells[k].state
                == SquareState::Revealed
    }

    /// `update_game_state`: classify the board; a won board shows every
    /// covered cell, a lost one shows every cell.
    pub open spec fn classified(self) -> Board {
        if self.is_won() {
            Board {
                state: GameState::Won,
                cells: self.cells.map_values(
                    |s: Square|
                        if s.state == SquareState::Covered {
                            Square { state: SquareState::Revealed, ..s }
                        } else {
                            s
                        },
                ),
                ..self
            }
        } else if self.is_lost() {
            Board {
                state: GameState::Lost,
                cells: self.cells.map_values(|s: Square| Square { state: SquareState::Revealed, ..s }),
                ..self
            }
        } else {
            Board { state: GameState::Ongoing, ..self }
        }
    }

    /// `first_moved`: the deal has had its first move.
    pub open spec fn committed(self) -> Board {
        Board { first_move: false, ..self }
    }

    /// A cell through which a cascade spreads: neither a mine nor flagged, and
    /// with no mine around it.
    pub open spec fn is_open(self, p: Position) -> bool {
        &&& !self.cell(p).is_mine
        &&& self.cell(p).state != SquareState::Flagged
        &&& self.cell(p).adjacent_mines == 0
    }

    /// A cell that a cascade may uncover: neither a mine nor flagged.
    pub open spec fn is_uncoverable(self, p: Position) -> bool {
        !self.cell(p).is_mine && self.cell(p).state != SquareState::Flagged
    }

    /// Consecutive cells of `path` are neighbors, and every cell but the last is open.
    pub open spec fn is_open_path(self, path: Seq<Position>) -> bool {
        &&& path.len() >= 1
        &&& forall|i: int| 0 <= i < path.len() ==> self.in_grid(#[trigger] path[i])
        &&& forall|i: int|
            0 <= i < path.len() - 1 ==> self.is_open(#[trigger] path[i]) && is_neighbor(
                self.cols,
                self.rows,
                path[i],
                path[i + 1],
            )
    }

    /// Some open path leads from `s` to `p`.
    pub open spec fn reaches(self, s: Position, p: Position) -> bool {
        exists|path: Seq<Position>|
            #[trigger] self.is_open_path(path) && path[0] == s && path.last() == p
    }

    /// `p` is uncovered when the covered cell `s` is revealed: `s` alone when
    /// it is a mine or touches one, else every uncoverable cell that an open
    /// path from `s` reaches.
    pub open spec fn in_reveal_set(self, s: Position, p: Position) -> bool {
        if self.cell(s).is_mine || self.cell(s).adjacent_mines > 0 {
            p == s
        } else {
            self.reaches(s, p) && self.is_uncoverable(p)
        }
    }

    /// The mine at `p` moved to the start index, and the grid dealt anew.
    pub open spec fn relocated(self, p: Position) -> Board {
        let mines = self.mines.remove(self.mines.index_of(cell_index(self.cols, p) as usize)).push(
            self.start_index as usize,
        );
        Board { mines, cells: dealt_cells(self.cols, self.rows, mines), num_flagged: 0, ..self }
    }

    /// The mine at the first click of a deal moves away, while the start index is free.
    pub open spec fn relocates(self, p: Position) -> bool {
        &&& self.first_move
        &&& self.cell(p).is_mine
        &&& !self.mines.contains(self.start_index as usize)
    }

    /// `reveal_square`: on a covered cell of an undecided game, move a mine
    /// away from the first click, then uncover the reveal set.
    pub open spec fn revealed(self, p: Position) -> Board {
        if self.state != GameState::Ongoing || self.cell(p).state != SquareState::Covered {
            self
        } else {
            let b = if self.relocates(p) {
                self.relocated(p)
            } else {
                self
            };
            Board {
                cells: Seq::new(
                    b.cells.len(),
                    |k: int|
                        if b.in_reveal_set(p, cell_position(b.cols, k)) {
                            Square { state: SquareState::Revealed, ..b.cells[k] }
                        } else {
                            b.cells[k]
                        },
                ),
                ..b
            }
        }
    }

    /// Whether the clock runs: a move is committed and the game undecided.
    pub open spec fn clock_runs(self) -> bool {
        !self.first_move && self.state == GameState::Ongoing
    }

    /// `game_time`, given the whole seconds since the first move (`None`
    /// where the system clock could not tell): zero before the first move,
    /// the capped reading while the game runs, the last reading after.
    pub open spec fn time_shown(self, secs: Option<u64>) -> nat {
        if self.first_move {
            0
        } else if self.clock_runs() && secs is Some {
            if secs->0 > MAX_GAME_TIME {
                MAX_GAME_TIME as nat
            } else {
                secs->0 as nat
            }
        } else {
            self.elapsed
        }
    }

    /// The board after the clock was read.
    pub open spec fn timed(self, secs: Option<u64>) -> Board {
        if self.first_move {
            self
        } else {
            Board { elapsed: self.time_shown(secs), ..self }
        }
    }
}


/// Toggling a flag keeps a board well formed.
pub proof fn lemma_toggled_wf(b: Board, p: Position)
    requires
        b.wf(),
        b.in_grid(p),
    ensures
        b.toggled(p).wf(),
{
    lemma_index_in_grid(b.cols, b.rows, p);
    let k = cell_index(b.cols, p);
    let c = b.cells[k];
    let t = b.toggled(p);
    if b.state == GameState::Ongoing && c.state == SquareState::Flagged {
        lemma_flagged_count_update(b.cells, k, Square { state: SquareState::Covered, ..c });
        lemma_flagged_count_positive(b.cells, k);
    } else if b.state == GameState::Ongoing && c.state == SquareState::Covered && b.num_flagged
        < b.num_mines {
        lemma_flagged_count_update(b.cells, k, Square { state: SquareState::Flagged, ..c });
    }
    assert forall|j: int| 0 <= j < b.cells.len() implies (#[trigger] t.cells[j]).is_mine
        == b.cells[j].is_mine && t.cells[j].adjacent_mines == b.cells[j].adjacent_mines by {
        if j != k {
            assert(t.cells[j] == b.cells[j]);
        }
    }
    lemma_grid_matches_same(b.cols, b.rows, b.mines, b.cells, t.cells);
}

/// Classifying keeps a board well formed.
pub proof fn lemma_classified_wf(b: Board)
    requires
        b.wf(),
    ensures
        b.classified().wf(),
{
    let c = b.classified();
    lemma_grid_matches_same(b.cols, b.rows, b.mines, b.cells, c.cells);
    if b.is_won() {
        lemma_flagged_count_same(b.cells, c.cells);
    } else if b.is_lost() {
        let k = choose|k: int|
            0 <= k < b.cells.len() && #[trigger] b.cells[k].is_mine && b.cells[k].state
                == SquareState::Revealed;
        assert(c.cells[k].is_mine);
    }
}


/// Reading the clock keeps a board well formed.
pub proof fn lemma_timed_wf(b: Board, secs: Option<u64>)
    requires
        b.wf(),
    ensures
        b.timed(secs).wf(),
{
    let t = b.timed(secs);
    assert(t.cells == b.cells);
}


/// Distinct in-grid positions have distinct indices.
pub proof fn lemma_index_injective(cols: nat, rows: nat)
    ensures
        forall|p: Position, q: Position|
            in_grid(cols, rows, p) && in_grid(cols, rows, q) && #[trigger] cell_index(cols, p)
                == #[trigger] cell_index(cols, q) ==> p == q,
{
    assert forall|p: Position, q: Position|
        in_grid(cols, rows, p) && in_grid(cols, rows, q) && #[trigger] cell_index(cols, p)
            == #[trigger] cell_index(cols, q) implies p == q by {
        lemma_index_in_grid(cols, rows, p);
        lemma_index_in_grid(cols, rows, q);
    }
}

/// A cell reaches itself.
pub proof fn lemma_reaches_self(b: Board, s: Position)
    requires
        b.in_grid(s),
    ensures
        b.reaches(s, s),
{
    let path = seq![s];
    assert(b.is_open_path(path));
}

/// What an open cell reaches, its neighbors reach too.
pub proof fn lemma_reaches_step(b: Board, s: Position, p: Position, q: Position)
    requires
        b.reaches(s, p),
        b.is_open(p),
        is_neighbor(b.cols, b.rows, p, q),
    ensures
        b.reaches(s, q),
{
    let path = choose|path: Seq<Position>|
        #[trigger] b.is_open_path(path) && path[0] == s && path.last() == p;
    let ext = path.push(q);
    assert forall|i: int| 0 <= i < ext.len() implies b.in_grid(#[trigger] ext[i]) by {
        if i < path.len() {
            assert(ext[i] == path[i]);
        }
    }
    assert forall|i: int| 0 <= i < ext.len() - 1 implies b.is_open(#[trigger] ext[i])
        && is_neighbor(b.cols, b.rows, ext[i], ext[i + 1]) by {
        if i < path.len() - 1 {
            assert(ext[i] == path[i] && ext[i + 1] == path[i + 1]);
        } else {
            assert(ext[i] == p && ext[i + 1] == q);
        }
    }
    assert(b.is_open_path(ext) && ext[0] == s && ext.last() == q);
}

/// A set that holds the start of an open path, and the neighbors of each
/// open cell in it, holds the end of the path.
pub proof fn lemma_path_stays_inside(b: Board, inside: Set<Position>, path: Seq<Position>)
    requires
        b.is_open_path(path),
        inside.contains(path[0]),
        forall|p: Position, q: Position|
            #[trigger] inside.contains(p) && b.is_open(p) && #[trigger] is_neighbor(
                b.cols,
                b.rows,
                p,
                q,
            ) ==> inside.contains(q),
    ensures
        inside.contains(path.last()),
    decreases path.len(),
{
    if path.len() > 1 {
        let prefix = path.drop_last();
        assert forall|i: int| 0 <= i < prefix.len() implies b.in_grid(#[trigger] prefix[i]) by {
            assert(prefix[i] == path[i]);
        }
        assert forall|i: int| 0 <= i < prefix.len() - 1 implies b.is_open(#[trigger] prefix[i])
            && is_neighbor(b.cols, b.rows, prefix[i], prefix[i + 1]) by {
            assert(prefix[i] == path[i] && prefix[i + 1] == path[i + 1]);
        }
        lemma_path_stays_inside(b, inside, prefix);
        let m = path.len() - 2;
        assert(prefix.last() == path[m]);
        assert(b.is_open(path[m]) && is_neighbor(b.cols, b.rows, path[m], path[m + 1]));
    }
}


/// Moving the mine under the first click keeps the board well formed and
/// leaves no mine under that cell.
pub proof fn lemma_relocated(b: Board, p: Position)
    requires
        b.wf(),
        b.in_grid(p),
        b.relocates(p),
        b.state == GameState::Ongoing,
    ensures
        b.relocated(p).wf(),
        !b.relocated(p).cell(p).is_mine,
        b.relocated(p).cell(p).state == SquareState::Covered,
{
    lemma_index_in_grid(b.cols, b.rows, p);
    let k = cell_index(b.cols, p);
    let m = k as usize;
    assert(b.cells[k].is_mine == dealt_square(b.cols, b.rows, b.mines, k).is_mine);
    assert(b.mines.contains(m));
    let j = b.mines.index_of(m);
    let rest = b.mines.remove(j);
    let moved = rest.push(b.start_index as usize);
    let r = b.relocated(p);
    assert(r.mines == moved);
    assert forall|i: int| 0 <= i < rest.len() implies #[trigger] rest[i] != m && rest[i] != b.start_index as usize by {
        if i < j {
            assert(rest[i] == b.mines[i]);
        } else {
            assert(rest[i] == b.mines[i + 1]);
        }
        assert(b.mines.contains(b.mines[if i < j { i } else { i + 1 }]));
    }
    assert forall|x: int, y: int| 0 <= x < moved.len() && 0 <= y < moved.len() && x != y implies moved[x] != moved[y] by {
        if x < rest.len() && y < rest.len() {
            let xi = if x < j { x } else { x + 1 };
            let yi = if y < j { y } else { y + 1 };
            assert(rest[x] == b.mines[xi] && rest[y] == b.mines[yi]);
        }
    }
    assert forall|i: int| 0 <= i < moved.len() implies moved[i] < b.size() by {
        if i < rest.len() {
            assert(rest[i] == b.mines[if i < j { i } else { i + 1 }]);
        }
    }
    assert(!moved.contains(m));
    assert(mines_fit(b.size(), moved));
    lemma_flagged_count_zero(r.cells);
    assert(grid_matches(r.cols, r.rows, r.mines, r.cells));
}

/// Revealing keeps a board well formed.
pub proof fn lemma_revealed_wf(b: Board, p: Position)
    requires
        b.wf(),
        b.in_grid(p),
    ensures
        b.revealed(p).wf(),
{
    if b.state == GameState::Ongoing && b.cell(p).state == SquareState::Covered {
        let b1 = if b.relocates(p) {
            lemma_relocated(b, p);
            b.relocated(p)
        } else {
            b
        };
        let r = b.revealed(p);
        lemma_index_in_grid(b.cols, b.rows, p);
        assert forall|k: int| 0 <= k < r.cells.len() implies (#[trigger] r.cells[k].state
            == SquareState::Flagged) == (b1.cells[k].state == SquareState::Flagged) by {
            lemma_position_in_grid(b.cols, b.rows, k);
        }
        lemma_flagged_count_same(r.cells, b1.cells);
        lemma_grid_matches_same(b1.cols, b1.rows, b1.mines, b1.cells, r.cells);
    }
}


/// The three-by-three box of positions centered on `p`.
pub open spec fn box_around(p: Position) -> Seq<Position> {
    Seq::new(9, |i: int| Position((p.0 + i / 3 - 1) as u32, (p.1 + i % 3 - 1) as u32))
}

/// A cell has finitely many neighbors.
pub proof fn lemma_neighbors_finite(cols: nat, rows: nat, p: Position)
    ensures
        neighbors(cols, rows, p).finite(),
        neighbors(cols, rows, p).len() <= 9,
{
    let area = box_around(p).to_set();
    assert forall|q: Position| neighbors(cols, rows, p).contains(q) implies area.contains(q) by {
        let i = (q.0 - p.0 + 1) * 3 + (q.1 - p.1 + 1);
        assert(i / 3 == q.0 - p.0 + 1 && i % 3 == q.1 - p.1 + 1);
        assert(box_around(p)[i] == q);
    }
    box_around(p).lemma_cardinality_of_set();
    vstd::set_lib::lemma_len_subset(neighbors(cols, rows, p), area);
}

/// The width, height and mine count of a preset.
pub open spec fn preset_dims(d: Difficulty) -> (nat, nat, nat) {
    match d {
        Difficulty::Beginner => (8, 8, 10),
        Difficulty::Intermediate => (16, 16, 40),
        _ => (24, 24, 99),
    }
}

} // verus!
