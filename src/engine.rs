use vstd::prelude::*;

use crate::board::{
    cell_index, cell_position, dealt_cells, dealt_square, in_grid, is_neighbor,
    lemma_classified_wf, lemma_flagged_count_positive, lemma_fresh_deal_wf, lemma_index_in_grid,
    lemma_index_injective, lemma_path_stays_inside, lemma_position_in_grid, lemma_reaches_self,
    lemma_reaches_step, lemma_relocated, lemma_revealed_wf, lemma_timed_wf, lemma_toggled_wf,
    mine_neighbors, preset_dims, valid_dims, valid_layout, Board, Difficulty, GameError,
    GameState, MAX_GAME_TIME, Position, Square, SquareState,
};
use crate::clock::seconds_since;
use crate::random::sample_indices;
use std::collections::VecDeque;

verus! {

broadcast use {vstd::seq_lib::lemma_seq_contains_after_push, vstd::seq_lib::lemma_seq_concat_contains_all_elements};

/// The cell at `p` has been visited.
spec fn is_seen(visited: Seq<bool>, cols: nat, p: Position) -> bool {
    visited[cell_index(cols, p)]
}

/// Number of cells not yet visited.
spec fn unvisited(visited: Seq<bool>) -> nat
    decreases visited.len(),
{
    if visited.len() == 0 {
        0
    } else {
        unvisited(visited.drop_last()) + if visited.last() {
            0nat
        } else {
            1nat
        }
    }
}

proof fn lemma_unvisited_mark(visited: Seq<bool>, k: int)
    requires
        0 <= k < visited.len(),
        !visited[k],
    ensures
        unvisited(visited.update(k, true)) + 1 == unvisited(visited),
    decreases visited.len(),
{
    if k < visited.len() - 1 {
        assert(visited.update(k, true).drop_last() == visited.drop_last().update(k, true));
        lemma_unvisited_mark(visited.drop_last(), k);
    } else {
        assert(visited.update(k, true).drop_last() == visited.drop_last());
    }
}

/// Appends `items` to the back of `queue`, in order.
fn enqueue_all(queue: &mut VecDeque<Position>, items: &Vec<Position>)
    ensures
        final(queue)@ == old(queue)@ + items@,
{
    let ghost start = queue@;
    let mut t: usize = 0;
    while t < items.len()
        invariant
            0 <= t <= items.len(),
            queue@ == start + items@.take(t as int),
        decreases items.len() - t,
    {
        queue.push_back(items[t]);
        proof {
            assert(items@.take(t + 1) == items@.take(t as int).push(items@[t as int]));
        }
        t = t + 1;
    }
    proof {
        assert(items@.take(items.len() as int) == items@);
    }
}

/// A game in progress: the grid, stored row-major, with its mine layout,
/// flag count, clock and outcome.
pub struct MineSweeper {
    cols: u32,
    rows: u32,
    num_mines: u32,
    num_flagged: u32,
    rng: rand::ThreadRng,
    mines_index: Vec<usize>,
    map: Vec<Square>,
    first_move: bool,
    timer: std::time::SystemTime,
    elapsed: u64,
    start_index: u32,
    state: GameState,
}

impl View for MineSweeper {
    type V = Board;

    closed spec fn view(&self) -> Board {
        Board {
            cols: self.cols as nat,
            rows: self.rows as nat,
            num_mines: self.num_mines as nat,
            num_flagged: self.num_flagged as nat,
            mines: self.mines_index@,
            start_index: self.start_index as nat,
            cells: self.map@,
            first_move: self.first_move,
            elapsed: self.elapsed as nat,
            state: self.state,
        }
    }
}

impl MineSweeper {
    /// A new game of a preset size: 8 by 8 with 10 mines, 16 by 16 with 40,
    /// or 24 by 24 with 99.
    pub fn new_from_preset(difficulty: &Difficulty) -> (g: MineSweeper)
        requires
            *difficulty != Difficulty::Custom,
        ensures
            g@.wf(),
            g@.is_fresh_deal(),
            (g@.cols, g@.rows, g@.num_mines) == preset_dims(*difficulty),
    {
        let r = match *difficulty {
            Difficulty::Beginner => MineSweeper::new(8, 8, 10),
            Difficulty::Intermediate => MineSweeper::new(16, 16, 40),
            _ => MineSweeper::new(24, 24, 99),
        };
        r.unwrap()
    }

    /// A new game on `cols` by `rows` cells with `num_mines` mines placed at
    /// random, one further cell kept free of mines for the first click.
    pub fn new(cols: u32, rows: u32, num_mines: u32) -> (r: Result<MineSweeper, GameError>)
        ensures
            r is Err <==> !valid_dims(cols as nat, rows as nat, num_mines as nat),
            r matches Err(e) ==> e == GameError::InvalidConfiguration,
            r matches Ok(g) ==> {
                &&& g@.wf()
                &&& g@.is_fresh_deal()
                &&& g@.cols == cols && g@.rows == rows && g@.num_mines == num_mines
            },
    {
        let n = match cols.checked_mul(rows) {
            Some(n) if cols > 0 && rows > 0 => n,
            _ => {
                return Err(GameError::InvalidConfiguration);
            },
        };
        if num_mines >= n {
            return Err(GameError::InvalidConfiguration);
        }
        let mut rng = rand::thread_rng();
        let (mines_index, start_index) = MineSweeper::draw_layout(&mut rng, n, num_mines);
        Ok(MineSweeper::build(cols, rows, mines_index, start_index, rng))
    }

    /// A new game on `cols` by `rows` cells whose mines are at the row-major
    /// indices `mines_index`, with the mine-free cell `start_index` to which
    /// a mine under the first click moves.
    pub fn from_layout(cols: u32, rows: u32, mines_index: Vec<usize>, start_index: u32) -> (r:
        Result<MineSweeper, GameError>)
        ensures
            r is Err <==> !valid_layout(cols as nat, rows as nat, mines_index@, start_index as nat),
            r matches Err(e) ==> e == GameError::InvalidConfiguration,
            r matches Ok(g) ==> {
                &&& g@.wf()
                &&& g@.is_fresh_deal()
                &&& g@.cols == cols && g@.rows == rows && g@.num_mines == mines_index@.len()
                &&& g@.mines == mines_index@ && g@.start_index == start_index
            },
    {
        let n = match cols.checked_mul(rows) {
            Some(n) if cols > 0 && rows > 0 => n,
            _ => {
                return Err(GameError::InvalidConfiguration);
            },
        };
        if mines_index.len() >= n as usize || start_index >= n {
            return Err(GameError::InvalidConfiguration);
        }
        let mut seen: Vec<bool> = Vec::new();
        while seen.len() < n as usize
            invariant
                seen.len() <= n,
                forall|j: int| 0 <= j < seen.len() ==> !seen@[j],
            decreases n - seen.len(),
        {
            seen.push(false);
        }
        let ghost mines = mines_index@;
        let mut i: usize = 0;
        while i < mines_index.len()
            invariant
                n == cols * rows,
                mines_index@ == mines,
                seen.len() == n,
                0 <= i <= mines.len(),
                mines.take(i as int).no_duplicates(),
                forall|j: int| 0 <= j < i ==> mines[j] < n,
                forall|j: int| 0 <= j < n ==> seen@[j] == mines.take(i as int).contains(j as usize),
            decreases mines.len() - i,
        {
            let m = mines_index[i];
            if m >= n as usize || seen[m] {
                proof {
                    if m < n {
                        let w = choose|j: int| 0 <= j < i && mines.take(i as int)[j] == m;
                        assert(mines.take(i as int)[w] == mines[w]);
                        assert(mines[w] == mines[i as int]);
                    }
                }
                return Err(GameError::InvalidConfiguration);
            }
            seen.set(m, true);
            proof {
                assert(mines.take(i + 1) == mines.take(i as int).push(m));
            }
            i = i + 1;
        }
        proof {
            assert(mines.take(mines.len() as int) == mines);
        }
        if seen[start_index as usize] {
            return Err(GameError::InvalidConfiguration);
        }
        Ok(MineSweeper::build(cols, rows, mines_index, start_index, rand::thread_rng()))
    }

    /// Draws `num_mines` mine indices and a start index, all distinct, below `n`.
    fn draw_layout(rng: &mut rand::ThreadRng, n: u32, num_mines: u32) -> (r: (Vec<usize>, u32))
        requires
            num_mines < n,
        ensures
            r.0@.len() == num_mines,
            r.0@.no_duplicates(),
            forall|i: int| 0 <= i < r.0@.len() ==> r.0@[i] < n,
            r.1 < n,
            !r.0@.contains(r.1 as usize),
    {
        let mut mines_index = sample_indices(rng, n as usize, num_mines as usize + 1);
        let ghost drawn = mines_index@;
        let start = mines_index.pop().unwrap();
        proof {
            assert(drawn == mines_index@.push(start));
            assert forall|i: int| 0 <= i < mines_index@.len() implies mines_index@[i] != start by {
                assert(drawn[i] == mines_index@[i]);
                assert(drawn[drawn.len() - 1] == start);
            }
            assert forall|i: int, j: int|
                0 <= i < mines_index@.len() && 0 <= j < mines_index@.len() && i != j
                    implies mines_index@[i] != mines_index@[j] by {
                assert(drawn[i] == mines_index@[i]);
                assert(drawn[j] == mines_index@[j]);
            }
            assert forall|i: int| 0 <= i < mines_index@.len() implies mines_index@[i] < n by {
                assert(drawn[i] == mines_index@[i]);
            }
        }
        (mines_index, start as u32)
    }

    /// A game on a valid layout, freshly dealt.
    fn build(cols: u32, rows: u32, mines_index: Vec<usize>, start_index: u32, rng: rand::ThreadRng) -> (g: MineSweeper)
        requires
            valid_layout(cols as nat, rows as nat, mines_index@, start_index as nat),
        ensures
            g@.wf(),
            g@.is_fresh_deal(),
            g@.cols == cols && g@.rows == rows && g@.num_mines == mines_index@.len(),
            g@.mines == mines_index@ && g@.start_index == start_index,
    {
        let mut game = MineSweeper {
            cols,
            rows,
            num_mines: mines_index.len() as u32,
            num_flagged: 0,
            rng,
            mines_index,
            map: Vec::new(),
            first_move: true,
            timer: std::time::SystemTime::now(),
            elapsed: 0,
            start_index,
            state: GameState::Ongoing,
        };
        game.populate_board();
        proof {
            lemma_fresh_deal_wf(game@);
        }
        game
    }

    /// Deals the same board size and mine count anew: fresh random mines,
    /// every cell covered, no flags, the clock stopped at zero.
    pub fn reset(&mut self)
        requires
            old(self)@.wf(),
        ensures
            final(self)@.wf(),
            final(self)@.is_fresh_deal(),
            final(self)@.cols == old(self)@.cols,
            final(self)@.rows == old(self)@.rows,
            final(self)@.num_mines == old(self)@.num_mines,
    {
        self.num_flagged = 0;
        let n = self.cols * self.rows;
        let (mines_index, start_index) = MineSweeper::draw_layout(&mut self.rng, n, self.num_mines);
        self.mines_index = mines_index;
        self.start_index = start_index;
        self.populate_board();
        self.state = GameState::Ongoing;
        self.first_move = true;
        self.elapsed = 0;
        proof {
            lemma_fresh_deal_wf(self@);
        }
    }

    /// The neighbors of `curr_pos` on a grid of `cols` columns and `rows`
    /// rows, each once.
    pub fn get_neighbor_coords(curr_pos: &Position, cols: u32, rows: u32) -> (r: Vec<Position>)
        requires
            in_grid(cols as nat, rows as nat, *curr_pos),
        ensures
            r@.no_duplicates(),
            r@.len() <= 8,
            forall|q: Position| r@.contains(q) <==> is_neighbor(cols as nat, rows as nat, *curr_pos, q),
    {
        let mut neighbors: Vec<Position> = Vec::new();
        let r = curr_pos.0;
        let c = curr_pos.1;
        if r > 0 {
            neighbors.push(Position(r - 1, c));
            if c > 0 {
                neighbors.push(Position(r - 1, c - 1));
            }
            if c < cols - 1 {
                neighbors.push(Position(r - 1, c + 1));
            }
        }
        if c > 0 {
            neighbors.push(Position(r, c - 1));
        }
        if r < rows - 1 {
            neighbors.push(Position(r + 1, c));
            if c > 0 {
                neighbors.push(Position(r + 1, c - 1));
            }
            if c < cols - 1 {
                neighbors.push(Position(r + 1, c + 1));
            }
        }
        if c < cols - 1 {
            neighbors.push(Position(r, c + 1));
        }
        neighbors
    }

    /// Fills the grid from the mine layout: mines where `mines_index` says,
    /// every other cell with the count of its mine neighbors, all covered.
    fn populate_board(&mut self)
        requires
            old(self).cols > 0,
            old(self).rows > 0,
            old(self).cols * old(self).rows <= u32::MAX,
            forall|i: int|
                0 <= i < old(self).mines_index@.len() ==> old(self).mines_index@[i] < old(self).cols
                    * old(self).rows,
        ensures
            final(self)@ == (Board {
                cells: dealt_cells(old(self)@.cols, old(self)@.rows, old(self)@.mines),
                ..old(self)@
            }),
    {
        let cols = self.cols;
        let rows = self.rows;
        let n = (cols * rows) as usize;
        let ghost mines = self.mines_index@;
        let mut map: Vec<Square> = Vec::new();
        while map.len() < n
            invariant
                n == cols * rows,
                map.len() <= n,
                forall|k: int|
                    0 <= k < map.len() ==> map@[k] == (Square {
                        is_mine: false,
                        adjacent_mines: 0,
                        state: SquareState::Covered,
                    }),
            decreases n - map.len(),
        {
            map.push(Square { is_mine: false, adjacent_mines: 0, state: SquareState::Covered });
        }
        let mut i: usize = 0;
        while i < self.mines_index.len()
            invariant
                n == cols * rows,
                map.len() == n,
                self.mines_index@ == mines,
                0 <= i <= mines.len(),
                forall|j: int| 0 <= j < mines.len() ==> mines[j] < n,
                forall|k: int|
                    0 <= k < n ==> map@[k] == (Square {
                        is_mine: mines.take(i as int).contains(k as usize),
                        adjacent_mines: 0,
                        state: SquareState::Covered,
                    }),
            decreases mines.len() - i,
        {
            let m = self.mines_index[i];
            map.set(m, Square { is_mine: true, adjacent_mines: 0, state: SquareState::Covered });
            proof {
                assert(mines.take(i + 1) == mines.take(i as int).push(m));
            }
            i = i + 1;
        }
        proof {
            assert(mines.take(mines.len() as int) == mines);
        }
        let mut k: usize = 0;
        while k < n
            invariant
                n == cols * rows,
                cols > 0,
                rows > 0,
                cols * rows <= u32::MAX,
                map.len() == n,
                0 <= k <= n,
                forall|j: int|
                    0 <= j < k ==> map@[j] == dealt_square(cols as nat, rows as nat, mines, j),
                forall|j: int|
                    k <= j < n ==> map@[j] == (Square {
                        is_mine: mines.contains(j as usize),
                        adjacent_mines: 0,
                        state: SquareState::Covered,
                    }),
            decreases n - k,
        {
            proof {
                lemma_position_in_grid(cols as nat, rows as nat, k as int);
            }
            if !map[k].is_mine {
                let pos = Position(k as u32 / cols, k as u32 % cols);
                let nbrs = MineSweeper::get_neighbor_coords(&pos, cols, rows);
                let mut count: u32 = 0;
                let mut t: usize = 0;
                let ghost mut counted: Set<Position> = Set::empty();
                while t < nbrs.len()
                    invariant
                        n == cols * rows,
                        cols * rows <= u32::MAX,
                        map.len() == n,
                        forall|j: int|
                            0 <= j < n ==> (#[trigger] map@[j]).is_mine == mines.contains(j as usize),
                        0 <= t <= nbrs.len(),
                        nbrs.len() <= 8,
                        count <= t,
                        forall|q: Position|
                            nbrs@.contains(q) ==> is_neighbor(cols as nat, rows as nat, pos, q),
                        nbrs@.no_duplicates(),
                        counted.finite(),
                        counted.len() == count,
                        forall|q: Position|
                            counted.contains(q) <==> (nbrs@.take(t as int).contains(q)
                                && mines.contains(cell_index(cols as nat, q) as usize)),
                    decreases nbrs.len() - t,
                {
                    let q = nbrs[t];
                    proof {
                        assert(nbrs@.contains(q));
                        lemma_index_in_grid(cols as nat, rows as nat, q);
                        assert(nbrs@.take(t + 1) == nbrs@.take(t as int).push(q));
                        assert(!nbrs@.take(t as int).contains(q));
                    }
                    if map[(q.0 * cols + q.1) as usize].is_mine {
                        count = count + 1;
                        proof {
                            counted = counted.insert(q);
                        }
                    }
                    t = t + 1;
                }
                proof {
                    assert(nbrs@.take(nbrs@.len() as int) == nbrs@);
                    assert(counted =~= mine_neighbors(cols as nat, rows as nat, mines, pos));
                }
                map.set(k, Square { is_mine: false, adjacent_mines: count, state: SquareState::Covered });
            }
            k = k + 1;
        }
        self.map = map;
        proof {
            assert(self.map@ =~= dealt_cells(cols as nat, rows as nat, mines));
        }
    }

    /// Row-major index of an in-grid position.
    fn cell_idx(&self, p: &Position) -> (r: usize)
        requires
            self@.wf(),
            self@.in_grid(*p),
        ensures
            r == cell_index(self@.cols, *p),
            r < self@.cells.len(),
    {
        proof {
            lemma_index_in_grid(self@.cols, self@.rows, *p);
        }
        (p.0 * self.cols + p.1) as usize
    }

    /// Flags a covered cell while flags remain, or takes the flag off a
    /// flagged one; does nothing to a revealed cell or once the game is decided.
    pub fn toggle_flag_square(&mut self, curr_pos: &Position)
        requires
            old(self)@.wf(),
            old(self)@.in_grid(*curr_pos),
        ensures
            final(self)@.wf(),
            final(self)@ == old(self)@.toggled(*curr_pos),
    {
        let k = self.cell_idx(curr_pos);
        proof {
            lemma_toggled_wf(self@, *curr_pos);
        }
        if self.state != GameState::Ongoing {
            return;
        }
        let square = self.map[k];
        if square.state == SquareState::Revealed {
            return;
        } else if square.state == SquareState::Flagged {
            proof {
                lemma_flagged_count_positive(self.map@, k as int);
            }
            self.map.set(k, Square { state: SquareState::Covered, ..square });
            self.num_flagged = self.num_flagged - 1;
        } else if self.num_flagged >= self.num_mines {
            return;
        } else {
            self.map.set(k, Square { state: SquareState::Flagged, ..square });
            self.num_flagged = self.num_flagged + 1;
        }
    }

    /// Whether every flag is placed and every mine carries one.
    pub fn check_game_won(&self) -> (r: bool)
        requires
            self@.wf(),
        ensures
            r == self@.is_won(),
    {
        if self.num_flagged < self.num_mines {
            return false;
        }
        let mut k: usize = 0;
        while k < self.map.len()
            invariant
                0 <= k <= self.map.len(),
                forall|j: int|
                    0 <= j < k && (#[trigger] self.map@[j]).is_mine ==> self.map@[j].state
                        == SquareState::Flagged,
            decreases self.map.len() - k,
        {
            if self.map[k].is_mine && self.map[k].state != SquareState::Flagged {
                return false;
            }
            k = k + 1;
        }
        true
    }

    /// Whether some mine is revealed.
    pub fn check_game_lost(&self) -> (r: bool)
        requires
            self@.wf(),
        ensures
            r == self@.is_lost(),
    {
        let mut k: usize = 0;
        while k < self.map.len()
            invariant
                0 <= k <= self.map.len(),
                forall|j: int|
                    0 <= j < k ==> !((#[trigger] self.map@[j]).is_mine && self.map@[j].state
                        == SquareState::Revealed),
            decreases self.map.len() - k,
        {
            if self.map[k].is_mine && self.map[k].state == SquareState::Revealed {
                return true;
            }
            k = k + 1;
        }
        false
    }

    /// Classifies the board as won, lost or ongoing; a won board shows every
    /// covered cell, a lost one every cell.
    pub fn update_game_state(&mut self)
        requires
            old(self)@.wf(),
        ensures
            final(self)@.wf(),
            final(self)@ == old(self)@.classified(),
    {
        let ghost before = self.map@;
        if self.check_game_won() {
            self.state = GameState::Won;
            let ghost b0 = self@;
            let mut k: usize = 0;
            while k < self.map.len()
                invariant
                    self@ == (Board { cells: self.map@, ..b0 }),
                    self.map.len() == before.len(),
                    0 <= k <= self.map.len(),
                    forall|j: int|
                        0 <= j < k ==> self.map@[j] == (if before[j].state == SquareState::Covered {
                            Square { state: SquareState::Revealed, ..before[j] }
                        } else {
                            before[j]
                        }),
                    forall|j: int| k <= j < self.map.len() ==> self.map@[j] == before[j],
                decreases self.map.len() - k,
            {
                if self.map[k].state == SquareState::Covered {
                    let shown = Square { state: SquareState::Revealed, ..self.map[k] };
                    self.map.set(k, shown);
                }
                k = k + 1;
            }
        } else if self.check_game_lost() {
            self.state = GameState::Lost;
            let ghost b0 = self@;
            let mut k: usize = 0;
            while k < self.map.len()
                invariant
                    self@ == (Board { cells: self.map@, ..b0 }),
                    self.map.len() == before.len(),
                    0 <= k <= self.map.len(),
                    forall|j: int|
                        0 <= j < k ==> self.map@[j] == (Square {
                            state: SquareState::Revealed,
                            ..before[j]
                        }),
                    forall|j: int| k <= j < self.map.len() ==> self.map@[j] == before[j],
                decreases self.map.len() - k,
            {
                let shown = Square { state: SquareState::Revealed, ..self.map[k] };
                self.map.set(k, shown);
                k = k + 1;
            }
        } else {
            self.state = GameState::Ongoing;
        }
        proof {
            lemma_classified_wf(old(self)@);
            assert(self.map@ =~= old(self)@.classified().cells);
        }
    }

    /// Commits the first move of the deal: the clock starts from now. Later
    /// calls change nothing.
    pub fn first_moved(&mut self)
        requires
            old(self)@.wf(),
        ensures
            final(self)@.wf(),
            final(self)@ == old(self)@.committed(),
    {
        if self.first_move {
            self.timer = std::time::SystemTime::now();
            self.first_move = false;
        }
    }

    /// The clock's display given the whole seconds since the first move
    /// (`None` where the system clock cannot tell): zero before the first
    /// move, the reading capped at `MAX_GAME_TIME` while the game runs, the
    /// last reading once it is decided.
    pub fn game_time_at(&mut self, secs: Option<u64>) -> (r: u64)
        requires
            old(self)@.wf(),
        ensures
            final(self)@.wf(),
            r == old(self)@.time_shown(secs),
            final(self)@ == old(self)@.timed(secs),
    {
        proof {
            lemma_timed_wf(self@, secs);
        }
        if self.first_move {
            0
        } else if self.state == GameState::Ongoing {
            if let Some(s) = secs {
                self.elapsed = if s > MAX_GAME_TIME {
                    MAX_GAME_TIME
                } else {
                    s
                };
            }
            self.elapsed
        } else {
            self.elapsed
        }
    }

    /// Elapsed whole seconds since the first move, read from the system
    /// clock while the game runs; see `game_time_at`.
    pub fn game_time(&mut self) -> (r: u64)
        requires
            old(self)@.wf(),
        ensures
            final(self)@.wf(),
            exists|secs: Option<u64>|
                r == old(self)@.time_shown(secs) && final(self)@ == old(self)@.timed(secs),
            !old(self)@.clock_runs() ==> r == old(self)@.time_shown(None) && final(self)@
                == old(self)@,
    {
        let secs = if !self.first_move && self.state == GameState::Ongoing {
            seconds_since(&self.timer)
        } else {
            None
        };
        self.game_time_at(secs)
    }

    /// The cell at `(row, col)`.
    pub fn get_square(&self, row: u32, col: u32) -> (r: &Square)
        requires
            self@.wf(),
            self@.in_grid(Position(row, col)),
        ensures
            *r == self@.cell(Position(row, col)),
    {
        let k = self.cell_idx(&Position(row, col));
        &self.map[k]
    }

    /// Flags still to place: the mine count less the flags placed.
    pub fn get_flags_left(&self) -> (r: u32)
        requires
            self@.wf(),
        ensures
            r == self@.num_mines - self@.num_flagged,
    {
        self.num_mines - self.num_flagged
    }

    pub fn cols(&self) -> (r: u32)
        ensures
            r == self@.cols,
    {
        self.cols
    }

    pub fn rows(&self) -> (r: u32)
        ensures
            r == self@.rows,
    {
        self.rows
    }

    pub fn num_mines(&self) -> (r: u32)
        ensures
            r == self@.num_mines,
    {
        self.num_mines
    }

    /// Flags placed.
    pub fn num_flagged(&self) -> (r: u32)
        ensures
            r == self@.num_flagged,
    {
        self.num_flagged
    }

    pub fn state(&self) -> (r: GameState)
        ensures
            r == self@.state,
    {
        self.state
    }

    /// Whether no move has been committed yet in this deal.
    pub fn is_first_move(&self) -> (r: bool)
        ensures
            r == self@.first_move,
    {
        self.first_move
    }

    /// Row-major indices of the mines.
    pub fn mines_index(&self) -> (r: &Vec<usize>)
        ensures
            r@ == self@.mines,
    {
        &self.mines_index
    }

    /// The index kept free of mines at the deal, to which a mine under the
    /// first click moves.
    pub fn start_index(&self) -> (r: u32)
        ensures
            r == self@.start_index,
    {
        self.start_index
    }

    /// The cells that revealing `curr_pos` uncovers, each once: the cell
    /// alone when it is a mine or touches one, else a breadth-first cascade
    /// through open cells that uncovers every unflagged non-mine cell it meets.
    fn find_reveals(&self, curr_pos: &Position) -> (r: Vec<Position>)
        requires
            self@.wf(),
            self@.in_grid(*curr_pos),
        ensures
            r@.no_duplicates(),
            forall|p: Position|
                #[trigger] r@.contains(p) <==> self@.in_grid(p) && self@.in_reveal_set(*curr_pos, p),
    {
        let ghost b = self@;
        let ghost s = *curr_pos;
        let ghost cols = b.cols;
        let start = self.cell_idx(curr_pos);
        let curr_square = self.map[start];
        if curr_square.is_mine || curr_square.adjacent_mines > 0 {
            let mut single: Vec<Position> = Vec::new();
            single.push(*curr_pos);
            return single;
        }
        let n = self.map.len();
        let mut visited: Vec<bool> = Vec::new();
        while visited.len() < n
            invariant
                visited.len() <= n,
                forall|j: int| 0 <= j < visited.len() ==> !visited@[j],
            decreases n - visited.len(),
        {
            visited.push(false);
        }
        let mut all_reveal: Vec<Position> = Vec::new();
        let mut candidates: VecDeque<Position> = VecDeque::new();
        candidates.push_back(*curr_pos);
        proof {
            lemma_reaches_self(b, s);
            lemma_index_injective(b.cols, b.rows);
            assert(candidates@[0] == s);
            assert forall|p: Position| b.in_grid(p) implies !#[trigger] is_seen(visited@, cols, p) by {
                lemma_index_in_grid(b.cols, b.rows, p);
            }
        }
        while candidates.len() > 0
            invariant
                self@ == b,
                b.wf(),
                b.in_grid(s),
                cols == b.cols,
                n == b.size(),
                visited.len() == n,
                forall|p: Position, q: Position|
                    b.in_grid(p) && b.in_grid(q) && #[trigger] cell_index(cols, p)
                        == #[trigger] cell_index(cols, q) ==> p == q,
                forall|p: Position| b.in_grid(p) && #[trigger] is_seen(visited@, cols, p) ==> b.reaches(s, p),
                forall|i: int|
                    0 <= i < candidates@.len() ==> b.in_grid(#[trigger] candidates@[i]) && b.reaches(
                        s,
                        candidates@[i],
                    ),
                all_reveal@.no_duplicates(),
                forall|p: Position|
                    #[trigger] all_reveal@.contains(p) <==> (b.in_grid(p) && is_seen(visited@, cols, p)
                        && b.is_uncoverable(p)),
                forall|p: Position, q: Position|
                    b.in_grid(p) && #[trigger] is_seen(visited@, cols, p) && b.is_open(p)
                        && #[trigger] is_neighbor(cols, b.rows, p, q) ==> is_seen(visited@, cols, q)
                        || candidates@.contains(q),
                is_seen(visited@, cols, s) || candidates@.contains(s),
            decreases unvisited(visited@), candidates@.len(),
        {
            let ghost vis0 = visited@;
            let ghost cand0 = candidates@;
            let pos = candidates.pop_front().unwrap();
            let ghost cand1 = candidates@;
            proof {
                assert(cand0[0] == pos);
                assert forall|q: Position| cand0.contains(q) && q != pos implies cand1.contains(q) by {
                    let i = choose|i: int| 0 <= i < cand0.len() && cand0[i] == q;
                    assert(cand1[i - 1] == q);
                }
                assert forall|i: int| 0 <= i < cand1.len() implies b.in_grid(#[trigger] cand1[i]) && b.reaches(s, cand1[i]) by {
                    assert(cand1[i] == cand0[i + 1]);
                }
            }
            let k = self.cell_idx(&pos);
            proof {
                lemma_index_in_grid(b.cols, b.rows, pos);
            }
            if !visited[k] {
                proof {
                    lemma_unvisited_mark(visited@, k as int);
                }
                visited.set(k, true);
                let square = self.map[k];
                let ghost rev0 = all_reveal@;
                if !square.is_mine && square.state != SquareState::Flagged {
                    proof {
                        assert(!rev0.contains(pos));
                    }
                    all_reveal.push(pos);
                }
                proof {
                    assert forall|p: Position| b.in_grid(p) implies #[trigger] is_seen(visited@, cols, p) == (is_seen(vis0, cols, p) || p == pos) by {
                        lemma_index_in_grid(b.cols, b.rows, p);
                    }
                }
                if !square.is_mine && square.state != SquareState::Flagged && square.adjacent_mines
                    == 0 {
                    let nbrs = MineSweeper::get_neighbor_coords(&pos, self.cols, self.rows);
                    enqueue_all(&mut candidates, &nbrs);
                    proof {
                        assert forall|i: int| 0 <= i < candidates@.len() implies b.in_grid(#[trigger] candidates@[i]) && b.reaches(s, candidates@[i]) by {
                            if i >= cand1.len() {
                                let q = nbrs@[i - cand1.len()];
                                assert(candidates@[i] == q);
                                assert(nbrs@.contains(q));
                                lemma_reaches_step(b, s, pos, q);
                            } else {
                                assert(candidates@[i] == cand1[i]);
                            }
                        }
                        assert forall|q: Position| cand1.contains(q) implies candidates@.contains(q) by {
                        }
                        assert forall|q: Position| is_neighbor(cols, b.rows, pos, q) implies candidates@.contains(q) by {
                            assert(nbrs@.contains(q));
                        }
                    }
                }
            }
        }
        proof {
            let inside = Set::new(|p: Position| b.in_grid(p) && is_seen(visited@, cols, p));
            assert forall|p: Position| b.in_grid(p) && b.reaches(s, p) implies is_seen(visited@, cols, p) by {
                let path = choose|path: Seq<Position>|
                    #[trigger] b.is_open_path(path) && path[0] == s && path.last() == p;
                lemma_path_stays_inside(b, inside, path);
            }
        }
        all_reveal
    }

    /// Reveals a covered cell of an undecided game. On the first move of a
    /// deal a mine under the cell first moves to the start index and the grid
    /// is dealt anew; then the cell alone, or the cascade from it, is uncovered.
    pub fn reveal_square(&mut self, curr_pos: &Position)
        requires
            old(self)@.wf(),
            old(self)@.in_grid(*curr_pos),
        ensures
            final(self)@.wf(),
            final(self)@ == old(self)@.revealed(*curr_pos),
    {
        proof {
            lemma_revealed_wf(self@, *curr_pos);
        }
        let k = self.cell_idx(curr_pos);
        if self.state != GameState::Ongoing || self.map[k].state != SquareState::Covered {
            return;
        }
        let ghost b = self@;
        let start = self.start_index as usize;
        if self.first_move && self.map[k].is_mine && !self.map[start].is_mine {
            proof {
                lemma_relocated(b, *curr_pos);
                assert(self.map@[start as int].is_mine == dealt_square(b.cols, b.rows, b.mines, start as int).is_mine);
                assert(self.map@[k as int].is_mine == dealt_square(b.cols, b.rows, b.mines, k as int).is_mine);
            }
            let mut j: usize = 0;
            while j < self.mines_index.len() && self.mines_index[j] != k
                invariant
                    self@ == b,
                    b.mines.contains(k),
                    0 <= j <= b.mines.len(),
                    forall|i: int| 0 <= i < j ==> b.mines[i] != k,
                decreases b.mines.len() - j,
            {
                j = j + 1;
            }
            proof {
                let w = choose|i: int| 0 <= i < b.mines.len() && b.mines[i] == k;
                assert(b.mines.index_of(k) == j);
            }
            self.mines_index.remove(j);
            self.mines_index.push(start);
            self.num_flagged = 0;
            self.populate_board();
            proof {
                assert(self@ == b.relocated(*curr_pos));
            }
        }
        let ghost b1 = self@;
        let all_reveal = self.find_reveals(curr_pos);
        let mut i: usize = 0;
        while i < all_reveal.len()
            invariant
                b1.wf(),
                self@ == (Board { cells: self.map@, ..b1 }),
                self.map.len() == b1.cells.len(),
                0 <= i <= all_reveal.len(),
                forall|q: Position| #[trigger] all_reveal@.contains(q) ==> b1.in_grid(q),
                forall|j: int|
                    0 <= j < self.map.len() ==> self.map@[j] == if all_reveal@.take(i as int).contains(
                        cell_position(b1.cols, j),
                    ) {
                        Square { state: SquareState::Revealed, ..b1.cells[j] }
                    } else {
                        b1.cells[j]
                    },
            decreases all_reveal.len() - i,
        {
            let q = all_reveal[i];
            proof {
                assert(all_reveal@.contains(q));
                assert(all_reveal@.take(i + 1) == all_reveal@.take(i as int).push(q));
                lemma_index_in_grid(b1.cols, b1.rows, q);
            }
            let m = (q.0 * self.cols + q.1) as usize;
            let shown = Square { state: SquareState::Revealed, ..self.map[m] };
            self.map.set(m, shown);
            proof {
                assert forall|j: int| 0 <= j < self.map.len() && j != m implies cell_position(b1.cols, j) != q by {
                    lemma_position_in_grid(b1.cols, b1.rows, j);
                }
            }
            i = i + 1;
        }
        proof {
            assert(all_reveal@.take(all_reveal.len() as int) == all_reveal@);
            assert forall|j: int| 0 <= j < self.map.len() implies b1.in_grid(#[trigger] cell_position(b1.cols, j)) by {
                lemma_position_in_grid(b1.cols, b1.rows, j);
            }
            assert(self.map@ =~= b.revealed(*curr_pos).cells);
        }
    }
}

} // verus!
