//! Laws of the game, stated over the board model and proved.

use vstd::prelude::*;

use crate::board::{
    cell_index, dealt_square, flagged_count, is_neighbor, lemma_classified_wf, lemma_index_in_grid,
    lemma_neighbors_finite, lemma_reaches_self, lemma_reaches_step, lemma_relocated,
    lemma_revealed_wf, lemma_timed_wf, lemma_toggled_wf, mine_neighbors, neighbors, Board,
    GameState, Position, SquareState,
};

verus! {

/// Every cell that is not a mine shows the number of its neighbors that
/// are mines.
pub proof fn lemma_adjacent_mines_counted(b: Board, p: Position)
    requires
        b.wf(),
        b.in_grid(p),
        !b.cell(p).is_mine,
    ensures
        neighbors(b.cols, b.rows, p).finite(),
        b.cell(p).adjacent_mines == neighbors(b.cols, b.rows, p).filter(
            |q: Position| b.cell(q).is_mine,
        ).len(),
{
    lemma_index_in_grid(b.cols, b.rows, p);
    lemma_neighbors_finite(b.cols, b.rows, p);
    let k = cell_index(b.cols, p);
    assert(b.cells[k].is_mine == dealt_square(b.cols, b.rows, b.mines, k).is_mine);
    let by_cells = neighbors(b.cols, b.rows, p).filter(|q: Position| b.cell(q).is_mine);
    assert forall|q: Position| #[trigger] by_cells.contains(q) == mine_neighbors(b.cols, b.rows, b.mines, p).contains(q) by {
        if neighbors(b.cols, b.rows, p).contains(q) {
            lemma_index_in_grid(b.cols, b.rows, q);
            let j = cell_index(b.cols, q);
            assert(b.cells[j].is_mine == dealt_square(b.cols, b.rows, b.mines, j).is_mine);
        }
    }
    assert(by_cells =~= mine_neighbors(b.cols, b.rows, b.mines, p));
    vstd::set_lib::lemma_len_subset(by_cells, neighbors(b.cols, b.rows, p));
}

/// Every operation keeps a board well formed: the counts stay true to the
/// mines, and until a loss the flags placed are the flagged cells, never
/// more than the mines.
pub proof fn lemma_operations_keep_invariant(b: Board, p: Position, secs: Option<u64>)
    requires
        b.wf(),
        b.in_grid(p),
    ensures
        b.toggled(p).wf(),
        b.revealed(p).wf(),
        b.classified().wf(),
        b.committed().wf(),
        b.timed(secs).wf(),
{
    lemma_toggled_wf(b, p);
    lemma_revealed_wf(b, p);
    lemma_classified_wf(b);
    lemma_timed_wf(b, secs);
    assert(b.committed().cells == b.cells);
}

/// On a board that is not lost, the flags placed are exactly the flagged
/// cells, and never more than the mines.
pub proof fn lemma_flags_placed_counted(b: Board)
    requires
        b.wf(),
        b.state != GameState::Lost,
    ensures
        b.num_flagged == flagged_count(b.cells),
        b.num_flagged <= b.num_mines,
{
}


/// The zero region of a cascade from `s`: open cells that an open path from
/// `s` reaches.
pub open spec fn in_zero_region(b: Board, s: Position, p: Position) -> bool {
    b.reaches(s, p) && b.is_open(p)
}

/// The border of the zero region: unflagged cells next to a cell of it.
pub open spec fn borders_zero_region(b: Board, s: Position, p: Position) -> bool {
    &&& b.cell(p).state != SquareState::Flagged
    &&& exists|q: Position| #[trigger] in_zero_region(b, s, q) && is_neighbor(b.cols, b.rows, q, p)
}

/// A cell reached by an open path through an earlier cell of it is reached
/// from the path's start.
proof fn lemma_reaches_prefix(b: Board, path: Seq<Position>, i: int)
    requires
        b.is_open_path(path),
        0 <= i < path.len(),
    ensures
        b.reaches(path[0], path[i]),
{
    let prefix = path.subrange(0, i + 1);
    assert forall|j: int| 0 <= j < prefix.len() implies b.in_grid(#[trigger] prefix[j]) by {
        assert(prefix[j] == path[j]);
    }
    assert forall|j: int| 0 <= j < prefix.len() - 1 implies b.is_open(#[trigger] prefix[j])
        && is_neighbor(b.cols, b.rows, prefix[j], prefix[j + 1]) by {
        assert(prefix[j] == path[j] && prefix[j + 1] == path[j + 1]);
    }
    assert(b.is_open_path(prefix) && prefix[0] == path[0] && prefix.last() == path[i]);
}

/// No neighbor of a cell with a zero count is a mine.
proof fn lemma_zero_count_no_mine_neighbor(b: Board, q: Position, p: Position)
    requires
        b.wf(),
        b.in_grid(q),
        !b.cell(q).is_mine,
        b.cell(q).adjacent_mines == 0,
        is_neighbor(b.cols, b.rows, q, p),
    ensures
        !b.cell(p).is_mine,
{
    lemma_adjacent_mines_counted(b, q);
    let around = neighbors(b.cols, b.rows, q).filter(|x: Position| b.cell(x).is_mine);
    if b.cell(p).is_mine {
        assert(around.contains(p));
        assert(around.remove(p).len() + 1 == around.len());
    }
}

/// The first reveal of a deal, on a covered cell, never uncovers a mine:
/// a mine there has moved to the start index first.
pub proof fn lemma_first_reveal_safe(b: Board, p: Position)
    requires
        b.wf(),
        b.in_grid(p),
        b.first_move,
        !b.mines.contains(b.start_index as usize),
        b.state == GameState::Ongoing,
        b.cell(p).state == SquareState::Covered,
    ensures
        !b.revealed(p).cell(p).is_mine,
        b.revealed(p).cell(p).state == SquareState::Revealed,
{
    lemma_index_in_grid(b.cols, b.rows, p);
    let b1 = if b.relocates(p) {
        lemma_relocated(b, p);
        b.relocated(p)
    } else {
        b
    };
    lemma_reaches_self(b1, p);
    assert(b1.in_reveal_set(p, p));
}

/// Toggling a covered cell twice gives back the same board.
pub proof fn lemma_toggle_twice(b: Board, p: Position)
    requires
        b.wf(),
        b.in_grid(p),
        b.cell(p).state == SquareState::Covered,
    ensures
        b.toggled(p).toggled(p) == b,
{
    lemma_index_in_grid(b.cols, b.rows, p);
    let k = cell_index(b.cols, p);
    let once = b.toggled(p);
    let twice = once.toggled(p);
    if b.state == GameState::Ongoing && b.num_flagged < b.num_mines {
        assert(once.cells[k].state == SquareState::Flagged);
        assert(twice.cells =~= b.cells);
    }
}

/// Revealing a covered cell with no mine around it uncovers exactly its zero
/// region and that region's unflagged border, never a mine or a flagged
/// cell, and leaves every other cell as it was.
pub proof fn lemma_cascade_reveals_region(b: Board, s: Position)
    requires
        b.wf(),
        b.in_grid(s),
        b.state == GameState::Ongoing,
        b.cell(s).state == SquareState::Covered,
        !b.cell(s).is_mine,
        b.cell(s).adjacent_mines == 0,
    ensures
        forall|p: Position|
            b.in_grid(p) ==> (#[trigger] b.revealed(s).cell(p)).state == if in_zero_region(b, s, p)
                || borders_zero_region(b, s, p) {
                SquareState::Revealed
            } else {
                b.cell(p).state
            },
        forall|p: Position|
            b.in_grid(p) && (in_zero_region(b, s, p) || borders_zero_region(b, s, p))
                ==> !b.cell(p).is_mine && b.cell(p).state != SquareState::Flagged,
{
    assert forall|p: Position| b.in_grid(p) implies b.in_reveal_set(s, p) == (in_zero_region(b, s, p)
        || borders_zero_region(b, s, p)) by {
        if b.in_reveal_set(s, p) && !b.is_open(p) {
            let path = choose|path: Seq<Position>|
                #[trigger] b.is_open_path(path) && path[0] == s && path.last() == p;
            assert(path.len() >= 2);
            let m = path.len() - 2;
            lemma_reaches_prefix(b, path, m);
            assert(in_zero_region(b, s, path[m]) && is_neighbor(b.cols, b.rows, path[m], path[m + 1]));
        }
        if borders_zero_region(b, s, p) {
            let q = choose|q: Position| #[trigger] in_zero_region(b, s, q) && is_neighbor(b.cols, b.rows, q, p);
            lemma_reaches_step(b, s, q, p);
            lemma_zero_count_no_mine_neighbor(b, q, p);
        }
    }
    assert forall|p: Position| b.in_grid(p) implies (#[trigger] b.revealed(s).cell(p)).state == if in_zero_region(b, s, p)
        || borders_zero_region(b, s, p) {
        SquareState::Revealed
    } else {
        b.cell(p).state
    } by {
        lemma_index_in_grid(b.cols, b.rows, p);
    }
}

/// Revealing a covered mine that does not move away, then classifying,
/// loses the game and shows every cell.
pub proof fn lemma_mine_reveal_loses(b: Board, p: Position)
    requires
        b.wf(),
        b.in_grid(p),
        b.state == GameState::Ongoing,
        b.cell(p).state == SquareState::Covered,
        b.cell(p).is_mine,
        !b.relocates(p),
    ensures
        b.revealed(p).classified().state == GameState::Lost,
        forall|k: int|
            0 <= k < b.size() ==> (#[trigger] b.revealed(p).classified().cells[k]).state
                == SquareState::Revealed,
{
    lemma_index_in_grid(b.cols, b.rows, p);
    let k = cell_index(b.cols, p);
    let r = b.revealed(p);
    assert(r.cells[k].is_mine && r.cells[k].state == SquareState::Revealed);
    assert(!r.is_won());
    assert(r.is_lost());
}

/// A fresh deal shows every cell covered, no flags, an undecided game and a
/// clock at zero, whatever the system clock says.
pub proof fn lemma_fresh_deal_is_clear(b: Board, secs: Option<u64>)
    requires
        b.wf(),
        b.is_fresh_deal(),
    ensures
        forall|k: int| 0 <= k < b.size() ==> (#[trigger] b.cells[k]).state == SquareState::Covered,
        b.num_flagged == 0,
        b.state == GameState::Ongoing,
        b.time_shown(secs) == 0,
{
}

} // verus!
