//! Decisions of the player's controls: which board a key asks for, and what
//! a mouse click does to the game.

use vstd::prelude::*;

use crate::board::{preset_dims, valid_dims, Board, Difficulty, GameError, GameState, Position};
use crate::engine::MineSweeper;

verus! {

/// A mouse button, as the game reads it.
#[derive(PartialEq, Eq, Structural, Debug, Clone, Copy)]
pub enum Click {
    /// Reveals the cell under the pointer.
    Left,
    /// Toggles the flag on the cell under the pointer.
    Right,
    /// Any other button.
    Other,
}

/// What a key asks of the game.
#[derive(PartialEq, Eq, Structural, Debug, Clone, Copy)]
pub enum KeyCommand {
    /// Deal the same board anew.
    Restart,
    /// Switch to this difficulty.
    Select(Difficulty),
    /// Step to the next harder difficulty, from custom back to beginner.
    Harder,
    /// Step to the next easier difficulty, from beginner round to custom.
    Easier,
}

/// The difficulty after `d` in the order beginner, intermediate, expert, custom, beginner.
pub open spec fn harder(d: Difficulty) -> Difficulty {
    match d {
        Difficulty::Beginner => Difficulty::Intermediate,
        Difficulty::Intermediate => Difficulty::Expert,
        Difficulty::Expert => Difficulty::Custom,
        Difficulty::Custom => Difficulty::Beginner,
    }
}

/// The difficulty before `d` in that order.
pub open spec fn easier(d: Difficulty) -> Difficulty {
    match d {
        Difficulty::Beginner => Difficulty::Custom,
        Difficulty::Intermediate => Difficulty::Beginner,
        Difficulty::Expert => Difficulty::Intermediate,
        Difficulty::Custom => Difficulty::Expert,
    }
}

/// The difficulty that `command` switches to from `current`; `None` where
/// it asks for the same board dealt anew.
pub fn difficulty_after(current: Difficulty, command: KeyCommand) -> (r: Option<Difficulty>)
    ensures
        command == KeyCommand::Restart ==> r is None,
        command matches KeyCommand::Select(d) ==> r == Some(d),
        command == KeyCommand::Harder ==> r == Some(harder(current)) && easier(r->0) == current,
        command == KeyCommand::Easier ==> r == Some(easier(current)) && harder(r->0) == current,
{
    match command {
        KeyCommand::Restart => None,
        KeyCommand::Select(d) => Some(d),
        KeyCommand::Harder => Some(
            match current {
                Difficulty::Beginner => Difficulty::Intermediate,
                Difficulty::Intermediate => Difficulty::Expert,
                Difficulty::Expert => Difficulty::Custom,
                Difficulty::Custom => Difficulty::Beginner,
            },
        ),
        KeyCommand::Easier => Some(
            match current {
                Difficulty::Beginner => Difficulty::Custom,
                Difficulty::Intermediate => Difficulty::Beginner,
                Difficulty::Expert => Difficulty::Intermediate,
                Difficulty::Custom => Difficulty::Expert,
            },
        ),
    }
}

/// The move that a click makes on an undecided game: a left click reveals
/// the cell and commits the first move, a right click toggles its flag.
pub open spec fn click_effect(b: Board, button: Click, target: Option<Position>) -> Board {
    if b.state == GameState::Ongoing && target is Some && b.in_grid(target->0) {
        match button {
            Click::Left => b.revealed(target->0).committed(),
            Click::Right => b.toggled(target->0),
            Click::Other => b,
        }
    } else {
        b
    }
}

impl MineSweeper {
    /// A new game for `difficulty`: a preset size, or `cols` by `rows` with
    /// `num_mines` mines for a custom one.
    pub fn for_difficulty(difficulty: Difficulty, cols: u32, rows: u32, num_mines: u32) -> (r:
        Result<MineSweeper, GameError>)
        ensures
            difficulty != Difficulty::Custom ==> (r matches Ok(g) && g@.wf() && g@.is_fresh_deal()
                && (g@.cols, g@.rows, g@.num_mines) == preset_dims(difficulty)),
            difficulty == Difficulty::Custom ==> {
                &&& r is Err <==> !valid_dims(cols as nat, rows as nat, num_mines as nat)
                &&& r matches Err(e) ==> e == GameError::InvalidConfiguration
                &&& r matches Ok(g) ==> g@.wf() && g@.is_fresh_deal() && g@.cols == cols
                    && g@.rows == rows && g@.num_mines == num_mines
            },
    {
        match difficulty {
            Difficulty::Custom => MineSweeper::new(cols, rows, num_mines),
            _ => Ok(MineSweeper::new_from_preset(&difficulty)),
        }
    }

    /// Handles a released mouse button: on an undecided game a left click on
    /// `target` reveals it and commits the first move, a right click toggles
    /// its flag; a click on the face deals the board anew; then the board is
    /// classified.
    pub fn apply_click(&mut self, button: Click, target: Option<Position>, on_face: bool)
        requires
            old(self)@.wf(),
        ensures
            final(self)@.wf(),
            !on_face ==> final(self)@ == click_effect(old(self)@, button, target).classified(),
            on_face ==> exists|d: Board|
                {
                    &&& d.wf()
                    &&& d.is_fresh_deal()
                    &&& d.cols == old(self)@.cols && d.rows == old(self)@.rows
                    &&& d.num_mines == old(self)@.num_mines
                    &&& final(self)@ == d.classified()
                },
    {
        if self.state() == GameState::Ongoing {
            if let Some(t) = target {
                if t.0 < self.rows() && t.1 < self.cols() {
                    match button {
                        Click::Left => {
                            self.reveal_square(&t);
                            self.first_moved();
                        },
                        Click::Right => {
                            self.toggle_flag_square(&t);
                        },
                        Click::Other => {},
                    }
                }
            }
        }
        if on_face {
            self.reset();
        }
        self.update_game_state();
    }
}

} // verus!
