use std::collections::HashSet;

use minesweep::{Difficulty, GameError, GameState, MineSweeper, Position, SquareState};

fn all_positions(game: &MineSweeper) -> Vec<Position> {
    let mut out = Vec::new();
    for r in 0..game.rows() {
        for c in 0..game.cols() {
            out.push(Position(r, c));
        }
    }
    out
}

fn count_mines_around(game: &MineSweeper, p: Position) -> u32 {
    MineSweeper::get_neighbor_coords(&p, game.cols(), game.rows())
        .iter()
        .filter(|q| game.get_square(q.0, q.1).is_mine)
        .count() as u32
}

#[test]
fn three_by_three_all_mines_flagged_wins() {
    let mut game = MineSweeper::from_layout(3, 3, vec![0, 1, 5], 2).unwrap();
    game.toggle_flag_square(&Position(0, 0));
    game.toggle_flag_square(&Position(0, 1));
    game.toggle_flag_square(&Position(1, 2));
    game.update_game_state();
    assert_eq!(game.state(), GameState::Won);
    // a won board shows every cell that was still covered
    for p in all_positions(&game) {
        let expected = if game.get_square(p.0, p.1).is_mine {
            SquareState::Flagged
        } else {
            SquareState::Revealed
        };
        assert_eq!(game.get_square(p.0, p.1).state, expected);
    }
}

#[test]
fn three_by_three_two_of_three_flags_is_ongoing() {
    let mut game = MineSweeper::from_layout(3, 3, vec![0, 1, 5], 2).unwrap();
    game.toggle_flag_square(&Position(0, 0));
    game.toggle_flag_square(&Position(1, 2));
    game.update_game_state();
    assert_eq!(game.state(), GameState::Ongoing);
    assert_eq!(game.get_flags_left(), 1);
}

#[test]
fn wrong_flag_does_not_win() {
    let mut game = MineSweeper::from_layout(3, 3, vec![0, 1, 5], 2).unwrap();
    game.toggle_flag_square(&Position(0, 0));
    game.toggle_flag_square(&Position(0, 1));
    game.toggle_flag_square(&Position(2, 2));
    game.update_game_state();
    assert_eq!(game.state(), GameState::Ongoing);
    assert!(!game.check_game_won());
}

#[test]
fn revealing_a_mine_after_the_first_move_loses() {
    let mut game = MineSweeper::from_layout(3, 3, vec![0, 1, 5], 2).unwrap();
    game.reveal_square(&Position(2, 0));
    game.first_moved();
    game.update_game_state();
    assert_eq!(game.state(), GameState::Ongoing);
    game.reveal_square(&Position(1, 2));
    assert!(game.check_game_lost());
    game.update_game_state();
    assert_eq!(game.state(), GameState::Lost);
    for p in all_positions(&game) {
        assert_eq!(game.get_square(p.0, p.1).state, SquareState::Revealed);
    }
}

#[test]
fn decided_game_ignores_moves() {
    let mut game = MineSweeper::from_layout(3, 3, vec![0, 1, 5], 2).unwrap();
    game.first_moved();
    game.reveal_square(&Position(0, 0));
    game.update_game_state();
    assert_eq!(game.state(), GameState::Lost);
    game.toggle_flag_square(&Position(2, 2));
    assert_eq!(game.get_square(2, 2).state, SquareState::Revealed);
    assert_eq!(game.num_flagged(), 0);
}

#[test]
fn first_reveal_on_a_mine_moves_it_to_the_start_index() {
    let mut game = MineSweeper::from_layout(3, 3, vec![0, 1, 5], 2).unwrap();
    game.reveal_square(&Position(0, 0));
    assert!(!game.get_square(0, 0).is_mine);
    assert_eq!(game.get_square(0, 0).state, SquareState::Revealed);
    assert!(game.get_square(0, 2).is_mine);
    assert_eq!(game.mines_index().clone(), vec![1, 5, 2]);
    assert_eq!(game.get_square(0, 0).adjacent_mines, 1);
    game.update_game_state();
    assert_eq!(game.state(), GameState::Ongoing);
}

#[test]
fn first_reveal_is_safe_on_every_cell() {
    for target in 0..9u32 {
        let mut game = MineSweeper::from_layout(3, 3, vec![0, 4, 7], 8).unwrap();
        let p = Position(target / 3, target % 3);
        game.reveal_square(&p);
        assert!(!game.get_square(p.0, p.1).is_mine);
        assert_eq!(game.get_square(p.0, p.1).state, SquareState::Revealed);
        game.update_game_state();
        assert_eq!(game.state(), GameState::Ongoing);
    }
}

#[test]
fn toggling_twice_restores_the_cell() {
    let mut game = MineSweeper::new(5, 5, 4).unwrap();
    game.toggle_flag_square(&Position(1, 1));
    let before = game.num_flagged();
    game.toggle_flag_square(&Position(3, 3));
    game.toggle_flag_square(&Position(3, 3));
    assert_eq!(game.get_square(3, 3).state, SquareState::Covered);
    assert_eq!(game.num_flagged(), before);
}

#[test]
fn flagging_a_revealed_cell_does_nothing() {
    let mut game = MineSweeper::from_layout(3, 3, vec![0, 1, 5], 2).unwrap();
    game.reveal_square(&Position(2, 0));
    game.toggle_flag_square(&Position(2, 0));
    assert_eq!(game.get_square(2, 0).state, SquareState::Revealed);
    assert_eq!(game.num_flagged(), 0);
}

#[test]
fn revealing_a_flagged_cell_does_nothing() {
    let mut game = MineSweeper::from_layout(3, 3, vec![0, 1, 5], 2).unwrap();
    game.toggle_flag_square(&Position(2, 0));
    game.reveal_square(&Position(2, 0));
    assert_eq!(game.get_square(2, 0).state, SquareState::Flagged);
    assert_eq!(game.get_square(2, 1).state, SquareState::Covered);
}

#[test]
fn cascade_stops_at_flags_and_numbers() {
    // one mine in the corner (2, 2); a flag on (0, 0)
    let mut game = MineSweeper::from_layout(3, 3, vec![8], 0).unwrap();
    game.toggle_flag_square(&Position(0, 0));
    game.reveal_square(&Position(0, 2));
    for p in all_positions(&game) {
        let expected = match (p.0, p.1) {
            (0, 0) => SquareState::Flagged,
            (2, 2) => SquareState::Covered,
            _ => SquareState::Revealed,
        };
        assert_eq!(game.get_square(p.0, p.1).state, expected);
    }
    assert_eq!(game.num_flagged(), 1);
}

#[test]
fn numbered_cell_reveals_alone() {
    let mut game = MineSweeper::from_layout(3, 3, vec![8], 0).unwrap();
    game.reveal_square(&Position(1, 1));
    let shown: Vec<Position> = all_positions(&game)
        .into_iter()
        .filter(|p| game.get_square(p.0, p.1).state == SquareState::Revealed)
        .collect();
    assert_eq!(shown, vec![Position(1, 1)]);
    assert_eq!(game.get_square(1, 1).adjacent_mines, 1);
}

#[test]
fn cascade_on_a_wider_board() {
    // 5 columns, 3 rows; mines at (0, 4) and (2, 4)
    let mut game = MineSweeper::from_layout(5, 3, vec![4, 14], 7).unwrap();
    game.reveal_square(&Position(1, 0));
    for p in all_positions(&game) {
        let revealed = game.get_square(p.0, p.1).state == SquareState::Revealed;
        assert_eq!(revealed, p.1 <= 3, "{:?}", p);
    }
    assert_eq!(game.get_square(1, 3).adjacent_mines, 2);
    assert_eq!(game.get_square(1, 4).adjacent_mines, 2);
}

#[test]
fn reset_clears_the_board() {
    let mut game = MineSweeper::from_layout(4, 4, vec![0, 5, 10], 15).unwrap();
    game.toggle_flag_square(&Position(0, 0));
    game.reveal_square(&Position(3, 0));
    game.first_moved();
    game.update_game_state();
    game.reset();
    assert_eq!(game.state(), GameState::Ongoing);
    assert_eq!(game.num_flagged(), 0);
    assert_eq!(game.get_flags_left(), 3);
    assert!(game.is_first_move());
    assert_eq!(game.game_time(), 0);
    assert_eq!(game.game_time_at(Some(30)), 0);
    for p in all_positions(&game) {
        assert_eq!(game.get_square(p.0, p.1).state, SquareState::Covered);
    }
    assert_eq!((game.cols(), game.rows(), game.num_mines()), (4, 4, 3));
}

#[test]
fn adjacent_counts_match_the_mines_on_a_random_board() {
    let game = MineSweeper::new(12, 7, 20).unwrap();
    for p in all_positions(&game) {
        let square = game.get_square(p.0, p.1);
        if square.is_mine {
            assert_eq!(square.adjacent_mines, 0);
        } else {
            assert_eq!(square.adjacent_mines, count_mines_around(&game, p));
        }
    }
}

#[test]
fn new_deals_distinct_mines_and_a_free_start() {
    let game = MineSweeper::new(9, 9, 10).unwrap();
    let mines = game.mines_index().clone();
    assert_eq!(mines.len(), 10);
    let distinct: HashSet<usize> = mines.iter().copied().collect();
    assert_eq!(distinct.len(), 10);
    assert!(mines.iter().all(|m| *m < 81));
    assert!(game.start_index() < 81);
    assert!(!distinct.contains(&(game.start_index() as usize)));
    let on_grid = all_positions(&game)
        .into_iter()
        .filter(|p| game.get_square(p.0, p.1).is_mine)
        .count();
    assert_eq!(on_grid, 10);
}

#[test]
fn largest_mine_count_leaves_one_cell() {
    let game = MineSweeper::new(3, 3, 8).unwrap();
    assert_eq!(game.mines_index().len(), 8);
    let start = game.start_index();
    assert!(!game.get_square(start / 3, start % 3).is_mine);
}

#[test]
fn zero_mines_is_won_at_once() {
    let mut game = MineSweeper::new(2, 2, 0).unwrap();
    game.update_game_state();
    assert_eq!(game.state(), GameState::Won);
}

#[test]
fn invalid_configurations_are_rejected() {
    assert_eq!(MineSweeper::new(0, 5, 1).err(), Some(GameError::InvalidConfiguration));
    assert_eq!(MineSweeper::new(5, 0, 1).err(), Some(GameError::InvalidConfiguration));
    assert_eq!(MineSweeper::new(3, 3, 9).err(), Some(GameError::InvalidConfiguration));
    assert_eq!(MineSweeper::new(3, 3, 100).err(), Some(GameError::InvalidConfiguration));
    assert_eq!(
        MineSweeper::new(70000, 70000, 1).err(),
        Some(GameError::InvalidConfiguration)
    );
    assert!(MineSweeper::new(1, 2, 1).is_ok());
}

#[test]
fn invalid_layouts_are_rejected() {
    let err = Some(GameError::InvalidConfiguration);
    assert_eq!(MineSweeper::from_layout(3, 3, vec![0, 0], 2).err(), err);
    assert_eq!(MineSweeper::from_layout(3, 3, vec![0, 9], 2).err(), err);
    assert_eq!(MineSweeper::from_layout(3, 3, vec![0, 1], 1).err(), err);
    assert_eq!(MineSweeper::from_layout(3, 3, vec![0, 1], 9).err(), err);
    assert_eq!(MineSweeper::from_layout(3, 3, vec![0, 1, 2, 3, 4, 5, 6, 7, 8], 2).err(), err);
    assert_eq!(MineSweeper::from_layout(0, 3, vec![], 0).err(), err);
    assert!(MineSweeper::from_layout(3, 3, vec![0, 1], 2).is_ok());
}

#[test]
fn presets_have_their_sizes() {
    let beginner = MineSweeper::new_from_preset(&Difficulty::Beginner);
    assert_eq!((beginner.cols(), beginner.rows(), beginner.num_mines()), (8, 8, 10));
    let intermediate = MineSweeper::new_from_preset(&Difficulty::Intermediate);
    assert_eq!(
        (intermediate.cols(), intermediate.rows(), intermediate.num_mines()),
        (16, 16, 40)
    );
    let expert = MineSweeper::new_from_preset(&Difficulty::Expert);
    assert_eq!((expert.cols(), expert.rows(), expert.num_mines()), (24, 24, 99));
    assert_eq!(expert.mines_index().len(), 99);
}

#[test]
fn flags_left_counts_down() {
    let mut game = MineSweeper::new(9, 9, 10).unwrap();
    assert_eq!(game.get_flags_left(), 10);
    game.toggle_flag_square(&Position(0, 0));
    game.toggle_flag_square(&Position(8, 8));
    assert_eq!(game.get_flags_left(), 8);
}

#[test]
fn clock_is_zero_before_the_first_move() {
    let mut game = MineSweeper::new(9, 9, 10).unwrap();
    assert_eq!(game.game_time_at(Some(500)), 0);
    assert_eq!(game.game_time(), 0);
}

#[test]
fn clock_is_capped_and_freezes_when_decided() {
    let mut game = MineSweeper::from_layout(3, 3, vec![0, 1, 5], 2).unwrap();
    game.reveal_square(&Position(2, 0));
    game.first_moved();
    assert_eq!(game.game_time_at(Some(42)), 42);
    assert_eq!(game.game_time_at(Some(123456)), 9999);
    assert_eq!(game.game_time_at(None), 9999);
    assert_eq!(game.game_time_at(Some(77)), 77);
    game.toggle_flag_square(&Position(0, 0));
    game.toggle_flag_square(&Position(0, 1));
    game.toggle_flag_square(&Position(1, 2));
    game.update_game_state();
    assert_eq!(game.state(), GameState::Won);
    assert_eq!(game.game_time_at(Some(500)), 77);
    assert_eq!(game.game_time(), 77);
}

#[test]
fn system_clock_reads_small_right_after_the_first_move() {
    let mut game = MineSweeper::new(9, 9, 10).unwrap();
    game.first_moved();
    assert!(!game.is_first_move());
    assert!(game.game_time() < 60);
}
