use std::collections::HashSet;

use minesweep::{GameState, MineSweeper, Position, SquareState};

fn neighbor_set(pos: Position, cols: u32, rows: u32) -> HashSet<Position> {
    let list = MineSweeper::get_neighbor_coords(&pos, cols, rows);
    let set: HashSet<Position> = list.iter().copied().collect();
    assert_eq!(set.len(), list.len());
    set
}

fn set_of(items: &[Position]) -> HashSet<Position> {
    items.iter().copied().collect()
}

#[test]
fn test_check_game_won() {
    let mut game = MineSweeper::new(9, 9, 10).unwrap();

    assert!(!game.check_game_won());

    for index in game.mines_index().clone() {
        assert!(!game.check_game_won());
        let i = index as u32 / game.rows();
        let j = index as u32 % game.cols();
        game.toggle_flag_square(&Position(i, j));
    }

    assert!(game.check_game_won());
}

#[test]
fn test_check_game_lost() {
    let game = MineSweeper::new(9, 9, 10).unwrap();

    assert!(!game.check_game_lost());
}

#[test]
fn test_update_game_state() {
    let mut game = MineSweeper::new(9, 9, 10).unwrap();
    game.update_game_state();

    assert_eq!(game.state(), GameState::Ongoing);

    for index in game.mines_index().clone() {
        assert!(!game.check_game_won());
        let i = index as u32 / game.rows();
        let j = index as u32 % game.cols();
        game.toggle_flag_square(&Position(i, j));
    }

    game.update_game_state();

    assert_eq!(game.state(), GameState::Won);

    game.reset();

    assert_eq!(game.state(), GameState::Ongoing);

    let mine_index = game.mines_index()[0];
    let rows = game.rows();
    let cols = game.cols();
    game.reveal_square(&Position(mine_index as u32 / rows, mine_index as u32 % cols));

    // the first reveal moved the mine to the start index, which is revealed next
    let start_index = game.start_index();
    game.reveal_square(&Position(start_index / rows, start_index % cols));

    game.update_game_state();

    assert_eq!(game.state(), GameState::Lost);
}

#[test]
fn test_first_move() {
    let mut game = MineSweeper::new(9, 9, 10).unwrap();
    let mine_index = game.mines_index()[0];
    let rows = game.rows();
    let cols = game.cols();

    let start_pos = Position(mine_index as u32 / rows, mine_index as u32 % cols);
    game.reveal_square(&start_pos);

    assert_eq!(game.state(), GameState::Ongoing);

    assert!(!game.get_square(start_pos.0, start_pos.1).is_mine);

    let start_index = game.start_index();
    assert!(game.get_square(start_index / rows, start_index % cols).is_mine);
}

#[test]
fn test_get_neighbors() {
    let game = MineSweeper::new(9, 5, 10).unwrap();
    let (cols, rows) = (game.cols(), game.rows());

    assert_eq!(
        set_of(&[Position(1, 0), Position(0, 1), Position(1, 1)]),
        neighbor_set(Position(0, 0), cols, rows)
    );
    assert_eq!(
        set_of(&[Position(2, 1), Position(1, 1), Position(1, 0), Position(3, 0), Position(3, 1)]),
        neighbor_set(Position(2, 0), cols, rows)
    );
    assert_eq!(
        set_of(&[Position(4, 1), Position(3, 1), Position(3, 0)]),
        neighbor_set(Position(4, 0), cols, rows)
    );
    assert_eq!(
        set_of(&[Position(4, 4), Position(4, 6), Position(3, 4), Position(3, 5), Position(3, 6)]),
        neighbor_set(Position(4, 5), cols, rows)
    );
    assert_eq!(
        set_of(&[Position(4, 7), Position(3, 7), Position(3, 8)]),
        neighbor_set(Position(4, 8), cols, rows)
    );
    assert_eq!(
        set_of(&[Position(2, 7), Position(3, 7), Position(1, 7), Position(1, 8), Position(3, 8)]),
        neighbor_set(Position(2, 8), cols, rows)
    );
    assert_eq!(
        set_of(&[Position(0, 7), Position(1, 7), Position(1, 8)]),
        neighbor_set(Position(0, 8), cols, rows)
    );
    assert_eq!(
        set_of(&[Position(0, 4), Position(0, 6), Position(1, 4), Position(1, 5), Position(1, 6)]),
        neighbor_set(Position(0, 5), cols, rows)
    );
    assert_eq!(
        set_of(&[
            Position(2, 3),
            Position(2, 5),
            Position(1, 3),
            Position(1, 4),
            Position(1, 5),
            Position(3, 3),
            Position(3, 4),
            Position(3, 5)
        ]),
        neighbor_set(Position(2, 4), cols, rows)
    );
}

#[test]
fn test_adjacent_mines_num() {
    let mut game = MineSweeper::from_layout(3, 4, vec![0, 4, 8], 1).unwrap();

    assert_eq!(game.get_square(0, 1).adjacent_mines, 2);
    assert_eq!(game.get_square(0, 2).adjacent_mines, 1);
    assert_eq!(game.get_square(1, 0).adjacent_mines, 2);
    assert_eq!(game.get_square(1, 2).adjacent_mines, 2);
    assert_eq!(game.get_square(2, 0).adjacent_mines, 1);
    assert_eq!(game.get_square(2, 1).adjacent_mines, 2);

    // checking integrity after first move mine move
    game.reveal_square(&Position(0, 0));

    assert_eq!(game.get_square(0, 0).adjacent_mines, 2);
    assert_eq!(game.get_square(0, 2).adjacent_mines, 2);
    assert_eq!(game.get_square(1, 0).adjacent_mines, 2);
    assert_eq!(game.get_square(1, 2).adjacent_mines, 3);
    assert_eq!(game.get_square(2, 0).adjacent_mines, 1);
    assert_eq!(game.get_square(2, 1).adjacent_mines, 2);
}

#[test]
fn test_toggle_flag() {
    let mut game = MineSweeper::new(9, 9, 10).unwrap();

    assert_eq!(game.num_flagged(), 0);
    assert_eq!(game.get_square(3, 4).state, SquareState::Covered);
    assert_eq!(game.get_square(6, 7).state, SquareState::Covered);
    game.toggle_flag_square(&Position(3, 4));
    game.toggle_flag_square(&Position(6, 7));
    assert_eq!(game.get_square(3, 4).state, SquareState::Flagged);
    assert_eq!(game.get_square(6, 7).state, SquareState::Flagged);
    assert_eq!(game.num_flagged(), 2);
    game.toggle_flag_square(&Position(6, 7));
    assert_eq!(game.get_square(6, 7).state, SquareState::Covered);
    assert_eq!(game.num_flagged(), 1);
}

#[test]
fn test_toggle_flag_max() {
    let mut game = MineSweeper::new(9, 9, 5).unwrap();
    assert_eq!(game.num_flagged(), 0);

    for i in 0..5 {
        game.toggle_flag_square(&Position(i, 4));
    }

    assert_eq!(game.num_flagged(), 5);

    game.toggle_flag_square(&Position(0, 3));

    assert_eq!(game.num_flagged(), 5);
}

#[test]
fn test_reveal_square() {
    let mut game = MineSweeper::from_layout(3, 3, vec![0, 1, 5], 2).unwrap();

    game.reveal_square(&Position(2, 0));

    assert_eq!(game.get_square(1, 0).state, SquareState::Revealed);
    assert_eq!(game.get_square(1, 1).state, SquareState::Revealed);
    assert_eq!(game.get_square(2, 0).state, SquareState::Revealed);
    assert_eq!(game.get_square(2, 1).state, SquareState::Revealed);

    assert_eq!(game.get_square(2, 2).state, SquareState::Covered);
    assert_eq!(game.get_square(0, 1).state, SquareState::Covered);
    assert_eq!(game.get_square(0, 0).state, SquareState::Covered);
    assert_eq!(game.get_square(0, 2).state, SquareState::Covered);
    assert_eq!(game.get_square(1, 2).state, SquareState::Covered);
}

#[test]
fn test_reset() {
    let mut game = MineSweeper::new(9, 9, 10).unwrap();

    game.toggle_flag_square(&Position(5, 5));

    game.reset();

    assert_eq!(game.get_square(5, 5).state, SquareState::Covered);
}
