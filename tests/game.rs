use connect_k::board::Board;
use connect_k::cell::{Cell, Direction};
use connect_k::game::{take_turn, Game, TurnError};

fn play(game: &mut Game, columns: &[usize]) -> Vec<Result<bool, TurnError>> {
    columns.iter().map(|&x| take_turn(game, x)).collect()
}

#[test]
fn vertical_win_connect_four() {
    let mut game = Game::new(2, 4, 7, 6);
    let results = play(&mut game, &[3, 0, 3, 0, 3, 0, 3]);
    assert_eq!(results[..6], [Ok(false); 6]);
    assert_eq!(results[6], Ok(true));
    for y in 0..4 {
        assert_eq!(game.board.get_cell(3, y), Some(&Cell { occupant: 1 }));
    }
    assert_eq!(game.last_mover(), 1);
    assert_eq!(game.active_player, 1);
}

#[test]
fn horizontal_win_on_bottom_row() {
    let mut game = Game::new(2, 4, 7, 6);
    let results = play(&mut game, &[0, 0, 1, 1, 2, 2, 3]);
    assert_eq!(results[..6], [Ok(false); 6]);
    assert_eq!(results[6], Ok(true));
    for x in 0..4 {
        assert_eq!(game.board.get_cell(x, 0), Some(&Cell { occupant: 1 }));
    }
    assert_eq!(game.last_mover(), 1);
}

#[test]
fn pieces_fill_a_column_bottom_up() {
    let mut game = Game::new(2, 4, 7, 6);
    for expected in 0..6 {
        assert_eq!(game.place_piece(2), Ok(expected));
    }
    assert_eq!(game.place_piece(2), Err(TurnError::ColumnFull));
}

#[test]
fn full_column_is_rejected_without_change() {
    let mut game = Game::new(2, 10, 3, 4);
    for _ in 0..4 {
        assert_eq!(take_turn(&mut game, 1), Ok(false));
    }
    let cells = game.board.cells.clone();
    let active = game.active_player;
    assert_eq!(take_turn(&mut game, 1), Err(TurnError::ColumnFull));
    assert_eq!(game.board.cells, cells);
    assert_eq!(game.active_player, active);
}

#[test]
fn invalid_column_fails_the_same_way_twice() {
    let mut game = Game::new(2, 4, 7, 6);
    assert_eq!(take_turn(&mut game, 0), Ok(false));
    let cells = game.board.cells.clone();
    assert_eq!(take_turn(&mut game, 7), Err(TurnError::InvalidColumn));
    assert_eq!(take_turn(&mut game, 7), Err(TurnError::InvalidColumn));
    assert_eq!(game.board.cells, cells);
    assert_eq!(game.active_player, 1);
}

#[test]
fn turns_rotate_round_robin() {
    let mut game = Game::new(3, 100, 9, 9);
    for n in 1..=30usize {
        assert_eq!(take_turn(&mut game, n % 9), Ok(false));
        assert_eq!(game.active_player as usize, n % 3);
    }
}

#[test]
fn short_horizontal_line_does_not_win() {
    let mut game = Game::new(2, 4, 7, 6);
    let results = play(&mut game, &[1, 1, 2, 2, 3]);
    assert!(results.iter().all(|r| *r == Ok(false)));
    // the fourth piece completes the row
    assert_eq!(take_turn(&mut game, 6), Ok(false));
    assert_eq!(take_turn(&mut game, 4), Ok(true));
}

#[test]
fn rising_diagonal_wins_alone() {
    let mut game = Game::new(2, 4, 7, 6);
    // player 1 ends on (0,0), (1,1), (2,2), (3,3); player 2 fills below
    let results = play(&mut game, &[0, 1, 1, 2, 2, 3, 2, 3, 3, 6, 3]);
    assert!(results[..10].iter().all(|r| *r == Ok(false)));
    assert_eq!(results[10], Ok(true));
    assert_eq!(game.last_mover(), 1);
}

#[test]
fn falling_diagonal_wins_alone() {
    let mut game = Game::new(2, 4, 7, 6);
    // player 1 ends on (3,0), (2,1), (1,2), (0,3)
    let results = play(&mut game, &[3, 2, 2, 1, 1, 0, 1, 0, 0, 6, 0]);
    assert!(results[..10].iter().all(|r| *r == Ok(false)));
    assert_eq!(results[10], Ok(true));
}

#[test]
fn three_players_and_longer_lines() {
    let mut game = Game::new(3, 5, 8, 6);
    // player 3 builds a row 0..5 on the bottom row
    let results = play(&mut game, &[6, 7, 0, 6, 7, 1, 6, 7, 2, 6, 7, 3, 5, 5]);
    assert!(results.iter().all(|r| *r == Ok(false)));
    assert_eq!(take_turn(&mut game, 4), Ok(true));
    assert_eq!(game.last_mover(), 3);
    assert_eq!(game.active_player, 0);
}

#[test]
fn connect_one_wins_at_once() {
    let mut game = Game::new(2, 1, 3, 3);
    assert_eq!(take_turn(&mut game, 1), Ok(true));
}

#[test]
fn cells_and_bounds() {
    let mut cell = Cell::new();
    assert!(cell.is_empty());
    cell.occupy(2);
    assert_eq!(cell.occupant, 3);
    assert!(!cell.is_empty());

    let mut board = Board::new(4, 3);
    assert_eq!(board.cells.len(), 12);
    assert_eq!(board.get_cell(3, 2), Some(&Cell { occupant: 0 }));
    assert_eq!(board.get_cell(4, 0), None);
    assert_eq!(board.get_cell(0, 3), None);
    board.occupy_cell(1, 2, 0);
    assert_eq!(board.cells[2 * 4 + 1], Cell { occupant: 1 });
}

#[test]
fn line_length_counts_equal_neighbours() {
    let mut board = Board::new(5, 5);
    board.occupy_cell(0, 0, 0);
    board.occupy_cell(1, 0, 0);
    board.occupy_cell(2, 0, 1);
    board.occupy_cell(1, 1, 0);
    board.occupy_cell(2, 2, 0);
    assert_eq!(board.get_line_length(0, 0, Direction::Right), 1);
    assert_eq!(board.get_line_length(1, 0, Direction::Left), 1);
    assert_eq!(board.get_line_length(2, 0, Direction::Left), 0);
    assert_eq!(board.get_line_length(2, 0, Direction::Right), 0);
    assert_eq!(board.get_line_length(0, 0, Direction::Top), 0);
    assert_eq!(board.get_line_length(0, 0, Direction::Left), 0);
    assert_eq!(board.get_line_length(0, 0, Direction::TopRight), 2);
    assert_eq!(board.get_line_length(2, 2, Direction::DownLeft), 2);
    assert_eq!(board.get_line_length(1, 1, Direction::DownRight), 0);
}

#[test]
fn direction_steps() {
    assert_eq!(Direction::Left.to_tuple(), (-1, 0));
    assert_eq!(Direction::TopLeft.to_tuple(), (-1, 1));
    assert_eq!(Direction::DownRight.to_tuple(), (1, -1));
    assert_eq!(Direction::Down.to_tuple(), (0, -1));
}

#[test]
fn last_mover_wraps_to_player_count() {
    let mut game = Game::new(4, 4, 7, 6);
    assert_eq!(take_turn(&mut game, 0), Ok(false));
    assert_eq!(game.last_mover(), 1);
    for x in 1..4 {
        assert_eq!(take_turn(&mut game, x), Ok(false));
    }
    assert_eq!(game.active_player, 0);
    assert_eq!(game.last_mover(), 4);
}

#[test]
fn grid_rows_run_top_to_bottom() {
    let mut game = Game::new(2, 4, 3, 2);
    assert_eq!(take_turn(&mut game, 0), Ok(false));
    assert_eq!(take_turn(&mut game, 0), Ok(false));
    assert_eq!(take_turn(&mut game, 2), Ok(false));
    let grid = game.board.get_grid();
    let occupants: Vec<Vec<u32>> = grid
        .iter()
        .map(|row| row.iter().map(|c| c.occupant).collect())
        .collect();
    assert_eq!(occupants, vec![vec![2, 0, 0], vec![1, 0, 1]]);
}
