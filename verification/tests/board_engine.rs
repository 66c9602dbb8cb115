use connect_four::board::Board;
use connect_four::board::DropError;
use connect_four::board::GameResult;
use connect_four::board::PieceSpot;
use connect_four::board::Player;

#[test]
fn it_works() {
    assert_eq!(2 + 2, 4);
}

#[test]
fn opposite_is_involutive() {
    assert_eq!(Player::A.opposite().opposite(), Player::A);
    assert_eq!(Player::B.opposite().opposite(), Player::B);
    assert_eq!(Player::A.opposite(), Player::B);
    assert_eq!(Player::B.opposite(), Player::A);
}

#[test]
fn fresh_board_is_in_progress() {
    let board = Board::default();
    assert_eq!(board.turn, Player::A);
    for column in 0..7 {
        for row in 0..6 {
            assert_eq!(board.board[column][row], PieceSpot::Empty);
        }
    }
    assert!(matches!(board.calculate_result(), GameResult::Indefinite));
}

#[test]
fn column_accepts_six_drops_then_rejects() {
    for column in 0..7 {
        let mut board = Board::default();
        for _ in 0..6 {
            assert_eq!(board.drop_piece(column), Ok(()));
        }
        assert_eq!(board.drop_piece(column), Err(DropError::ColumnFull));
    }
    // The same holds when the two players alternate in the column.
    let mut board = Board::default();
    for _ in 0..6 {
        assert_eq!(board.drop_piece(3), Ok(()));
        board.switch_turn();
    }
    assert_eq!(board.drop_piece(3), Err(DropError::ColumnFull));
}

#[test]
fn out_of_range_column_is_rejected() {
    let mut board = Board::default();
    assert_eq!(board.drop_piece(7), Err(DropError::InvalidColumn));
    assert_eq!(board.drop_piece(8), Err(DropError::InvalidColumn));
    assert_eq!(board.drop_piece(usize::MAX), Err(DropError::InvalidColumn));
    assert!(matches!(board.calculate_result(), GameResult::Indefinite));
}

#[test]
fn failed_drop_changes_nothing() {
    let mut board = Board::default();
    for _ in 0..3 {
        assert_eq!(board.drop_piece(2), Ok(()));
        board.switch_turn();
        assert_eq!(board.drop_piece(5), Ok(()));
        board.switch_turn();
    }
    for _ in 0..3 {
        assert_eq!(board.drop_piece(2), Ok(()));
        board.switch_turn();
    }
    let turn_before = board.turn;
    let grid_before = board.board;
    assert_eq!(board.drop_piece(2), Err(DropError::ColumnFull));
    assert_eq!(board.turn, turn_before);
    assert_eq!(board.board, grid_before);
    assert_eq!(board.drop_piece(42), Err(DropError::InvalidColumn));
    assert_eq!(board.turn, turn_before);
    assert_eq!(board.board, grid_before);
}

fn checker_fill(column: usize, row: usize) -> PieceSpot {
    // Paired rows shifted per column: runs never reach length four in any
    // direction.
    if (column + row / 2) % 2 == 0 {
        PieceSpot::Player(Player::A)
    } else {
        PieceSpot::Player(Player::B)
    }
}

#[test]
fn full_grid_without_four_is_draw() {
    let mut board = Board::default();
    for column in 0..7 {
        for row in 0..6 {
            board.board[column][row] = checker_fill(column, row);
        }
    }
    assert!(matches!(board.calculate_result(), GameResult::Draw));
}

#[test]
fn win_beats_draw_on_full_grid() {
    let mut board = Board::default();
    for column in 0..7 {
        for row in 0..6 {
            board.board[column][row] = checker_fill(column, row);
        }
    }
    // Hand the whole first column to A: the grid stays full, B loses two
    // pieces and so still has no four, and A now has a vertical four.
    for row in 0..6 {
        board.board[0][row] = PieceSpot::Player(Player::A);
    }
    assert!(matches!(board.calculate_result(), GameResult::Win(Player::A)));
}

#[test]
fn horizontal_win_in_bottom_row() {
    let mut board = Board::default();
    // Four drops forced to A, bypassing turn alternation.
    for column in 0..4 {
        if column == 3 {
            assert!(matches!(board.calculate_result(), GameResult::Indefinite));
        }
        assert_eq!(board.drop_piece(column), Ok(()));
    }
    assert!(matches!(board.calculate_result(), GameResult::Win(Player::A)));
}

#[test]
fn vertical_win_in_column_two() {
    let mut board = Board::default();
    for drop in 0..4 {
        if drop == 3 {
            assert!(matches!(board.calculate_result(), GameResult::Indefinite));
        }
        assert_eq!(board.drop_piece(2), Ok(()));
    }
    assert!(matches!(board.calculate_result(), GameResult::Win(Player::A)));

    let mut board = Board::default();
    board.turn = Player::B;
    for _ in 0..4 {
        assert_eq!(board.drop_piece(2), Ok(()));
    }
    assert!(matches!(board.calculate_result(), GameResult::Win(Player::B)));
}

#[test]
fn rising_diagonal_win_by_direct_placement() {
    let mut board = Board::default();
    for step in 0..4 {
        board.board[step][step] = PieceSpot::Player(Player::A);
    }
    assert!(matches!(board.calculate_result(), GameResult::Win(Player::A)));
}

#[test]
fn falling_diagonal_win_by_direct_placement() {
    let mut board = Board::default();
    for step in 0..4 {
        board.board[step][3 - step] = PieceSpot::Player(Player::B);
    }
    assert!(matches!(board.calculate_result(), GameResult::Win(Player::B)));
}

#[test]
fn reset_restores_initial_state() {
    let mut board = Board::default();
    assert_eq!(board.drop_piece(0), Ok(()));
    board.switch_turn();
    assert_eq!(board.drop_piece(0), Ok(()));
    board.switch_turn();
    assert_eq!(board.drop_piece(6), Ok(()));
    board.reset();
    assert_eq!(board.turn, Player::A);
    for column in 0..7 {
        for row in 0..6 {
            assert_eq!(board.board[column][row], PieceSpot::Empty);
        }
    }
    assert!(matches!(board.calculate_result(), GameResult::Indefinite));
}

#[test]
fn switch_turn_toggles_only_the_turn() {
    let mut board = Board::default();
    assert_eq!(board.drop_piece(1), Ok(()));
    let grid_before = board.board;
    board.switch_turn();
    assert_eq!(board.turn, Player::B);
    assert_eq!(board.board, grid_before);
    board.switch_turn();
    assert_eq!(board.turn, Player::A);
    assert_eq!(board.board, grid_before);
}

#[test]
fn drop_lands_on_lowest_empty_cell() {
    let mut board = Board::default();
    assert_eq!(board.drop_piece(4), Ok(()));
    board.switch_turn();
    assert_eq!(board.drop_piece(4), Ok(()));
    assert_eq!(board.board[4][0], PieceSpot::Player(Player::A));
    assert_eq!(board.board[4][1], PieceSpot::Player(Player::B));
    assert_eq!(board.board[4][2], PieceSpot::Empty);
}

#[test]
fn win_sequences_cover_the_grid_once_per_direction() {
    let sequences = Board::win_sequences();
    assert_eq!(sequences.len(), 25);
    let lengths: Vec<usize> = sequences.iter().map(|s| s.len()).collect();
    let expected = vec![
        7, 7, 7, 7, 7, 7, // rows
        6, 6, 6, 6, 6, 6, 6, // columns
        4, 5, 6, 6, 5, 4, // rising diagonals
        4, 5, 6, 6, 5, 4, // falling diagonals
    ];
    assert_eq!(lengths, expected);
    assert_eq!(sequences[0], vec![(0, 0), (1, 0), (2, 0), (3, 0), (4, 0), (5, 0), (6, 0)]);
    assert_eq!(sequences[6], vec![(0, 0), (0, 1), (0, 2), (0, 3), (0, 4), (0, 5)]);
    assert_eq!(sequences[13], vec![(0, 2), (1, 3), (2, 4), (3, 5)]);
    assert_eq!(sequences[15], vec![(0, 0), (1, 1), (2, 2), (3, 3), (4, 4), (5, 5)]);
    assert_eq!(sequences[19], vec![(0, 3), (1, 2), (2, 1), (3, 0)]);
    assert_eq!(sequences[24], vec![(3, 5), (4, 4), (5, 3), (6, 2)]);
}
