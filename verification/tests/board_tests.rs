use connect_four::board::Board;
use connect_four::board::Token::{Empty, Red, Yellow};

fn rows_from(cells: [[connect_four::board::Token; 7]; 6]) -> Vec<Vec<connect_four::board::Token>> {
    cells.iter().map(|r| r.to_vec()).collect()
}

#[test]
fn lib_empty_board_is_full() {
    assert!(!Board::new().is_full())
}

#[test]
fn lib_full_board_is_full() {
    let board = Board::from_rows(&rows_from([[Red; 7]; 6]));
    assert!(board.is_full())
}

#[test]
fn lib_check_row_winner() {
    let board = Board::from_rows(&rows_from([
        [Empty; 7],
        [Empty; 7],
        [Empty; 7],
        [Empty, Empty, Red, Red, Red, Red, Empty],
        [Empty; 7],
        [Empty; 7],
    ]));
    assert_eq!(board.check_winner(), Red);
    let board = Board::from_rows(&rows_from([
        [Empty; 7],
        [Empty; 7],
        [Empty; 7],
        [Empty; 7],
        [Empty, Empty, Empty, Red, Red, Red, Red],
        [Empty; 7],
    ]));
    assert_eq!(board.check_winner(), Red);
    let board = Board::from_rows(&rows_from([
        [Empty; 7],
        [Empty; 7],
        [Red, Red, Red, Red, Empty, Empty, Empty],
        [Empty; 7],
        [Empty; 7],
        [Empty; 7],
    ]));
    assert_eq!(board.check_winner(), Red);
}

#[test]
fn lib_check_column_winner() {
    let board = Board::from_rows(&rows_from([
        [Empty; 7],
        [Empty, Empty, Red, Empty, Empty, Empty, Empty],
        [Empty, Empty, Red, Empty, Empty, Empty, Empty],
        [Empty, Empty, Red, Empty, Empty, Empty, Empty],
        [Empty, Empty, Red, Empty, Empty, Empty, Empty],
        [Empty; 7],
    ]));
    assert_eq!(board.check_winner(), Red);
    let board = Board::from_rows(&rows_from([
        [Empty, Empty, Empty, Empty, Empty, Empty, Red],
        [Empty, Empty, Empty, Empty, Empty, Empty, Red],
        [Empty, Empty, Empty, Empty, Empty, Empty, Red],
        [Empty, Empty, Empty, Empty, Empty, Empty, Red],
        [Empty; 7],
        [Empty; 7],
    ]));
    assert_eq!(board.check_winner(), Red);
    let board = Board::from_rows(&rows_from([
        [Empty; 7],
        [Empty; 7],
        [Empty, Empty, Empty, Empty, Yellow, Empty, Empty],
        [Empty, Empty, Empty, Empty, Yellow, Empty, Empty],
        [Empty, Empty, Empty, Empty, Yellow, Empty, Empty],
        [Empty, Empty, Empty, Empty, Yellow, Empty, Empty],
    ]));
    assert_eq!(board.check_winner(), Yellow);
}

#[test]
fn lib_check_diagonal_left_right() {
    let board = Board::from_rows(&rows_from([
        [Empty; 7],
        [Empty; 7],
        [Red, Empty, Empty, Empty, Empty, Empty, Empty],
        [Empty, Red, Empty, Empty, Empty, Empty, Empty],
        [Empty, Empty, Red, Empty, Empty, Empty, Empty],
        [Empty, Empty, Empty, Red, Empty, Empty, Empty],
    ]));
    assert_eq!(board.check_winner(), Red);
    let board = Board::from_rows(&rows_from([
        [Empty; 7],
        [Empty, Empty, Yellow, Empty, Empty, Empty, Empty],
        [Empty, Empty, Empty, Yellow, Empty, Empty, Empty],
        [Empty, Empty, Empty, Empty, Yellow, Empty, Empty],
        [Empty, Empty, Empty, Empty, Empty, Yellow, Empty],
        [Empty; 7],
    ]));
    assert_eq!(board.check_winner(), Yellow);
    let board = Board::from_rows(&rows_from([
        [Empty, Empty, Empty, Red, Empty, Empty, Empty],
        [Empty, Empty, Empty, Empty, Red, Empty, Empty],
        [Empty, Empty, Empty, Empty, Empty, Red, Empty],
        [Empty, Empty, Empty, Empty, Empty, Empty, Red],
        [Empty; 7],
        [Empty; 7],
    ]));
    assert_eq!(board.check_winner(), Red);
}

#[test]
fn lib_check_diagonal_right_left() {
    let board = Board::from_rows(&rows_from([
        [Empty; 7],
        [Empty; 7],
        [Empty, Empty, Empty, Empty, Empty, Red, Empty],
        [Empty, Empty, Empty, Empty, Red, Empty, Empty],
        [Empty, Empty, Empty, Red, Empty, Empty, Empty],
        [Empty, Empty, Red, Empty, Empty, Empty, Empty],
    ]));
    assert_eq!(board.check_winner(), Red);
    let board = Board::from_rows(&rows_from([
        [Empty, Empty, Empty, Yellow, Empty, Empty, Empty],
        [Empty, Empty, Yellow, Empty, Empty, Empty, Empty],
        [Empty, Yellow, Empty, Empty, Empty, Empty, Empty],
        [Yellow, Empty, Empty, Empty, Empty, Empty, Empty],
        [Empty; 7],
        [Empty; 7],
    ]));
    assert_eq!(board.check_winner(), Yellow);
    let board = Board::from_rows(&rows_from([
        [Empty, Empty, Empty, Empty, Empty, Empty, Red],
        [Empty, Empty, Empty, Empty, Empty, Red, Empty],
        [Empty, Empty, Empty, Empty, Red, Empty, Empty],
        [Empty, Empty, Empty, Red, Empty, Empty, Empty],
        [Empty; 7],
        [Empty; 7],
    ]));
    assert_eq!(board.check_winner(), Red);
}

#[test]
fn board_empty_board_is_full() {
    assert!(!Board::new().is_full())
}

#[test]
fn board_full_board_is_full() {
    let board = Board::from_rows(&rows_from([[Red; 7]; 6]));
    assert!(board.is_full())
}

#[test]
fn board_check_row_winner() {
    let board = Board::from_rows(&rows_from([
        [Empty; 7],
        [Empty; 7],
        [Empty; 7],
        [Empty, Empty, Red, Red, Red, Red, Empty],
        [Empty; 7],
        [Empty; 7],
    ]));
    assert_eq!(board.check_winner(), Red);
    let board = Board::from_rows(&rows_from([
        [Empty; 7],
        [Empty; 7],
        [Empty; 7],
        [Empty; 7],
        [Empty, Empty, Empty, Red, Red, Red, Red],
        [Empty; 7],
    ]));
    assert_eq!(board.check_winner(), Red);
    let board = Board::from_rows(&rows_from([
        [Empty; 7],
        [Empty; 7],
        [Red, Red, Red, Red, Empty, Empty, Empty],
        [Empty; 7],
        [Empty; 7],
        [Empty; 7],
    ]));
    assert_eq!(board.check_winner(), Red);
}

#[test]
fn board_check_column_winner() {
    let board = Board::from_rows(&rows_from([
        [Empty; 7],
        [Empty, Empty, Red, Empty, Empty, Empty, Empty],
        [Empty, Empty, Red, Empty, Empty, Empty, Empty],
        [Empty, Empty, Red, Empty, Empty, Empty, Empty],
        [Empty, Empty, Red, Empty, Empty, Empty, Empty],
        [Empty; 7],
    ]));
    assert_eq!(board.check_winner(), Red);
    let board = Board::from_rows(&rows_from([
        [Empty, Empty, Empty, Empty, Empty, Empty, Red],
        [Empty, Empty, Empty, Empty, Empty, Empty, Red],
        [Empty, Empty, Empty, Empty, Empty, Empty, Red],
        [Empty, Empty, Empty, Empty, Empty, Empty, Red],
        [Empty; 7],
        [Empty; 7],
    ]));
    assert_eq!(board.check_winner(), Red);
    let board = Board::from_rows(&rows_from([
        [Empty; 7],
        [Empty; 7],
        [Empty, Empty, Empty, Empty, Yellow, Empty, Empty],
        [Empty, Empty, Empty, Empty, Yellow, Empty, Empty],
        [Empty, Empty, Empty, Empty, Yellow, Empty, Empty],
        [Empty, Empty, Empty, Empty, Yellow, Empty, Empty],
    ]));
    assert_eq!(board.check_winner(), Yellow);
}

#[test]
fn board_check_diagonal_left_right() {
    let board = Board::from_rows(&rows_from([
        [Empty; 7],
        [Empty; 7],
        [Red, Empty, Empty, Empty, Empty, Empty, Empty],
        [Empty, Red, Empty, Empty, Empty, Empty, Empty],
        [Empty, Empty, Red, Empty, Empty, Empty, Empty],
        [Empty, Empty, Empty, Red, Empty, Empty, Empty],
    ]));
    assert_eq!(board.check_winner(), Red);
    let board = Board::from_rows(&rows_from([
        [Empty; 7],
        [Empty, Empty, Yellow, Empty, Empty, Empty, Empty],
        [Empty, Empty, Empty, Yellow, Empty, Empty, Empty],
        [Empty, Empty, Empty, Empty, Yellow, Empty, Empty],
        [Empty, Empty, Empty, Empty, Empty, Yellow, Empty],
        [Empty; 7],
    ]));
    assert_eq!(board.check_winner(), Yellow);
    let board = Board::from_rows(&rows_from([
        [Empty, Empty, Empty, Red, Empty, Empty, Empty],
        [Empty, Empty, Empty, Empty, Red, Empty, Empty],
        [Empty, Empty, Empty, Empty, Empty, Red, Empty],
        [Empty, Empty, Empty, Empty, Empty, Empty, Red],
        [Empty; 7],
        [Empty; 7],
    ]));
    assert_eq!(board.check_winner(), Red);
}

#[test]
fn board_check_diagonal_right_left() {
    let board = Board::from_rows(&rows_from([
        [Empty; 7],
        [Empty; 7],
        [Empty, Empty, Empty, Empty, Empty, Red, Empty],
        [Empty, Empty, Empty, Empty, Red, Empty, Empty],
        [Empty, Empty, Empty, Red, Empty, Empty, Empty],
        [Empty, Empty, Red, Empty, Empty, Empty, Empty],
    ]));
    assert_eq!(board.check_winner(), Red);
    let board = Board::from_rows(&rows_from([
        [Empty, Empty, Empty, Yellow, Empty, Empty, Empty],
        [Empty, Empty, Yellow, Empty, Empty, Empty, Empty],
        [Empty, Yellow, Empty, Empty, Empty, Empty, Empty],
        [Yellow, Empty, Empty, Empty, Empty, Empty, Empty],
        [Empty; 7],
        [Empty; 7],
    ]));
    assert_eq!(board.check_winner(), Yellow);
    let board = Board::from_rows(&rows_from([
        [Empty, Empty, Empty, Empty, Empty, Empty, Red],
        [Empty, Empty, Empty, Empty, Empty, Red, Empty],
        [Empty, Empty, Empty, Empty, Red, Empty, Empty],
        [Empty, Empty, Empty, Red, Empty, Empty, Empty],
        [Empty; 7],
        [Empty; 7],
    ]));
    assert_eq!(board.check_winner(), Red);
}

#[test]
fn check_player_stroke() {
    let mut board = Board::new();
    for col in 0..7 {
        for row in (0..6).rev() {
            assert_eq!(board.player_stroke(Red, col as i8), Some(true));
            assert!(board.check_cell(row, col, &Red));
        }
    }
    assert_eq!(board.player_stroke(Red, 0), Some(false));
    assert_eq!(board.player_stroke(Red, 5), Some(false));
}
