use connect_four::board::Board;
use connect_four::board::Token::{Empty, Red, Yellow};
use connect_four::random::rounds;
use connect_four::tally::{merge_all, Tally};

#[test]
fn winner_of_untouched_board_is_empty() {
    assert_eq!(Board::new().check_winner(), Empty);
}

#[test]
fn placed_row_reports_winner() {
    // four red tokens dropped side by side land on the bottom row
    let mut board = Board::new();
    for col in 2..6 {
        assert_eq!(board.player_stroke(Red, col), Some(true));
    }
    assert_eq!(board.check_winner(), Red);
}

#[test]
fn placed_column_reports_winner() {
    let mut board = Board::new();
    for _ in 0..4 {
        assert_eq!(board.player_stroke(Yellow, 3), Some(true));
    }
    assert_eq!(board.check_winner(), Yellow);
}

#[test]
fn corner_diagonal_windows_report_winner() {
    // each of the four corner cells sits in exactly one diagonal window;
    // a filled window containing a corner must be classified as a win
    let top_left = [
        [Red, Empty, Empty, Empty, Empty, Empty, Empty],
        [Empty, Red, Empty, Empty, Empty, Empty, Empty],
        [Empty, Empty, Red, Empty, Empty, Empty, Empty],
        [Empty, Empty, Empty, Red, Empty, Empty, Empty],
        [Empty; 7],
        [Empty; 7],
    ];
    let top_right = [
        [Empty, Empty, Empty, Empty, Empty, Empty, Red],
        [Empty, Empty, Empty, Empty, Empty, Red, Empty],
        [Empty, Empty, Empty, Empty, Red, Empty, Empty],
        [Empty, Empty, Empty, Red, Empty, Empty, Empty],
        [Empty; 7],
        [Empty; 7],
    ];
    let bottom_left = [
        [Empty; 7],
        [Empty; 7],
        [Empty, Empty, Empty, Red, Empty, Empty, Empty],
        [Empty, Empty, Red, Empty, Empty, Empty, Empty],
        [Empty, Red, Empty, Empty, Empty, Empty, Empty],
        [Red, Empty, Empty, Empty, Empty, Empty, Empty],
    ];
    let bottom_right = [
        [Empty; 7],
        [Empty; 7],
        [Empty, Empty, Empty, Red, Empty, Empty, Empty],
        [Empty, Empty, Empty, Empty, Red, Empty, Empty],
        [Empty, Empty, Empty, Empty, Empty, Red, Empty],
        [Empty, Empty, Empty, Empty, Empty, Empty, Red],
    ];
    for cells in [top_left, top_right, bottom_left, bottom_right] {
        let rows: Vec<Vec<_>> = cells.iter().map(|r| r.to_vec()).collect();
        let board = Board::from_rows(&rows);
        assert_eq!(board.check_winner(), Red);
    }
}

#[test]
fn full_board_without_line_is_draw() {
    // alternating row pairs leave no four-in-a-row on any axis
    let a = [Red, Red, Yellow, Yellow, Red, Red, Yellow];
    let b = [Yellow, Yellow, Red, Red, Yellow, Yellow, Red];
    let rows: Vec<Vec<_>> = [a, b, a, b, a, b].iter().map(|r| r.to_vec()).collect();
    let board = Board::from_rows(&rows);
    assert!(board.is_full());
    assert_eq!(board.check_winner(), Empty);
}

#[test]
fn invalid_column_is_rejected_and_board_unchanged() {
    let mut board = Board::new();
    assert_eq!(board.player_stroke(Red, 3), Some(true));
    for bad in [-128, -1, 7, 100] {
        assert_eq!(board.player_stroke(Red, bad), None);
    }
    // the one placed token is still the only one
    let mut tokens = 0;
    for row in 0..6 {
        for col in 0..7 {
            if board.cell_at(row, col) != Empty {
                tokens += 1;
                assert_eq!((row, col), (5, 3));
            }
        }
    }
    assert_eq!(tokens, 1);
}

#[test]
fn seventh_drop_into_column_is_refused() {
    let mut board = Board::new();
    let stack = [Red, Yellow, Red, Yellow, Red, Yellow];
    for token in stack {
        assert_eq!(board.player_stroke(token, 2), Some(true));
    }
    assert_eq!(board.player_stroke(Red, 2), Some(false));
    assert_eq!(board.player_stroke(Yellow, 2), Some(false));
    // the column still holds exactly the six tokens, bottom-up
    for (height, token) in stack.iter().enumerate() {
        assert_eq!(board.cell_at(5 - height, 2), *token);
    }
}

#[test]
fn token_count_matches_successful_calls() {
    let mut board = Board::new();
    let mut successes = 0;
    // a mix of legal drops, invalid columns, and drops into a full column
    for _ in 0..6 {
        if board.player_stroke(Red, 0) == Some(true) {
            successes += 1;
        }
    }
    assert_eq!(board.player_stroke(Red, 0), Some(false));
    assert_eq!(board.player_stroke(Yellow, -3), None);
    for col in [1, 4, 1, 9, 6] {
        if board.player_stroke(Yellow, col) == Some(true) {
            successes += 1;
        }
    }
    let mut tokens = 0;
    for row in 0..6 {
        for col in 0..7 {
            if board.cell_at(row, col) != Empty {
                tokens += 1;
            }
        }
    }
    assert_eq!(tokens, successes);
    assert_eq!(tokens, 10);
}

#[test]
fn random_moves_fill_the_board_exactly() {
    let mut board = Board::new();
    let mut current = Red;
    for _ in 0..42 {
        assert_eq!(board.random_stroke(current), Some(true));
        current = if current == Red { Yellow } else { Red };
    }
    assert!(board.is_full());
    // the board is full, so the next random move reports exhaustion
    assert_eq!(board.random_stroke(current), None);
}

#[test]
fn gravity_holds_after_every_drop() {
    let mut board = Board::new();
    let mut current = Red;
    for turn in 0..42 {
        assert_eq!(board.random_stroke(current), Some(true));
        current = if current == Red { Yellow } else { Red };
        if turn % 7 == 0 {
            for col in 0..7 {
                for row in 0..5 {
                    if board.cell_at(row, col) != Empty {
                        assert_ne!(board.cell_at(row + 1, col), Empty);
                    }
                }
            }
        }
    }
}

#[test]
fn tally_records_each_outcome() {
    let mut t = Tally::new();
    t.record(Red);
    t.record(Yellow);
    t.record(Yellow);
    t.record(Empty);
    assert_eq!(t.red_wins, 1);
    assert_eq!(t.yellow_wins, 2);
    assert_eq!(t.draws, 1);
}

#[test]
fn tally_add_sums_componentwise() {
    let a = Tally { red_wins: 3, yellow_wins: 5, draws: 2 };
    let b = Tally { red_wins: 10, yellow_wins: 1, draws: 0 };
    let sum = a.add(&b).unwrap();
    assert_eq!(sum.red_wins, 13);
    assert_eq!(sum.yellow_wins, 6);
    assert_eq!(sum.draws, 2);
    // merging is order-independent
    assert_eq!(b.add(&a).unwrap(), sum);
}

#[test]
fn tally_add_reports_overflow() {
    let a = Tally { red_wins: u64::MAX, yellow_wins: 0, draws: 0 };
    let b = Tally { red_wins: 1, yellow_wins: 0, draws: 0 };
    assert_eq!(a.add(&b), None);
    assert_eq!(a.add(&Tally::new()).unwrap(), a);
}

#[test]
fn merge_all_of_no_parts_is_zero() {
    let merged = merge_all(&Vec::new()).unwrap();
    assert_eq!(merged, Tally::new());
}

#[test]
fn session_of_four_workers_totals_exactly() {
    // four workers of one thousand games each account for four thousand
    // games, no more and no fewer
    let parts = vec![rounds(1000, true), rounds(1000, true), rounds(1000, true), rounds(
        1000,
        true,
    )];
    let merged = merge_all(&parts).unwrap();
    assert_eq!(merged.red_wins + merged.yellow_wins + merged.draws, 4000);
}

#[test]
fn repeated_sessions_never_exceed_their_total() {
    for _ in 0..2 {
        let t = rounds(300, false);
        assert_eq!(t.red_wins + t.yellow_wins + t.draws, 300);
    }
}

#[test]
fn split_batches_account_for_the_same_games() {
    // four batches of 250 games aggregate to the same game count as one
    // sequential batch of 1000
    let parts = vec![rounds(250, true), rounds(250, true), rounds(250, true), rounds(250, true)];
    let merged = merge_all(&parts).unwrap();
    let sequential = rounds(1000, true);
    assert_eq!(
        merged.red_wins + merged.yellow_wins + merged.draws,
        sequential.red_wins + sequential.yellow_wins + sequential.draws,
    );
}

#[test]
fn round_returns_a_game_outcome() {
    for _ in 0..5 {
        let w = connect_four::random::round(true);
        assert!(w == Red || w == Yellow || w == Empty);
    }
}

#[test]
fn from_rows_preserves_every_cell() {
    let mut rows = vec![vec![Empty; 7]; 6];
    rows[5][0] = Red;
    rows[5][6] = Yellow;
    rows[0][3] = Red;
    let board = Board::from_rows(&rows);
    for r in 0..6 {
        for c in 0..7 {
            assert_eq!(board.cell_at(r, c), rows[r][c]);
        }
    }
}
