use bingo::board::check_winner_board;

fn sample_board() -> [u8; 25] {
    [
        1, 2, 3, 4, 5, //
        6, 7, 8, 9, 10, //
        11, 12, 13, 14, 15, //
        16, 17, 18, 19, 20, //
        21, 22, 23, 24, 25, //
    ]
}

fn row_major_board() -> [u8; 25] {
    let mut board = [0u8; 25];
    for (i, cell) in board.iter_mut().enumerate() {
        *cell = i as u8;
    }
    board
}

#[test]
fn row_win_detected() {
    let board = sample_board();
    // row 1 (second row): 6,7,8,9,10 scrambled
    let correct = vec![9, 6, 10, 7, 8];
    assert!(check_winner_board(board, &correct));
}

#[test]
fn column_win_detected() {
    let board = sample_board();
    // column 2 (third column): values 3,8,13,18,23 scrambled
    let correct = vec![18, 3, 23, 8, 13];
    assert!(check_winner_board(board, &correct));
}

#[test]
fn main_diagonal_win_detected() {
    let board = sample_board();
    // main diagonal: values 1,7,13,19,25 scrambled
    let correct = vec![13, 25, 1, 19, 7];
    assert!(check_winner_board(board, &correct));
}

#[test]
fn other_diagonal_win_detected() {
    let board = sample_board();
    // other diagonal: values 5,9,13,17,21 scrambled
    let correct = vec![21, 13, 5, 17, 9];
    assert!(check_winner_board(board, &correct));
}

#[test]
fn no_win_detected() {
    let board = sample_board();
    // scattered answers that don't make any full row/col/diagonal
    let correct = vec![14, 1, 22, 6, 3];
    assert!(!check_winner_board(board, &correct));
}

#[test]
fn row_major_row_one_wins() {
    assert!(check_winner_board(row_major_board(), &[5, 6, 7, 8, 9]));
}

#[test]
fn row_major_main_diagonal_wins() {
    assert!(check_winner_board(row_major_board(), &[0, 6, 12, 18, 24]));
}

#[test]
fn row_major_scattered_ids_do_not_win() {
    assert!(!check_winner_board(row_major_board(), &[1, 7, 13, 19, 14]));
}

#[test]
fn every_row_and_column_wins_with_extra_ids() {
    let board = row_major_board();
    for r in 0..5u8 {
        let row: Vec<u8> = vec![99, 5 * r + 4, 5 * r + 2, 5 * r, 5 * r + 3, 5 * r + 1, 200];
        assert!(check_winner_board(board, &row));
        let column: Vec<u8> = vec![r + 20, r + 15, 77, r + 10, r + 5, r];
        assert!(check_winner_board(board, &column));
    }
}

#[test]
fn anti_diagonal_wins_on_row_major_board() {
    assert!(check_winner_board(row_major_board(), &[20, 16, 12, 8, 4]));
}

#[test]
fn four_of_a_line_do_not_win() {
    let board = row_major_board();
    assert!(!check_winner_board(board, &[0, 1, 2, 3]));
    assert!(!check_winner_board(board, &[0, 5, 10, 15]));
    assert!(!check_winner_board(board, &[]));
}

#[test]
fn repeated_ids_on_board_count_per_cell() {
    let mut board = [30u8; 25];
    board[0] = 1;
    board[1] = 1;
    board[2] = 1;
    board[3] = 1;
    board[4] = 1;
    assert!(check_winner_board(board, &[1]));
    assert!(!check_winner_board(board, &[2]));
}
