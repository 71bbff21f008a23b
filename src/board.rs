//! Win detection on 5x5 boards of card ids.

use vstd::prelude::*;

verus! {

/// Number of cells on a board.
pub const BOARD_SIZE: usize = 25;

/// Number of cells on a side of the square board.
pub const SIDE: usize = 5;

/// Number of winning lines: five rows, five columns and two diagonals.
pub const LINE_COUNT: usize = 12;

/// Index, in row-major order, of the `k`-th cell of winning line `line`.
/// Lines `0..5` are the rows, `5..10` the columns, `10` the main diagonal and
/// `11` the anti-diagonal.
pub open spec fn line_cell(line: int, k: int) -> int {
    if line < 5 {
        5 * line + k
    } else if line < 10 {
        5 * k + (line - 5)
    } else if line == 10 {
        6 * k
    } else {
        4 * k + 4
    }
}

/// Every cell of `line` holds a called id.
pub open spec fn line_complete(board: Seq<u8>, called: Seq<u8>, line: int) -> bool {
    forall|k: int| 0 <= k < 5 ==> called.contains(#[trigger] board[line_cell(line, k)])
}

/// A board wins when one of its twelve lines is complete.
pub open spec fn is_winning_board(board: Seq<u8>, called: Seq<u8>) -> bool {
    exists|line: int| 0 <= line < 12 && #[trigger] line_complete(board, called, line)
}

fn contains_id(ids: &[u8], id: u8) -> (r: bool)
    ensures
        r == ids@.contains(id),
{
    let mut i: usize = 0;
    while i < ids.len()
        invariant
            i <= ids@.len(),
            forall|j: int| 0 <= j < i ==> ids@[j] != id,
        decreases ids@.len() - i,
    {
        if ids[i] == id {
            return true;
        }
        i = i + 1;
    }
    false
}

fn cell_of_line(line: usize, k: usize) -> (r: usize)
    requires
        line < 12,
        k < 5,
    ensures
        r == line_cell(line as int, k as int),
        r < 25,
{
    if line < 5 {
        SIDE * line + k
    } else if line < 10 {
        SIDE * k + (line - 5)
    } else if line == 10 {
        6 * k
    } else {
        4 * k + 4
    }
}

fn is_line_complete(board: &[u8; 25], correct_answers: &[u8], line: usize) -> (r: bool)
    requires
        line < 12,
    ensures
        r == line_complete(board@, correct_answers@, line as int),
{
    let mut k: usize = 0;
    while k < SIDE
        invariant
            line < 12,
            k <= 5,
            forall|j: int|
                0 <= j < k ==> correct_answers@.contains(
                    #[trigger] board@[line_cell(line as int, j)],
                ),
        decreases 5 - k,
    {
        let cell = cell_of_line(line, k);
        if !contains_id(correct_answers, board[cell]) {
            return false;
        }
        k = k + 1;
    }
    true
}

/// Whether `board` has a complete row, column or diagonal whose ids all occur
/// in `correct_answers`.
pub fn check_winner_board(board: [u8; 25], correct_answers: &[u8]) -> (r: bool)
    ensures
        r == is_winning_board(board@, correct_answers@),
{
    let mut line: usize = 0;
    while line < LINE_COUNT
        invariant
            line <= 12,
            forall|l: int| 0 <= l < line ==> !line_complete(board@, correct_answers@, l),
        decreases 12 - line,
    {
        if is_line_complete(&board, correct_answers, line) {
            return true;
        }
        line = line + 1;
    }
    false
}

/// A called list that holds every id of row `r` makes the board win.
pub proof fn lemma_full_row_wins(board: Seq<u8>, called: Seq<u8>, r: int)
    requires
        board.len() == 25,
        0 <= r < 5,
        row_called(board, called, r),
    ensures
        is_winning_board(board, called),
{
    assert(line_complete(board, called, r));
}

/// A called list that holds every id of column `c` makes the board win.
pub proof fn lemma_full_column_wins(board: Seq<u8>, called: Seq<u8>, c: int)
    requires
        board.len() == 25,
        0 <= c < 5,
        column_called(board, called, c),
    ensures
        is_winning_board(board, called),
{
    assert(line_complete(board, called, 5 + c));
}

/// A called list that holds the ids at `0, 6, 12, 18, 24` makes the board win.
pub proof fn lemma_main_diagonal_wins(board: Seq<u8>, called: Seq<u8>)
    requires
        board.len() == 25,
        called.contains(board[0]),
        called.contains(board[6]),
        called.contains(board[12]),
        called.contains(board[18]),
        called.contains(board[24]),
    ensures
        is_winning_board(board, called),
{
    assert(line_complete(board, called, 10));
}

/// A called list that holds the ids at `4, 8, 12, 16, 20` makes the board win.
pub proof fn lemma_anti_diagonal_wins(board: Seq<u8>, called: Seq<u8>)
    requires
        board.len() == 25,
        called.contains(board[4]),
        called.contains(board[8]),
        called.contains(board[12]),
        called.contains(board[16]),
        called.contains(board[20]),
    ensures
        is_winning_board(board, called),
{
    assert(line_complete(board, called, 11));
}

/// Every id of row `r` occurs in `called`.
pub open spec fn row_called(board: Seq<u8>, called: Seq<u8>, r: int) -> bool {
    forall|k: int| 0 <= k < 5 ==> called.contains(#[trigger] board[5 * r + k])
}

/// Every id of column `c` occurs in `called`.
pub open spec fn column_called(board: Seq<u8>, called: Seq<u8>, c: int) -> bool {
    forall|k: int| 0 <= k < 5 ==> called.contains(#[trigger] board[5 * k + c])
}

/// A called list that misses at least one id of every row, every column and
/// both diagonals does not make the board win.
pub proof fn lemma_no_full_line_loses(board: Seq<u8>, called: Seq<u8>)
    requires
        board.len() == 25,
        forall|r: int| 0 <= r < 5 ==> !#[trigger] row_called(board, called, r),
        forall|c: int| 0 <= c < 5 ==> !#[trigger] column_called(board, called, c),
        exists|k: int| 0 <= k < 5 && !called.contains(#[trigger] board[6 * k]),
        exists|k: int| 0 <= k < 5 && !called.contains(#[trigger] board[4 * k + 4]),
    ensures
        !is_winning_board(board, called),
{
    assert forall|line: int| 0 <= line < 12 implies !line_complete(board, called, line) by {
        if line < 5 {
            assert(!row_called(board, called, line));
            let k = choose|k: int| 0 <= k < 5 && !called.contains(#[trigger] board[5 * line + k]);
            assert(board[line_cell(line, k)] == board[5 * line + k]);
        } else if line < 10 {
            let c = line - 5;
            assert(!column_called(board, called, c));
            let k = choose|k: int| 0 <= k < 5 && !called.contains(#[trigger] board[5 * k + c]);
            assert(board[line_cell(line, k)] == board[5 * k + c]);
        } else if line == 10 {
            let k = choose|k: int| 0 <= k < 5 && !called.contains(#[trigger] board[6 * k]);
            assert(board[line_cell(line, k)] == board[6 * k]);
        } else {
            let k = choose|k: int| 0 <= k < 5 && !called.contains(#[trigger] board[4 * k + 4]);
            assert(board[line_cell(line, k)] == board[4 * k + 4]);
        }
    }
}

/// Whether a board wins depends only on which ids were called: neither their
/// order nor extra ids that complete no line change a winning board into a
/// losing one.
pub proof fn lemma_more_called_still_wins(board: Seq<u8>, called: Seq<u8>, more: Seq<u8>)
    requires
        is_winning_board(board, called),
        forall|id: u8| called.contains(id) ==> more.contains(id),
    ensures
        is_winning_board(board, more),
{
    let line = choose|line: int| 0 <= line < 12 && #[trigger] line_complete(board, called, line);
    assert forall|k: int| 0 <= k < 5 implies more.contains(#[trigger] board[line_cell(line, k)]) by {
        assert(called.contains(board[line_cell(line, k)]));
    }
    assert(line_complete(board, more, line));
}

} // verus!
