use connect_games::board::{BoardSize, MoveError, TerminalResult};
use connect_games::connect4::Connect4Board;

fn snapshot(board: &Connect4Board) -> Vec<Vec<char>> {
    let mut cells = Vec::new();
    for r in 0..board.height() as usize {
        let mut row = Vec::new();
        for c in 0..board.width() as usize {
            row.push(board.get_colour(r, c));
        }
        cells.push(row);
    }
    cells
}

#[test]
fn fresh_board_dimensions() {
    let standard = Connect4Board::new(BoardSize::Standard);
    assert_eq!(standard.width(), 7);
    assert_eq!(standard.height(), 6);
    let large = Connect4Board::new(BoardSize::Large);
    assert_eq!(large.width(), 10);
    assert_eq!(large.height(), 7);
    assert_eq!(standard.last_row(), None);
    assert_eq!(standard.last_col(), None);
    assert_eq!(standard.last_player(), None);
    for r in 0..6 {
        for c in 0..7 {
            assert_eq!(standard.get_colour(r, c), ' ');
        }
    }
    assert_eq!(standard.get_colour(6, 0), '_');
    assert_eq!(standard.get_colour(0, 7), '_');
}

#[test]
fn tokens_fall_to_the_bottom() {
    let mut board = Connect4Board::new(BoardSize::Standard);
    board.perform_move(3, 'X');
    assert_eq!(board.get_colour(5, 3), 'X');
    assert_eq!(board.last_row(), Some(5));
    assert_eq!(board.last_col(), Some(3));
    assert_eq!(board.last_player(), Some('X'));
    board.perform_move(3, 'O');
    assert_eq!(board.get_colour(4, 3), 'O');
    assert_eq!(board.last_row(), Some(4));
}

#[test]
fn gravity_holds_after_many_placements() {
    let mut board = Connect4Board::new(BoardSize::Standard);
    let cols = [3, 3, 0, 6, 6, 6, 2, 3, 0, 1, 5, 4, 4];
    let mut sym = 'X';
    for &c in cols.iter() {
        board.perform_move(c, sym);
        sym = if sym == 'X' { 'O' } else { 'X' };
    }
    for c in 0..7usize {
        for r in 0..5usize {
            if board.get_colour(r, c) != ' ' {
                assert_ne!(board.get_colour(r + 1, c), ' ');
            }
        }
    }
}

#[test]
fn illegal_moves_are_rejected_without_mutation() {
    let mut board = Connect4Board::new(BoardSize::Standard);
    board.perform_move(2, 'X');
    let before = snapshot(&board);
    board.perform_move(99, 'O');
    assert_eq!(snapshot(&board), before);
    assert_eq!(board.last_col(), Some(2));
    assert_eq!(board.try_move(99, 'O'), Err(MoveError::InvalidColumn));
    for _ in 0..5 {
        board.perform_move(2, 'O');
    }
    assert!(!board.allows_move(2));
    let full_before = snapshot(&board);
    assert_eq!(board.try_move(2, 'X'), Err(MoveError::ColumnFull));
    board.perform_move(2, 'X');
    assert_eq!(snapshot(&board), full_before);
    assert_eq!(board.try_move(3, 'X'), Ok(()));
}

#[test]
fn undo_restores_the_cell_matrix() {
    let mut board = Connect4Board::new(BoardSize::Standard);
    board.perform_move(1, 'X');
    board.perform_move(4, 'O');
    board.perform_move(1, 'O');
    let before = snapshot(&board);
    board.perform_move(1, 'X');
    board.undo_move(1);
    assert_eq!(snapshot(&board), before);
    // Removing from an empty column changes nothing.
    board.undo_move(5);
    assert_eq!(snapshot(&board), before);
}

#[test]
fn legal_columns_are_exactly_the_open_ones() {
    let mut board = Connect4Board::new(BoardSize::Standard);
    assert_eq!(board.available_moves(), vec![0, 1, 2, 3, 4, 5, 6]);
    for i in 0..6 {
        board.perform_move(0, if i % 2 == 0 { 'X' } else { 'O' });
    }
    let moves = board.available_moves();
    assert_eq!(moves, vec![1, 2, 3, 4, 5, 6]);
    for c in 0..7 {
        assert_eq!(board.allows_move(c), moves.contains(&c));
    }
    assert!(!board.allows_move(7));
}

#[test]
fn vertical_win_in_column_three() {
    let mut board = Connect4Board::new(BoardSize::Standard);
    for turn in 0..4 {
        assert_eq!(board.terminal_state(), TerminalResult::Ongoing);
        board.perform_move(3, 'X');
        if turn < 3 {
            assert!(!board.has_winner());
            board.perform_move(0, 'O');
        }
    }
    // Four 'X' tokens now stand in column 3, rows 2 through 5.
    for r in 2..6 {
        assert_eq!(board.get_colour(r, 3), 'X');
    }
    assert!(board.has_winner());
    assert!(board.is_terminal());
    assert_eq!(board.terminal_state(), TerminalResult::Win('X'));
    assert_eq!(board.game_value(), i32::MAX);
}

#[test]
fn horizontal_win_for_o() {
    let mut board = Connect4Board::new(BoardSize::Standard);
    for c in 1..4 {
        board.perform_move(c, 'O');
        board.perform_move(c, 'X');
    }
    board.perform_move(4, 'O');
    assert_eq!(board.terminal_state(), TerminalResult::Win('O'));
    assert_eq!(board.game_value(), i32::MIN);
}

#[test]
fn full_board_without_a_run_is_a_draw() {
    // Rows alternate between two fixed patterns with no run of four in
    // any direction.
    let row_a = ['X', 'X', 'O', 'X', 'X', 'O', 'X'];
    let row_b = ['O', 'O', 'X', 'O', 'O', 'X', 'O'];
    let mut board = Connect4Board::new(BoardSize::Standard);
    for c in 0..7u32 {
        for r in (0..6usize).rev() {
            let sym = if r % 2 == 0 { row_a[c as usize] } else { row_b[c as usize] };
            board.perform_move(c, sym);
        }
    }
    assert!(board.is_draw());
    assert!(!board.has_winner());
    assert!(board.is_terminal());
    assert_eq!(board.terminal_state(), TerminalResult::Draw);
    assert_eq!(board.game_value(), 0);
}

#[test]
fn setters_validate_their_input() {
    let mut board = Connect4Board::new(BoardSize::Standard);
    board.set_last_col(Some(3));
    assert_eq!(board.last_col(), Some(3));
    board.set_last_col(Some(99));
    assert_eq!(board.last_col(), Some(3));
    board.set_last_row(Some(5));
    assert_eq!(board.last_row(), Some(5));
    board.set_last_row(Some(6));
    assert_eq!(board.last_row(), Some(5));
    board.set_last_player(Some('O'));
    assert_eq!(board.last_player(), Some('O'));
    board.set_last_col(None);
    assert_eq!(board.last_col(), None);
}

#[test]
fn set_board_accepts_only_well_formed_matrices() {
    let mut board = Connect4Board::new(BoardSize::Standard);
    let mut cells = vec![vec![' '; 7]; 6];
    cells[5][0] = 'X';
    cells[4][0] = 'O';
    board.set_board(cells);
    assert_eq!(board.get_colour(5, 0), 'X');
    assert_eq!(board.get_colour(4, 0), 'O');
    // A floating token violates gravity and is refused.
    let mut bad = vec![vec![' '; 7]; 6];
    bad[0][0] = 'X';
    board.set_board(bad);
    assert_eq!(board.get_colour(0, 0), ' ');
    assert_eq!(board.get_colour(5, 0), 'X');
    // A wrongly sized matrix is refused.
    board.set_board(vec![vec![' '; 7]; 5]);
    assert_eq!(board.get_colour(5, 0), 'X');
    // A matrix holding a character outside the two symbols is refused.
    let mut alien = vec![vec![' '; 7]; 6];
    alien[5][1] = 'Z';
    board.set_board(alien);
    assert_eq!(board.get_colour(5, 1), ' ');
    assert_eq!(board.get_colour(5, 0), 'X');
}

#[test]
fn down_right_diagonal_win() {
    // 'X' along (2,1), (3,2), (4,3), (5,4), completed last at (2,1).
    let mut board = Connect4Board::new(BoardSize::Standard);
    board.perform_move(4, 'X');
    board.perform_move(3, 'O');
    board.perform_move(3, 'X');
    board.perform_move(2, 'O');
    board.perform_move(2, 'O');
    board.perform_move(2, 'X');
    board.perform_move(1, 'O');
    board.perform_move(1, 'O');
    board.perform_move(1, 'O');
    assert!(!board.has_winner());
    board.perform_move(1, 'X');
    assert_eq!(board.terminal_state(), TerminalResult::Win('X'));
}

#[test]
fn down_left_diagonal_win() {
    // 'X' along (2,4), (3,3), (4,2), (5,1), completed last at (2,4).
    let mut board = Connect4Board::new(BoardSize::Standard);
    board.perform_move(1, 'X');
    board.perform_move(2, 'O');
    board.perform_move(2, 'X');
    board.perform_move(3, 'O');
    board.perform_move(3, 'O');
    board.perform_move(3, 'X');
    board.perform_move(4, 'O');
    board.perform_move(4, 'O');
    board.perform_move(4, 'O');
    assert!(!board.has_winner());
    board.perform_move(4, 'X');
    assert_eq!(board.terminal_state(), TerminalResult::Win('X'));
}

#[test]
fn large_board_vertical_win() {
    let mut board = Connect4Board::new(BoardSize::Large);
    for _ in 0..3 {
        board.perform_move(9, 'O');
        board.perform_move(0, 'X');
    }
    assert!(!board.has_winner());
    board.perform_move(9, 'O');
    assert_eq!(board.terminal_state(), TerminalResult::Win('O'));
}
