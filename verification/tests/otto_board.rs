use connect_games::board::{BoardSize, MoveError, TerminalResult};
use connect_games::otto::TootOttoBoard;

#[test]
fn otto_fresh_board_dimensions() {
    let standard = TootOttoBoard::new(BoardSize::Standard);
    assert_eq!(standard.width(), 6);
    assert_eq!(standard.height(), 4);
    let large = TootOttoBoard::new(BoardSize::Large);
    assert_eq!(large.width(), 9);
    assert_eq!(large.height(), 6);
    assert_eq!(standard.last_row(), None);
    assert_eq!(standard.last_col(), None);
    assert_eq!(standard.get_winner(), None);
}

#[test]
fn tokens_fall_and_are_recorded() {
    let mut board = TootOttoBoard::new(BoardSize::Standard);
    board.perform_move_plz(2, 'T', 'O');
    assert_eq!(board.get(3, 2), 'T');
    assert_eq!(board.last_row(), Some(3));
    assert_eq!(board.last_col(), Some(2));
    board.perform_move_plz(2, 'O', 'T');
    assert_eq!(board.get(2, 2), 'O');
}

#[test]
fn rejected_moves_leave_the_board_alone() {
    let mut board = TootOttoBoard::new(BoardSize::Standard);
    // A symbol outside the two legal ones is refused.
    board.perform_move_plz(0, 'X', 'O');
    assert_eq!(board.get(3, 0), ' ');
    assert_eq!(board.last_col(), None);
    assert_eq!(board.try_move(0, 'X', 'O'), Err(MoveError::InvalidSymbol));
    assert_eq!(board.try_move(6, 'O', 'O'), Err(MoveError::InvalidColumn));
    for _ in 0..4 {
        board.perform_move_plz(1, 'O', 'O');
    }
    assert!(!board.allows_move(1));
    assert_eq!(board.try_move(1, 'T', 'T'), Err(MoveError::ColumnFull));
    assert_eq!(board.try_move(0, 'T', 'T'), Ok(()));
    assert_eq!(board.get(3, 0), 'T');
}

#[test]
fn undo_removes_only_the_top_token() {
    let mut board = TootOttoBoard::new(BoardSize::Standard);
    board.perform_move_plz(0, 'O', 'O');
    board.perform_move_plz(0, 'T', 'T');
    board.undo_move(0);
    assert_eq!(board.get(2, 0), ' ');
    assert_eq!(board.get(3, 0), 'O');
    board.undo_move(5);
    assert_eq!(board.get(3, 5), ' ');
}

#[test]
fn otto_legal_columns_are_exactly_the_open_ones() {
    let mut board = TootOttoBoard::new(BoardSize::Standard);
    assert_eq!(board.available_moves(), vec![0, 1, 2, 3, 4, 5]);
    for _ in 0..4 {
        board.perform_move_plz(4, 'O', 'O');
    }
    let moves = board.available_moves();
    assert_eq!(moves, vec![0, 1, 2, 3, 5]);
    for c in 0..6 {
        assert_eq!(board.allows_move(c), moves.contains(&c));
    }
}

#[test]
fn vertical_pattern_wins_for_its_outer_symbol() {
    // Column 0 filled bottom-to-top with T, O, O, T reads T-O-O-T.
    let mut board = TootOttoBoard::new(BoardSize::Standard);
    board.perform_move_plz(0, 'T', 'O');
    board.perform_move_plz(0, 'O', 'T');
    assert_eq!(board.has_winner(), 'f');
    board.perform_move_plz(0, 'O', 'O');
    board.perform_move_plz(0, 'T', 'T');
    assert_eq!(board.has_winner(), 'w');
    assert_eq!(board.get_winner(), Some('T'));
    assert!(board.is_terminal());
    assert_eq!(board.terminal_state(), TerminalResult::Win('T'));
    assert_eq!(board.game_value(), i32::MIN);
}

#[test]
fn single_placement_completing_both_patterns_is_a_tie() {
    // Bottom row becomes O T T O O T: columns 0..=3 read O-T-T-O and
    // columns 2..=5 read T-O-O-T, so one move completes a pattern for
    // each symbol at once.
    let mut board = TootOttoBoard::new(BoardSize::Standard);
    board.perform_move_plz(0, 'O', 'O');
    board.perform_move_plz(1, 'T', 'T');
    board.perform_move_plz(2, 'T', 'O');
    board.perform_move_plz(4, 'O', 'T');
    board.perform_move_plz(5, 'T', 'O');
    assert_eq!(board.has_winner(), 'f');
    board.perform_move_plz(3, 'O', 'T');
    assert_eq!(board.has_winner(), 't');
    assert_eq!(board.terminal_state(), TerminalResult::Tie);
    // A tie names no winner and is not a win for either symbol.
    assert_eq!(board.get_winner(), None);
    assert_eq!(board.game_value(), 0);
    assert!(board.is_terminal());
}

#[test]
fn full_board_without_a_pattern_is_a_draw() {
    // All cells 'O': no window has the opposite symbol inside.
    let mut board = TootOttoBoard::new(BoardSize::Standard);
    for c in 0..6 {
        for _ in 0..4 {
            board.perform_move_plz(c, 'O', 'O');
        }
    }
    assert!(board.is_draw());
    assert_eq!(board.has_winner(), 'f');
    assert!(board.is_terminal());
    assert_eq!(board.terminal_state(), TerminalResult::Draw);
}

#[test]
fn diagonal_pattern_wins() {
    // Build an up-right diagonal O-T-T-O from (3,0) to (0,3).
    let mut board = TootOttoBoard::new(BoardSize::Standard);
    board.perform_move_plz(0, 'O', 'O');
    board.perform_move_plz(1, 'X', 'O');  // rejected: invalid symbol
    board.perform_move_plz(1, 'O', 'O');
    board.perform_move_plz(1, 'T', 'O');
    board.perform_move_plz(2, 'O', 'O');
    board.perform_move_plz(2, 'O', 'O');
    board.perform_move_plz(2, 'T', 'O');
    board.perform_move_plz(3, 'T', 'O');
    board.perform_move_plz(3, 'O', 'O');
    board.perform_move_plz(3, 'T', 'O');
    assert_eq!(board.has_winner(), 'f');
    board.perform_move_plz(3, 'O', 'O');
    assert_eq!(board.has_winner(), 'w');
    assert_eq!(board.get_winner(), Some('O'));
}

#[test]
fn large_board_vertical_pattern() {
    let mut board = TootOttoBoard::new(BoardSize::Large);
    board.perform_move_plz(8, 'O', 'O');
    board.perform_move_plz(8, 'T', 'T');
    board.perform_move_plz(8, 'T', 'O');
    assert_eq!(board.has_winner(), 'f');
    board.perform_move_plz(8, 'O', 'T');
    assert_eq!(board.has_winner(), 'w');
    assert_eq!(board.get_winner(), Some('O'));
}
