use connect_games::board::{BoardSize, Difficulty};
use connect_games::otto::TootOttoBoard;
use connect_games::ottobot::OttoBot;

#[test]
fn difficulty_fixes_the_search_depth_and_perspective() {
    let easy = OttoBot::new(Difficulty::Easy, 'O');
    assert_eq!(easy.depth, 3);
    assert_eq!(easy.play_as, 'O');
    let hard = OttoBot::new(Difficulty::Hard, 'T');
    assert_eq!(hard.depth, 5);
    assert_eq!(hard.play_as, 'T');
}

#[test]
fn empty_board_evaluates_to_zero() {
    let board = TootOttoBoard::new(BoardSize::Standard);
    let bot = OttoBot::new(Difficulty::Easy, 'O');
    assert_eq!(bot.evaluate(&board, 'O'), 0);
    assert_eq!(bot.evaluate(&board, 'T'), 0);
}

#[test]
fn single_center_token_evaluates_to_one() {
    // One 'O' in column 2: worth the center reward for 'O' and nothing
    // for 'T', since no group has an opposite-symbol continuation.
    let mut board = TootOttoBoard::new(BoardSize::Standard);
    board.perform_move_plz(2, 'O', 'O');
    let bot = OttoBot::new(Difficulty::Easy, 'O');
    assert_eq!(bot.evaluate(&board, 'O'), 1);
    assert_eq!(bot.evaluate(&board, 'T'), 0);
}

#[test]
fn two_in_progress_scores_ten() {
    // 'O' under 'T' in column 0: the upward group O-T counts 10 for 'O';
    // for 'T' the same cells are T above O, worth 10 from the cell above
    // only when anchored there, which it is not, so 'T' sees nothing.
    let mut board = TootOttoBoard::new(BoardSize::Standard);
    board.perform_move_plz(0, 'O', 'O');
    board.perform_move_plz(0, 'T', 'O');
    let bot = OttoBot::new(Difficulty::Easy, 'O');
    assert_eq!(bot.evaluate(&board, 'O'), 10);
}

#[test]
fn completed_pattern_dominates_the_evaluation() {
    // Column 0 reads T-O-O-T bottom to top: a completed pattern for 'T'.
    let mut board = TootOttoBoard::new(BoardSize::Standard);
    board.perform_move_plz(0, 'T', 'O');
    board.perform_move_plz(0, 'O', 'T');
    board.perform_move_plz(0, 'O', 'O');
    board.perform_move_plz(0, 'T', 'T');
    let bot = OttoBot::new(Difficulty::Easy, 'T');
    assert!(bot.evaluate(&board, 'T') >= 100000);
}

#[test]
fn ai_move_is_always_legal() {
    for _ in 0..10 {
        let mut board = TootOttoBoard::new(BoardSize::Standard);
        let (col, tok) = board.get_ai_move('O', 1);
        assert!(col < 6);
        assert!(tok == 'O' || tok == 'T');
        assert!(board.allows_move(col));
    }
}

#[test]
fn best_move_encodes_column_and_token() {
    let mut board = TootOttoBoard::new(BoardSize::Standard);
    let bot = OttoBot::new(Difficulty::Easy, 'O');
    let mv = bot.best_move(&mut board, 'O');
    let chars: Vec<char> = mv.chars().collect();
    assert_eq!(chars.len(), 2);
    let col = chars[0].to_digit(10).expect("column digit") as u32;
    assert!(col < 6);
    assert!(chars[1] == 'O' || chars[1] == 'T');
    // The search hands the board back untouched.
    for r in 0..4 {
        for c in 0..6 {
            assert_eq!(board.get(r, c), ' ');
        }
    }
}

#[test]
fn ai_completes_its_own_pattern() {
    // Column 5 already reads O-T-T from the bottom; placing 'O' there
    // completes O-T-T-O and ends the game in Otto's favor. The maximizing
    // search must find a move that wins at once.
    for _ in 0..5 {
        let mut board = TootOttoBoard::new(BoardSize::Standard);
        board.perform_move_plz(5, 'O', 'O');
        board.perform_move_plz(5, 'T', 'T');
        board.perform_move_plz(5, 'T', 'O');
        let (col, tok) = board.get_ai_move('O', 1);
        board.perform_move_plz(col, tok, 'O');
        assert_eq!(board.has_winner(), 'w');
        assert_eq!(board.get_winner(), Some('O'));
    }
}

#[test]
fn otto_search_hands_back_the_record() {
    let mut board = TootOttoBoard::new(BoardSize::Standard);
    board.perform_move_plz(1, 'T', 'O');
    let (col, tok) = board.get_ai_move('O', 1);
    assert!(col < 6);
    assert!(tok == 'O' || tok == 'T');
    assert_eq!(board.last_row(), Some(3));
    assert_eq!(board.last_col(), Some(1));
    assert_eq!(board.get_winner(), None);
}
