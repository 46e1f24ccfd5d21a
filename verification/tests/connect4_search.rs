use connect_games::board::{BoardSize, Difficulty};
use connect_games::connect4::{Connect4AI, Connect4Board};

#[test]
fn difficulty_fixes_the_search_depth() {
    assert_eq!(Connect4AI::new(Difficulty::Easy).depth, 1);
    assert_eq!(Connect4AI::new(Difficulty::Hard).depth, 5);
}

#[test]
fn empty_board_scores_zero() {
    let board = Connect4Board::new(BoardSize::Standard);
    let ai = Connect4AI::new(Difficulty::Easy);
    assert_eq!(ai.score_position(&board, true), 0);
    assert_eq!(ai.score_position(&board, false), 0);
}

#[test]
fn single_center_token_scores_three() {
    // One 'X' in the center column: +3 center control, and every window
    // holding it has only one own token, which scores nothing.
    let mut board = Connect4Board::new(BoardSize::Standard);
    board.perform_move(3, 'X');
    let ai = Connect4AI::new(Difficulty::Easy);
    assert_eq!(ai.score_position(&board, true), 3);
    assert_eq!(ai.score_position(&board, false), 0);
}

#[test]
fn three_in_a_row_rewards_and_penalizes() {
    // 'X' on columns 2, 3, 4 of the bottom row. For 'X', all in the bottom
    // row: two horizontal windows with three own tokens and one empty
    // (+5 each), two with two own tokens and two empties (+2 each), and
    // one center token (+3); vertical and diagonal windows hold at most
    // one of the tokens and score nothing. For 'O', the two
    // three-with-one-empty windows score -4 each.
    let mut board = Connect4Board::new(BoardSize::Standard);
    board.perform_move(2, 'X');
    board.perform_move(3, 'X');
    board.perform_move(4, 'X');
    let ai = Connect4AI::new(Difficulty::Easy);
    assert_eq!(ai.score_position(&board, true), 17);
    assert_eq!(ai.score_position(&board, false), -8);
}

#[test]
fn best_move_on_an_empty_board_is_legal() {
    let ai = Connect4AI::new(Difficulty::Easy);
    for _ in 0..20 {
        let mut board = Connect4Board::new(BoardSize::Standard);
        let col = ai.best_move(&mut board, 'X');
        assert!(col < 7);
        assert!(board.allows_move(col));
        // The search hands the board back untouched.
        for r in 0..6 {
            for c in 0..7 {
                assert_eq!(board.get_colour(r, c), ' ');
            }
        }
    }
}

#[test]
fn search_takes_an_immediate_win() {
    // 'X' holds columns 0..=2 of the bottom row; playing column 3 wins at
    // once, and the depth-1 search must find it whatever its random
    // starting candidate was.
    for _ in 0..10 {
        let mut board = Connect4Board::new(BoardSize::Standard);
        for c in 0..3 {
            board.perform_move(c, 'X');
            board.perform_move(c, 'O');
        }
        let ai = Connect4AI::new(Difficulty::Easy);
        let col = ai.best_move(&mut board, 'X');
        assert_eq!(col, 3);
    }
}

#[test]
fn search_blocks_or_wins_at_depth_five() {
    // 'O' threatens columns 0..=2 of the bottom row. 'X' to move at hard
    // depth must not let the threat stand: after its move and the obvious
    // reply, 'O' must not have won.
    let mut board = Connect4Board::new(BoardSize::Standard);
    board.perform_move(0, 'O');
    board.perform_move(0, 'X');
    board.perform_move(1, 'O');
    board.perform_move(1, 'X');
    board.perform_move(2, 'O');
    let ai = Connect4AI::new(Difficulty::Hard);
    let col = ai.best_move(&mut board, 'X');
    board.perform_move(col, 'X');
    assert!(!board.has_winner());
    if board.allows_move(3) {
        board.perform_move(3, 'O');
        assert!(!board.has_winner());
    }
}

#[test]
fn search_hands_back_the_record() {
    let mut board = Connect4Board::new(BoardSize::Standard);
    board.perform_move(2, 'X');
    let ai = Connect4AI::new(Difficulty::Easy);
    let _ = ai.best_move(&mut board, 'O');
    assert_eq!(board.last_row(), Some(5));
    assert_eq!(board.last_col(), Some(2));
    assert_eq!(board.last_player(), Some('X'));
}
