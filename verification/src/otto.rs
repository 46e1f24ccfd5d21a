//! The dual-token variant: either player may place either of the two
//! symbols, and a win is a four-cell run whose outer tokens match and
//! whose inner tokens are the opposite symbol. Win detection scans the
//! whole board; a position in which both symbols complete a pattern at
//! once is a tie, not a win for either.

use vstd::prelude::*;
use vstd::string::StringExecFns;
use crate::board::{BoardSize, Difficulty, MoveError, TerminalResult};
use crate::grid::{
    blank_matrix, board_full, col_open, dims_ok, drop_token, gravity_ok, landing_row, lift_token,
    matrix_view, open_cols, place_cells, remove_top_cells,
};

verus! {

/// Mathematical state of a dual-token board.
pub ghost struct OttoState {
    pub width: int,
    pub height: int,
    pub cells: Seq<Seq<char>>,
    pub last_row: Option<u32>,
    pub last_col: Option<u32>,
    pub last_player: Option<char>,
    pub winner: Option<char>,
}

pub struct TootOttoBoard {
    board: Vec<Vec<char>>,
    width: u32,
    height: u32,
    last_player: Option<char>,
    last_row: Option<u32>,
    last_col: Option<u32>,
    winner: Option<char>,
}

impl View for TootOttoBoard {
    type V = OttoState;

    closed spec fn view(&self) -> OttoState {
        OttoState {
            width: self.width as int,
            height: self.height as int,
            cells: matrix_view(&self.board),
            last_row: self.last_row,
            last_col: self.last_col,
            last_player: self.last_player,
            winner: self.winner,
        }
    }
}

/// The two supported presets.
pub open spec fn otto_dims(width: int, height: int) -> bool {
    (width == 6 && height == 4) || (width == 9 && height == 6)
}

/// The other of the two symbols.
pub open spec fn otto_opp(sym: char) -> char {
    if sym == 'O' {
        'T'
    } else {
        'O'
    }
}

/// A move is legal when the column exists and its top cell is empty.
pub open spec fn otto_allows(m: OttoState, col: int) -> bool {
    0 <= col < m.width && col_open(m.cells, col)
}

/// The state after a legal placement of `tok` by `player`.
pub open spec fn otto_place_state(m: OttoState, col: int, tok: char, player: char) -> OttoState {
    OttoState {
        width: m.width,
        height: m.height,
        cells: place_cells(m.cells, col, tok, m.height),
        last_row: Some(landing_row(m.cells, col, m.height) as u32),
        last_col: Some(col as u32),
        last_player: Some(player),
        winner: m.winner,
    }
}

impl TootOttoBoard {
    /// Well-formedness: preset dimensions, a rectangular gravity-respecting
    /// matrix, and an in-range last-move record.
    pub open spec fn wf(&self) -> bool {
        &&& otto_dims(self@.width, self@.height)
        &&& dims_ok(self@.cells, self@.width, self@.height)
        &&& gravity_ok(self@.cells, self@.width, self@.height)
        &&& match self@.last_row {
            Some(r) => (r as int) < self@.height,
            None => true,
        }
        &&& match self@.last_col {
            Some(c) => (c as int) < self@.width,
            None => true,
        }
    }

    pub fn new(size: BoardSize) -> (board: TootOttoBoard)
        ensures
            board.wf(),
            board@.width == if size == BoardSize::Standard { 6int } else { 9int },
            board@.height == if size == BoardSize::Standard { 4int } else { 6int },
            forall|r: int, c: int|
                0 <= r < board@.height && 0 <= c < board@.width ==> board@.cells[r][c] == ' ',
            board@.last_row is None,
            board@.last_col is None,
            board@.last_player is None,
            board@.winner is None,
    {
        let (width, height): (u32, u32) = match size {
            BoardSize::Standard => (6, 4),
            BoardSize::Large => (9, 6),
        };
        TootOttoBoard {
            width,
            height,
            board: blank_matrix(width as usize, height as usize),
            last_row: None,
            last_col: None,
            last_player: None,
            winner: None,
        }
    }

    pub fn width(&self) -> (w: u32)
        ensures
            w as int == self@.width,
    {
        self.width
    }

    pub fn height(&self) -> (h: u32)
        ensures
            h as int == self@.height,
    {
        self.height
    }

    pub fn last_row(&self) -> (r: Option<u32>)
        ensures
            r == self@.last_row,
    {
        self.last_row
    }

    pub fn last_col(&self) -> (c: Option<u32>)
        ensures
            c == self@.last_col,
    {
        self.last_col
    }

    pub fn get_winner(&self) -> (w: Option<char>)
        ensures
            w == self@.winner,
    {
        self.winner
    }

    /// The token at `(row, col)`.
    pub fn get(&self, row: usize, col: usize) -> (c: char)
        requires
            self.wf(),
            row < self@.height,
            col < self@.width,
        ensures
            c == self@.cells[row as int][col as int],
    {
        proof {
            crate::grid::lemma_rows(&self.board, self@.width, self@.height);
        }
        self.board[row][col]
    }

    pub fn allows_move(&self, col: u32) -> (r: bool)
        requires
            self.wf(),
        ensures
            r == otto_allows(self@, col as int),
    {
        proof {
            crate::grid::lemma_rows(&self.board, self@.width, self@.height);
        }
        col < self.width && self.board[0][col as usize] == ' '
    }

    /// The legal columns in ascending order. A column is legal exactly when
    /// it appears here.
    pub fn available_moves(&self) -> (moves: Vec<u32>)
        requires
            self.wf(),
        ensures
            forall|i: int|
                0 <= i < moves@.len() ==> otto_allows(self@, (#[trigger] moves@[i]) as int),
            forall|c: u32| otto_allows(self@, c as int) ==> moves@.contains(c),
            forall|i: int, j: int| 0 <= i < j < moves@.len() ==> moves@[i] < moves@[j],
    {
        open_cols(&self.board, self.width, self.height)
    }

    pub fn is_draw(&self) -> (r: bool)
        requires
            self.wf(),
        ensures
            r == board_full(self@.cells, self@.width),
    {
        let moves = self.available_moves();
        let empty = moves.is_empty();
        proof {
            if empty {
                assert forall|c: int| 0 <= c < self@.width implies !col_open(self@.cells, c) by {
                    if col_open(self@.cells, c) {
                        assert(moves@.contains(c as u32));
                    }
                }
            } else {
                assert(otto_allows(self@, moves@[0] as int));
            }
        }
        empty
    }

    /// Places `tok` for `player` into `col`, recording the placement. A
    /// move into a full or nonexistent column, or one naming a symbol
    /// other than the two legal ones, is rejected without mutating
    /// anything.
    pub fn perform_move_plz(&mut self, col: u32, tok: char, player: char)
        requires
            old(self).wf(),
        ensures
            final(self).wf(),
            (tok == 'O' || tok == 'T') && otto_allows(old(self)@, col as int) ==> final(self)@
                == otto_place_state(old(self)@, col as int, tok, player),
            !((tok == 'O' || tok == 'T') && otto_allows(old(self)@, col as int)) ==> final(self)@
                == old(self)@,
    {
        proof {
            crate::grid::lemma_rows(&self.board, self@.width, self@.height);
        }
        if (tok == 'O' || tok == 'T') && col < self.width && self.board[0][col as usize] == ' ' {
            let row = drop_token(
                &mut self.board,
                col as usize,
                tok,
                self.width as usize,
                self.height as usize,
            );
            self.last_row = Some(row as u32);
            self.last_col = Some(col);
            self.last_player = Some(player);
        }
    }

    /// Attempt a move, reporting exactly why an illegal one was rejected.
    pub fn try_move(&mut self, col: u32, tok: char, player: char) -> (r: Result<(), MoveError>)
        requires
            old(self).wf(),
        ensures
            final(self).wf(),
            r is Ok <==> ((tok == 'O' || tok == 'T') && otto_allows(old(self)@, col as int)),
            r is Ok ==> final(self)@ == otto_place_state(old(self)@, col as int, tok, player),
            r is Err ==> final(self)@ == old(self)@,
            (col as int) >= old(self)@.width ==> r == Result::<(), MoveError>::Err(
                MoveError::InvalidColumn,
            ),
            (col as int) < old(self)@.width && !(tok == 'O' || tok == 'T') ==> r == Result::<
                (),
                MoveError,
            >::Err(MoveError::InvalidSymbol),
            (col as int) < old(self)@.width && (tok == 'O' || tok == 'T') && !col_open(
                old(self)@.cells,
                col as int,
            ) ==> r == Result::<(), MoveError>::Err(MoveError::ColumnFull),
    {
        proof {
            crate::grid::lemma_rows(&self.board, self@.width, self@.height);
        }
        if col >= self.width {
            Err(MoveError::InvalidColumn)
        } else if !(tok == 'O' || tok == 'T') {
            Err(MoveError::InvalidSymbol)
        } else if self.board[0][col as usize] != ' ' {
            Err(MoveError::ColumnFull)
        } else {
            self.perform_move_plz(col, tok, player);
            Ok(())
        }
    }

    /// Removes the single topmost token of `col`, reversing exactly one
    /// placement there. The last-move record is untouched.
    pub fn undo_move(&mut self, col: usize)
        requires
            old(self).wf(),
        ensures
            final(self).wf(),
            final(self)@.width == old(self)@.width,
            final(self)@.height == old(self)@.height,
            final(self)@.last_row == old(self)@.last_row,
            final(self)@.last_col == old(self)@.last_col,
            final(self)@.last_player == old(self)@.last_player,
            final(self)@.winner == old(self)@.winner,
            (col as int) < old(self)@.width ==> final(self)@.cells == remove_top_cells(
                old(self)@.cells,
                col as int,
                old(self)@.height,
            ),
            (col as int) >= old(self)@.width ==> final(self)@ == old(self)@,
    {
        if col < self.width as usize {
            lift_token(&mut self.board, col, self.width as usize, self.height as usize);
        }
    }
}

/// The pattern `sym opp opp sym` starting at `(r, c)`, stepping `(dr, dc)`.
pub open spec fn abba4(cells: Seq<Seq<char>>, r: int, c: int, dr: int, dc: int, sym: char) -> bool {
    &&& cells[r][c] == sym
    &&& cells[r + dr][c + dc] == otto_opp(sym)
    &&& cells[r + 2 * dr][c + 2 * dc] == otto_opp(sym)
    &&& cells[r + 3 * dr][c + 3 * dc] == sym
}

/// A completed winning pattern for `sym` in one of the four line
/// directions starting at `(r, c)`.
pub open spec fn otto_cell_hit(cells: Seq<Seq<char>>, w: int, h: int, r: int, c: int, sym: char) -> bool {
    ||| (0 <= r < h && 0 <= c && c + 3 < w && abba4(cells, r, c, 0, 1, sym))
    ||| (0 <= r && r + 3 < h && 0 <= c < w && abba4(cells, r, c, 1, 0, sym))
    ||| (0 <= r && r + 3 < h && 0 <= c && c + 3 < w && abba4(cells, r, c, 1, 1, sym))
    ||| (0 <= r && r + 3 < h && 3 <= c < w && abba4(cells, r, c, 1, -1, sym))
}

/// `sym` has completed a winning pattern somewhere on the board.
pub open spec fn otto_sym_wins(cells: Seq<Seq<char>>, w: int, h: int, sym: char) -> bool {
    exists|r: int, c: int| #[trigger] otto_cell_hit(cells, w, h, r, c, sym)
}

/// A move has been recorded; before the first move the detector reports an
/// ongoing game whatever the cells hold.
pub open spec fn otto_last_set(m: OttoState) -> bool {
    m.last_row is Some && m.last_col is Some
}

/// The detector's answer: 'w' for a single winner, 't' when both symbols
/// completed a pattern, 'f' otherwise.
pub open spec fn otto_winner_code(m: OttoState) -> char {
    if !otto_last_set(m) {
        'f'
    } else {
        let ow = otto_sym_wins(m.cells, m.width, m.height, 'O');
        let tw = otto_sym_wins(m.cells, m.width, m.height, 'T');
        if ow && tw {
            't'
        } else if ow || tw {
            'w'
        } else {
            'f'
        }
    }
}

/// The state after one run of the detector: a single winner is recorded,
/// everything else is untouched.
pub open spec fn otto_after_check(m: OttoState) -> OttoState {
    if otto_winner_code(m) == 'w' {
        OttoState {
            winner: Some(
                if otto_sym_wins(m.cells, m.width, m.height, 'O') {
                    'O'
                } else {
                    'T'
                },
            ),
            ..m
        }
    } else {
        m
    }
}

/// The game is over: some pattern is complete, both are, or the board is
/// full.
pub open spec fn otto_terminal(m: OttoState) -> bool {
    otto_winner_code(m) != 'f' || board_full(m.cells, m.width)
}

/// The terminal score: a large sentinel for a decided game, 0 otherwise;
/// a tie scores 0 like a draw.
pub open spec fn otto_game_value(m: OttoState) -> int {
    if otto_winner_code(m) == 'w' {
        if otto_sym_wins(m.cells, m.width, m.height, 'O') {
            i32::MAX as int
        } else {
            i32::MIN as int
        }
    } else {
        0
    }
}

/// The resolved outcome of a position. A position in which both symbols
/// completed a pattern is a tie, deliberately not a win for either.
pub open spec fn otto_outcome(m: OttoState) -> TerminalResult {
    if otto_winner_code(m) == 'w' {
        TerminalResult::Win(
            if otto_sym_wins(m.cells, m.width, m.height, 'O') {
                'O'
            } else {
                'T'
            },
        )
    } else if otto_winner_code(m) == 't' {
        TerminalResult::Tie
    } else if board_full(m.cells, m.width) {
        TerminalResult::Draw
    } else {
        TerminalResult::Ongoing
    }
}

/// Terminal consistency for the dual-token game: a full board on which
/// neither symbol completed a pattern resolves to a draw, and a reported
/// win is witnessed by a completed pattern of the winning symbol in the
/// cell matrix.
pub proof fn lemma_otto_terminal_consistency(m: OttoState)
    ensures
        board_full(m.cells, m.width) && otto_winner_code(m) != 'w' && otto_winner_code(m) != 't'
            ==> otto_outcome(m) == TerminalResult::Draw,
        match otto_outcome(m) {
            TerminalResult::Win(p) => otto_sym_wins(m.cells, m.width, m.height, p),
            _ => true,
        },
{
}

impl TootOttoBoard {
    /// Whether `sym` has a completed pattern anywhere on the board.
    fn scan_pattern(&self, sym: char) -> (found: bool)
        requires
            self.wf(),
            sym == 'O' || sym == 'T',
        ensures
            found == otto_sym_wins(self@.cells, self@.width, self@.height, sym),
    {
        proof {
            crate::grid::lemma_rows(&self.board, self@.width, self@.height);
        }
        let ghost cells = self@.cells;
        let w = self.width;
        let h = self.height;
        let opp = if sym == 'O' {
            'T'
        } else {
            'O'
        };
        let mut r: u32 = 0;
        while r < h
            invariant
                self.wf(),
                cells == self@.cells,
                w as int == self@.width,
                h as int == self@.height,
                sym == 'O' || sym == 'T',
                opp == otto_opp(sym),
                r <= h,
                self.board@.len() == self@.height,
                forall|i: int| 0 <= i < self@.height ==> (#[trigger] self.board@[i])@.len()
                    == self@.width,
                forall|i: int, j: int|
                    0 <= i < self@.height && 0 <= j < self@.width ==> #[trigger] self.board@[i]@[j]
                        == cells[i][j],
                forall|rr: int, cc: int|
                    0 <= rr < r && 0 <= cc < w ==> !(#[trigger] otto_cell_hit(
                        cells,
                        w as int,
                        h as int,
                        rr,
                        cc,
                        sym,
                    )),
            decreases h - r,
        {
            let mut c: u32 = 0;
            while c < w
                invariant
                    self.wf(),
                    cells == self@.cells,
                    w as int == self@.width,
                    h as int == self@.height,
                    sym == 'O' || sym == 'T',
                    opp == otto_opp(sym),
                    r < h,
                    c <= w,
                    self.board@.len() == self@.height,
                    forall|i: int| 0 <= i < self@.height ==> (#[trigger] self.board@[i])@.len()
                        == self@.width,
                    forall|i: int, j: int|
                        0 <= i < self@.height && 0 <= j < self@.width ==> #[trigger] self.board@[
                        i]@[j] == cells[i][j],
                    forall|rr: int, cc: int|
                        0 <= rr < r && 0 <= cc < w ==> !(#[trigger] otto_cell_hit(
                            cells,
                            w as int,
                            h as int,
                            rr,
                            cc,
                            sym,
                        )),
                    forall|cc: int|
                        0 <= cc < c ==> !(#[trigger] otto_cell_hit(
                            cells,
                            w as int,
                            h as int,
                            r as int,
                            cc,
                            sym,
                        )),
                decreases w - c,
            {
                let ru = r as usize;
                let cu = c as usize;
                if c + 3 < w {
                    if self.board[ru][cu] == sym && self.board[ru][cu + 1] == opp && self.board[
                        ru][cu + 2] == opp && self.board[ru][cu + 3] == sym {
                        proof {
                            assert(otto_cell_hit(cells, w as int, h as int, r as int, c as int,
                                sym));
                        }
                        return true;
                    }
                }
                if r + 3 < h {
                    if self.board[ru][cu] == sym && self.board[ru + 1][cu] == opp && self.board[
                        ru + 2][cu] == opp && self.board[ru + 3][cu] == sym {
                        proof {
                            assert(otto_cell_hit(cells, w as int, h as int, r as int, c as int,
                                sym));
                        }
                        return true;
                    }
                    if c + 3 < w {
                        if self.board[ru][cu] == sym && self.board[ru + 1][cu + 1] == opp
                            && self.board[ru + 2][cu + 2] == opp && self.board[ru + 3][cu + 3]
                            == sym {
                            proof {
                                assert(otto_cell_hit(cells, w as int, h as int, r as int,
                                    c as int, sym));
                            }
                            return true;
                        }
                    }
                    if c >= 3 {
                        if self.board[ru][cu] == sym && self.board[ru + 1][cu - 1] == opp
                            && self.board[ru + 2][cu - 2] == opp && self.board[ru + 3][cu - 3]
                            == sym {
                            proof {
                                assert(otto_cell_hit(cells, w as int, h as int, r as int,
                                    c as int, sym));
                            }
                            return true;
                        }
                    }
                }
                proof {
                    assert(!otto_cell_hit(cells, w as int, h as int, r as int, c as int, sym));
                }
                c = c + 1;
            }
            r = r + 1;
        }
        proof {
            assert(!otto_sym_wins(cells, w as int, h as int, sym)) by {
                if otto_sym_wins(cells, w as int, h as int, sym) {
                    let (r0, c0) = choose|r0: int, c0: int|
                        #[trigger] otto_cell_hit(cells, w as int, h as int, r0, c0, sym);
                    assert(0 <= r0 < h && 0 <= c0 < w);
                }
            }
        }
        false
    }

    /// Scans the whole board: 'w' when exactly one symbol has a completed
    /// pattern (recording that symbol as the winner), 't' when both have,
    /// 'f' when neither has or no move was made yet.
    pub fn has_winner(&mut self) -> (r: char)
        requires
            old(self).wf(),
        ensures
            final(self).wf(),
            r == otto_winner_code(old(self)@),
            final(self)@ == otto_after_check(old(self)@),
    {
        if self.last_row.is_none() || self.last_col.is_none() {
            return 'f';
        }
        let o_wins = self.scan_pattern('O');
        let t_wins = self.scan_pattern('T');
        if o_wins && t_wins {
            't'
        } else if o_wins {
            self.winner = Some('O');
            'w'
        } else if t_wins {
            self.winner = Some('T');
            'w'
        } else {
            'f'
        }
    }

    /// The game is over: a win, a tie, or a full board.
    pub fn is_terminal(&mut self) -> (r: bool)
        requires
            old(self).wf(),
        ensures
            final(self).wf(),
            r == otto_terminal(old(self)@),
            final(self)@ == otto_after_check(old(self)@),
    {
        if self.has_winner() != 'f' || self.is_draw() {
            return true;
        }
        return false;
    }

    /// The terminal score seen by the search: `i32::MAX` when 'O' alone
    /// has a pattern, `i32::MIN` when 'T' alone has one, 0 otherwise (a
    /// tie scores like a draw).
    pub fn game_value(&mut self) -> (v: i32)
        requires
            old(self).wf(),
        ensures
            final(self).wf(),
            v as int == otto_game_value(old(self)@),
            final(self)@ == otto_after_check(old(self)@),
    {
        if self.has_winner() == 'w' {
            match self.winner {
                Some('O') => i32::MAX,
                Some('T') => i32::MIN,
                _ => 0,
            }
        } else {
            0
        }
    }

    /// The resolved outcome: a single completed pattern wins for its
    /// symbol, patterns for both symbols at once tie, a full board
    /// without either draws, and otherwise the game goes on.
    pub fn terminal_state(&mut self) -> (r: TerminalResult)
        requires
            old(self).wf(),
        ensures
            final(self).wf(),
            r == otto_outcome(old(self)@),
            final(self)@ == otto_after_check(old(self)@),
    {
        let code = self.has_winner();
        if code == 'w' {
            match self.winner {
                Some(p) => TerminalResult::Win(p),
                None => TerminalResult::Ongoing,
            }
        } else if code == 't' {
            TerminalResult::Tie
        } else if self.is_draw() {
            TerminalResult::Draw
        } else {
            TerminalResult::Ongoing
        }
    }
}

impl TootOttoBoard {
    /// The board drawn as text: the cell grid, then the column indices.
    pub fn render(&self) -> (s: String)
        requires
            self.wf(),
    {
        proof {
            crate::grid::lemma_rows(&self.board, self@.width, self@.height);
        }
        let mut s = String::new();
        let mut r: usize = 0;
        while r < self.height as usize
            invariant
                self.wf(),
                r <= self@.height,
                self.board@.len() == self@.height,
                forall|i: int| 0 <= i < self@.height ==> (#[trigger] self.board@[i])@.len()
                    == self@.width,
            decreases self@.height - r,
        {
            let mut c: usize = 0;
            while c < self.width as usize
                invariant
                    self.wf(),
                    r < self@.height,
                    c <= self@.width,
                    self.board@.len() == self@.height,
                    forall|i: int| 0 <= i < self@.height ==> (#[trigger] self.board@[i])@.len()
                        == self@.width,
                decreases self@.width - c,
            {
                s.append(crate::hostio::cell_text(self.board[r][c]));
                s.append(" ");
                c = c + 1;
            }
            s.append("\n");
            r = r + 1;
        }
        let mut c: u32 = 0;
        while c < self.width
            invariant
                self.wf(),
                c <= self@.width,
            decreases self@.width - c,
        {
            s.append(crate::hostio::digit_text(c));
            s.append(" ");
            c = c + 1;
        }
        s.append("\n");
        s
    }

    /// The lowest-numbered open column of a board that has one.
    fn first_open_column(&self) -> (col: u32)
        requires
            self.wf(),
            !board_full(self@.cells, self@.width),
        ensures
            otto_allows(self@, col as int),
    {
        proof {
            crate::grid::lemma_rows(&self.board, self@.width, self@.height);
        }
        let mut c: u32 = 0;
        while c < self.width
            invariant
                self.wf(),
                c <= self@.width,
                self.board@.len() == self@.height,
                forall|i: int| 0 <= i < self@.height ==> (#[trigger] self.board@[i])@.len()
                    == self@.width,
                forall|i: int, j: int|
                    0 <= i < self@.height && 0 <= j < self@.width ==> #[trigger] self.board@[i]@[j]
                        == self@.cells[i][j],
                forall|cc: int| 0 <= cc < c ==> !(#[trigger] col_open(self@.cells, cc)),
            decreases self@.width - c,
        {
            if self.board[0][c as usize] == ' ' {
                return c;
            }
            c = c + 1;
        }
        proof {
            assert(board_full(self@.cells, self@.width));
            assert(false);
        }
        0
    }

    /// Prompts the console for a move written as "column token" until a
    /// legal one arrives; after a bounded number of malformed or illegal
    /// lines (or a closed input), falls back to the lowest open column
    /// with 'O', which the precondition guarantees is legal.
    pub fn get_player_move(&self) -> (mv: (u32, char))
        requires
            self.wf(),
            !board_full(self@.cells, self@.width),
        ensures
            otto_allows(self@, mv.0 as int),
            mv.1 == 'O' || mv.1 == 'T',
    {
        let mut tries: u32 = 0;
        while tries < 1000
            invariant
                self.wf(),
                !board_full(self@.cells, self@.width),
            decreases 1000 - tries,
        {
            crate::hostio::print_text("Player's choice (enter as \"column token\"): ");
            match crate::hostio::read_line_stdin() {
                Some(line) => {
                    match crate::hostio::parse_col_tok_line(&line) {
                        Some((col, raw_tok)) => {
                            let tok = if raw_tok == 'o' {
                                'O'
                            } else if raw_tok == 't' {
                                'T'
                            } else {
                                raw_tok
                            };
                            if !(tok == 'O' || tok == 'T') {
                                crate::hostio::print_text("Please enter a valid token\n");
                            } else if !self.allows_move(col) {
                                crate::hostio::print_text(
                                    "Column is full, please choose another column\n",
                                );
                            } else {
                                return (col, tok);
                            }
                        },
                        None => {
                            crate::hostio::print_text("Please enter a column and a token\n");
                        },
                    }
                },
                None => {},
            }
            tries = tries + 1;
        }
        (self.first_open_column(), 'O')
    }

    /// The bookkeeping fields around the cell matrix, as one snapshot the
    /// search can put back when it is done.
    pub(crate) fn record_snapshot(&self) -> (r: (
        Option<u32>,
        Option<u32>,
        Option<char>,
        Option<char>,
    ))
        ensures
            r.0 == self@.last_row,
            r.1 == self@.last_col,
            r.2 == self@.last_player,
            r.3 == self@.winner,
    {
        (self.last_row, self.last_col, self.last_player, self.winner)
    }

    /// Puts back a snapshot of the bookkeeping fields around the cell
    /// matrix, so the search can hand a board back exactly as it was.
    pub(crate) fn restore_record(
        &mut self,
        row: Option<u32>,
        col: Option<u32>,
        player: Option<char>,
        winner: Option<char>,
    )
        requires
            old(self).wf(),
            match row {
                Some(r) => (r as int) < old(self)@.height,
                None => true,
            },
            match col {
                Some(c) => (c as int) < old(self)@.width,
                None => true,
            },
        ensures
            final(self).wf(),
            final(self)@ == (OttoState {
                last_row: row,
                last_col: col,
                last_player: player,
                winner,
                ..old(self)@
            }),
    {
        self.last_row = row;
        self.last_col = col;
        self.last_player = player;
        self.winner = winner;
    }

    /// Announces the result on the console when the game has ended.
    /// Everything the outcome depends on is left as it was; only the
    /// winner cache may be filled in.
    fn print_outcome(&mut self)
        requires
            old(self).wf(),
        ensures
            final(self).wf(),
            final(self)@.cells == old(self)@.cells,
            final(self)@.width == old(self)@.width,
            final(self)@.height == old(self)@.height,
            final(self)@.last_row == old(self)@.last_row,
            final(self)@.last_col == old(self)@.last_col,
            final(self)@.last_player == old(self)@.last_player,
    {
        let code = self.has_winner();
        if code == 'w' {
            crate::hostio::print_text(self.render().as_str());
            match self.winner {
                Some('O') => crate::hostio::print_text("Otto wins -- Congratulations!\n"),
                Some('T') => crate::hostio::print_text("Toot wins -- Congratulations!\n"),
                _ => {},
            }
        } else if self.is_draw() {
            crate::hostio::print_text(self.render().as_str());
            crate::hostio::print_text("It's a draw!\n");
        } else if code == 't' {
            crate::hostio::print_text(self.render().as_str());
            crate::hostio::print_text("Tie Game!\n");
        }
    }

    /// Hosts a two-player console game to its end, returning the columns
    /// played, each as one digit.
    pub fn host_game(&mut self) -> (moves: String)
        requires
            old(self).wf(),
        ensures
            final(self).wf(),
            otto_terminal(final(self)@),
    {
        crate::hostio::print_text("Welcome to Toot and Otto!\n\n");
        let mut moves = String::new();
        let mut turn = 'O';
        loop
            invariant
                self.wf(),
                turn == 'O' || turn == 'T',
            ensures
                self.wf(),
                otto_terminal(self@),
            decreases crate::grid::space_left(self@.cells, self@.width, self@.height),
        {
            proof {
                crate::grid::lemma_space_left_nonneg(self@.cells, self@.width, self@.height);
            }
            if self.is_terminal() {
                break ;
            }
            crate::hostio::print_text(self.render().as_str());
            if turn == 'O' {
                crate::hostio::print_text("Otto's turn\n");
            } else {
                crate::hostio::print_text("Toot's turn\n");
            }
            let (col, tok) = self.get_player_move();
            let ghost pre = self@;
            self.perform_move_plz(col, tok, turn);
            proof {
                crate::grid::lemma_space_left_place(
                    pre.cells,
                    pre.width,
                    pre.height,
                    col as int,
                    tok,
                );
            }
            moves.append(crate::hostio::digit_text(col));
            turn = if turn == 'O' {
                'T'
            } else {
                'O'
            };
        }
        self.print_outcome();
        moves
    }

    /// The computer's move for the current position: a legal column and
    /// one of the two tokens, found by the engine at the requested
    /// difficulty (1 easy, 2 hard, anything else easy). The move's subtree
    /// achieves exactly the exhaustive minimax value of the position at
    /// that difficulty's depth, and the board comes back exactly as it
    /// arrived.
    pub fn get_ai_move(&mut self, ai_tok: char, difficulty_var: u32) -> (mv: (u32, char))
        requires
            old(self).wf(),
            ai_tok == 'O' || ai_tok == 'T',
            !crate::otto::otto_terminal(old(self)@),
        ensures
            final(self).wf(),
            final(self)@ == old(self)@,
            otto_allows(old(self)@, mv.0 as int),
            mv.1 == 'O' || mv.1 == 'T',
            ({
                let d: nat = if difficulty_var == 2 {
                    5
                } else {
                    3
                };
                crate::ottobot::otto_search(
                    otto_place_state(
                        crate::ottobot::otto_core(old(self)@),
                        mv.0 as int,
                        mv.1,
                        ai_tok,
                    ),
                    (d - 1) as nat,
                    crate::ottobot::otto_flip(ai_tok),
                    ai_tok,
                ) == crate::ottobot::otto_search(
                    crate::ottobot::otto_core(old(self)@),
                    d,
                    ai_tok,
                    ai_tok,
                )
            }),
    {
        let difficulty = match difficulty_var {
            1 => Difficulty::Easy,
            2 => Difficulty::Hard,
            _ => Difficulty::Easy,
        };
        let ai = crate::ottobot::OttoBot::new(difficulty, ai_tok);
        let r = ai.minimax(self, ai.depth, i32::MIN, i32::MAX, ai_tok);
        proof {
            crate::ottobot::lemma_otto_ab_equals_search(
                crate::ottobot::otto_core(old(self)@),
                ai.depth as nat,
                ai_tok,
                ai_tok,
            );
        }
        (r.1, r.2)
    }

    /// Hosts a console game against the computer to its end; the human
    /// plays `tok`, the computer the other symbol. Returns the columns
    /// played, each as one digit.
    #[allow(non_snake_case)]
    pub fn host_game_AI(&mut self, difficulty: Difficulty, tok: char) -> (moves: String)
        requires
            old(self).wf(),
        ensures
            final(self).wf(),
            otto_terminal(final(self)@),
    {
        crate::hostio::print_text("Welcome to Toot and Otto!\n\n");
        let mut moves = String::new();
        let ai_tok = if tok == 'T' {
            'O'
        } else {
            'T'
        };
        let ai = crate::ottobot::OttoBot::new(difficulty, ai_tok);
        let mut turn = tok;
        loop
            invariant
                self.wf(),
                ai_tok == 'O' || ai_tok == 'T',
                ai.depth >= 1,
                ai.play_as == ai_tok,
            ensures
                self.wf(),
                otto_terminal(self@),
            decreases crate::grid::space_left(self@.cells, self@.width, self@.height),
        {
            proof {
                crate::grid::lemma_space_left_nonneg(self@.cells, self@.width, self@.height);
            }
            if self.is_terminal() {
                break ;
            }
            crate::hostio::print_text(self.render().as_str());
            if turn == 'O' {
                crate::hostio::print_text("Otto's turn\n");
            } else {
                crate::hostio::print_text("Toot's turn\n");
            }
            let ghost pre = self@;
            if turn == ai_tok {
                crate::hostio::print_text("AI is thinking...\n");
                let r = ai.minimax(self, ai.depth, i32::MIN, i32::MAX, ai_tok);
                let ghost mid = self@;
                self.perform_move_plz(r.1, r.2, ai_tok);
                proof {
                    crate::grid::lemma_space_left_place(
                        mid.cells,
                        mid.width,
                        mid.height,
                        r.1 as int,
                        r.2,
                    );
                }
                moves.append(crate::hostio::digit_text(r.1));
            } else {
                let (col, ptok) = self.get_player_move();
                self.perform_move_plz(col, ptok, turn);
                proof {
                    crate::grid::lemma_space_left_place(
                        pre.cells,
                        pre.width,
                        pre.height,
                        col as int,
                        ptok,
                    );
                }
                moves.append(crate::hostio::digit_text(col));
            }
            turn = if turn == 'O' {
                'T'
            } else {
                'O'
            };
        }
        self.print_outcome();
        moves
    }
}

} // verus!
