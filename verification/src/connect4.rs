//! The single-token four-in-a-row game: board state machine, win
//! detection anchored on the most recent placement, heuristic evaluation,
//! and depth-limited alpha-beta search.

use vstd::prelude::*;
use vstd::string::StringExecFns;
use crate::board::{BoardSize, Difficulty, MoveError, TerminalResult};
use crate::grid::{
    blank_matrix, board_full, col_open, dims_ok, drop_token, gravity_ok, landing_row,
    lemma_place_props, lemma_place_then_remove, lift_token, matrix_view, open_cols, place_cells,
    remove_top_cells,
};

verus! {

/// Mathematical state of a single-token board.
pub ghost struct C4State {
    pub width: int,
    pub height: int,
    pub cells: Seq<Seq<char>>,
    pub last_row: Option<u32>,
    pub last_col: Option<u32>,
    pub last_player: Option<char>,
}

pub struct Connect4Board {
    width: u32,
    height: u32,
    board: Vec<Vec<char>>,
    last_row: Option<u32>,
    last_col: Option<u32>,
    last_player: Option<char>,
}

impl View for Connect4Board {
    type V = C4State;

    closed spec fn view(&self) -> C4State {
        C4State {
            width: self.width as int,
            height: self.height as int,
            cells: matrix_view(&self.board),
            last_row: self.last_row,
            last_col: self.last_col,
            last_player: self.last_player,
        }
    }
}

/// The two supported presets.
pub open spec fn c4_dims(width: int, height: int) -> bool {
    (width == 7 && height == 6) || (width == 10 && height == 7)
}

/// A move is legal when the column exists and its top cell is empty.
pub open spec fn c4_allows(m: C4State, col: int) -> bool {
    0 <= col < m.width && col_open(m.cells, col)
}

/// The state after a legal placement.
pub open spec fn c4_place_state(m: C4State, col: int, sym: char) -> C4State {
    C4State {
        width: m.width,
        height: m.height,
        cells: place_cells(m.cells, col, sym, m.height),
        last_row: Some(landing_row(m.cells, col, m.height) as u32),
        last_col: Some(col as u32),
        last_player: Some(sym),
    }
}

impl Connect4Board {
    /// Well-formedness: preset dimensions, a rectangular gravity-respecting
    /// matrix, and an in-range last-move record.
    pub open spec fn wf(&self) -> bool {
        &&& c4_dims(self@.width, self@.height)
        &&& dims_ok(self@.cells, self@.width, self@.height)
        &&& gravity_ok(self@.cells, self@.width, self@.height)
        &&& match self@.last_row {
            Some(r) => (r as int) < self@.height,
            None => true,
        }
        &&& match self@.last_col {
            Some(c) => (c as int) < self@.width,
            None => true,
        }
    }

    pub fn new(size: BoardSize) -> (board: Connect4Board)
        ensures
            board.wf(),
            board@.width == if size == BoardSize::Standard { 7int } else { 10int },
            board@.height == if size == BoardSize::Standard { 6int } else { 7int },
            forall|r: int, c: int|
                0 <= r < board@.height && 0 <= c < board@.width ==> board@.cells[r][c] == ' ',
            board@.last_row is None,
            board@.last_col is None,
            board@.last_player is None,
    {
        let (width, height): (u32, u32) = match size {
            BoardSize::Standard => (7, 6),
            BoardSize::Large => (10, 7),
        };
        Connect4Board {
            width,
            height,
            board: blank_matrix(width as usize, height as usize),
            last_row: None,
            last_col: None,
            last_player: None,
        }
    }

    pub fn width(&self) -> (w: u32)
        ensures
            w as int == self@.width,
    {
        self.width
    }

    pub fn height(&self) -> (h: u32)
        ensures
            h as int == self@.height,
    {
        self.height
    }

    pub fn last_row(&self) -> (r: Option<u32>)
        ensures
            r == self@.last_row,
    {
        self.last_row
    }

    pub fn last_col(&self) -> (c: Option<u32>)
        ensures
            c == self@.last_col,
    {
        self.last_col
    }

    pub fn last_player(&self) -> (p: Option<char>)
        ensures
            p == self@.last_player,
    {
        self.last_player
    }

    pub fn get_colour(&self, r: usize, c: usize) -> (cell: char)
        requires
            self.wf(),
        ensures
            r < self@.height && c < self@.width ==> cell == self@.cells[r as int][c as int],
            !(r < self@.height && c < self@.width) ==> cell == '_',
    {
        if r >= self.height as usize || c >= self.width as usize {
            return '_';
        }
        proof {
            crate::grid::lemma_rows(&self.board, self@.width, self@.height);
        }
        self.board[r][c]
    }

    pub fn allows_move(&self, col: u32) -> (r: bool)
        requires
            self.wf(),
        ensures
            r == c4_allows(self@, col as int),
    {
        proof {
            crate::grid::lemma_rows(&self.board, self@.width, self@.height);
        }
        col < self.width && self.board[0][col as usize] == ' '
    }

    /// The legal columns in ascending order. A column is legal exactly when
    /// it appears here.
    pub fn available_moves(&self) -> (moves: Vec<u32>)
        requires
            self.wf(),
        ensures
            forall|i: int|
                0 <= i < moves@.len() ==> c4_allows(self@, (#[trigger] moves@[i]) as int),
            forall|c: u32| c4_allows(self@, c as int) ==> moves@.contains(c),
            forall|i: int, j: int| 0 <= i < j < moves@.len() ==> moves@[i] < moves@[j],
    {
        open_cols(&self.board, self.width, self.height)
    }

    pub fn is_draw(&self) -> (r: bool)
        requires
            self.wf(),
        ensures
            r == board_full(self@.cells, self@.width),
    {
        let moves = self.available_moves();
        let empty = moves.is_empty();
        proof {
            if empty {
                assert forall|c: int| 0 <= c < self@.width implies !col_open(self@.cells, c) by {
                    if col_open(self@.cells, c) {
                        assert(moves@.contains(c as u32));
                    }
                }
            } else {
                assert(c4_allows(self@, moves@[0] as int));
            }
        }
        empty
    }

    /// Drops `ox` into `col`, recording the placement; a move into a full or
    /// nonexistent column is rejected without mutating anything.
    pub fn perform_move(&mut self, col: u32, ox: char)
        requires
            old(self).wf(),
            ox == 'X' || ox == 'O',
        ensures
            final(self).wf(),
            c4_allows(old(self)@, col as int) ==> final(self)@ == c4_place_state(
                old(self)@,
                col as int,
                ox,
            ),
            !c4_allows(old(self)@, col as int) ==> final(self)@ == old(self)@,
    {
        if col < self.width && self.board[0][col as usize] == ' ' {
            proof {
                lemma_place_props(old(self)@.cells, old(self)@.width, old(self)@.height,
                    col as int, ox);
            }
            let row = drop_token(
                &mut self.board,
                col as usize,
                ox,
                self.width as usize,
                self.height as usize,
            );
            self.last_row = Some(row as u32);
            self.last_col = Some(col);
            self.last_player = Some(ox);
        }
    }

    /// Attempt a move, reporting exactly why an illegal one was rejected.
    pub fn try_move(&mut self, col: u32, ox: char) -> (r: Result<(), MoveError>)
        requires
            old(self).wf(),
            ox == 'X' || ox == 'O',
        ensures
            final(self).wf(),
            r is Ok <==> c4_allows(old(self)@, col as int),
            r is Ok ==> final(self)@ == c4_place_state(old(self)@, col as int, ox),
            r is Err ==> final(self)@ == old(self)@,
            (col as int) >= old(self)@.width ==> r == Result::<(), MoveError>::Err(
                MoveError::InvalidColumn,
            ),
            (col as int) < old(self)@.width && !col_open(old(self)@.cells, col as int) ==> r
                == Result::<(), MoveError>::Err(MoveError::ColumnFull),
    {
        if col >= self.width {
            Err(MoveError::InvalidColumn)
        } else if self.board[0][col as usize] != ' ' {
            Err(MoveError::ColumnFull)
        } else {
            self.perform_move(col, ox);
            Ok(())
        }
    }

    /// Removes the single topmost token of `col`, reversing exactly one
    /// placement there. The last-move record is untouched.
    pub fn undo_move(&mut self, col: u32)
        requires
            old(self).wf(),
        ensures
            final(self).wf(),
            final(self)@.width == old(self)@.width,
            final(self)@.height == old(self)@.height,
            final(self)@.last_row == old(self)@.last_row,
            final(self)@.last_col == old(self)@.last_col,
            final(self)@.last_player == old(self)@.last_player,
            (col as int) < old(self)@.width ==> final(self)@.cells == remove_top_cells(
                old(self)@.cells,
                col as int,
                old(self)@.height,
            ),
            (col as int) >= old(self)@.width ==> final(self)@ == old(self)@,
    {
        if col < self.width {
            lift_token(&mut self.board, col as usize, self.width as usize, self.height as usize);
        }
    }

    /// Replaces the cell matrix; a matrix of the wrong shape, one that
    /// violates gravity, or one holding a character other than the two
    /// symbols and the empty cell is rejected without mutating anything.
    pub fn set_board(&mut self, new_board: Vec<Vec<char>>)
        requires
            old(self).wf(),
        ensures
            final(self).wf(),
            final(self)@.width == old(self)@.width,
            final(self)@.height == old(self)@.height,
            final(self)@.last_row == old(self)@.last_row,
            final(self)@.last_col == old(self)@.last_col,
            final(self)@.last_player == old(self)@.last_player,
            dims_ok(matrix_view(&new_board), old(self)@.width, old(self)@.height) && gravity_ok(
                matrix_view(&new_board),
                old(self)@.width,
                old(self)@.height,
            ) && c4_cells_in_domain(matrix_view(&new_board), old(self)@.width, old(self)@.height)
                ==> final(self)@.cells == matrix_view(&new_board),
            !(dims_ok(matrix_view(&new_board), old(self)@.width, old(self)@.height) && gravity_ok(
                matrix_view(&new_board),
                old(self)@.width,
                old(self)@.height,
            ) && c4_cells_in_domain(matrix_view(&new_board), old(self)@.width, old(self)@.height))
                ==> final(self)@.cells == old(self)@.cells,
    {
        if matrix_ok(&new_board, self.width as usize, self.height as usize) {
            self.board = new_board;
        }
    }

    /// Updates the recorded last-move column; an out-of-range value is
    /// refused and the record kept.
    pub fn set_last_col(&mut self, col: Option<u32>)
        requires
            old(self).wf(),
        ensures
            final(self).wf(),
            match col {
                Some(c) => (c as int) < old(self)@.width,
                None => true,
            } ==> final(self)@ == (C4State { last_col: col, ..old(self)@ }),
            !match col {
                Some(c) => (c as int) < old(self)@.width,
                None => true,
            } ==> final(self)@ == old(self)@,
    {
        match col {
            Some(c) if c >= self.width => {},
            _ => {
                self.last_col = col;
            },
        }
    }

    /// Updates the recorded last-move row; an out-of-range value is refused
    /// and the record kept.
    pub fn set_last_row(&mut self, row: Option<u32>)
        requires
            old(self).wf(),
        ensures
            final(self).wf(),
            match row {
                Some(r) => (r as int) < old(self)@.height,
                None => true,
            } ==> final(self)@ == (C4State { last_row: row, ..old(self)@ }),
            !match row {
                Some(r) => (r as int) < old(self)@.height,
                None => true,
            } ==> final(self)@ == old(self)@,
    {
        match row {
            Some(r) if r >= self.height => {},
            _ => {
                self.last_row = row;
            },
        }
    }

    /// Puts back a snapshot of the last-move record, so the search can
    /// hand a board back exactly as it was.
    pub(crate) fn restore_record(
        &mut self,
        row: Option<u32>,
        col: Option<u32>,
        player: Option<char>,
    )
        requires
            old(self).wf(),
            match row {
                Some(r) => (r as int) < old(self)@.height,
                None => true,
            },
            match col {
                Some(c) => (c as int) < old(self)@.width,
                None => true,
            },
        ensures
            final(self).wf(),
            final(self)@ == (C4State {
                last_row: row,
                last_col: col,
                last_player: player,
                ..old(self)@
            }),
    {
        self.last_row = row;
        self.last_col = col;
        self.last_player = player;
    }

    pub fn set_last_player(&mut self, player: Option<char>)
        requires
            old(self).wf(),
        ensures
            final(self).wf(),
            final(self)@ == (C4State { last_player: player, ..old(self)@ }),
    {
        self.last_player = player;
    }
}

/// Four cells in a line starting at `(r, c)` and stepping by `(dr, dc)` all
/// hold `sym`.
pub open spec fn run4(cells: Seq<Seq<char>>, r: int, c: int, dr: int, dc: int, sym: char) -> bool {
    &&& cells[r][c] == sym
    &&& cells[r + dr][c + dc] == sym
    &&& cells[r + 2 * dr][c + 2 * dc] == sym
    &&& cells[r + 3 * dr][c + 3 * dc] == sym
}

/// A horizontal run of four through `(row, col)`.
pub open spec fn c4_horiz_win(cells: Seq<Seq<char>>, w: int, row: int, col: int, sym: char) -> bool {
    exists|c: int|
        0 <= c && col - 3 <= c <= col && c < w - 3 && run4(cells, row, c, 0, 1, sym)
}

/// A vertical run of four headed by `(row, col)`: the placed token sits on
/// top of three like tokens.
pub open spec fn c4_vert_win(cells: Seq<Seq<char>>, h: int, row: int, col: int, sym: char) -> bool {
    row < h - 3 && run4(cells, row, col, 1, 0, sym)
}

/// A down-right diagonal window starting at `(r, c)` filled with `sym`.
pub open spec fn c4_diag1_hit(cells: Seq<Seq<char>>, w: int, h: int, r: int, c: int, sym: char) -> bool {
    0 <= r < h - 3 && 0 <= c < w - 3 && run4(cells, r, c, 1, 1, sym)
}

/// A down-left diagonal window starting at `(r, c)` filled with `sym`.
pub open spec fn c4_diag2_hit(cells: Seq<Seq<char>>, w: int, h: int, r: int, c: int, sym: char) -> bool {
    0 <= r < h - 3 && 3 <= c < w && run4(cells, r, c, 1, -1, sym)
}

/// A down-right diagonal run of four through `(row, col)`.
pub open spec fn c4_diag1_win(
    cells: Seq<Seq<char>>,
    w: int,
    h: int,
    row: int,
    col: int,
    sym: char,
) -> bool {
    exists|r: int, c: int|
        0 <= row - r < 4 && row - r == col - c && #[trigger] c4_diag1_hit(cells, w, h, r, c, sym)
}

/// A down-left diagonal run of four through `(row, col)`.
pub open spec fn c4_diag2_win(
    cells: Seq<Seq<char>>,
    w: int,
    h: int,
    row: int,
    col: int,
    sym: char,
) -> bool {
    exists|r: int, c: int|
        0 <= row - r < 4 && row - r == c - col && #[trigger] c4_diag2_hit(cells, w, h, r, c, sym)
}

/// A winning run through the cell `(row, col)`, as the detector anchored on
/// the most recent placement sees it.
pub open spec fn c4_win_at(
    cells: Seq<Seq<char>>,
    w: int,
    h: int,
    row: int,
    col: int,
    sym: char,
) -> bool {
    ||| c4_horiz_win(cells, w, row, col, sym)
    ||| c4_vert_win(cells, h, row, col, sym)
    ||| c4_diag1_win(cells, w, h, row, col, sym)
    ||| c4_diag2_win(cells, w, h, row, col, sym)
}

/// The position has a winner: a run of four through the recorded last move,
/// all of the symbol placed by it.
pub open spec fn c4_last_win(m: C4State) -> bool {
    match (m.last_row, m.last_col, m.last_player) {
        (Some(r), Some(c), Some(p)) => c4_win_at(m.cells, m.width, m.height, r as int, c as int, p),
        _ => false,
    }
}

/// A run of four of `sym` exists somewhere in the matrix.
pub open spec fn has_c4_run(cells: Seq<Seq<char>>, w: int, h: int, sym: char) -> bool {
    ||| exists|r: int, c: int|
        0 <= r < h && 0 <= c && c + 3 < w && #[trigger] run4(cells, r, c, 0, 1, sym)
    ||| exists|r: int, c: int|
        0 <= r && r + 3 < h && 0 <= c < w && #[trigger] run4(cells, r, c, 1, 0, sym)
    ||| exists|r: int, c: int|
        0 <= r && r + 3 < h && 0 <= c && c + 3 < w && #[trigger] run4(cells, r, c, 1, 1, sym)
    ||| exists|r: int, c: int|
        0 <= r && r + 3 < h && 3 <= c < w && #[trigger] run4(cells, r, c, 1, -1, sym)
}

/// The game is over: the board is full or the last move completed a run.
pub open spec fn c4_terminal(m: C4State) -> bool {
    board_full(m.cells, m.width) || c4_last_win(m)
}

/// The terminal score: a large sentinel for a decided game, 0 otherwise.
pub open spec fn c4_game_value(m: C4State) -> int {
    if c4_last_win(m) {
        match m.last_player {
            Some(p) => if p == 'X' {
                i32::MAX as int
            } else if p == 'O' {
                i32::MIN as int
            } else {
                0
            },
            None => 0,
        }
    } else {
        0
    }
}

/// The resolved outcome of a position.
pub open spec fn c4_outcome(m: C4State) -> TerminalResult {
    if c4_last_win(m) {
        match m.last_player {
            Some(p) => TerminalResult::Win(p),
            None => TerminalResult::Ongoing,
        }
    } else if board_full(m.cells, m.width) {
        TerminalResult::Draw
    } else {
        TerminalResult::Ongoing
    }
}

/// Terminal consistency: a full board without a winner resolves to a draw,
/// and a reported win is witnessed by an actual run of four of the winning
/// symbol in the cell matrix.
pub proof fn lemma_terminal_consistency(m: C4State)
    requires
        match m.last_row {
            Some(r) => (r as int) < m.height,
            None => true,
        },
        match m.last_col {
            Some(c) => (c as int) < m.width,
            None => true,
        },
    ensures
        board_full(m.cells, m.width) && !c4_last_win(m) ==> c4_outcome(m) == TerminalResult::Draw,
        c4_last_win(m) ==> (match m.last_player {
            Some(p) => c4_outcome(m) == TerminalResult::Win(p) && has_c4_run(
                m.cells,
                m.width,
                m.height,
                p,
            ),
            None => false,
        }),
{
    if c4_last_win(m) {
        let row = m.last_row.unwrap() as int;
        let col = m.last_col.unwrap() as int;
        let p = m.last_player.unwrap();
        lemma_win_has_run(m.cells, m.width, m.height, row, col, p);
    }
}

/// Any anchored win corresponds to a run of four somewhere in the matrix.
pub proof fn lemma_win_has_run(
    cells: Seq<Seq<char>>,
    w: int,
    h: int,
    row: int,
    col: int,
    sym: char,
)
    requires
        0 <= row < h,
        0 <= col < w,
        c4_win_at(cells, w, h, row, col, sym),
    ensures
        has_c4_run(cells, w, h, sym),
{
    if c4_horiz_win(cells, w, row, col, sym) {
        let c = choose|c: int|
            0 <= c && col - 3 <= c <= col && c < w - 3 && run4(cells, row, c, 0, 1, sym);
        assert(0 <= row < h && 0 <= c && c + 3 < w && run4(cells, row, c, 0, 1, sym));
    } else if c4_vert_win(cells, h, row, col, sym) {
        assert(0 <= row && row + 3 < h && 0 <= col < w && run4(cells, row, col, 1, 0, sym));
    } else if c4_diag1_win(cells, w, h, row, col, sym) {
        let (r, c) = choose|r: int, c: int|
            0 <= row - r < 4 && row - r == col - c && #[trigger] c4_diag1_hit(
                cells,
                w,
                h,
                r,
                c,
                sym,
            );
        assert(0 <= r && r + 3 < h && 0 <= c && c + 3 < w && run4(cells, r, c, 1, 1, sym));
    } else {
        let (r, c) = choose|r: int, c: int|
            0 <= row - r < 4 && row - r == c - col && #[trigger] c4_diag2_hit(
                cells,
                w,
                h,
                r,
                c,
                sym,
            );
        assert(0 <= r && r + 3 < h && 3 <= c < w && run4(cells, r, c, 1, -1, sym));
    }
}

impl Connect4Board {
    /// Whether the most recent placement completed a run of four. Scans
    /// only the four line directions through the last-placed cell.
    pub fn has_winner(&self) -> (r: bool)
        requires
            self.wf(),
        ensures
            r == c4_last_win(self@),
    {
        let (row, col, ox): (u32, u32, char) = match (self.last_row, self.last_col,
            self.last_player) {
            (Some(r), Some(c), Some(p)) => (r, c, p),
            _ => { return false },
        };
        proof {
            crate::grid::lemma_rows(&self.board, self@.width, self@.height);
        }
        let ghost cells = self@.cells;
        let w = self.width;
        let h = self.height;
        let ru = row as usize;
        let cu = col as usize;

        // Horizontal windows containing the last cell.
        let lo: u32 = if col >= 3 {
            col - 3
        } else {
            0
        };
        let hi: u32 = if col + 1 < w - 3 {
            col + 1
        } else {
            w - 3
        };
        let mut c: u32 = lo;
        while c < hi
            invariant
                self.wf(),
                cells == self@.cells,
                self@.last_row == Some(row),
                self@.last_col == Some(col),
                self@.last_player == Some(ox),
                (row as int) < self@.height,
                (col as int) < self@.width,
                ru == row as usize,
                w as int == self@.width,
                h as int == self@.height,
                lo as int == if col >= 3 { col - 3 } else { 0int },
                hi as int == if col + 1 < w - 3 { col + 1 } else { w - 3 },
                lo <= c <= hi,
                hi as int <= self@.width - 3,
                forall|cc: int| lo <= cc < c ==> !run4(cells, row as int, cc, 0, 1, ox),
                forall|i: int| 0 <= i < self@.height ==> (#[trigger] self.board@[i])@.len()
                    == self@.width,
                forall|i: int, j: int|
                    0 <= i < self@.height && 0 <= j < self@.width ==> #[trigger] self.board@[i]@[j]
                        == self@.cells[i][j],
                self.board@.len() == self@.height,
            decreases hi - c,
        {
            let cc = c as usize;
            if self.board[ru][cc] == ox && self.board[ru][cc + 1] == ox && self.board[ru][cc + 2]
                == ox && self.board[ru][cc + 3] == ox {
                proof {
                    assert(run4(cells, row as int, c as int, 0, 1, ox));
                    assert(c4_horiz_win(cells, w as int, row as int, col as int, ox));
                }
                return true;
            }
            c = c + 1;
        }
        proof {
            assert(!c4_horiz_win(cells, w as int, row as int, col as int, ox)) by {
                if c4_horiz_win(cells, w as int, row as int, col as int, ox) {
                    let cc = choose|cc: int|
                        0 <= cc && col - 3 <= cc <= col && cc < w - 3 && run4(
                            cells,
                            row as int,
                            cc,
                            0,
                            1,
                            ox,
                        );
                    assert(lo <= cc < hi);
                }
            }
        }

        // The vertical window headed by the last cell.
        if row < h - 3 {
            if self.board[ru][cu] == ox && self.board[ru + 1][cu] == ox && self.board[ru + 2][cu]
                == ox && self.board[ru + 3][cu] == ox {
                proof {
                    assert(c4_vert_win(cells, h as int, row as int, col as int, ox));
                }
                return true;
            }
        }
        proof {
            assert(!c4_vert_win(cells, h as int, row as int, col as int, ox));
        }

        // Down-right diagonal windows containing the last cell.
        let mut i: u32 = 0;
        while i < 4
            invariant
                self.wf(),
                cells == self@.cells,
                self@.last_row == Some(row),
                self@.last_col == Some(col),
                self@.last_player == Some(ox),
                (row as int) < self@.height,
                (col as int) < self@.width,
                ru == row as usize,
                cu == col as usize,
                w as int == self@.width,
                h as int == self@.height,
                i <= 4,
                forall|r: int, c: int|
                    row - i < r && row - r >= 0 && row - r == col - c ==> !(
                    #[trigger] c4_diag1_hit(cells, w as int, h as int, r, c, ox)),
                forall|ii: int| 0 <= ii < self@.height ==> (#[trigger] self.board@[ii])@.len()
                    == self@.width,
                forall|ii: int, j: int|
                    0 <= ii < self@.height && 0 <= j < self@.width ==> #[trigger] self.board@[ii]@[j]
                        == self@.cells[ii][j],
                self.board@.len() == self@.height,
            decreases 4 - i,
        {
            if row >= i && col >= i && row - i < h - 3 && col - i < w - 3 {
                let r0 = (row - i) as usize;
                let c0 = (col - i) as usize;
                if self.board[r0][c0] == ox && self.board[r0 + 1][c0 + 1] == ox && self.board[r0
                    + 2][c0 + 2] == ox && self.board[r0 + 3][c0 + 3] == ox {
                    proof {
                        assert(run4(cells, row - i, col - i, 1, 1, ox));
                        assert(c4_diag1_hit(cells, w as int, h as int, row - i, col - i, ox));
                        assert(c4_diag1_win(cells, w as int, h as int, row as int, col as int, ox));
                    }
                    return true;
                }
            }
            i = i + 1;
        }
        proof {
            assert(!c4_diag1_win(cells, w as int, h as int, row as int, col as int, ox)) by {
                if c4_diag1_win(cells, w as int, h as int, row as int, col as int, ox) {
                    let (r, c) = choose|r: int, c: int|
                        0 <= row - r < 4 && row - r == col - c && #[trigger] c4_diag1_hit(
                            cells,
                            w as int,
                            h as int,
                            r,
                            c,
                            ox,
                        );
                    assert(row - 4 < r);
                }
            }
        }

        // Down-left diagonal windows containing the last cell.
        let mut i: u32 = 0;
        while i < 4
            invariant
                self.wf(),
                cells == self@.cells,
                self@.last_row == Some(row),
                self@.last_col == Some(col),
                self@.last_player == Some(ox),
                (row as int) < self@.height,
                (col as int) < self@.width,
                ru == row as usize,
                cu == col as usize,
                w as int == self@.width,
                h as int == self@.height,
                i <= 4,
                forall|r: int, c: int|
                    row - i < r && row - r >= 0 && row - r == c - col ==> !(
                    #[trigger] c4_diag2_hit(cells, w as int, h as int, r, c, ox)),
                forall|ii: int| 0 <= ii < self@.height ==> (#[trigger] self.board@[ii])@.len()
                    == self@.width,
                forall|ii: int, j: int|
                    0 <= ii < self@.height && 0 <= j < self@.width ==> #[trigger] self.board@[ii]@[j]
                        == self@.cells[ii][j],
                self.board@.len() == self@.height,
            decreases 4 - i,
        {
            if row >= i && col + i >= 3 && col + i < w && row - i < h - 3 {
                let r0 = (row - i) as usize;
                let c0 = (col + i) as usize;
                if self.board[r0][c0] == ox && self.board[r0 + 1][c0 - 1] == ox && self.board[r0
                    + 2][c0 - 2] == ox && self.board[r0 + 3][c0 - 3] == ox {
                    proof {
                        assert(run4(cells, row - i, col + i, 1, -1, ox));
                        assert(c4_diag2_hit(cells, w as int, h as int, row - i, col + i, ox));
                        assert(c4_diag2_win(cells, w as int, h as int, row as int, col as int, ox));
                    }
                    return true;
                }
            }
            i = i + 1;
        }
        proof {
            assert(!c4_diag2_win(cells, w as int, h as int, row as int, col as int, ox)) by {
                if c4_diag2_win(cells, w as int, h as int, row as int, col as int, ox) {
                    let (r, c) = choose|r: int, c: int|
                        0 <= row - r < 4 && row - r == c - col && #[trigger] c4_diag2_hit(
                            cells,
                            w as int,
                            h as int,
                            r,
                            c,
                            ox,
                        );
                    assert(row - 4 < r);
                }
            }
        }
        false
    }

    pub fn is_terminal(&self) -> (r: bool)
        requires
            self.wf(),
        ensures
            r == c4_terminal(self@),
    {
        self.is_draw() || self.has_winner()
    }

    /// The terminal score seen by the search: `i32::MAX` when the recorded
    /// last move won for 'X', `i32::MIN` when it won for 'O', 0 otherwise.
    pub fn game_value(&self) -> (v: i32)
        requires
            self.wf(),
        ensures
            v as int == c4_game_value(self@),
    {
        if self.has_winner() {
            match self.last_player {
                Some('X') => i32::MAX,
                Some('O') => i32::MIN,
                _ => 0,
            }
        } else {
            0
        }
    }

    /// The resolved outcome: a win for the symbol of the most recent
    /// placement when it completed a run, a draw when the board is full
    /// without a winner, otherwise the game goes on.
    pub fn terminal_state(&self) -> (r: TerminalResult)
        requires
            self.wf(),
        ensures
            r == c4_outcome(self@),
    {
        if self.has_winner() {
            match self.last_player {
                Some(p) => TerminalResult::Win(p),
                None => TerminalResult::Ongoing,
            }
        } else if self.is_draw() {
            TerminalResult::Draw
        } else {
            TerminalResult::Ongoing
        }
    }
}

/// Count of `x` among four cells.
pub open spec fn count4(a: char, b: char, c: char, d: char, x: char) -> int {
    (if a == x {
        1int
    } else {
        0
    }) + (if b == x {
        1int
    } else {
        0
    }) + (if c == x {
        1int
    } else {
        0
    }) + (if d == x {
        1int
    } else {
        0
    })
}

/// The heuristic value of one four-cell window for `player`: +100 for four
/// own tokens, +5 for three own plus an empty, +2 for two own plus two
/// empties, and -4 when the opponent has three with an empty.
pub open spec fn c4_window_score(a: char, b: char, c: char, d: char, player: char) -> int {
    let opp = if player == 'X' {
        'O'
    } else {
        'X'
    };
    let pc = count4(a, b, c, d, player);
    let oc = count4(a, b, c, d, opp);
    let ec = count4(a, b, c, d, ' ');
    (if pc == 4 {
        100int
    } else if pc == 3 && ec == 1 {
        5
    } else if pc == 2 && ec == 2 {
        2
    } else {
        0
    }) + (if oc == 3 && ec == 1 {
        -4int
    } else {
        0
    })
}

/// The window starting at `(r, c)` and stepping by `(dr, dc)`, scored for
/// `player`.
pub open spec fn c4_window_at(
    cells: Seq<Seq<char>>,
    r: int,
    c: int,
    dr: int,
    dc: int,
    player: char,
) -> int {
    c4_window_score(
        cells[r][c],
        cells[r + dr][c + dc],
        cells[r + 2 * dr][c + 2 * dc],
        cells[r + 3 * dr][c + 3 * dc],
        player,
    )
}

/// Sum of the windows starting at `(r, c)` for `c` in `[0, nc)`.
pub open spec fn c4_span_sum(
    cells: Seq<Seq<char>>,
    r: int,
    nc: int,
    dr: int,
    dc: int,
    player: char,
) -> int
    decreases nc,
{
    if nc <= 0 {
        0
    } else {
        c4_span_sum(cells, r, nc - 1, dr, dc, player) + c4_window_at(
            cells,
            r,
            nc - 1,
            dr,
            dc,
            player,
        )
    }
}

/// Sum of `c4_span_sum` over the rows `[r_lo, r_lo + n)`.
pub open spec fn c4_rows_sum(
    cells: Seq<Seq<char>>,
    r_lo: int,
    n: int,
    nc: int,
    dr: int,
    dc: int,
    player: char,
) -> int
    decreases n,
{
    if n <= 0 {
        0
    } else {
        c4_rows_sum(cells, r_lo, n - 1, nc, dr, dc, player) + c4_span_sum(
            cells,
            r_lo + n - 1,
            nc,
            dr,
            dc,
            player,
        )
    }
}

/// Number of `player` tokens in rows `[0, n)` of column `col`.
pub open spec fn c4_center_count(cells: Seq<Seq<char>>, n: int, col: int, player: char) -> int
    decreases n,
{
    if n <= 0 {
        0
    } else {
        c4_center_count(cells, n - 1, col, player) + (if cells[n - 1][col] == player {
            1int
        } else {
            0
        })
    }
}

/// The static heuristic score of a position for the side given by
/// `maximizing`: every four-cell window in every row, column and diagonal,
/// plus 3 per own token in the exact center column.
pub open spec fn c4_eval(m: C4State, maximizing: bool) -> int {
    let player = if maximizing {
        'X'
    } else {
        'O'
    };
    3 * c4_center_count(m.cells, m.height, m.width / 2, player) + c4_rows_sum(
        m.cells,
        0,
        m.height,
        m.width - 3,
        0,
        1,
        player,
    ) + c4_rows_sum(m.cells, 0, m.height - 3, m.width, 1, 0, player) + c4_rows_sum(
        m.cells,
        0,
        m.height - 3,
        m.width - 3,
        1,
        1,
        player,
    ) + c4_rows_sum(m.cells, 3, m.height - 3, m.width - 3, -1, 1, player)
}

pub proof fn lemma_c4_span_bounds(
    cells: Seq<Seq<char>>,
    r: int,
    nc: int,
    dr: int,
    dc: int,
    player: char,
)
    ensures
        nc >= 0 ==> -4 * nc <= c4_span_sum(cells, r, nc, dr, dc, player),
        nc >= 0 ==> c4_span_sum(cells, r, nc, dr, dc, player) <= 100 * nc,
        nc <= 0 ==> c4_span_sum(cells, r, nc, dr, dc, player) == 0,
    decreases nc,
{
    if nc > 0 {
        lemma_c4_span_bounds(cells, r, nc - 1, dr, dc, player);
    }
}

pub proof fn lemma_c4_rows_bounds(
    cells: Seq<Seq<char>>,
    r_lo: int,
    n: int,
    nc: int,
    dr: int,
    dc: int,
    player: char,
)
    requires
        nc <= 10,
    ensures
        n >= 0 ==> -40 * n <= c4_rows_sum(cells, r_lo, n, nc, dr, dc, player),
        n >= 0 ==> c4_rows_sum(cells, r_lo, n, nc, dr, dc, player) <= 1000 * n,
        n <= 0 ==> c4_rows_sum(cells, r_lo, n, nc, dr, dc, player) == 0,
    decreases n,
{
    if n > 0 {
        lemma_c4_rows_bounds(cells, r_lo, n - 1, nc, dr, dc, player);
        lemma_c4_span_bounds(cells, r_lo + n - 1, nc, dr, dc, player);
    }
}

pub proof fn lemma_c4_center_bounds(cells: Seq<Seq<char>>, n: int, col: int, player: char)
    ensures
        0 <= c4_center_count(cells, n, col, player) || n < 0,
        n >= 0 ==> 0 <= c4_center_count(cells, n, col, player) <= n,
        n <= 0 ==> c4_center_count(cells, n, col, player) == 0,
    decreases n,
{
    if n > 0 {
        lemma_c4_center_bounds(cells, n - 1, col, player);
    }
}

/// The heuristic score of any preset-sized position stays far inside `i32`.
pub proof fn lemma_c4_eval_bounds(m: C4State, maximizing: bool)
    requires
        c4_dims(m.width, m.height),
    ensures
        -20000 <= c4_eval(m, maximizing) <= 20000,
{
    let player = if maximizing {
        'X'
    } else {
        'O'
    };
    lemma_c4_center_bounds(m.cells, m.height, m.width / 2, player);
    lemma_c4_rows_bounds(m.cells, 0, m.height, m.width - 3, 0, 1, player);
    lemma_c4_rows_bounds(m.cells, 0, m.height - 3, m.width, 1, 0, player);
    lemma_c4_rows_bounds(m.cells, 0, m.height - 3, m.width - 3, 1, 1, player);
    lemma_c4_rows_bounds(m.cells, 3, m.height - 3, m.width - 3, -1, 1, player);
}

/// The computer player: a search depth derived from the difficulty.
pub struct Connect4AI {
    pub depth: u32,
}

impl Connect4AI {
    pub fn new(difficulty: Difficulty) -> (ai: Connect4AI)
        ensures
            ai.depth == if difficulty == Difficulty::Easy {
                1u32
            } else {
                5u32
            },
    {
        let depth: u32 = match difficulty {
            Difficulty::Easy => 1,
            Difficulty::Hard => 5,
        };
        Connect4AI { depth }
    }

    /// Scores one four-cell window for `player`.
    fn evaluate_window(&self, a: char, b: char, c: char, d: char, player: char) -> (score: i32)
        ensures
            score as int == c4_window_score(a, b, c, d, player),
    {
        let opponent = if player == 'X' {
            'O'
        } else {
            'X'
        };
        let mut player_count: i32 = 0;
        let mut opponent_count: i32 = 0;
        let mut empty_count: i32 = 0;
        if a == player {
            player_count = player_count + 1;
        }
        if b == player {
            player_count = player_count + 1;
        }
        if c == player {
            player_count = player_count + 1;
        }
        if d == player {
            player_count = player_count + 1;
        }
        if a == opponent {
            opponent_count = opponent_count + 1;
        }
        if b == opponent {
            opponent_count = opponent_count + 1;
        }
        if c == opponent {
            opponent_count = opponent_count + 1;
        }
        if d == opponent {
            opponent_count = opponent_count + 1;
        }
        if a == ' ' {
            empty_count = empty_count + 1;
        }
        if b == ' ' {
            empty_count = empty_count + 1;
        }
        if c == ' ' {
            empty_count = empty_count + 1;
        }
        if d == ' ' {
            empty_count = empty_count + 1;
        }
        let mut score: i32 = 0;
        if player_count == 4 {
            score = score + 100;
        } else if player_count == 3 && empty_count == 1 {
            score = score + 5;
        } else if player_count == 2 && empty_count == 2 {
            score = score + 2;
        }
        if opponent_count == 3 && empty_count == 1 {
            score = score - 4;
        }
        score
    }

    /// The full heuristic: center-column control plus every horizontal,
    /// vertical and diagonal window.
    pub fn score_position(&self, board: &Connect4Board, maximizing_player: bool) -> (score: i32)
        requires
            board.wf(),
        ensures
            score as int == c4_eval(board@, maximizing_player),
    {
        let player = if maximizing_player {
            'X'
        } else {
            'O'
        };
        let ghost cells = board@.cells;
        let w = board.width;
        let h = board.height;
        proof {
            crate::grid::lemma_rows(&board.board, board@.width, board@.height);
        }
        let mut score: i32 = 0;

        // Center column control.
        let center = (w / 2) as usize;
        let mut r: usize = 0;
        while r < h as usize
            invariant
                board.wf(),
                cells == board@.cells,
                w as int == board@.width,
                h as int == board@.height,
                center as int == board@.width / 2,
                player == if maximizing_player { 'X' } else { 'O' },
                r <= h as usize,
                board.board@.len() == board@.height,
                forall|i: int| 0 <= i < board@.height ==> (#[trigger] board.board@[i])@.len()
                    == board@.width,
                forall|i: int, j: int|
                    0 <= i < board@.height && 0 <= j < board@.width ==> #[trigger] board.board@[
                    i]@[j] == cells[i][j],
                score as int == 3 * c4_center_count(cells, r as int, center as int, player),
            decreases h as usize - r,
        {
            proof {
                lemma_c4_center_bounds(cells, r as int, center as int, player);
                lemma_c4_center_bounds(cells, r as int + 1, center as int, player);
            }
            if board.board[r][center] == player {
                score = score + 3;
            }
            r = r + 1;
        }
        let ghost s1 = 3 * c4_center_count(cells, board@.height, board@.width / 2, player);
        proof {
            assert(score as int == s1);
            lemma_c4_center_bounds(cells, board@.height, board@.width / 2, player);
        }

        // Horizontal windows.
        let mut r: usize = 0;
        while r < h as usize
            invariant
                board.wf(),
                cells == board@.cells,
                w as int == board@.width,
                h as int == board@.height,
                player == if maximizing_player { 'X' } else { 'O' },
                r <= h as usize,
                board.board@.len() == board@.height,
                forall|i: int| 0 <= i < board@.height ==> (#[trigger] board.board@[i])@.len()
                    == board@.width,
                forall|i: int, j: int|
                    0 <= i < board@.height && 0 <= j < board@.width ==> #[trigger] board.board@[
                    i]@[j] == cells[i][j],
                0 <= s1 <= 21,
                score as int == s1 + c4_rows_sum(cells, 0, r as int, w - 3, 0, 1, player),
            decreases h as usize - r,
        {
            let mut c: usize = 0;
            while c < (w - 3) as usize
                invariant
                    board.wf(),
                    cells == board@.cells,
                    w as int == board@.width,
                    h as int == board@.height,
                    player == if maximizing_player { 'X' } else { 'O' },
                    r < h as usize,
                    c <= (w - 3) as usize,
                    board.board@.len() == board@.height,
                    forall|i: int| 0 <= i < board@.height ==> (#[trigger] board.board@[i])@.len()
                        == board@.width,
                    forall|i: int, j: int|
                        0 <= i < board@.height && 0 <= j < board@.width ==> #[trigger] board.board@[
                        i]@[j] == cells[i][j],
                    0 <= s1 <= 21,
                    score as int == s1 + c4_rows_sum(cells, 0, r as int, w - 3, 0, 1, player)
                        + c4_span_sum(cells, r as int, c as int, 0, 1, player),
                decreases (w - 3) as usize - c,
            {
                let v = self.evaluate_window(
                    board.board[r][c],
                    board.board[r][c + 1],
                    board.board[r][c + 2],
                    board.board[r][c + 3],
                    player,
                );
                proof {
                    lemma_c4_rows_bounds(cells, 0, r as int, w - 3, 0, 1, player);
                    lemma_c4_span_bounds(cells, r as int, c as int, 0, 1, player);
                    assert(v as int == c4_window_at(cells, r as int, c as int, 0, 1, player));
                }
                score = score + v;
                c = c + 1;
            }
            r = r + 1;
        }
        let ghost s2 = s1 + c4_rows_sum(cells, 0, board@.height, board@.width - 3, 0, 1, player);
        proof {
            assert(score as int == s2);
            lemma_c4_rows_bounds(cells, 0, board@.height, board@.width - 3, 0, 1, player);
        }

        // Vertical windows.
        let mut r: usize = 0;
        while r < (h - 3) as usize
            invariant
                board.wf(),
                cells == board@.cells,
                w as int == board@.width,
                h as int == board@.height,
                player == if maximizing_player { 'X' } else { 'O' },
                r <= (h - 3) as usize,
                board.board@.len() == board@.height,
                forall|i: int| 0 <= i < board@.height ==> (#[trigger] board.board@[i])@.len()
                    == board@.width,
                forall|i: int, j: int|
                    0 <= i < board@.height && 0 <= j < board@.width ==> #[trigger] board.board@[
                    i]@[j] == cells[i][j],
                -7021 <= s2 <= 7021,
                score as int == s2 + c4_rows_sum(cells, 0, r as int, w as int, 1, 0, player),
            decreases (h - 3) as usize - r,
        {
            let mut c: usize = 0;
            while c < w as usize
                invariant
                    board.wf(),
                    cells == board@.cells,
                    w as int == board@.width,
                    h as int == board@.height,
                    player == if maximizing_player { 'X' } else { 'O' },
                    r < (h - 3) as usize,
                    c <= w as usize,
                    board.board@.len() == board@.height,
                    forall|i: int| 0 <= i < board@.height ==> (#[trigger] board.board@[i])@.len()
                        == board@.width,
                    forall|i: int, j: int|
                        0 <= i < board@.height && 0 <= j < board@.width ==> #[trigger] board.board@[
                        i]@[j] == cells[i][j],
                    -7021 <= s2 <= 7021,
                    score as int == s2 + c4_rows_sum(cells, 0, r as int, w as int, 1, 0, player)
                        + c4_span_sum(cells, r as int, c as int, 1, 0, player),
                decreases w as usize - c,
            {
                let v = self.evaluate_window(
                    board.board[r][c],
                    board.board[r + 1][c],
                    board.board[r + 2][c],
                    board.board[r + 3][c],
                    player,
                );
                proof {
                    lemma_c4_rows_bounds(cells, 0, r as int, w as int, 1, 0, player);
                    lemma_c4_span_bounds(cells, r as int, c as int, 1, 0, player);
                    assert(v as int == c4_window_at(cells, r as int, c as int, 1, 0, player));
                }
                score = score + v;
                c = c + 1;
            }
            r = r + 1;
        }
        let ghost s3 = s2 + c4_rows_sum(cells, 0, board@.height - 3, board@.width, 1, 0, player);
        proof {
            assert(score as int == s3);
            lemma_c4_rows_bounds(cells, 0, board@.height - 3, board@.width, 1, 0, player);
        }

        // Down-right diagonal windows.
        let mut r: usize = 0;
        while r < (h - 3) as usize
            invariant
                board.wf(),
                cells == board@.cells,
                w as int == board@.width,
                h as int == board@.height,
                player == if maximizing_player { 'X' } else { 'O' },
                r <= (h - 3) as usize,
                board.board@.len() == board@.height,
                forall|i: int| 0 <= i < board@.height ==> (#[trigger] board.board@[i])@.len()
                    == board@.width,
                forall|i: int, j: int|
                    0 <= i < board@.height && 0 <= j < board@.width ==> #[trigger] board.board@[
                    i]@[j] == cells[i][j],
                -11021 <= s3 <= 11021,
                score as int == s3 + c4_rows_sum(cells, 0, r as int, w - 3, 1, 1, player),
            decreases (h - 3) as usize - r,
        {
            let mut c: usize = 0;
            while c < (w - 3) as usize
                invariant
                    board.wf(),
                    cells == board@.cells,
                    w as int == board@.width,
                    h as int == board@.height,
                    player == if maximizing_player { 'X' } else { 'O' },
                    r < (h - 3) as usize,
                    c <= (w - 3) as usize,
                    board.board@.len() == board@.height,
                    forall|i: int| 0 <= i < board@.height ==> (#[trigger] board.board@[i])@.len()
                        == board@.width,
                    forall|i: int, j: int|
                        0 <= i < board@.height && 0 <= j < board@.width ==> #[trigger] board.board@[
                        i]@[j] == cells[i][j],
                    -11021 <= s3 <= 11021,
                    score as int == s3 + c4_rows_sum(cells, 0, r as int, w - 3, 1, 1, player)
                        + c4_span_sum(cells, r as int, c as int, 1, 1, player),
                decreases (w - 3) as usize - c,
            {
                let v = self.evaluate_window(
                    board.board[r][c],
                    board.board[r + 1][c + 1],
                    board.board[r + 2][c + 2],
                    board.board[r + 3][c + 3],
                    player,
                );
                proof {
                    lemma_c4_rows_bounds(cells, 0, r as int, w - 3, 1, 1, player);
                    lemma_c4_span_bounds(cells, r as int, c as int, 1, 1, player);
                    assert(v as int == c4_window_at(cells, r as int, c as int, 1, 1, player));
                }
                score = score + v;
                c = c + 1;
            }
            r = r + 1;
        }
        let ghost s4 = s3 + c4_rows_sum(cells, 0, board@.height - 3, board@.width - 3, 1, 1, player);
        proof {
            assert(score as int == s4);
            lemma_c4_rows_bounds(cells, 0, board@.height - 3, board@.width - 3, 1, 1, player);
        }

        // Up-right diagonal windows.
        let mut r: usize = 3;
        while r < h as usize
            invariant
                board.wf(),
                cells == board@.cells,
                w as int == board@.width,
                h as int == board@.height,
                player == if maximizing_player { 'X' } else { 'O' },
                3 <= r <= h as usize,
                board.board@.len() == board@.height,
                forall|i: int| 0 <= i < board@.height ==> (#[trigger] board.board@[i])@.len()
                    == board@.width,
                forall|i: int, j: int|
                    0 <= i < board@.height && 0 <= j < board@.width ==> #[trigger] board.board@[
                    i]@[j] == cells[i][j],
                -15021 <= s4 <= 15021,
                score as int == s4 + c4_rows_sum(cells, 3, r as int - 3, w - 3, -1, 1, player),
            decreases h as usize - r,
        {
            let mut c: usize = 0;
            while c < (w - 3) as usize
                invariant
                    board.wf(),
                    cells == board@.cells,
                    w as int == board@.width,
                    h as int == board@.height,
                    player == if maximizing_player { 'X' } else { 'O' },
                    3 <= r < h as usize,
                    c <= (w - 3) as usize,
                    board.board@.len() == board@.height,
                    forall|i: int| 0 <= i < board@.height ==> (#[trigger] board.board@[i])@.len()
                        == board@.width,
                    forall|i: int, j: int|
                        0 <= i < board@.height && 0 <= j < board@.width ==> #[trigger] board.board@[
                        i]@[j] == cells[i][j],
                    -15021 <= s4 <= 15021,
                    score as int == s4 + c4_rows_sum(cells, 3, r as int - 3, w - 3, -1, 1, player)
                        + c4_span_sum(cells, r as int, c as int, -1, 1, player),
                decreases (w - 3) as usize - c,
            {
                let v = self.evaluate_window(
                    board.board[r][c],
                    board.board[r - 1][c + 1],
                    board.board[r - 2][c + 2],
                    board.board[r - 3][c + 3],
                    player,
                );
                proof {
                    lemma_c4_rows_bounds(cells, 3, r as int - 3, w - 3, -1, 1, player);
                    lemma_c4_span_bounds(cells, r as int, c as int, -1, 1, player);
                    assert(v as int == c4_window_at(cells, r as int, c as int, -1, 1, player));
                }
                score = score + v;
                c = c + 1;
            }
            r = r + 1;
        }
        proof {
            assert(score as int == c4_eval(board@, maximizing_player));
        }
        score
    }

    /// Depth-limited minimax with alpha-beta pruning. Every placement made
    /// during lookahead is paired with exactly one removal on the same
    /// column, and the last-move record is put back afterwards, so the
    /// board comes back exactly as it arrived. The score is exactly the
    /// pruning search's value `c4_ab`; on the full window that equals
    /// exhaustive minimax by `lemma_c4_ab_equals_search`, and the subtree
    /// of the returned column then achieves exactly the returned score.
    fn minimax(
        &self,
        board: &mut Connect4Board,
        depth: u32,
        alpha: i32,
        beta: i32,
        maximizing_player: bool,
    ) -> (r: (i32, u32))
        requires
            old(board).wf(),
            alpha < beta,
        ensures
            final(board).wf(),
            final(board)@ == old(board)@,
            r.0 as int == c4_ab(
                old(board)@,
                depth as nat,
                alpha as int,
                beta as int,
                maximizing_player,
            ),
            depth > 0 && !c4_terminal(old(board)@) ==> c4_allows(old(board)@, r.1 as int),
            depth > 0 && !c4_terminal(old(board)@) && alpha as int == i32::MIN && beta as int
                == i32::MAX ==> c4_search(
                c4_place_state(old(board)@, r.1 as int, c4_move_sym(maximizing_player)),
                (depth - 1) as nat,
                !maximizing_player,
            ) == r.0 as int,
        decreases depth,
    {
        let term = board.is_terminal();
        if depth == 0 || term {
            let leaf = if term {
                board.game_value()
            } else {
                self.score_position(board, maximizing_player)
            };
            return (leaf, 0);
        }
        let saved_row = board.last_row();
        let saved_col = board.last_col();
        let saved_player = board.last_player();
        let ghost m0 = board@;
        let ghost alpha0 = alpha as int;
        let ghost beta0 = beta as int;
        let ghost target = c4_ab(m0, depth as nat, alpha0, beta0, maximizing_player);
        let moves = board.available_moves();
        proof {
            assert(!board_full(m0.cells, m0.width));
            let c = choose|c: int| 0 <= c < m0.width && col_open(m0.cells, c);
            assert(c4_allows(m0, (c as u32) as int));
            assert(moves@.contains(c as u32));
            assert(moves@.len() > 0);
        }
        let ridx = crate::hostio::random_below(moves.len());
        let mut best_move: u32 = moves[ridx];
        let mut best_score: i32 = if maximizing_player {
            i32::MIN
        } else {
            i32::MAX
        };
        let mut alpha = alpha;
        let mut beta = beta;
        let mut col: u32 = 0;
        let w = board.width();
        proof {
            assert(c4_ab_fold(
                m0,
                depth as nat,
                maximizing_player,
                0,
                alpha as int,
                beta as int,
                best_score as int,
            ) == target);
        }
        loop
            invariant_except_break
                alpha < beta,
                maximizing_player ==> beta as int == beta0 && alpha as int == (if best_score as int
                    > alpha0 {
                    best_score as int
                } else {
                    alpha0
                }),
                !maximizing_player ==> alpha as int == alpha0 && beta as int == (if (
                best_score as int) < beta0 {
                    best_score as int
                } else {
                    beta0
                }),
                c4_ab_fold(
                    m0,
                    depth as nat,
                    maximizing_player,
                    col as int,
                    alpha as int,
                    beta as int,
                    best_score as int,
                ) == target,
            invariant
                board.wf(),
                board@.cells == m0.cells,
                board@.width == m0.width,
                board@.height == m0.height,
                c4_dims(m0.width, m0.height),
                !c4_terminal(m0),
                depth >= 1,
                w as int == m0.width,
                col <= w,
                i32::MIN <= alpha0 < beta0 <= i32::MAX,
                c4_allows(m0, best_move as int),
                target == c4_ab(m0, depth as nat, alpha0, beta0, maximizing_player),
                maximizing_player && alpha0 == i32::MIN && beta0 == i32::MAX && best_score as int
                    != i32::MIN ==> c4_search(
                    c4_place_state(m0, best_move as int, 'X'),
                    (depth - 1) as nat,
                    false,
                ) == best_score as int,
                maximizing_player && alpha0 == i32::MIN && beta0 == i32::MAX && best_score as int
                    == i32::MIN ==> (forall|cc: int|
                    0 <= cc < col as int && #[trigger] c4_allows(m0, cc) ==> c4_search(
                        c4_place_state(m0, cc, 'X'),
                        (depth - 1) as nat,
                        false,
                    ) == i32::MIN),
                !maximizing_player && alpha0 == i32::MIN && beta0 == i32::MAX && best_score as int
                    != i32::MAX ==> c4_search(
                    c4_place_state(m0, best_move as int, 'O'),
                    (depth - 1) as nat,
                    true,
                ) == best_score as int,
                !maximizing_player && alpha0 == i32::MIN && beta0 == i32::MAX && best_score as int
                    == i32::MAX ==> (forall|cc: int|
                    0 <= cc < col as int && #[trigger] c4_allows(m0, cc) ==> c4_search(
                        c4_place_state(m0, cc, 'O'),
                        (depth - 1) as nat,
                        true,
                    ) == i32::MAX),
            ensures
                board.wf(),
                board@.cells == m0.cells,
                board@.width == m0.width,
                board@.height == m0.height,
                best_score as int == target,
                c4_allows(m0, best_move as int),
                alpha0 == i32::MIN && beta0 == i32::MAX ==> c4_search(
                    c4_place_state(m0, best_move as int, c4_move_sym(maximizing_player)),
                    (depth - 1) as nat,
                    !maximizing_player,
                ) == best_score as int,
            decreases w - col,
        {
            if col >= w {
                proof {
                    assert(c4_ab_fold(
                        m0,
                        depth as nat,
                        maximizing_player,
                        col as int,
                        alpha as int,
                        beta as int,
                        best_score as int,
                    ) == best_score as int);
                }
                break ;
            }
            let legal = board.allows_move(col);
            proof {
                assert(c4_allows(board@, col as int) == c4_allows(m0, col as int));
            }
            if legal {
                let sym = if maximizing_player {
                    'X'
                } else {
                    'O'
                };
                let ghost pre = board@;
                board.perform_move(col, sym);
                proof {
                    assert(c4_place_state(pre, col as int, sym) == c4_place_state(
                        m0,
                        col as int,
                        sym,
                    ));
                }
                let child = self.minimax(board, depth - 1, alpha, beta, !maximizing_player);
                board.undo_move(col);
                proof {
                    crate::grid::lemma_place_then_remove(
                        m0.cells,
                        m0.width,
                        m0.height,
                        col as int,
                        sym,
                    );
                    assert(board@.cells == m0.cells);
                }
                let score = child.0;
                proof {
                    assert(score as int == c4_ab(
                        c4_place_state(m0, col as int, sym),
                        (depth - 1) as nat,
                        alpha as int,
                        beta as int,
                        !maximizing_player,
                    ));
                    if alpha0 == i32::MIN && beta0 == i32::MAX {
                        // Knuth-Moore on the child's window pins the child's
                        // exhaustive value whenever the score moves the best,
                        // and pins it to the sentinel when nothing has.
                        let childst = c4_place_state(m0, col as int, sym);
                        lemma_c4_ab_km(
                            childst,
                            (depth - 1) as nat,
                            alpha as int,
                            beta as int,
                            !maximizing_player,
                        );
                        lemma_c4_search_bounds(childst, (depth - 1) as nat, !maximizing_player);
                        let v = c4_search(childst, (depth - 1) as nat, !maximizing_player);
                        if maximizing_player {
                            if score > best_score {
                                assert((alpha as int) < score as int);
                                if (score as int) < beta as int {
                                    assert(v == score as int);
                                } else {
                                    assert(v >= beta as int);
                                    assert(v == score as int);
                                }
                            } else if best_score == i32::MIN {
                                assert(score as int <= alpha as int);
                                assert(v == i32::MIN);
                            }
                        } else {
                            if score < best_score {
                                assert((score as int) < beta as int);
                                if (alpha as int) < score as int {
                                    assert(v == score as int);
                                } else {
                                    assert(v <= alpha as int);
                                    assert(v == score as int);
                                }
                            } else if best_score == i32::MAX {
                                assert(score as int >= beta as int);
                                assert(v == i32::MAX);
                            }
                        }
                    }
                }
                if maximizing_player {
                    if score > best_score {
                        best_move = col;
                        best_score = score;
                    }
                    if best_score > alpha {
                        alpha = best_score;
                    }
                    if alpha >= beta {
                        proof {
                            assert(best_score as int == target);
                        }
                        break ;
                    }
                } else {
                    if score < best_score {
                        best_move = col;
                        best_score = score;
                    }
                    if best_score < beta {
                        beta = best_score;
                    }
                    if alpha >= beta {
                        proof {
                            assert(best_score as int == target);
                        }
                        break ;
                    }
                }
            }
            col = col + 1;
        }
        board.restore_record(saved_row, saved_col, saved_player);
        proof {
            assert(board@ == old(board)@);
        }
        (best_score, best_move)
    }

    /// The column the computer plays on an undecided position: a legal
    /// column whose subtree achieves exactly the exhaustive minimax value
    /// of the position at this agent's depth. The board comes back
    /// exactly as it arrived.
    pub fn best_move(&self, board: &mut Connect4Board, ox: char) -> (col: u32)
        requires
            old(board).wf(),
            self.depth >= 1,
            !c4_terminal(old(board)@),
        ensures
            final(board).wf(),
            final(board)@ == old(board)@,
            c4_allows(old(board)@, col as int),
            c4_search(
                c4_place_state(old(board)@, col as int, c4_move_sym(ox == 'X')),
                (self.depth - 1) as nat,
                !(ox == 'X'),
            ) == c4_search(old(board)@, self.depth as nat, ox == 'X'),
    {
        let maximizing_player = ox == 'X';
        let r = self.minimax(board, self.depth, i32::MIN, i32::MAX, maximizing_player);
        proof {
            lemma_c4_ab_equals_search(old(board)@, self.depth as nat, maximizing_player);
        }
        r.1
    }
}

impl Connect4Board {
    /// The board drawn as text: the cell grid, then the column indices.
    pub fn render(&self) -> (s: String)
        requires
            self.wf(),
    {
        proof {
            crate::grid::lemma_rows(&self.board, self@.width, self@.height);
        }
        let mut s = String::new();
        let mut r: usize = 0;
        while r < self.height as usize
            invariant
                self.wf(),
                r <= self@.height,
                self.board@.len() == self@.height,
                forall|i: int| 0 <= i < self@.height ==> (#[trigger] self.board@[i])@.len()
                    == self@.width,
            decreases self@.height - r,
        {
            let mut c: usize = 0;
            while c < self.width as usize
                invariant
                    self.wf(),
                    r < self@.height,
                    c <= self@.width,
                    self.board@.len() == self@.height,
                    forall|i: int| 0 <= i < self@.height ==> (#[trigger] self.board@[i])@.len()
                        == self@.width,
                decreases self@.width - c,
            {
                s.append(crate::hostio::cell_text(self.board[r][c]));
                s.append(" ");
                c = c + 1;
            }
            s.append("\n");
            r = r + 1;
        }
        let mut c: u32 = 0;
        while c < self.width
            invariant
                self.wf(),
                c <= self@.width,
            decreases self@.width - c,
        {
            s.append(crate::hostio::digit_text(c));
            s.append(" ");
            c = c + 1;
        }
        s.append("\n");
        s
    }

    /// The lowest-numbered open column of a board that has one.
    fn first_open_column(&self) -> (col: u32)
        requires
            self.wf(),
            !board_full(self@.cells, self@.width),
        ensures
            c4_allows(self@, col as int),
    {
        proof {
            crate::grid::lemma_rows(&self.board, self@.width, self@.height);
        }
        let mut c: u32 = 0;
        while c < self.width
            invariant
                self.wf(),
                c <= self@.width,
                self.board@.len() == self@.height,
                forall|i: int| 0 <= i < self@.height ==> (#[trigger] self.board@[i])@.len()
                    == self@.width,
                forall|i: int, j: int|
                    0 <= i < self@.height && 0 <= j < self@.width ==> #[trigger] self.board@[i]@[j]
                        == self@.cells[i][j],
                forall|cc: int| 0 <= cc < c ==> !(#[trigger] col_open(self@.cells, cc)),
            decreases self@.width - c,
        {
            if self.board[0][c as usize] == ' ' {
                return c;
            }
            c = c + 1;
        }
        proof {
            assert(board_full(self@.cells, self@.width));
            assert(false);
        }
        0
    }

    /// Prompts the console for a column until a legal one arrives; after a
    /// bounded number of malformed or illegal lines (or a closed input),
    /// falls back to the lowest open column, which the precondition
    /// guarantees exists.
    pub fn get_player_move(&mut self, ox: char) -> (col: u32)
        requires
            old(self).wf(),
            !board_full(old(self)@.cells, old(self)@.width),
        ensures
            final(self)@ == old(self)@,
            c4_allows(old(self)@, col as int),
    {
        let ghost m0 = self@;
        let mut tries: u32 = 0;
        while tries < 1000
            invariant
                self.wf(),
                self@ == m0,
                !board_full(m0.cells, m0.width),
            decreases 1000 - tries,
        {
            let mut prompt = String::new();
            prompt.append(crate::hostio::cell_text(ox));
            prompt.append("'s choice: ");
            crate::hostio::print_text(prompt.as_str());
            match crate::hostio::read_line_stdin() {
                Some(line) => {
                    match crate::hostio::parse_u32_line(&line) {
                        Some(c) => {
                            if self.allows_move(c) {
                                return c;
                            }
                        },
                        None => {},
                    }
                },
                None => {},
            }
            tries = tries + 1;
        }
        self.first_open_column()
    }

    /// Announces the result on the console when the game has ended.
    pub fn print_congrats(&self)
        requires
            self.wf(),
    {
        if self.is_draw() {
            crate::hostio::print_text(self.render().as_str());
            crate::hostio::print_text("It's a draw!\n");
        } else {
            match self.last_player {
                Some(last_player) => {
                    crate::hostio::print_text(self.render().as_str());
                    let mut msg = String::new();
                    msg.append(crate::hostio::cell_text(last_player));
                    msg.append(" wins -- Congratulations!\n");
                    crate::hostio::print_text(msg.as_str());
                },
                None => {},
            }
        }
    }

    /// Hosts a two-player console game to its end, returning the columns
    /// played, each as one digit.
    pub fn host_game(&mut self) -> (moves: String)
        requires
            old(self).wf(),
        ensures
            final(self).wf(),
            c4_terminal(final(self)@),
    {
        crate::hostio::print_text("Welcome to Connect Four!\n\n");
        let mut moves = String::new();
        let mut ox = 'X';
        loop
            invariant
                self.wf(),
                ox == 'X' || ox == 'O',
            ensures
                self.wf(),
                c4_terminal(self@),
            decreases crate::grid::space_left(self@.cells, self@.width, self@.height),
        {
            proof {
                crate::grid::lemma_space_left_nonneg(self@.cells, self@.width, self@.height);
            }
            if self.is_terminal() {
                break ;
            }
            crate::hostio::print_text(self.render().as_str());
            let col_move = self.get_player_move(ox);
            let ghost pre = self@;
            self.perform_move(col_move, ox);
            proof {
                crate::grid::lemma_space_left_place(
                    pre.cells,
                    pre.width,
                    pre.height,
                    col_move as int,
                    ox,
                );
            }
            moves.append(crate::hostio::digit_text(col_move));
            ox = if ox == 'X' {
                'O'
            } else {
                'X'
            };
        }
        self.print_congrats();
        moves
    }

    /// Hosts a console game against the computer ('O') to its end,
    /// returning the columns played, each as one digit.
    #[allow(non_snake_case)]
    pub fn host_game_AI(&mut self, difficulty: Difficulty) -> (moves: String)
        requires
            old(self).wf(),
        ensures
            final(self).wf(),
            c4_terminal(final(self)@),
    {
        crate::hostio::print_text("Welcome to Connect Four vs AI mode!\n\n");
        let mut moves = String::new();
        let mut ox = 'X';
        let ai = Connect4AI::new(difficulty);
        loop
            invariant
                self.wf(),
                ox == 'X' || ox == 'O',
                ai.depth >= 1,
            ensures
                self.wf(),
                c4_terminal(self@),
            decreases crate::grid::space_left(self@.cells, self@.width, self@.height),
        {
            proof {
                crate::grid::lemma_space_left_nonneg(self@.cells, self@.width, self@.height);
            }
            if self.is_terminal() {
                break ;
            }
            crate::hostio::print_text(self.render().as_str());
            let col_move = if ox == 'O' {
                ai.best_move(self, ox)
            } else {
                self.get_player_move(ox)
            };
            let ghost pre = self@;
            self.perform_move(col_move, ox);
            proof {
                crate::grid::lemma_space_left_place(
                    pre.cells,
                    pre.width,
                    pre.height,
                    col_move as int,
                    ox,
                );
            }
            moves.append(crate::hostio::digit_text(col_move));
            ox = if ox == 'X' {
                'O'
            } else {
                'X'
            };
        }
        self.print_congrats();
        moves
    }
}

/// The symbol the side to move places: the maximizing side plays 'X'.
pub open spec fn c4_move_sym(maximizing: bool) -> char {
    if maximizing {
        'X'
    } else {
        'O'
    }
}

/// Exhaustive, unpruned minimax value of a position at the given depth.
pub open spec fn c4_search(m: C4State, depth: nat, maximizing: bool) -> int
    decreases depth, m.width + 1, 0int,
{
    if depth == 0 || c4_terminal(m) {
        if c4_terminal(m) {
            c4_game_value(m)
        } else {
            c4_eval(m, maximizing)
        }
    } else {
        c4_search_fold(m, depth, maximizing, 0)
    }
}

/// Best value over the legal columns from `col` up, starting from the
/// search's sentinel.
pub open spec fn c4_search_fold(m: C4State, depth: nat, maximizing: bool, col: int) -> int
    decreases depth, m.width - col, 1int,
{
    if depth == 0 || col < 0 || col >= m.width {
        if maximizing {
            i32::MIN as int
        } else {
            i32::MAX as int
        }
    } else {
        let rest = c4_search_fold(m, depth, maximizing, col + 1);
        if c4_allows(m, col) {
            let child = c4_search(
                c4_place_state(m, col, c4_move_sym(maximizing)),
                (depth - 1) as nat,
                !maximizing,
            );
            if maximizing {
                if child > rest {
                    child
                } else {
                    rest
                }
            } else {
                if child < rest {
                    child
                } else {
                    rest
                }
            }
        } else {
            rest
        }
    }
}

/// The value computed by depth-limited alpha-beta search, exactly as the
/// pruning loop computes it.
pub open spec fn c4_ab(m: C4State, depth: nat, alpha: int, beta: int, maximizing: bool) -> int
    decreases depth, m.width + 1, 0int,
{
    if depth == 0 || c4_terminal(m) {
        if c4_terminal(m) {
            c4_game_value(m)
        } else {
            c4_eval(m, maximizing)
        }
    } else {
        c4_ab_fold(
            m,
            depth,
            maximizing,
            0,
            alpha,
            beta,
            if maximizing {
                i32::MIN as int
            } else {
                i32::MAX as int
            },
        )
    }
}

/// One pass of the pruning loop from column `col`, carrying the running
/// best value and window; stops as soon as `alpha >= beta`.
pub open spec fn c4_ab_fold(
    m: C4State,
    depth: nat,
    maximizing: bool,
    col: int,
    alpha: int,
    beta: int,
    best: int,
) -> int
    decreases depth, m.width - col, 1int,
{
    if depth == 0 || col < 0 || col >= m.width {
        best
    } else if !c4_allows(m, col) {
        c4_ab_fold(m, depth, maximizing, col + 1, alpha, beta, best)
    } else {
        let s = c4_ab(
            c4_place_state(m, col, c4_move_sym(maximizing)),
            (depth - 1) as nat,
            alpha,
            beta,
            !maximizing,
        );
        if maximizing {
            let best2 = if s > best {
                s
            } else {
                best
            };
            let alpha2 = if best2 > alpha {
                best2
            } else {
                alpha
            };
            if alpha2 >= beta {
                best2
            } else {
                c4_ab_fold(m, depth, maximizing, col + 1, alpha2, beta, best2)
            }
        } else {
            let best2 = if s < best {
                s
            } else {
                best
            };
            let beta2 = if best2 < beta {
                best2
            } else {
                beta
            };
            if alpha >= beta2 {
                best2
            } else {
                c4_ab_fold(m, depth, maximizing, col + 1, alpha, beta2, best2)
            }
        }
    }
}

pub proof fn lemma_c4_search_bounds(m: C4State, depth: nat, maximizing: bool)
    requires
        c4_dims(m.width, m.height),
    ensures
        i32::MIN <= c4_search(m, depth, maximizing) <= i32::MAX,
    decreases depth, m.width + 1, 0int,
{
    if depth == 0 || c4_terminal(m) {
        if !c4_terminal(m) {
            lemma_c4_eval_bounds(m, maximizing);
        }
    } else {
        lemma_c4_search_fold_bounds(m, depth, maximizing, 0);
    }
}

pub proof fn lemma_c4_search_fold_bounds(m: C4State, depth: nat, maximizing: bool, col: int)
    requires
        c4_dims(m.width, m.height),
    ensures
        i32::MIN <= c4_search_fold(m, depth, maximizing, col) <= i32::MAX,
    decreases depth, m.width - col, 1int,
{
    if depth == 0 || col < 0 || col >= m.width {
    } else {
        lemma_c4_search_fold_bounds(m, depth, maximizing, col + 1);
        if c4_allows(m, col) {
            lemma_c4_search_bounds(
                c4_place_state(m, col, c4_move_sym(maximizing)),
                (depth - 1) as nat,
                !maximizing,
            );
        }
    }
}

pub proof fn lemma_c4_ab_bounds(m: C4State, depth: nat, alpha: int, beta: int, maximizing: bool)
    requires
        c4_dims(m.width, m.height),
    ensures
        i32::MIN <= c4_ab(m, depth, alpha, beta, maximizing) <= i32::MAX,
    decreases depth, m.width + 1, 0int,
{
    if depth == 0 || c4_terminal(m) {
        if !c4_terminal(m) {
            lemma_c4_eval_bounds(m, maximizing);
        }
    } else {
        lemma_c4_ab_fold_bounds(
            m,
            depth,
            maximizing,
            0,
            alpha,
            beta,
            if maximizing {
                i32::MIN as int
            } else {
                i32::MAX as int
            },
        );
    }
}

pub proof fn lemma_c4_ab_fold_bounds(
    m: C4State,
    depth: nat,
    maximizing: bool,
    col: int,
    alpha: int,
    beta: int,
    best: int,
)
    requires
        c4_dims(m.width, m.height),
        i32::MIN <= best <= i32::MAX,
    ensures
        i32::MIN <= c4_ab_fold(m, depth, maximizing, col, alpha, beta, best) <= i32::MAX,
    decreases depth, m.width - col, 1int,
{
    if depth == 0 || col < 0 || col >= m.width {
    } else if !c4_allows(m, col) {
        lemma_c4_ab_fold_bounds(m, depth, maximizing, col + 1, alpha, beta, best);
    } else {
        let s = c4_ab(
            c4_place_state(m, col, c4_move_sym(maximizing)),
            (depth - 1) as nat,
            alpha,
            beta,
            !maximizing,
        );
        lemma_c4_ab_bounds(
            c4_place_state(m, col, c4_move_sym(maximizing)),
            (depth - 1) as nat,
            alpha,
            beta,
            !maximizing,
        );
        if maximizing {
            let best2 = if s > best {
                s
            } else {
                best
            };
            let alpha2 = if best2 > alpha {
                best2
            } else {
                alpha
            };
            if alpha2 < beta {
                lemma_c4_ab_fold_bounds(m, depth, maximizing, col + 1, alpha2, beta, best2);
            }
        } else {
            let best2 = if s < best {
                s
            } else {
                best
            };
            let beta2 = if best2 < beta {
                best2
            } else {
                beta
            };
            if alpha < beta2 {
                lemma_c4_ab_fold_bounds(m, depth, maximizing, col + 1, alpha, beta2, best2);
            }
        }
    }
}

/// The Knuth-Moore bound conditions: within the window the pruned value is
/// exact; outside it, it bounds the true value against the window edge.
pub proof fn lemma_c4_ab_km(m: C4State, depth: nat, alpha: int, beta: int, maximizing: bool)
    requires
        c4_dims(m.width, m.height),
        i32::MIN <= alpha < beta <= i32::MAX,
    ensures
        ({
            let r = c4_ab(m, depth, alpha, beta, maximizing);
            let v = c4_search(m, depth, maximizing);
            &&& (r <= alpha ==> v <= alpha)
            &&& (alpha < r < beta ==> v == r)
            &&& (r >= beta ==> v >= beta)
        }),
    decreases depth, m.width + 1, 0int,
{
    if depth == 0 || c4_terminal(m) {
    } else if maximizing {
        lemma_c4_ab_km_fold_max(m, depth, 0, alpha, beta, i32::MIN as int);
        lemma_c4_search_fold_bounds(m, depth, true, 0);
    } else {
        lemma_c4_ab_km_fold_min(m, depth, 0, alpha, beta, i32::MAX as int);
        lemma_c4_search_fold_bounds(m, depth, false, 0);
    }
}

proof fn lemma_c4_ab_km_fold_max(
    m: C4State,
    depth: nat,
    col: int,
    alpha0: int,
    beta: int,
    b: int,
)
    requires
        c4_dims(m.width, m.height),
        depth >= 1,
        i32::MIN <= alpha0 < beta <= i32::MAX,
        i32::MIN <= b,
        (if b > alpha0 {
            b
        } else {
            alpha0
        }) < beta,
    ensures
        ({
            let al = if b > alpha0 {
                b
            } else {
                alpha0
            };
            let r = c4_ab_fold(m, depth, true, col, al, beta, b);
            let vrest = c4_search_fold(m, depth, true, col);
            &&& r >= b
            &&& (r <= alpha0 ==> vrest <= alpha0)
            &&& (alpha0 < r < beta ==> r == (if b > vrest {
                b
            } else {
                vrest
            }))
            &&& (r >= beta ==> vrest >= beta)
        }),
    decreases depth, m.width - col, 1int,
{
    let al = if b > alpha0 {
        b
    } else {
        alpha0
    };
    let r = c4_ab_fold(m, depth, true, col, al, beta, b);
    let vrest = c4_search_fold(m, depth, true, col);
    if col < 0 || col >= m.width {
        // Sentinel case: the fold returns the carried best.
        assert(r == b);
        assert(vrest == i32::MIN as int);
    } else if !c4_allows(m, col) {
        lemma_c4_ab_km_fold_max(m, depth, col + 1, alpha0, beta, b);
    } else {
        let child = c4_place_state(m, col, 'X');
        let s = c4_ab(child, (depth - 1) as nat, al, beta, false);
        let vc = c4_search(child, (depth - 1) as nat, false);
        lemma_c4_ab_km(child, (depth - 1) as nat, al, beta, false);
        let best2 = if s > b {
            s
        } else {
            b
        };
        let alpha2 = if best2 > al {
            best2
        } else {
            al
        };
        let rest_v = c4_search_fold(m, depth, true, col + 1);
        if alpha2 >= beta {
            // Pruned: the new best crossed the window, so the true value
            // of this child already proves the node at least `beta`.
            assert(s >= beta);
            assert(vc >= beta);
            assert(r == best2);
            assert(r == s);
            assert(vrest == (if vc > rest_v {
                vc
            } else {
                rest_v
            }));
        } else {
            lemma_c4_ab_km_fold_max(m, depth, col + 1, alpha0, beta, best2);
            assert(r == c4_ab_fold(m, depth, true, col + 1, alpha2, beta, best2));
            assert(r >= best2);
            assert(vrest == (if vc > rest_v {
                vc
            } else {
                rest_v
            }));
            if r <= alpha0 {
                assert(rest_v <= alpha0);
                assert(s <= alpha0);
                assert(b <= alpha0);
                assert(al == alpha0);
                assert(vc <= alpha0);
            }
            if alpha0 < r < beta {
                assert(r == (if best2 > rest_v {
                    best2
                } else {
                    rest_v
                }));
                if s <= al {
                    assert(vc <= al);
                    if b >= alpha0 {
                        assert(al == (if b > alpha0 {
                            b
                        } else {
                            alpha0
                        }));
                        if b > alpha0 {
                            assert(s <= b && vc <= b);
                        } else {
                            assert(s <= alpha0 < r);
                            assert(vc <= alpha0 < r);
                        }
                    } else {
                        assert(s <= alpha0 < r);
                        assert(vc <= alpha0 < r);
                    }
                } else {
                    assert(al < s < beta);
                    assert(vc == s);
                }
            }
        }
    }
}

proof fn lemma_c4_ab_km_fold_min(
    m: C4State,
    depth: nat,
    col: int,
    alpha: int,
    beta0: int,
    b: int,
)
    requires
        c4_dims(m.width, m.height),
        depth >= 1,
        i32::MIN <= alpha < beta0 <= i32::MAX,
        b <= i32::MAX,
        (if b < beta0 {
            b
        } else {
            beta0
        }) > alpha,
    ensures
        ({
            let bt = if b < beta0 {
                b
            } else {
                beta0
            };
            let r = c4_ab_fold(m, depth, false, col, alpha, bt, b);
            let vrest = c4_search_fold(m, depth, false, col);
            &&& r <= b
            &&& (r >= beta0 ==> vrest >= beta0)
            &&& (alpha < r < beta0 ==> r == (if b < vrest {
                b
            } else {
                vrest
            }))
            &&& (r <= alpha ==> vrest <= alpha)
        }),
    decreases depth, m.width - col, 1int,
{
    let bt = if b < beta0 {
        b
    } else {
        beta0
    };
    let r = c4_ab_fold(m, depth, false, col, alpha, bt, b);
    let vrest = c4_search_fold(m, depth, false, col);
    if col < 0 || col >= m.width {
        assert(r == b);
        assert(vrest == i32::MAX as int);
    } else if !c4_allows(m, col) {
        lemma_c4_ab_km_fold_min(m, depth, col + 1, alpha, beta0, b);
    } else {
        let child = c4_place_state(m, col, 'O');
        let s = c4_ab(child, (depth - 1) as nat, alpha, bt, true);
        let vc = c4_search(child, (depth - 1) as nat, true);
        lemma_c4_ab_km(child, (depth - 1) as nat, alpha, bt, true);
        let best2 = if s < b {
            s
        } else {
            b
        };
        let beta2 = if best2 < bt {
            best2
        } else {
            bt
        };
        let rest_v = c4_search_fold(m, depth, false, col + 1);
        if alpha >= beta2 {
            assert(s <= alpha);
            assert(vc <= alpha);
            assert(r == best2);
            assert(r == s);
            assert(vrest == (if vc < rest_v {
                vc
            } else {
                rest_v
            }));
        } else {
            lemma_c4_ab_km_fold_min(m, depth, col + 1, alpha, beta0, best2);
            assert(r == c4_ab_fold(m, depth, false, col + 1, alpha, beta2, best2));
            assert(r <= best2);
            assert(vrest == (if vc < rest_v {
                vc
            } else {
                rest_v
            }));
            if r >= beta0 {
                assert(rest_v >= beta0);
                assert(s >= beta0);
                assert(b >= beta0);
                assert(bt == beta0);
                assert(vc >= beta0);
            }
            if alpha < r < beta0 {
                assert(r == (if best2 < rest_v {
                    best2
                } else {
                    rest_v
                }));
                if s >= bt {
                    assert(vc >= bt);
                    if b <= beta0 {
                        if b < beta0 {
                            assert(s >= b && vc >= b);
                        } else {
                            assert(s >= beta0 > r);
                            assert(vc >= beta0 > r);
                        }
                    } else {
                        assert(s >= beta0 > r);
                        assert(vc >= beta0 > r);
                    }
                } else {
                    assert(alpha < s < bt);
                    assert(vc == s);
                }
            }
        }
    }
}

/// Alpha-beta equivalence: on the full window the pruning search returns
/// exactly the exhaustive minimax value.
pub proof fn lemma_c4_ab_equals_search(m: C4State, depth: nat, maximizing: bool)
    requires
        c4_dims(m.width, m.height),
    ensures
        c4_ab(m, depth, i32::MIN as int, i32::MAX as int, maximizing) == c4_search(
            m,
            depth,
            maximizing,
        ),
{
    lemma_c4_ab_km(m, depth, i32::MIN as int, i32::MAX as int, maximizing);
    lemma_c4_search_bounds(m, depth, maximizing);
    lemma_c4_ab_bounds(m, depth, i32::MIN as int, i32::MAX as int, maximizing);
}

/// Every cell holds one of the game's two symbols or is empty.
pub open spec fn c4_cells_in_domain(cells: Seq<Seq<char>>, width: int, height: int) -> bool {
    forall|r: int, c: int|
        0 <= r < height && 0 <= c < width ==> ((#[trigger] cells[r][c]) == ' ' || cells[r][c]
            == 'X' || cells[r][c] == 'O')
}

/// Rectangularity, gravity and the cell domain, checked at run time.
fn matrix_ok(b: &Vec<Vec<char>>, width: usize, height: usize) -> (r: bool)
    ensures
        r == (dims_ok(matrix_view(b), width as int, height as int) && gravity_ok(
            matrix_view(b),
            width as int,
            height as int,
        ) && c4_cells_in_domain(matrix_view(b), width as int, height as int)),
{
    if b.len() != height {
        return false;
    }
    let mut i: usize = 0;
    while i < height
        invariant
            i <= height,
            b@.len() == height as int,
            forall|r: int| 0 <= r < i ==> (#[trigger] matrix_view(b)[r]).len() == width as int,
        decreases height - i,
    {
        if b[i].len() != width {
            proof {
                assert(matrix_view(b)[i as int].len() != width as int);
            }
            return false;
        }
        i = i + 1;
    }
    proof {
        crate::grid::lemma_rows(b, width as int, height as int);
    }
    let mut r: usize = 0;
    while r < height
        invariant
            r <= height,
            b@.len() == height as int,
            forall|i: int| 0 <= i < height ==> (#[trigger] b@[i])@.len() == width as int,
            forall|i: int, j: int|
                0 <= i < height && 0 <= j < width ==> #[trigger] b@[i]@[j] == matrix_view(b)[i][j],
            dims_ok(matrix_view(b), width as int, height as int),
            forall|rr: int, cc: int|
                0 <= rr < r && 0 <= cc < width ==> ((#[trigger] matrix_view(b)[rr][cc]) == ' '
                    || matrix_view(b)[rr][cc] == 'X' || matrix_view(b)[rr][cc] == 'O'),
        decreases height - r,
    {
        let mut c: usize = 0;
        while c < width
            invariant
                c <= width,
                r < height,
                b@.len() == height as int,
                forall|i: int| 0 <= i < height ==> (#[trigger] b@[i])@.len() == width as int,
                forall|i: int, j: int|
                    0 <= i < height && 0 <= j < width ==> #[trigger] b@[i]@[j] == matrix_view(
                        b,
                    )[i][j],
                dims_ok(matrix_view(b), width as int, height as int),
                forall|rr: int, cc: int|
                    0 <= rr < r && 0 <= cc < width ==> ((#[trigger] matrix_view(b)[rr][cc]) == ' '
                        || matrix_view(b)[rr][cc] == 'X' || matrix_view(b)[rr][cc] == 'O'),
                forall|cc: int|
                    0 <= cc < c ==> ((#[trigger] matrix_view(b)[r as int][cc]) == ' '
                        || matrix_view(b)[r as int][cc] == 'X' || matrix_view(b)[r as int][cc]
                        == 'O'),
            decreases width - c,
        {
            let cell = b[r][c];
            if !(cell == ' ' || cell == 'X' || cell == 'O') {
                proof {
                    assert(matrix_view(b)[r as int][c as int] == cell);
                    assert(!c4_cells_in_domain(matrix_view(b), width as int, height as int));
                }
                return false;
            }
            c = c + 1;
        }
        r = r + 1;
    }
    let mut r: usize = 0;
    while r + 1 < height
        invariant
            height >= 1 ==> r < height,
            height == 0 ==> r == 0,
            b@.len() == height as int,
            forall|i: int| 0 <= i < height ==> (#[trigger] b@[i])@.len() == width as int,
            forall|i: int, j: int|
                0 <= i < height && 0 <= j < width ==> #[trigger] b@[i]@[j] == matrix_view(b)[i][j],
            dims_ok(matrix_view(b), width as int, height as int),
            forall|rr: int, cc: int|
                0 <= rr < r && 0 <= cc < width ==> ((#[trigger] matrix_view(b)[rr][cc]) != ' '
                    ==> matrix_view(b)[rr + 1][cc] != ' '),
        decreases height - r,
    {
        let mut c: usize = 0;
        while c < width
            invariant
                c <= width,
                r + 1 < height,
                b@.len() == height as int,
                forall|i: int| 0 <= i < height ==> (#[trigger] b@[i])@.len() == width as int,
                forall|i: int, j: int|
                    0 <= i < height && 0 <= j < width ==> #[trigger] b@[i]@[j] == matrix_view(
                        b,
                    )[i][j],
                dims_ok(matrix_view(b), width as int, height as int),
                forall|rr: int, cc: int|
                    0 <= rr < r && 0 <= cc < width ==> ((#[trigger] matrix_view(b)[rr][cc]) != ' '
                        ==> matrix_view(b)[rr + 1][cc] != ' '),
                forall|cc: int|
                    0 <= cc < c ==> ((#[trigger] matrix_view(b)[r as int][cc]) != ' '
                        ==> matrix_view(b)[r as int + 1][cc] != ' '),
            decreases width - c,
        {
            if b[r][c] != ' ' && b[r + 1][c] == ' ' {
                proof {
                    assert(matrix_view(b)[r as int][c as int] != ' ');
                    assert(matrix_view(b)[r as int + 1][c as int] == ' ');
                    assert(!gravity_ok(matrix_view(b), width as int, height as int)) by {
                        if gravity_ok(matrix_view(b), width as int, height as int) {
                            assert(matrix_view(b)[r as int + 1][c as int] != ' ');
                        }
                    }
                }
                return false;
            }
            c = c + 1;
        }
        r = r + 1;
    }
    true
}

} // verus!
