//! The cell matrix shared by both game variants: gravity-fill placement,
//! removal of the top token of a column, and the invariants tying them
//! together. Cells hold `' '` when empty. Row 0 is the top of the board, so
//! "below" means a larger row index.

use vstd::prelude::*;

verus! {

/// The matrix as a sequence of rows, each a sequence of cells.
pub open spec fn matrix_view(b: &Vec<Vec<char>>) -> Seq<Seq<char>> {
    Seq::new(b@.len(), |r: int| b@[r]@)
}

/// The matrix is rectangular with the stated dimensions.
pub open spec fn dims_ok(cells: Seq<Seq<char>>, width: int, height: int) -> bool {
    &&& cells.len() == height
    &&& forall|r: int| 0 <= r < height ==> (#[trigger] cells[r]).len() == width
}

/// Gravity, stated locally: no token sits directly above an empty cell.
pub open spec fn gravity_ok(cells: Seq<Seq<char>>, width: int, height: int) -> bool {
    forall|r: int, c: int|
        0 <= r < height - 1 && 0 <= c < width ==> ((#[trigger] cells[r][c]) != ' '
            ==> cells[r + 1][c] != ' ')
}

/// The topmost occupied row of column `col` at or below `row`; `height` if
/// the column is empty from `row` down.
pub open spec fn first_occ_from(cells: Seq<Seq<char>>, col: int, row: int, height: int) -> int
    decreases height - row,
{
    if row < 0 || row >= height {
        height
    } else if cells[row][col] != ' ' {
        row
    } else {
        first_occ_from(cells, col, row + 1, height)
    }
}

/// The topmost occupied row of column `col`; `height` if the column is empty.
pub open spec fn first_occ(cells: Seq<Seq<char>>, col: int, height: int) -> int {
    first_occ_from(cells, col, 0, height)
}

/// A column accepts a token exactly when its top cell is empty.
pub open spec fn col_open(cells: Seq<Seq<char>>, col: int) -> bool {
    cells[0][col] == ' '
}

/// No column is open.
pub open spec fn board_full(cells: Seq<Seq<char>>, width: int) -> bool {
    forall|c: int| 0 <= c < width ==> !(#[trigger] col_open(cells, c))
}

/// The row a token dropped into `col` lands on: just above the topmost token.
pub open spec fn landing_row(cells: Seq<Seq<char>>, col: int, height: int) -> int {
    first_occ(cells, col, height) - 1
}

/// The matrix after dropping `sym` into `col`.
pub open spec fn place_cells(cells: Seq<Seq<char>>, col: int, sym: char, height: int) -> Seq<
    Seq<char>,
> {
    let r = landing_row(cells, col, height);
    cells.update(r, cells[r].update(col, sym))
}

/// The matrix after clearing the topmost token of `col`; unchanged when the
/// column is empty.
pub open spec fn remove_top_cells(cells: Seq<Seq<char>>, col: int, height: int) -> Seq<Seq<char>> {
    let r = first_occ(cells, col, height);
    if r == height {
        cells
    } else {
        cells.update(r, cells[r].update(col, ' '))
    }
}

pub proof fn lemma_first_occ_from_props(cells: Seq<Seq<char>>, col: int, row: int, height: int)
    requires
        0 <= row <= height,
    ensures
        row <= first_occ_from(cells, col, row, height) <= height,
        forall|r: int|
            row <= r < first_occ_from(cells, col, row, height) ==> cells[r][col] == ' ',
        first_occ_from(cells, col, row, height) < height ==> cells[first_occ_from(
            cells,
            col,
            row,
            height,
        )][col] != ' ',
    decreases height - row,
{
    if row < height && cells[row][col] == ' ' {
        lemma_first_occ_from_props(cells, col, row + 1, height);
    }
}

/// If the rows above `k` are empty in `col` and `k` itself is occupied (or
/// `k` is the floor), then `k` is the topmost occupied row.
pub proof fn lemma_first_occ_is(cells: Seq<Seq<char>>, col: int, height: int, k: int)
    requires
        0 <= k <= height,
        forall|r: int| 0 <= r < k ==> cells[r][col] == ' ',
        k < height ==> cells[k][col] != ' ',
    ensures
        first_occ(cells, col, height) == k,
{
    lemma_first_occ_is_from(cells, col, 0, height, k);
}

proof fn lemma_first_occ_is_from(cells: Seq<Seq<char>>, col: int, row: int, height: int, k: int)
    requires
        0 <= row <= k <= height,
        forall|r: int| row <= r < k ==> cells[r][col] == ' ',
        k < height ==> cells[k][col] != ' ',
    ensures
        first_occ_from(cells, col, row, height) == k,
    decreases height - row,
{
    if row < k {
        lemma_first_occ_is_from(cells, col, row + 1, height, k);
    }
}

/// With gravity, everything above an empty cell is empty.
pub proof fn lemma_empty_above(cells: Seq<Seq<char>>, width: int, height: int, col: int, r: int)
    requires
        gravity_ok(cells, width, height),
        0 <= col < width,
        0 <= r < height,
        cells[r][col] == ' ',
    ensures
        forall|r2: int| 0 <= r2 <= r ==> cells[r2][col] == ' ',
    decreases r,
{
    if r > 0 {
        assert(cells[r - 1][col] == ' ') by {
            if cells[r - 1][col] != ' ' {
                assert(cells[r][col] != ' ');
            }
        }
        lemma_empty_above(cells, width, height, col, r - 1);
    }
}

/// Gravity invariant in its global form: every occupied cell has every cell
/// below it in its column occupied. This is the board-state law that every
/// sequence of legal placements preserves, since each mutating operation
/// keeps `gravity_ok` and this lemma closes it under "below".
pub proof fn lemma_gravity_below(
    cells: Seq<Seq<char>>,
    width: int,
    height: int,
    r: int,
    c: int,
    r2: int,
)
    requires
        gravity_ok(cells, width, height),
        0 <= c < width,
        0 <= r < r2 < height,
        cells[r][c] != ' ',
    ensures
        cells[r2][c] != ' ',
    decreases r2 - r,
{
    assert(cells[r + 1][c] != ' ');
    if r + 1 < r2 {
        lemma_gravity_below(cells, width, height, r + 1, c, r2);
    }
}

/// Facts about one placement: where the token lands, and that the result is
/// still a rectangular gravity-respecting matrix.
pub proof fn lemma_place_props(cells: Seq<Seq<char>>, width: int, height: int, col: int, sym: char)
    requires
        dims_ok(cells, width, height),
        gravity_ok(cells, width, height),
        0 <= col < width,
        1 <= height,
        col_open(cells, col),
        sym != ' ',
    ensures
        1 <= first_occ(cells, col, height) <= height,
        0 <= landing_row(cells, col, height) < height,
        dims_ok(place_cells(cells, col, sym, height), width, height),
        gravity_ok(place_cells(cells, col, sym, height), width, height),
        first_occ(place_cells(cells, col, sym, height), col, height) == landing_row(
            cells,
            col,
            height,
        ),
        place_cells(cells, col, sym, height)[landing_row(cells, col, height)][col] == sym,
        forall|r: int, c: int|
            0 <= r < height && 0 <= c < width && !(r == landing_row(cells, col, height) && c
                == col) ==> place_cells(cells, col, sym, height)[r][c] == cells[r][c],
{
    lemma_first_occ_from_props(cells, col, 0, height);
    let f = first_occ(cells, col, height);
    assert(f >= 1) by {
        if f == 0 {
            assert(cells[0][col] != ' ');
        }
    }
    let lr = f - 1;
    let placed = place_cells(cells, col, sym, height);
    assert forall|r: int, c: int|
        0 <= r < height && 0 <= c < width && !(r == lr && c == col) implies placed[r][c]
        == cells[r][c] by {}
    assert(dims_ok(placed, width, height));
    assert(gravity_ok(placed, width, height)) by {
        assert forall|r: int, c: int|
            0 <= r < height - 1 && 0 <= c < width && (#[trigger] placed[r][c])
                != ' ' implies placed[r + 1][c] != ' ' by {
            if r == lr && c == col {
                // The cell below the landing row was the topmost token.
                if f < height {
                    assert(cells[f][col] != ' ');
                }
                assert(placed[r + 1][c] != ' ');
            } else {
                assert(placed[r][c] == cells[r][c]);
                if cells[r][c] != ' ' {
                    assert(cells[r + 1][c] != ' ');
                    if r + 1 == lr && c == col {
                        // Impossible: the landing row is empty before placement.
                        assert(cells[lr][col] == ' ');
                    }
                }
            }
        }
    }
    assert(first_occ(placed, col, height) == lr) by {
        assert forall|r: int| 0 <= r < lr implies placed[r][col] == ' ' by {
            assert(cells[r][col] == ' ');
        }
        assert(placed[lr][col] == sym);
        lemma_first_occ_is(placed, col, height, lr);
    }
}

/// Clearing the top of a column keeps the matrix rectangular and
/// gravity-respecting.
pub proof fn lemma_remove_props(cells: Seq<Seq<char>>, width: int, height: int, col: int)
    requires
        dims_ok(cells, width, height),
        gravity_ok(cells, width, height),
        0 <= col < width,
    ensures
        dims_ok(remove_top_cells(cells, col, height), width, height),
        gravity_ok(remove_top_cells(cells, col, height), width, height),
{
    lemma_first_occ_from_props(cells, col, 0, height);
    let f = first_occ(cells, col, height);
    let removed = remove_top_cells(cells, col, height);
    if f < height {
        assert forall|r: int, c: int|
            0 <= r < height && 0 <= c < width && !(r == f && c == col) implies removed[r][c]
            == cells[r][c] by {}
        assert(gravity_ok(removed, width, height)) by {
            assert forall|r: int, c: int|
                0 <= r < height - 1 && 0 <= c < width && (#[trigger] removed[r][c])
                    != ' ' implies removed[r + 1][c] != ' ' by {
                if r == f && c == col {
                    assert(removed[r][c] == ' ');
                } else {
                    assert(removed[r][c] == cells[r][c]);
                    assert(cells[r + 1][c] != ' ');
                    if r + 1 == f && c == col {
                        // Impossible: rows above the topmost token are empty.
                        assert(cells[r][col] == ' ');
                    }
                }
            }
        }
    }
}

/// The undo inverse law for the cell matrix: dropping a token into an open
/// column and then removing the top of that column restores the matrix
/// exactly.
pub proof fn lemma_place_then_remove(
    cells: Seq<Seq<char>>,
    width: int,
    height: int,
    col: int,
    sym: char,
)
    requires
        dims_ok(cells, width, height),
        gravity_ok(cells, width, height),
        0 <= col < width,
        1 <= height,
        col_open(cells, col),
        sym != ' ',
    ensures
        remove_top_cells(place_cells(cells, col, sym, height), col, height) == cells,
{
    lemma_place_props(cells, width, height, col, sym);
    let f = first_occ(cells, col, height);
    let lr = f - 1;
    let placed = place_cells(cells, col, sym, height);
    let back = remove_top_cells(placed, col, height);
    lemma_first_occ_from_props(cells, col, 0, height);
    assert(cells[lr][col] == ' ');
    assert(back[lr] =~= cells[lr]);
    assert(back =~= cells);
}

/// Total space left on the board: the sum over the columns of the number
/// of empty cells atop each, which under gravity is `first_occ`. Every
/// legal placement strictly decreases it, which is what bounds a game.
pub open spec fn space_left(cells: Seq<Seq<char>>, ncols: int, height: int) -> int
    decreases ncols,
{
    if ncols <= 0 {
        0
    } else {
        space_left(cells, ncols - 1, height) + first_occ(cells, ncols - 1, height)
    }
}

/// Columns whose cells agree have the same topmost occupied row.
pub proof fn lemma_first_occ_same(
    cells1: Seq<Seq<char>>,
    cells2: Seq<Seq<char>>,
    col: int,
    row: int,
    height: int,
)
    requires
        forall|r: int| 0 <= r < height ==> cells1[r][col] == cells2[r][col],
        0 <= row <= height,
    ensures
        first_occ_from(cells1, col, row, height) == first_occ_from(cells2, col, row, height),
    decreases height - row,
{
    if row < height && cells1[row][col] == ' ' {
        lemma_first_occ_same(cells1, cells2, col, row + 1, height);
    }
}

proof fn lemma_space_left_step(
    cells1: Seq<Seq<char>>,
    cells2: Seq<Seq<char>>,
    ncols: int,
    height: int,
    col: int,
)
    requires
        0 <= col,
        0 <= height,
        forall|r: int, c: int|
            0 <= r < height && 0 <= c < ncols && c != col ==> cells1[r][c] == cells2[r][c],
        col < ncols ==> first_occ(cells2, col, height) == first_occ(cells1, col, height) - 1,
    ensures
        col < ncols ==> space_left(cells2, ncols, height) == space_left(cells1, ncols, height)
            - 1,
        ncols <= col ==> space_left(cells2, ncols, height) == space_left(cells1, ncols, height),
    decreases ncols,
{
    if ncols > 0 {
        lemma_space_left_step(cells1, cells2, ncols - 1, height, col);
        if ncols - 1 != col {
            lemma_first_occ_same(cells1, cells2, ncols - 1, 0, height);
        }
    }
}

/// One legal placement consumes exactly one cell of the remaining space.
pub proof fn lemma_space_left_place(
    cells: Seq<Seq<char>>,
    width: int,
    height: int,
    col: int,
    sym: char,
)
    requires
        dims_ok(cells, width, height),
        gravity_ok(cells, width, height),
        0 <= col < width,
        1 <= height,
        col_open(cells, col),
        sym != ' ',
    ensures
        space_left(place_cells(cells, col, sym, height), width, height) == space_left(
            cells,
            width,
            height,
        ) - 1,
        space_left(place_cells(cells, col, sym, height), width, height) >= 0,
{
    lemma_place_props(cells, width, height, col, sym);
    let placed = place_cells(cells, col, sym, height);
    lemma_space_left_step(cells, placed, width, height, col);
    lemma_space_left_nonneg(placed, width, height);
}

pub proof fn lemma_space_left_nonneg(cells: Seq<Seq<char>>, ncols: int, height: int)
    requires
        0 <= height,
    ensures
        space_left(cells, ncols, height) >= 0,
    decreases ncols,
{
    if ncols > 0 {
        lemma_space_left_nonneg(cells, ncols - 1, height);
        lemma_first_occ_from_props(cells, ncols - 1, 0, height);
    }
}

/// Bridges the matrix view back to the vectors that carry it.
pub proof fn lemma_rows(b: &Vec<Vec<char>>, width: int, height: int)
    requires
        dims_ok(matrix_view(b), width, height),
    ensures
        b@.len() == height,
        forall|r: int| 0 <= r < height ==> (#[trigger] b@[r])@.len() == width,
        forall|r: int, c: int|
            0 <= r < height && 0 <= c < width ==> #[trigger] b@[r]@[c] == matrix_view(b)[r][c],
{
    assert forall|r: int| 0 <= r < height implies (#[trigger] b@[r])@.len() == width by {
        assert(matrix_view(b)[r].len() == width);
    }
    assert forall|r: int, c: int|
        0 <= r < height && 0 <= c < width implies #[trigger] b@[r]@[c] == matrix_view(b)[r][c] by {
        assert(matrix_view(b)[r] == b@[r]@);
    }
}

/// A fresh all-empty matrix.
pub fn blank_matrix(width: usize, height: usize) -> (m: Vec<Vec<char>>)
    ensures
        dims_ok(matrix_view(&m), width as int, height as int),
        forall|r: int, c: int|
            0 <= r < height && 0 <= c < width ==> matrix_view(&m)[r][c] == ' ',
{
    let mut m: Vec<Vec<char>> = Vec::new();
    let mut r: usize = 0;
    while r < height
        invariant
            r <= height,
            m@.len() == r,
            forall|i: int| 0 <= i < r ==> (#[trigger] m@[i])@.len() == width,
            forall|i: int, j: int| 0 <= i < r && 0 <= j < width ==> m@[i]@[j] == ' ',
        decreases height - r,
    {
        let mut row: Vec<char> = Vec::new();
        let mut c: usize = 0;
        while c < width
            invariant
                c <= width,
                row@.len() == c,
                forall|j: int| 0 <= j < c ==> row@[j] == ' ',
            decreases width - c,
        {
            row.push(' ');
            c = c + 1;
        }
        m.push(row);
        r = r + 1;
    }
    m
}

/// Drop `sym` into open column `col`, returning the row it lands on.
pub fn drop_token(board: &mut Vec<Vec<char>>, col: usize, sym: char, width: usize, height: usize) -> (row:
    usize)
    requires
        dims_ok(matrix_view(old(board)), width as int, height as int),
        gravity_ok(matrix_view(old(board)), width as int, height as int),
        col < width,
        1 <= height,
        col_open(matrix_view(old(board)), col as int),
        sym != ' ',
    ensures
        matrix_view(final(board)) == place_cells(
            matrix_view(old(board)),
            col as int,
            sym,
            height as int,
        ),
        row as int == landing_row(matrix_view(old(board)), col as int, height as int),
        row < height,
        dims_ok(matrix_view(final(board)), width as int, height as int),
        gravity_ok(matrix_view(final(board)), width as int, height as int),
{
    proof {
        lemma_place_props(matrix_view(old(board)), width as int, height as int, col as int, sym);
        lemma_first_occ_from_props(matrix_view(old(board)), col as int, 0, height as int);
    }
    let ghost cells0 = matrix_view(old(board));
    proof {
        assert(board@.len() == height as int);
        assert forall|i: int| 0 <= i < height implies (#[trigger] board@[i])@.len()
            == width as int by {
            assert(matrix_view(board)[i].len() == width as int);
        }
    }
    let mut r: usize = height;
    loop
        invariant
            1 <= r <= height,
            board@ == old(board)@,
            board@.len() == height as int,
            forall|i: int| 0 <= i < height ==> (#[trigger] board@[i])@.len() == width as int,
            dims_ok(matrix_view(board), width as int, height as int),
            gravity_ok(matrix_view(board), width as int, height as int),
            col < width,
            sym != ' ',
            col_open(matrix_view(board), col as int),
            forall|rr: int| r <= rr < height ==> matrix_view(board)[rr][col as int] != ' ',
            matrix_view(board) == cells0,
            first_occ(cells0, col as int, height as int) >= 1,
            first_occ(cells0, col as int, height as int) <= height,
            forall|rr: int|
                0 <= rr < first_occ(cells0, col as int, height as int) ==> cells0[rr][col as int]
                    == ' ',
            first_occ(cells0, col as int, height as int) < height ==> cells0[first_occ(
                cells0,
                col as int,
                height as int,
            )][col as int] != ' ',
        decreases r,
    {
        r = r - 1;
        if board[r][col] == ' ' {
            proof {
                assert forall|rr: int| 0 <= rr < r implies cells0[rr][col as int] == ' ' by {
                    lemma_empty_above(
                        cells0,
                        width as int,
                        height as int,
                        col as int,
                        r as int,
                    );
                }
                lemma_first_occ_is(cells0, col as int, height as int, r as int + 1);
            }
            board[r][col] = sym;
            proof {
                assert(matrix_view(board) =~= place_cells(
                    cells0,
                    col as int,
                    sym,
                    height as int,
                ));
            }
            return r;
        }
        proof {
            if r == 0 {
                assert(matrix_view(board)[0][col as int] == ' ');
            }
        }
    }
}

/// Remove the topmost token of `col`; leaves an empty column unchanged.
pub fn lift_token(board: &mut Vec<Vec<char>>, col: usize, width: usize, height: usize)
    requires
        dims_ok(matrix_view(old(board)), width as int, height as int),
        gravity_ok(matrix_view(old(board)), width as int, height as int),
        col < width,
    ensures
        matrix_view(final(board)) == remove_top_cells(
            matrix_view(old(board)),
            col as int,
            height as int,
        ),
        dims_ok(matrix_view(final(board)), width as int, height as int),
        gravity_ok(matrix_view(final(board)), width as int, height as int),
{
    proof {
        lemma_remove_props(matrix_view(old(board)), width as int, height as int, col as int);
        lemma_first_occ_from_props(matrix_view(old(board)), col as int, 0, height as int);
    }
    let ghost cells0 = matrix_view(old(board));
    proof {
        assert(board@.len() == height as int);
        assert forall|i: int| 0 <= i < height implies (#[trigger] board@[i])@.len()
            == width as int by {
            assert(matrix_view(board)[i].len() == width as int);
        }
    }
    let mut r: usize = 0;
    while r < height
        invariant
            r <= height,
            board@ == old(board)@,
            board@.len() == height as int,
            forall|i: int| 0 <= i < height ==> (#[trigger] board@[i])@.len() == width as int,
            matrix_view(board) == cells0,
            dims_ok(cells0, width as int, height as int),
            gravity_ok(cells0, width as int, height as int),
            col < width,
            forall|rr: int| 0 <= rr < r ==> cells0[rr][col as int] == ' ',
        decreases height - r,
    {
        if board[r][col] != ' ' {
            proof {
                lemma_first_occ_is(cells0, col as int, height as int, r as int);
                lemma_remove_props(cells0, width as int, height as int, col as int);
            }
            board[r][col] = ' ';
            proof {
                assert(matrix_view(board) =~= remove_top_cells(
                    cells0,
                    col as int,
                    height as int,
                ));
            }
            return ;
        }
        r = r + 1;
    }
    proof {
        lemma_first_occ_is(cells0, col as int, height as int, height as int);
        assert(matrix_view(board) == remove_top_cells(cells0, col as int, height as int));
    }
}

/// The open columns in ascending order.
pub fn open_cols(board: &Vec<Vec<char>>, width: u32, height: u32) -> (moves: Vec<u32>)
    requires
        dims_ok(matrix_view(board), width as int, height as int),
        1 <= height,
    ensures
        forall|i: int|
            0 <= i < moves@.len() ==> (#[trigger] moves@[i]) < width && col_open(
                matrix_view(board),
                moves@[i] as int,
            ),
        forall|c: u32| c < width && col_open(matrix_view(board), c as int) ==> moves@.contains(c),
        forall|i: int, j: int| 0 <= i < j < moves@.len() ==> moves@[i] < moves@[j],
{
    proof {
        assert(board@.len() == height as int);
        assert(matrix_view(board)[0].len() == width as int);
    }
    let mut moves: Vec<u32> = Vec::new();
    let mut c: u32 = 0;
    while c < width
        invariant
            c <= width,
            dims_ok(matrix_view(board), width as int, height as int),
            board@.len() == height as int,
            board@[0]@.len() == width as int,
            1 <= height,
            forall|i: int|
                0 <= i < moves@.len() ==> (#[trigger] moves@[i]) < c && col_open(
                    matrix_view(board),
                    moves@[i] as int,
                ),
            forall|cc: u32|
                cc < c && col_open(matrix_view(board), cc as int) ==> moves@.contains(cc),
            forall|i: int, j: int| 0 <= i < j < moves@.len() ==> moves@[i] < moves@[j],
        decreases width - c,
    {
        if board[0][c as usize] == ' ' {
            let ghost pre = moves@;
            moves.push(c);
            proof {
                assert(moves@[moves@.len() - 1] == c);
                assert forall|cc: u32|
                    cc < c + 1 && col_open(matrix_view(board), cc as int) implies moves@.contains(
                    cc,
                ) by {
                    if cc < c {
                        let i = choose|i: int| 0 <= i < pre.len() && pre[i] == cc;
                        assert(moves@[i] == cc);
                    } else {
                        assert(moves@[moves@.len() - 1] == cc);
                    }
                }
            }
        }
        c = c + 1;
    }
    moves
}

} // verus!
