//! The computer player for the dual-token game: a fixed-perspective
//! heuristic evaluation and depth-limited alpha-beta search over
//! column-and-token moves. 'O' maximizes and 'T' minimizes, but leaf
//! positions are always scored from the agent's own symbol's perspective,
//! whichever side the current recursion level represents — a deliberate
//! trait of this engine that is preserved here.

use vstd::prelude::*;
use vstd::string::StringExecFns;
use crate::board::Difficulty;
use crate::grid::board_full;
use crate::otto::{
    otto_allows, otto_dims, otto_game_value, otto_opp, otto_place_state, otto_terminal, OttoState,
    TootOttoBoard,
};

verus! {

/// The side that moves after `player`.
pub open spec fn otto_flip(player: char) -> char {
    if player == 'T' {
        'O'
    } else {
        'T'
    }
}

/// A state with the recorded winner cleared: the search's value depends
/// only on the cells and the last-move record, never on that cache.
pub open spec fn otto_core(m: OttoState) -> OttoState {
    OttoState { winner: None, ..m }
}

/// Heuristic value of the four-cell group starting at `(r, c)` and
/// stepping up by `(dr, dc)`: a completed pattern, a three-in-progress, a
/// two-in-progress, or a blocking position, for `player`.
pub open spec fn otto_group_dir(
    cells: Seq<Seq<char>>,
    r: int,
    c: int,
    dr: int,
    dc: int,
    player: char,
) -> int {
    let opp = otto_opp(player);
    if cells[r][c] == player && cells[r + dr][c + dc] == opp && cells[r + 2 * dr][c + 2 * dc]
        == opp && cells[r + 3 * dr][c + 3 * dc] == player {
        100000
    } else if cells[r][c] == player && cells[r + dr][c + dc] == opp && cells[r + 2 * dr][c + 2
        * dc] == opp {
        100
    } else if cells[r][c] == player && cells[r + dr][c + dc] == opp {
        10
    } else if cells[r][c] == opp && cells[r + dr][c + dc] == player && cells[r + 2 * dr][c + 2
        * dc] == player && cells[r + 3 * dr][c + 3 * dc] == player {
        500
    } else {
        0
    }
}

/// The horizontal group has no two-in-progress reward.
pub open spec fn otto_group_h(cells: Seq<Seq<char>>, w: int, r: int, c: int, player: char) -> int {
    let opp = otto_opp(player);
    if c + 3 < w {
        if cells[r][c] == player && cells[r][c + 1] == opp && cells[r][c + 2] == opp && cells[r][c
            + 3] == player {
            100000
        } else if cells[r][c] == player && cells[r][c + 1] == opp && cells[r][c + 2] == opp {
            100
        } else if cells[r][c] == opp && cells[r][c + 1] == player && cells[r][c + 2] == player
            && cells[r][c + 3] == player {
            500
        } else {
            0
        }
    } else {
        0
    }
}

/// The heuristic value one cell contributes: its groups in the four line
/// directions, plus 1 when it is an own token in one of the two rewarded
/// columns. The rewarded columns stay at indices 2 and 3 on both presets,
/// the center of the standard board; keeping them there on the wider
/// board preserves this engine's playing behaviour.
pub open spec fn otto_cell_score(
    cells: Seq<Seq<char>>,
    w: int,
    h: int,
    r: int,
    c: int,
    player: char,
) -> int {
    (if (c == 2 || c == 3) && cells[r][c] == player {
        1int
    } else {
        0
    }) + otto_group_h(cells, w, r, c, player) + (if r >= 3 {
        otto_group_dir(cells, r, c, -1, 0, player) + (if c + 3 < w {
            otto_group_dir(cells, r, c, -1, 1, player)
        } else {
            0
        }) + (if c >= 3 {
            otto_group_dir(cells, r, c, -1, -1, player)
        } else {
            0
        })
    } else {
        0
    })
}

/// Sum of the cell scores of row `r` over columns `[0, nc)`.
pub open spec fn otto_row_score(
    cells: Seq<Seq<char>>,
    w: int,
    h: int,
    r: int,
    nc: int,
    player: char,
) -> int
    decreases nc,
{
    if nc <= 0 {
        0
    } else {
        otto_row_score(cells, w, h, r, nc - 1, player) + otto_cell_score(
            cells,
            w,
            h,
            r,
            nc - 1,
            player,
        )
    }
}

/// Sum of the row scores over rows `[0, nr)`.
pub open spec fn otto_eval_upto(
    cells: Seq<Seq<char>>,
    w: int,
    h: int,
    nr: int,
    player: char,
) -> int
    decreases nr,
{
    if nr <= 0 {
        0
    } else {
        otto_eval_upto(cells, w, h, nr - 1, player) + otto_row_score(
            cells,
            w,
            h,
            nr - 1,
            w,
            player,
        )
    }
}

/// The whole-board heuristic for `player`.
pub open spec fn otto_eval(m: OttoState, player: char) -> int {
    otto_eval_upto(m.cells, m.width, m.height, m.height, player)
}

pub proof fn lemma_otto_cell_bounds(
    cells: Seq<Seq<char>>,
    w: int,
    h: int,
    r: int,
    c: int,
    player: char,
)
    ensures
        0 <= otto_cell_score(cells, w, h, r, c, player) <= 400001,
{
}

pub proof fn lemma_otto_row_bounds(
    cells: Seq<Seq<char>>,
    w: int,
    h: int,
    r: int,
    nc: int,
    player: char,
)
    ensures
        nc >= 0 ==> 0 <= otto_row_score(cells, w, h, r, nc, player) <= 400001 * nc,
        nc <= 0 ==> otto_row_score(cells, w, h, r, nc, player) == 0,
    decreases nc,
{
    if nc > 0 {
        lemma_otto_row_bounds(cells, w, h, r, nc - 1, player);
        lemma_otto_cell_bounds(cells, w, h, r, nc - 1, player);
    }
}

pub proof fn lemma_otto_eval_bounds(
    cells: Seq<Seq<char>>,
    w: int,
    h: int,
    nr: int,
    player: char,
)
    requires
        w <= 9,
    ensures
        nr >= 0 ==> 0 <= otto_eval_upto(cells, w, h, nr, player) <= 3600009 * nr,
        nr <= 0 ==> otto_eval_upto(cells, w, h, nr, player) == 0,
    decreases nr,
{
    if nr > 0 {
        lemma_otto_eval_bounds(cells, w, h, nr - 1, player);
        lemma_otto_row_bounds(cells, w, h, nr - 1, w, player);
    }
}

/// Exhaustive, unpruned minimax value: 'O' maximizes, 'T' minimizes, and
/// each legal column offers both tokens as moves. Leaves are scored for
/// `persp`, the agent's own symbol.
pub open spec fn otto_search(m: OttoState, depth: nat, player: char, persp: char) -> int
    decreases depth, m.width + 1, 0int,
{
    if depth == 0 || otto_terminal(m) {
        if otto_terminal(m) {
            otto_game_value(m)
        } else {
            otto_eval(m, persp)
        }
    } else {
        otto_search_fold(m, depth, player, persp, 0)
    }
}

/// Best value over the legal column-and-token moves from `col` up.
pub open spec fn otto_search_fold(
    m: OttoState,
    depth: nat,
    player: char,
    persp: char,
    col: int,
) -> int
    decreases depth, m.width - col, 1int,
{
    if depth == 0 || col < 0 || col >= m.width {
        if player == 'O' {
            i32::MIN as int
        } else {
            i32::MAX as int
        }
    } else {
        let rest = otto_search_fold(m, depth, player, persp, col + 1);
        if otto_allows(m, col) {
            let v1 = otto_search(
                otto_place_state(m, col, 'O', player),
                (depth - 1) as nat,
                otto_flip(player),
                persp,
            );
            let v2 = otto_search(
                otto_place_state(m, col, 'T', player),
                (depth - 1) as nat,
                otto_flip(player),
                persp,
            );
            if player == 'O' {
                if v1 > (if v2 > rest {
                    v2
                } else {
                    rest
                }) {
                    v1
                } else {
                    if v2 > rest {
                        v2
                    } else {
                        rest
                    }
                }
            } else {
                if v1 < (if v2 < rest {
                    v2
                } else {
                    rest
                }) {
                    v1
                } else {
                    if v2 < rest {
                        v2
                    } else {
                        rest
                    }
                }
            }
        } else {
            rest
        }
    }
}

/// The value computed by the engine's pruning loop, exactly as it
/// computes it: within a column, the second token is skipped once the
/// window closes, but later columns are still visited.
pub open spec fn otto_ab(
    m: OttoState,
    depth: nat,
    alpha: int,
    beta: int,
    player: char,
    persp: char,
) -> int
    decreases depth, m.width + 1, 0int,
{
    if depth == 0 || otto_terminal(m) {
        if otto_terminal(m) {
            otto_game_value(m)
        } else {
            otto_eval(m, persp)
        }
    } else {
        otto_ab_fold(
            m,
            depth,
            player,
            persp,
            0,
            alpha,
            beta,
            if player == 'O' {
                i32::MIN as int
            } else {
                i32::MAX as int
            },
        )
    }
}

pub open spec fn otto_ab_fold(
    m: OttoState,
    depth: nat,
    player: char,
    persp: char,
    col: int,
    alpha: int,
    beta: int,
    best: int,
) -> int
    decreases depth, m.width - col, 1int,
{
    if depth == 0 || col < 0 || col >= m.width {
        best
    } else if !otto_allows(m, col) {
        otto_ab_fold(m, depth, player, persp, col + 1, alpha, beta, best)
    } else {
        let s1 = otto_ab(
            otto_place_state(m, col, 'O', player),
            (depth - 1) as nat,
            alpha,
            beta,
            otto_flip(player),
            persp,
        );
        if player == 'O' {
            let b1 = if s1 > best {
                s1
            } else {
                best
            };
            let a1 = if b1 > alpha {
                b1
            } else {
                alpha
            };
            if beta <= a1 {
                otto_ab_fold(m, depth, player, persp, col + 1, a1, beta, b1)
            } else {
                let s2 = otto_ab(
                    otto_place_state(m, col, 'T', player),
                    (depth - 1) as nat,
                    a1,
                    beta,
                    otto_flip(player),
                    persp,
                );
                let b2 = if s2 > b1 {
                    s2
                } else {
                    b1
                };
                let a2 = if b2 > a1 {
                    b2
                } else {
                    a1
                };
                otto_ab_fold(m, depth, player, persp, col + 1, a2, beta, b2)
            }
        } else {
            let b1 = if s1 < best {
                s1
            } else {
                best
            };
            let bt1 = if b1 < beta {
                b1
            } else {
                beta
            };
            if bt1 <= alpha {
                otto_ab_fold(m, depth, player, persp, col + 1, alpha, bt1, b1)
            } else {
                let s2 = otto_ab(
                    otto_place_state(m, col, 'T', player),
                    (depth - 1) as nat,
                    alpha,
                    bt1,
                    otto_flip(player),
                    persp,
                );
                let b2 = if s2 < b1 {
                    s2
                } else {
                    b1
                };
                let bt2 = if b2 < bt1 {
                    b2
                } else {
                    bt1
                };
                otto_ab_fold(m, depth, player, persp, col + 1, alpha, bt2, b2)
            }
        }
    }
}

pub proof fn lemma_otto_search_bounds(m: OttoState, depth: nat, player: char, persp: char)
    requires
        otto_dims(m.width, m.height),
    ensures
        i32::MIN <= otto_search(m, depth, player, persp) <= i32::MAX,
    decreases depth, m.width + 1, 0int,
{
    if depth == 0 || otto_terminal(m) {
        if !otto_terminal(m) {
            lemma_otto_eval_bounds(m.cells, m.width, m.height, m.height, persp);
        }
    } else {
        lemma_otto_search_fold_bounds(m, depth, player, persp, 0);
    }
}

pub proof fn lemma_otto_search_fold_bounds(
    m: OttoState,
    depth: nat,
    player: char,
    persp: char,
    col: int,
)
    requires
        otto_dims(m.width, m.height),
    ensures
        i32::MIN <= otto_search_fold(m, depth, player, persp, col) <= i32::MAX,
    decreases depth, m.width - col, 1int,
{
    if depth == 0 || col < 0 || col >= m.width {
    } else {
        lemma_otto_search_fold_bounds(m, depth, player, persp, col + 1);
        if otto_allows(m, col) {
            lemma_otto_search_bounds(
                otto_place_state(m, col, 'O', player),
                (depth - 1) as nat,
                otto_flip(player),
                persp,
            );
            lemma_otto_search_bounds(
                otto_place_state(m, col, 'T', player),
                (depth - 1) as nat,
                otto_flip(player),
                persp,
            );
        }
    }
}

pub proof fn lemma_otto_ab_bounds(
    m: OttoState,
    depth: nat,
    alpha: int,
    beta: int,
    player: char,
    persp: char,
)
    requires
        otto_dims(m.width, m.height),
    ensures
        i32::MIN <= otto_ab(m, depth, alpha, beta, player, persp) <= i32::MAX,
    decreases depth, m.width + 1, 0int,
{
    if depth == 0 || otto_terminal(m) {
        if !otto_terminal(m) {
            lemma_otto_eval_bounds(m.cells, m.width, m.height, m.height, persp);
        }
    } else {
        lemma_otto_ab_fold_bounds(
            m,
            depth,
            player,
            persp,
            0,
            alpha,
            beta,
            if player == 'O' {
                i32::MIN as int
            } else {
                i32::MAX as int
            },
        );
    }
}

pub proof fn lemma_otto_ab_fold_bounds(
    m: OttoState,
    depth: nat,
    player: char,
    persp: char,
    col: int,
    alpha: int,
    beta: int,
    best: int,
)
    requires
        otto_dims(m.width, m.height),
        i32::MIN <= best <= i32::MAX,
    ensures
        i32::MIN <= otto_ab_fold(m, depth, player, persp, col, alpha, beta, best) <= i32::MAX,
    decreases depth, m.width - col, 1int,
{
    if depth == 0 || col < 0 || col >= m.width {
    } else if !otto_allows(m, col) {
        lemma_otto_ab_fold_bounds(m, depth, player, persp, col + 1, alpha, beta, best);
    } else {
        let s1 = otto_ab(
            otto_place_state(m, col, 'O', player),
            (depth - 1) as nat,
            alpha,
            beta,
            otto_flip(player),
            persp,
        );
        lemma_otto_ab_bounds(
            otto_place_state(m, col, 'O', player),
            (depth - 1) as nat,
            alpha,
            beta,
            otto_flip(player),
            persp,
        );
        if player == 'O' {
            let b1 = if s1 > best {
                s1
            } else {
                best
            };
            let a1 = if b1 > alpha {
                b1
            } else {
                alpha
            };
            if beta <= a1 {
                lemma_otto_ab_fold_bounds(m, depth, player, persp, col + 1, a1, beta, b1);
            } else {
                let s2 = otto_ab(
                    otto_place_state(m, col, 'T', player),
                    (depth - 1) as nat,
                    a1,
                    beta,
                    otto_flip(player),
                    persp,
                );
                lemma_otto_ab_bounds(
                    otto_place_state(m, col, 'T', player),
                    (depth - 1) as nat,
                    a1,
                    beta,
                    otto_flip(player),
                    persp,
                );
                let b2 = if s2 > b1 {
                    s2
                } else {
                    b1
                };
                let a2 = if b2 > a1 {
                    b2
                } else {
                    a1
                };
                lemma_otto_ab_fold_bounds(m, depth, player, persp, col + 1, a2, beta, b2);
            }
        } else {
            let b1 = if s1 < best {
                s1
            } else {
                best
            };
            let bt1 = if b1 < beta {
                b1
            } else {
                beta
            };
            if bt1 <= alpha {
                lemma_otto_ab_fold_bounds(m, depth, player, persp, col + 1, alpha, bt1, b1);
            } else {
                let s2 = otto_ab(
                    otto_place_state(m, col, 'T', player),
                    (depth - 1) as nat,
                    alpha,
                    bt1,
                    otto_flip(player),
                    persp,
                );
                lemma_otto_ab_bounds(
                    otto_place_state(m, col, 'T', player),
                    (depth - 1) as nat,
                    alpha,
                    bt1,
                    otto_flip(player),
                    persp,
                );
                let b2 = if s2 < b1 {
                    s2
                } else {
                    b1
                };
                let bt2 = if b2 < bt1 {
                    b2
                } else {
                    bt1
                };
                lemma_otto_ab_fold_bounds(m, depth, player, persp, col + 1, alpha, bt2, b2);
            }
        }
    }
}

/// Once the window is closed, the fold can only push the running best
/// further in its own direction.
proof fn lemma_otto_ab_fold_vs_best(
    m: OttoState,
    depth: nat,
    player: char,
    persp: char,
    col: int,
    alpha: int,
    beta: int,
    best: int,
)
    ensures
        player == 'O' ==> otto_ab_fold(m, depth, player, persp, col, alpha, beta, best) >= best,
        player != 'O' ==> otto_ab_fold(m, depth, player, persp, col, alpha, beta, best) <= best,
    decreases depth, m.width - col, 1int,
{
    if depth == 0 || col < 0 || col >= m.width {
    } else if !otto_allows(m, col) {
        lemma_otto_ab_fold_vs_best(m, depth, player, persp, col + 1, alpha, beta, best);
    } else {
        let s1 = otto_ab(
            otto_place_state(m, col, 'O', player),
            (depth - 1) as nat,
            alpha,
            beta,
            otto_flip(player),
            persp,
        );
        if player == 'O' {
            let b1 = if s1 > best {
                s1
            } else {
                best
            };
            let a1 = if b1 > alpha {
                b1
            } else {
                alpha
            };
            if beta <= a1 {
                lemma_otto_ab_fold_vs_best(m, depth, player, persp, col + 1, a1, beta, b1);
            } else {
                let s2 = otto_ab(
                    otto_place_state(m, col, 'T', player),
                    (depth - 1) as nat,
                    a1,
                    beta,
                    otto_flip(player),
                    persp,
                );
                let b2 = if s2 > b1 {
                    s2
                } else {
                    b1
                };
                let a2 = if b2 > a1 {
                    b2
                } else {
                    a1
                };
                lemma_otto_ab_fold_vs_best(m, depth, player, persp, col + 1, a2, beta, b2);
            }
        } else {
            let b1 = if s1 < best {
                s1
            } else {
                best
            };
            let bt1 = if b1 < beta {
                b1
            } else {
                beta
            };
            if bt1 <= alpha {
                lemma_otto_ab_fold_vs_best(m, depth, player, persp, col + 1, alpha, bt1, b1);
            } else {
                let s2 = otto_ab(
                    otto_place_state(m, col, 'T', player),
                    (depth - 1) as nat,
                    alpha,
                    bt1,
                    otto_flip(player),
                    persp,
                );
                let b2 = if s2 < b1 {
                    s2
                } else {
                    b1
                };
                let bt2 = if b2 < bt1 {
                    b2
                } else {
                    bt1
                };
                lemma_otto_ab_fold_vs_best(m, depth, player, persp, col + 1, alpha, bt2, b2);
            }
        }
    }
}

/// The Knuth-Moore bound conditions for this engine's partially pruning
/// loop: within the window its value is exact; outside, the true value is
/// past the window edge.
pub proof fn lemma_otto_ab_km(
    m: OttoState,
    depth: nat,
    alpha: int,
    beta: int,
    player: char,
    persp: char,
)
    requires
        otto_dims(m.width, m.height),
        player == 'O' || player == 'T',
        i32::MIN <= alpha < beta <= i32::MAX,
    ensures
        ({
            let r = otto_ab(m, depth, alpha, beta, player, persp);
            let v = otto_search(m, depth, player, persp);
            &&& (r <= alpha ==> v <= alpha)
            &&& (alpha < r < beta ==> v == r)
            &&& (r >= beta ==> v >= beta)
        }),
    decreases depth, m.width + 1, 0int,
{
    if depth == 0 || otto_terminal(m) {
    } else if player == 'O' {
        lemma_otto_ab_km_fold_max(m, depth, persp, 0, alpha, beta, i32::MIN as int);
        lemma_otto_search_fold_bounds(m, depth, player, persp, 0);
    } else {
        lemma_otto_ab_km_fold_min(m, depth, persp, 0, alpha, beta, i32::MAX as int);
        lemma_otto_search_fold_bounds(m, depth, player, persp, 0);
    }
}

proof fn lemma_otto_ab_km_fold_max(
    m: OttoState,
    depth: nat,
    persp: char,
    col: int,
    alpha0: int,
    beta: int,
    b: int,
)
    requires
        otto_dims(m.width, m.height),
        depth >= 1,
        i32::MIN <= alpha0 < beta <= i32::MAX,
        i32::MIN <= b,
        (if b > alpha0 {
            b
        } else {
            alpha0
        }) < beta,
    ensures
        ({
            let al = if b > alpha0 {
                b
            } else {
                alpha0
            };
            let r = otto_ab_fold(m, depth, 'O', persp, col, al, beta, b);
            let vrest = otto_search_fold(m, depth, 'O', persp, col);
            &&& r >= b
            &&& (r <= alpha0 ==> vrest <= alpha0)
            &&& (alpha0 < r < beta ==> r == (if b > vrest {
                b
            } else {
                vrest
            }))
            &&& (r >= beta ==> vrest >= beta)
        }),
    decreases depth, m.width - col, 1int,
{
    let al = if b > alpha0 {
        b
    } else {
        alpha0
    };
    let r = otto_ab_fold(m, depth, 'O', persp, col, al, beta, b);
    let vrest = otto_search_fold(m, depth, 'O', persp, col);
    if col < 0 || col >= m.width {
        assert(r == b);
        assert(vrest == i32::MIN as int);
    } else if !otto_allows(m, col) {
        lemma_otto_ab_km_fold_max(m, depth, persp, col + 1, alpha0, beta, b);
    } else {
        let child1 = otto_place_state(m, col, 'O', 'O');
        let child2 = otto_place_state(m, col, 'T', 'O');
        let s1 = otto_ab(child1, (depth - 1) as nat, al, beta, 'T', persp);
        let vc1 = otto_search(child1, (depth - 1) as nat, 'T', persp);
        let vc2 = otto_search(child2, (depth - 1) as nat, 'T', persp);
        lemma_otto_ab_km(child1, (depth - 1) as nat, al, beta, 'T', persp);
        let b1 = if s1 > b {
            s1
        } else {
            b
        };
        let a1 = if b1 > al {
            b1
        } else {
            al
        };
        let rest_v = otto_search_fold(m, depth, 'O', persp, col + 1);
        if beta <= a1 {
            // The first token closed the window: its child already proves
            // the node at least `beta`; later columns only raise the best.
            assert(s1 >= beta);
            assert(vc1 >= beta);
            assert(r == otto_ab_fold(m, depth, 'O', persp, col + 1, a1, beta, b1));
            lemma_otto_ab_fold_vs_best(m, depth, 'O', persp, col + 1, a1, beta, b1);
            assert(r >= b1);
            assert(r >= beta);
        } else {
            let s2 = otto_ab(child2, (depth - 1) as nat, a1, beta, 'T', persp);
            lemma_otto_ab_km(child2, (depth - 1) as nat, a1, beta, 'T', persp);
            let b2 = if s2 > b1 {
                s2
            } else {
                b1
            };
            let a2 = if b2 > a1 {
                b2
            } else {
                a1
            };
            if beta <= a2 {
                assert(s2 >= beta);
                assert(vc2 >= beta);
                assert(r == otto_ab_fold(m, depth, 'O', persp, col + 1, a2, beta, b2));
                lemma_otto_ab_fold_vs_best(m, depth, 'O', persp, col + 1, a2, beta, b2);
                assert(r >= b2);
                assert(r >= beta);
            } else {
                lemma_otto_ab_km_fold_max(m, depth, persp, col + 1, alpha0, beta, b2);
                assert(a2 == (if b2 > alpha0 {
                    b2
                } else {
                    alpha0
                }));
                assert(r == otto_ab_fold(m, depth, 'O', persp, col + 1, a2, beta, b2));
                assert(r >= b2);
                if r <= alpha0 {
                    assert(rest_v <= alpha0);
                    assert(s1 <= alpha0 && s2 <= alpha0 && b <= alpha0);
                    assert(al == alpha0);
                    assert(vc1 <= alpha0);
                    assert(a1 == alpha0);
                    assert(vc2 <= alpha0);
                }
                if alpha0 < r < beta {
                    assert(r == (if b2 > rest_v {
                        b2
                    } else {
                        rest_v
                    }));
                    if s1 <= al {
                        assert(vc1 <= al);
                        if b <= alpha0 {
                            assert(s1 <= alpha0 && vc1 <= alpha0);
                        }
                    } else {
                        assert(al < s1 < beta);
                        assert(vc1 == s1);
                    }
                    if s2 <= a1 {
                        assert(vc2 <= a1);
                        if b1 <= alpha0 {
                            assert(s2 <= alpha0 && vc2 <= alpha0);
                        } else {
                            assert(a1 == b1);
                        }
                    } else {
                        assert(a1 < s2 < beta);
                        assert(vc2 == s2);
                    }
                }
                if r >= beta {
                    assert(rest_v >= beta);
                }
            }
        }
    }
}

proof fn lemma_otto_ab_km_fold_min(
    m: OttoState,
    depth: nat,
    persp: char,
    col: int,
    alpha: int,
    beta0: int,
    b: int,
)
    requires
        otto_dims(m.width, m.height),
        depth >= 1,
        i32::MIN <= alpha < beta0 <= i32::MAX,
        b <= i32::MAX,
        (if b < beta0 {
            b
        } else {
            beta0
        }) > alpha,
    ensures
        ({
            let bt = if b < beta0 {
                b
            } else {
                beta0
            };
            let r = otto_ab_fold(m, depth, 'T', persp, col, alpha, bt, b);
            let vrest = otto_search_fold(m, depth, 'T', persp, col);
            &&& r <= b
            &&& (r >= beta0 ==> vrest >= beta0)
            &&& (alpha < r < beta0 ==> r == (if b < vrest {
                b
            } else {
                vrest
            }))
            &&& (r <= alpha ==> vrest <= alpha)
        }),
    decreases depth, m.width - col, 1int,
{
    let bt = if b < beta0 {
        b
    } else {
        beta0
    };
    let r = otto_ab_fold(m, depth, 'T', persp, col, alpha, bt, b);
    let vrest = otto_search_fold(m, depth, 'T', persp, col);
    if col < 0 || col >= m.width {
        assert(r == b);
        assert(vrest == i32::MAX as int);
    } else if !otto_allows(m, col) {
        lemma_otto_ab_km_fold_min(m, depth, persp, col + 1, alpha, beta0, b);
    } else {
        let child1 = otto_place_state(m, col, 'O', 'T');
        let child2 = otto_place_state(m, col, 'T', 'T');
        let s1 = otto_ab(child1, (depth - 1) as nat, alpha, bt, 'O', persp);
        let vc1 = otto_search(child1, (depth - 1) as nat, 'O', persp);
        let vc2 = otto_search(child2, (depth - 1) as nat, 'O', persp);
        lemma_otto_ab_km(child1, (depth - 1) as nat, alpha, bt, 'O', persp);
        let b1 = if s1 < b {
            s1
        } else {
            b
        };
        let bt1 = if b1 < bt {
            b1
        } else {
            bt
        };
        let rest_v = otto_search_fold(m, depth, 'T', persp, col + 1);
        if bt1 <= alpha {
            assert(s1 <= alpha);
            assert(vc1 <= alpha);
            assert(r == otto_ab_fold(m, depth, 'T', persp, col + 1, alpha, bt1, b1));
            lemma_otto_ab_fold_vs_best(m, depth, 'T', persp, col + 1, alpha, bt1, b1);
            assert(r <= b1);
            assert(r <= alpha);
        } else {
            let s2 = otto_ab(child2, (depth - 1) as nat, alpha, bt1, 'O', persp);
            lemma_otto_ab_km(child2, (depth - 1) as nat, alpha, bt1, 'O', persp);
            let b2 = if s2 < b1 {
                s2
            } else {
                b1
            };
            let bt2 = if b2 < bt1 {
                b2
            } else {
                bt1
            };
            if bt2 <= alpha {
                assert(s2 <= alpha);
                assert(vc2 <= alpha);
                assert(r == otto_ab_fold(m, depth, 'T', persp, col + 1, alpha, bt2, b2));
                lemma_otto_ab_fold_vs_best(m, depth, 'T', persp, col + 1, alpha, bt2, b2);
                assert(r <= b2);
                assert(r <= alpha);
            } else {
                lemma_otto_ab_km_fold_min(m, depth, persp, col + 1, alpha, beta0, b2);
                assert(bt2 == (if b2 < beta0 {
                    b2
                } else {
                    beta0
                }));
                assert(r == otto_ab_fold(m, depth, 'T', persp, col + 1, alpha, bt2, b2));
                assert(r <= b2);
                if r >= beta0 {
                    assert(rest_v >= beta0);
                    assert(s1 >= beta0 && s2 >= beta0 && b >= beta0);
                    assert(bt == beta0);
                    assert(vc1 >= beta0);
                    assert(bt1 == beta0);
                    assert(vc2 >= beta0);
                }
                if alpha < r < beta0 {
                    assert(r == (if b2 < rest_v {
                        b2
                    } else {
                        rest_v
                    }));
                    if s1 >= bt {
                        assert(vc1 >= bt);
                        if b >= beta0 {
                            assert(s1 >= beta0 && vc1 >= beta0);
                        }
                    } else {
                        assert(alpha < s1 < bt);
                        assert(vc1 == s1);
                    }
                    if s2 >= bt1 {
                        assert(vc2 >= bt1);
                        if b1 >= beta0 {
                            assert(s2 >= beta0 && vc2 >= beta0);
                        } else {
                            assert(bt1 == b1);
                        }
                    } else {
                        assert(alpha < s2 < bt1);
                        assert(vc2 == s2);
                    }
                }
                if r >= beta0 {
                    assert(rest_v >= beta0);
                }
            }
        }
    }
}

/// Alpha-beta equivalence for the dual-token engine: on the full window
/// the pruning search returns exactly the exhaustive minimax value.
pub proof fn lemma_otto_ab_equals_search(m: OttoState, depth: nat, player: char, persp: char)
    requires
        otto_dims(m.width, m.height),
        player == 'O' || player == 'T',
    ensures
        otto_ab(m, depth, i32::MIN as int, i32::MAX as int, player, persp) == otto_search(
            m,
            depth,
            player,
            persp,
        ),
{
    lemma_otto_ab_km(m, depth, i32::MIN as int, i32::MAX as int, player, persp);
    lemma_otto_search_bounds(m, depth, player, persp);
    lemma_otto_ab_bounds(m, depth, i32::MIN as int, i32::MAX as int, player, persp);
}

/// The computer player: a search depth derived from the difficulty, and
/// the symbol it always scores positions for.
pub struct OttoBot {
    pub depth: u32,
    pub play_as: char,
}

/// Scores the four-cell groups anchored at `(r, c)` for `player`.
#[verifier::rlimit(60)]
fn cell_score(board: &TootOttoBoard, r: usize, c: usize, player: char) -> (v: i32)
    requires
        board.wf(),
        r < board@.height,
        c < board@.width,
        player == 'O' || player == 'T',
    ensures
        v as int == otto_cell_score(
            board@.cells,
            board@.width,
            board@.height,
            r as int,
            c as int,
            player,
        ),
        0 <= v <= 400001,
{
    let opp = if player == 'O' {
        'T'
    } else {
        'O'
    };
    let w = board.width() as usize;
    let mut v: i32 = 0;
    if (c == 2 || c == 3) && board.get(r, c) == player {
        v = v + 1;
    }
    if c + 3 < w {
        let a0 = board.get(r, c);
        let a1 = board.get(r, c + 1);
        let a2 = board.get(r, c + 2);
        let a3 = board.get(r, c + 3);
        if a0 == player && a1 == opp && a2 == opp && a3 == player {
            v = v + 100000;
        } else if a0 == player && a1 == opp && a2 == opp {
            v = v + 100;
        } else if a0 == opp && a1 == player && a2 == player && a3 == player {
            v = v + 500;
        }
    }
    if r >= 3 {
        let a0 = board.get(r, c);
        let u1 = board.get(r - 1, c);
        let u2 = board.get(r - 2, c);
        let u3 = board.get(r - 3, c);
        if a0 == player && u1 == opp && u2 == opp && u3 == player {
            v = v + 100000;
        } else if a0 == player && u1 == opp && u2 == opp {
            v = v + 100;
        } else if a0 == player && u1 == opp {
            v = v + 10;
        } else if a0 == opp && u1 == player && u2 == player && u3 == player {
            v = v + 500;
        }
        if c + 3 < w {
            let d1 = board.get(r - 1, c + 1);
            let d2 = board.get(r - 2, c + 2);
            let d3 = board.get(r - 3, c + 3);
            if a0 == player && d1 == opp && d2 == opp && d3 == player {
                v = v + 100000;
            } else if a0 == player && d1 == opp && d2 == opp {
                v = v + 100;
            } else if a0 == player && d1 == opp {
                v = v + 10;
            } else if a0 == opp && d1 == player && d2 == player && d3 == player {
                v = v + 500;
            }
        }
        if c >= 3 {
            let e1 = board.get(r - 1, c - 1);
            let e2 = board.get(r - 2, c - 2);
            let e3 = board.get(r - 3, c - 3);
            if a0 == player && e1 == opp && e2 == opp && e3 == player {
                v = v + 100000;
            } else if a0 == player && e1 == opp && e2 == opp {
                v = v + 100;
            } else if a0 == player && e1 == opp {
                v = v + 10;
            } else if a0 == opp && e1 == player && e2 == player && e3 == player {
                v = v + 500;
            }
        }
    }
    v
}

impl OttoBot {
    pub fn new(difficulty: Difficulty, ai_token: char) -> (bot: OttoBot)
        ensures
            bot.depth == if difficulty == Difficulty::Easy {
                3u32
            } else {
                5u32
            },
            bot.play_as == ai_token,
    {
        let depth: u32 = match difficulty {
            Difficulty::Easy => 3,
            Difficulty::Hard => 5,
        };
        OttoBot { depth, play_as: ai_token }
    }

    /// The full heuristic: every cell's directional groups plus the
    /// center-column reward, scored for `player`.
    pub fn evaluate(&self, board: &TootOttoBoard, player: char) -> (score: i32)
        requires
            board.wf(),
            player == 'O' || player == 'T',
        ensures
            score as int == otto_eval(board@, player),
    {
        let ghost cells = board@.cells;
        let w = board.width();
        let h = board.height();
        let mut score: i32 = 0;
        let mut r: u32 = 0;
        while r < h
            invariant
                board.wf(),
                cells == board@.cells,
                w as int == board@.width,
                h as int == board@.height,
                player == 'O' || player == 'T',
                r <= h,
                score as int == otto_eval_upto(cells, w as int, h as int, r as int, player),
            decreases h - r,
        {
            let mut c: u32 = 0;
            while c < w
                invariant
                    board.wf(),
                    cells == board@.cells,
                    w as int == board@.width,
                    h as int == board@.height,
                    player == 'O' || player == 'T',
                    r < h,
                    c <= w,
                    score as int == otto_eval_upto(cells, w as int, h as int, r as int, player)
                        + otto_row_score(cells, w as int, h as int, r as int, c as int, player),
                decreases w - c,
            {
                let v = cell_score(board, r as usize, c as usize, player);
                proof {
                    lemma_otto_eval_bounds(cells, w as int, h as int, r as int, player);
                    lemma_otto_row_bounds(cells, w as int, h as int, r as int, c as int, player);
                }
                score = score + v;
                c = c + 1;
            }
            r = r + 1;
        }
        score
    }

    /// Depth-limited minimax with alpha-beta pruning over column-and-token
    /// moves: 'O' maximizes and 'T' minimizes, each column offers both
    /// tokens, and within a column the second token is skipped once the
    /// window closes. Every lookahead placement is paired with exactly one
    /// removal and the last-move record and winner cache are put back
    /// afterwards, so the board comes back exactly as it arrived. The
    /// score is exactly the pruning search's value `otto_ab`; on the full
    /// window that equals exhaustive minimax by
    /// `lemma_otto_ab_equals_search`, and the subtree of the returned
    /// column-and-token move then achieves exactly the returned score.
    pub(crate) fn minimax(
        &self,
        board: &mut TootOttoBoard,
        depth: u32,
        alpha: i32,
        beta: i32,
        player: char,
    ) -> (r: (i32, u32, char))
        requires
            old(board).wf(),
            player == 'O' || player == 'T',
            self.play_as == 'O' || self.play_as == 'T',
        ensures
            final(board).wf(),
            final(board)@ == old(board)@,
            r.0 as int == otto_ab(
                otto_core(old(board)@),
                depth as nat,
                alpha as int,
                beta as int,
                player,
                self.play_as,
            ),
            depth > 0 && !otto_terminal(old(board)@) ==> otto_allows(old(board)@, r.1 as int) && (
            r.2 == 'O' || r.2 == 'T'),
            depth > 0 && !otto_terminal(old(board)@) && alpha as int == i32::MIN && beta as int
                == i32::MAX ==> otto_search(
                otto_place_state(otto_core(old(board)@), r.1 as int, r.2, player),
                (depth - 1) as nat,
                otto_flip(player),
                self.play_as,
            ) == r.0 as int,
        decreases depth,
    {
        let saved = board.record_snapshot();
        let term = board.is_terminal();
        if depth == 0 || term {
            let score = if term {
                board.game_value()
            } else {
                self.evaluate(board, self.play_as)
            };
            board.restore_record(saved.0, saved.1, saved.2, saved.3);
            return (score, 2, 'O');
        }
        let ghost m0 = otto_core(old(board)@);
        let ghost alpha0 = alpha as int;
        let ghost beta0 = beta as int;
        let ghost persp = self.play_as;
        let ghost target = otto_ab(m0, depth as nat, alpha0, beta0, player, persp);
        let moves = board.available_moves();
        proof {
            assert(!board_full(m0.cells, m0.width));
            let c = choose|c: int| 0 <= c < m0.width && crate::grid::col_open(m0.cells, c);
            assert(otto_allows(board@, (c as u32) as int));
            assert(moves@.contains(c as u32));
            assert(moves@.len() > 0);
        }
        let ridx = crate::hostio::random_below(moves.len());
        let mut best_move: u32 = moves[ridx];
        let mut best_move_char: char = if crate::hostio::random_below(2) == 0 {
            'O'
        } else {
            'T'
        };
        let mut best_score: i32 = if player == 'O' {
            i32::MIN
        } else {
            i32::MAX
        };
        let mut alpha = alpha;
        let mut beta = beta;
        let mut i: u32 = 0;
        let w = board.width();
        proof {
            assert(otto_ab_fold(
                m0,
                depth as nat,
                player,
                persp,
                0,
                alpha as int,
                beta as int,
                best_score as int,
            ) == target);
        }
        while i < w
            invariant
                board.wf(),
                board@.cells == m0.cells,
                board@.width == m0.width,
                board@.height == m0.height,
                otto_dims(m0.width, m0.height),
                m0.winner is None,
                !otto_terminal(m0),
                depth >= 1,
                player == 'O' || player == 'T',
                persp == self.play_as,
                self.play_as == 'O' || self.play_as == 'T',
                w as int == m0.width,
                i <= w,
                otto_allows(m0, best_move as int),
                best_move_char == 'O' || best_move_char == 'T',
                otto_ab_fold(
                    m0,
                    depth as nat,
                    player,
                    persp,
                    i as int,
                    alpha as int,
                    beta as int,
                    best_score as int,
                ) == target,
                i32::MIN <= alpha0,
                beta0 <= i32::MAX,
                player == 'O' ==> beta as int == beta0 && alpha as int == (if best_score as int
                    > alpha0 {
                    best_score as int
                } else {
                    alpha0
                }),
                player == 'T' ==> alpha as int == alpha0 && beta as int == (if (best_score as int)
                    < beta0 {
                    best_score as int
                } else {
                    beta0
                }),
                player == 'O' && alpha0 == i32::MIN && beta0 == i32::MAX && best_score as int
                    != i32::MIN ==> otto_search(
                    otto_place_state(m0, best_move as int, best_move_char, player),
                    (depth - 1) as nat,
                    otto_flip(player),
                    persp,
                ) == best_score as int,
                player == 'O' && alpha0 == i32::MIN && beta0 == i32::MAX && best_score as int
                    == i32::MIN ==> (forall|cc: int|
                    0 <= cc < i as int && #[trigger] otto_allows(m0, cc) ==> otto_search(
                        otto_place_state(m0, cc, 'O', player),
                        (depth - 1) as nat,
                        otto_flip(player),
                        persp,
                    ) == i32::MIN && otto_search(
                        otto_place_state(m0, cc, 'T', player),
                        (depth - 1) as nat,
                        otto_flip(player),
                        persp,
                    ) == i32::MIN),
                player == 'T' && alpha0 == i32::MIN && beta0 == i32::MAX && best_score as int
                    != i32::MAX ==> otto_search(
                    otto_place_state(m0, best_move as int, best_move_char, player),
                    (depth - 1) as nat,
                    otto_flip(player),
                    persp,
                ) == best_score as int,
                player == 'T' && alpha0 == i32::MIN && beta0 == i32::MAX && best_score as int
                    == i32::MAX ==> (forall|cc: int|
                    0 <= cc < i as int && #[trigger] otto_allows(m0, cc) ==> otto_search(
                        otto_place_state(m0, cc, 'O', player),
                        (depth - 1) as nat,
                        otto_flip(player),
                        persp,
                    ) == i32::MAX && otto_search(
                        otto_place_state(m0, cc, 'T', player),
                        (depth - 1) as nat,
                        otto_flip(player),
                        persp,
                    ) == i32::MAX),
            decreases w - i,
        {
            let legal = board.allows_move(i);
            proof {
                assert(otto_allows(board@, i as int) == otto_allows(m0, i as int));
            }
            if legal {
                board.perform_move_plz(i, 'O', player);
                proof {
                    assert(otto_core(board@) == otto_place_state(m0, i as int, 'O', player));
                }
                let flipped = if player == 'T' {
                    'O'
                } else {
                    'T'
                };
                let child1 = self.minimax(board, depth - 1, alpha, beta, flipped);
                board.undo_move(i as usize);
                proof {
                    crate::grid::lemma_place_then_remove(
                        m0.cells,
                        m0.width,
                        m0.height,
                        i as int,
                        'O',
                    );
                    assert(board@.cells == m0.cells);
                }
                let score1 = child1.0;
                proof {
                    if alpha0 == i32::MIN && beta0 == i32::MAX {
                        // Knuth-Moore on the child's window pins the child's
                        // exhaustive value whenever the score moves the best,
                        // and pins it to the sentinel when nothing has.
                        let childst = otto_place_state(m0, i as int, 'O', player);
                        let v = otto_search(childst, (depth - 1) as nat, otto_flip(player), persp);
                        if player == 'O' {
                            if score1 > best_score {
                                assert((alpha as int) < score1 as int);
                                assert((alpha as int) < beta as int);
                                lemma_otto_ab_km(childst, (depth - 1) as nat, alpha as int,
                                    beta as int, otto_flip(player), persp);
                                lemma_otto_search_bounds(childst, (depth - 1) as nat,
                                    otto_flip(player), persp);
                                if (score1 as int) < beta as int {
                                    assert(v == score1 as int);
                                } else {
                                    assert(v >= beta as int);
                                    assert(v == score1 as int);
                                }
                            } else if best_score == i32::MIN {
                                assert((alpha as int) < beta as int);
                                lemma_otto_ab_km(childst, (depth - 1) as nat, alpha as int,
                                    beta as int, otto_flip(player), persp);
                                lemma_otto_search_bounds(childst, (depth - 1) as nat,
                                    otto_flip(player), persp);
                                assert(score1 as int <= alpha as int);
                                assert(v == i32::MIN);
                            }
                        } else {
                            if score1 < best_score {
                                assert((score1 as int) < beta as int);
                                assert((alpha as int) < beta as int);
                                lemma_otto_ab_km(childst, (depth - 1) as nat, alpha as int,
                                    beta as int, otto_flip(player), persp);
                                lemma_otto_search_bounds(childst, (depth - 1) as nat,
                                    otto_flip(player), persp);
                                if (alpha as int) < score1 as int {
                                    assert(v == score1 as int);
                                } else {
                                    assert(v <= alpha as int);
                                    assert(v == score1 as int);
                                }
                            } else if best_score == i32::MAX {
                                assert((alpha as int) < beta as int);
                                lemma_otto_ab_km(childst, (depth - 1) as nat, alpha as int,
                                    beta as int, otto_flip(player), persp);
                                lemma_otto_search_bounds(childst, (depth - 1) as nat,
                                    otto_flip(player), persp);
                                assert(score1 as int >= beta as int);
                                assert(v == i32::MAX);
                            }
                        }
                    }
                }
                if player == 'O' {
                    if score1 > best_score {
                        best_score = score1;
                        best_move = i;
                        best_move_char = 'O';
                    }
                    if best_score > alpha {
                        alpha = best_score;
                    }
                } else {
                    if score1 < best_score {
                        best_score = score1;
                        best_move = i;
                        best_move_char = 'O';
                    }
                    if best_score < beta {
                        beta = best_score;
                    }
                }
                if !(beta <= alpha) {
                    board.perform_move_plz(i, 'T', player);
                    proof {
                        assert(otto_core(board@) == otto_place_state(m0, i as int, 'T', player));
                    }
                    let child2 = self.minimax(board, depth - 1, alpha, beta, flipped);
                    board.undo_move(i as usize);
                    proof {
                        crate::grid::lemma_place_then_remove(
                            m0.cells,
                            m0.width,
                            m0.height,
                            i as int,
                            'T',
                        );
                        assert(board@.cells == m0.cells);
                    }
                    let score2 = child2.0;
                    proof {
                        if alpha0 == i32::MIN && beta0 == i32::MAX {
                            let childst = otto_place_state(m0, i as int, 'T', player);
                            let v = otto_search(childst, (depth - 1) as nat, otto_flip(player),
                                persp);
                            if player == 'O' {
                                if score2 > best_score {
                                    assert((alpha as int) < score2 as int);
                                    assert((alpha as int) < beta as int);
                                    lemma_otto_ab_km(childst, (depth - 1) as nat, alpha as int,
                                        beta as int, otto_flip(player), persp);
                                    lemma_otto_search_bounds(childst, (depth - 1) as nat,
                                        otto_flip(player), persp);
                                    if (score2 as int) < beta as int {
                                        assert(v == score2 as int);
                                    } else {
                                        assert(v >= beta as int);
                                        assert(v == score2 as int);
                                    }
                                } else if best_score == i32::MIN {
                                    assert((alpha as int) < beta as int);
                                    lemma_otto_ab_km(childst, (depth - 1) as nat, alpha as int,
                                        beta as int, otto_flip(player), persp);
                                    lemma_otto_search_bounds(childst, (depth - 1) as nat,
                                        otto_flip(player), persp);
                                    assert(score2 as int <= alpha as int);
                                    assert(v == i32::MIN);
                                }
                            } else {
                                if score2 < best_score {
                                    assert((score2 as int) < beta as int);
                                    assert((alpha as int) < beta as int);
                                    lemma_otto_ab_km(childst, (depth - 1) as nat, alpha as int,
                                        beta as int, otto_flip(player), persp);
                                    lemma_otto_search_bounds(childst, (depth - 1) as nat,
                                        otto_flip(player), persp);
                                    if (alpha as int) < score2 as int {
                                        assert(v == score2 as int);
                                    } else {
                                        assert(v <= alpha as int);
                                        assert(v == score2 as int);
                                    }
                                } else if best_score == i32::MAX {
                                    assert((alpha as int) < beta as int);
                                    lemma_otto_ab_km(childst, (depth - 1) as nat, alpha as int,
                                        beta as int, otto_flip(player), persp);
                                    lemma_otto_search_bounds(childst, (depth - 1) as nat,
                                        otto_flip(player), persp);
                                    assert(score2 as int >= beta as int);
                                    assert(v == i32::MAX);
                                }
                            }
                        }
                    }
                    if player == 'O' {
                        if score2 > best_score {
                            best_score = score2;
                            best_move = i;
                            best_move_char = 'T';
                        }
                        if best_score > alpha {
                            alpha = best_score;
                        }
                    } else {
                        if score2 < best_score {
                            best_score = score2;
                            best_move = i;
                            best_move_char = 'T';
                        }
                        if best_score < beta {
                            beta = best_score;
                        }
                    }
                }
            }
            i = i + 1;
        }
        proof {
            if alpha0 == i32::MIN && beta0 == i32::MAX {
                if player == 'O' && best_score == i32::MIN {
                    assert(otto_allows(m0, best_move as int));
                    assert(otto_search(
                        otto_place_state(m0, best_move as int, 'O', player),
                        (depth - 1) as nat,
                        otto_flip(player),
                        persp,
                    ) == i32::MIN);
                    assert(otto_search(
                        otto_place_state(m0, best_move as int, 'T', player),
                        (depth - 1) as nat,
                        otto_flip(player),
                        persp,
                    ) == i32::MIN);
                }
                if player == 'T' && best_score == i32::MAX {
                    assert(otto_allows(m0, best_move as int));
                    assert(otto_search(
                        otto_place_state(m0, best_move as int, 'O', player),
                        (depth - 1) as nat,
                        otto_flip(player),
                        persp,
                    ) == i32::MAX);
                    assert(otto_search(
                        otto_place_state(m0, best_move as int, 'T', player),
                        (depth - 1) as nat,
                        otto_flip(player),
                        persp,
                    ) == i32::MAX);
                }
            }
        }
        board.restore_record(saved.0, saved.1, saved.2, saved.3);
        proof {
            assert(board@ == old(board)@);
        }
        (best_score, best_move, best_move_char)
    }

    /// The move the engine plays on an undecided position, encoded as the
    /// column digit followed by the token character: the column it names
    /// is legal, the token one of the two, and the move's subtree achieves
    /// exactly the exhaustive minimax value of the position at this
    /// agent's depth. The board comes back exactly as it arrived.
    pub fn best_move(&self, board: &mut TootOttoBoard, player: char) -> (mv: String)
        requires
            old(board).wf(),
            player == 'O' || player == 'T',
            self.play_as == 'O' || self.play_as == 'T',
            self.depth >= 1,
            !otto_terminal(old(board)@),
        ensures
            final(board).wf(),
            final(board)@ == old(board)@,
            mv@.len() == 2,
            otto_allows(old(board)@, crate::hostio::spec_char_digit(mv@[0])),
            mv@[1] == 'O' || mv@[1] == 'T',
            otto_search(
                otto_place_state(
                    otto_core(old(board)@),
                    crate::hostio::spec_char_digit(mv@[0]),
                    mv@[1],
                    player,
                ),
                (self.depth - 1) as nat,
                otto_flip(player),
                self.play_as,
            ) == otto_search(otto_core(old(board)@), self.depth as nat, player, self.play_as),
    {
        let r = self.minimax(board, self.depth, i32::MIN, i32::MAX, player);
        let mut mv = String::new();
        mv.append(crate::hostio::digit_text(r.1));
        mv.append(crate::hostio::cell_text(r.2));
        proof {
            assert(crate::hostio::spec_char_digit(crate::hostio::spec_digit_char(r.1 as int))
                == r.1 as int);
            lemma_otto_ab_equals_search(
                otto_core(old(board)@),
                self.depth as nat,
                player,
                self.play_as,
            );
        }
        mv
    }
}

} // verus!
