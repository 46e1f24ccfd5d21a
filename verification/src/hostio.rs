//! The trusted boundary of the crate: the process's source of randomness
//! and its console. Everything here is glue from plain values to plain
//! values; the console wrappers promise nothing, and every caller
//! validates what comes back before acting on it.

use std::io::Write;
use vstd::prelude::*;

verus! {

/// Relies on rand's `thread_rng` and `Rng::gen_range` over `0..n`: the
/// result is uniformly drawn from that range, so it is below `n`; the call
/// panics only on an empty range, which the precondition rules out.
#[verifier::external_body]
pub(crate) fn random_below(n: usize) -> (r: usize)
    requires
        n > 0,
    ensures
        r < n,
{
    rand::Rng::gen_range(&mut rand::thread_rng(), 0..n)
}

/// Relies on `std::io::stdin` and `Stdin::read_line`: reads one line from
/// the console, `None` on end of input or failure. Nothing is promised of
/// the text.
#[verifier::external_body]
pub(crate) fn read_line_stdin() -> (r: Option<String>) {
    let mut s = String::new();
    match std::io::stdin().read_line(&mut s) {
        Ok(0) => None,
        Ok(_) => Some(s),
        Err(_) => None,
    }
}

/// Relies on `std::io::stdout`, the `write!` macro and `Write::flush`:
/// best-effort printing of the text to the console.
#[verifier::external_body]
pub(crate) fn print_text(s: &str) {
    let mut out = std::io::stdout();
    let _ = write!(out, "{}", s);
    let _ = std::io::Write::flush(&mut out);
}

/// Relies on `str::trim` and `str::parse::<u32>`: the line as an unsigned
/// number, if it is one. Nothing is promised of the value; callers check
/// it against their own bounds.
#[verifier::external_body]
pub(crate) fn parse_u32_line(s: &String) -> (r: Option<u32>) {
    s.trim().parse::<u32>().ok()
}

/// Relies on `str::split_whitespace`, `str::parse` and `str::chars`: a
/// line of the form "column token" as a number and a character. Nothing is
/// promised of the values; callers validate both.
#[verifier::external_body]
pub(crate) fn parse_col_tok_line(s: &String) -> (r: Option<(u32, char)>) {
    let mut words = s.split_whitespace();
    let col_word = words.next()?;
    let tok_word = words.next()?;
    if words.next().is_some() {
        return None;
    }
    let col = col_word.parse::<u32>().ok()?;
    let mut tok_chars = tok_word.chars();
    let tok = tok_chars.next()?;
    if tok_chars.next().is_some() {
        return None;
    }
    Some((col, tok))
}

/// The character for a digit value below ten.
pub open spec fn spec_digit_char(d: int) -> char {
    if d == 0 {
        '0'
    } else if d == 1 {
        '1'
    } else if d == 2 {
        '2'
    } else if d == 3 {
        '3'
    } else if d == 4 {
        '4'
    } else if d == 5 {
        '5'
    } else if d == 6 {
        '6'
    } else if d == 7 {
        '7'
    } else if d == 8 {
        '8'
    } else {
        '9'
    }
}

/// The digit value of a digit character; ten for anything else.
pub open spec fn spec_char_digit(c: char) -> int {
    if c == '0' {
        0
    } else if c == '1' {
        1
    } else if c == '2' {
        2
    } else if c == '3' {
        3
    } else if c == '4' {
        4
    } else if c == '5' {
        5
    } else if c == '6' {
        6
    } else if c == '7' {
        7
    } else if c == '8' {
        8
    } else if c == '9' {
        9
    } else {
        10
    }
}

/// The one-character text of a cell or token symbol.
pub(crate) fn cell_text(c: char) -> (s: &'static str)
    ensures
        s@.len() == 1,
        c == 'X' ==> s@[0] == 'X',
        c == 'O' ==> s@[0] == 'O',
        c == 'T' ==> s@[0] == 'T',
{
    match c {
        'X' => {
            proof {
                reveal_strlit("X");
            }
            "X"
        },
        'O' => {
            proof {
                reveal_strlit("O");
            }
            "O"
        },
        'T' => {
            proof {
                reveal_strlit("T");
            }
            "T"
        },
        ' ' => {
            proof {
                reveal_strlit(" ");
            }
            " "
        },
        '_' => {
            proof {
                reveal_strlit("_");
            }
            "_"
        },
        _ => {
            proof {
                reveal_strlit("?");
            }
            "?"
        },
    }
}

/// The one-character text of a column index below ten.
pub(crate) fn digit_text(d: u32) -> (s: &'static str)
    requires
        d < 10,
    ensures
        s@.len() == 1,
        s@[0] == spec_digit_char(d as int),
{
    match d {
        0 => {
            proof {
                reveal_strlit("0");
            }
            "0"
        },
        1 => {
            proof {
                reveal_strlit("1");
            }
            "1"
        },
        2 => {
            proof {
                reveal_strlit("2");
            }
            "2"
        },
        3 => {
            proof {
                reveal_strlit("3");
            }
            "3"
        },
        4 => {
            proof {
                reveal_strlit("4");
            }
            "4"
        },
        5 => {
            proof {
                reveal_strlit("5");
            }
            "5"
        },
        6 => {
            proof {
                reveal_strlit("6");
            }
            "6"
        },
        7 => {
            proof {
                reveal_strlit("7");
            }
            "7"
        },
        8 => {
            proof {
                reveal_strlit("8");
            }
            "8"
        },
        _ => {
            proof {
                reveal_strlit("9");
            }
            "9"
        },
    }
}

} // verus!
