//! The console menu that drives hosted games. Input loops are bounded: a
//! closed or persistently malformed console settles on each menu's last
//! option, and the main menu's last option is the way out.

use vstd::prelude::*;
use vstd::string::StringExecFns;
use crate::board::{BoardSize, Difficulty};
use crate::connect4::Connect4Board;

verus! {

/// Prompts with `menu` until the console yields an option in `[1, n]`,
/// writing it to `ret`; after a bounded number of bad lines (or a closed
/// input) settles on `n`.
fn get_menu_choice(menu: &str, n: u32, ret: &mut u32)
    requires
        n >= 1,
    ensures
        1 <= *final(ret) <= n,
{
    let mut tries: u32 = 0;
    while tries < 1000
        invariant
            n >= 1,
        decreases 1000 - tries,
    {
        crate::hostio::print_text(menu);
        crate::hostio::print_text("\n\n");
        match crate::hostio::read_line_stdin() {
            Some(line) => {
                match crate::hostio::parse_u32_line(&line) {
                    Some(p) => {
                        if 1 <= p && p <= n {
                            *ret = p;
                            crate::hostio::print_text("\n");
                            return ;
                        } else {
                            crate::hostio::print_text("Please select a valid option.\n\n");
                        }
                    },
                    None => {
                        crate::hostio::print_text("Please enter a valid integer.\n\n");
                    },
                }
            },
            None => {},
        }
        tries = tries + 1;
    }
    *ret = n;
}

/// Waits for the console before showing the next menu; gives up waiting
/// on a closed input after a bounded number of attempts.
fn get_continue() {
    let mut tries: u32 = 0;
    while tries < 1000
        decreases 1000 - tries,
    {
        crate::hostio::print_text("Please press 'enter' to continue...\n");
        match crate::hostio::read_line_stdin() {
            Some(_) => {
                crate::hostio::print_text("\n");
                return ;
            },
            None => {},
        }
        tries = tries + 1;
    }
}

/// One hosted single-token game with the selected size and mode.
fn play_connect4(size: u32, mode: u32) -> (result: String) {
    crate::hostio::print_text("Starting Connect4....\n");
    let size = match size {
        1 => BoardSize::Standard,
        2 => BoardSize::Large,
        _ => BoardSize::Standard,
    };
    let mut game = Connect4Board::new(size);
    match mode {
        1 => game.host_game(),
        2 => game.host_game_AI(Difficulty::Easy),
        3 => game.host_game_AI(Difficulty::Hard),
        _ => String::new(),
    }
}

/// The interactive menu loop: pick a game, a board size and a mode, play
/// it out, and return to the menu. The session is bounded; an exhausted
/// console exits through the menu's last option.
pub fn run_cli() {
    let mut rounds: u32 = 0;
    let mut done = false;
    while !done && rounds < 1000
        decreases 1000 - rounds,
    {
        let mut g: u32 = 0;
        get_menu_choice(
            "Please select a game:\n1. Connect4\n2. TOOT and OTTO\n3. (Exit Program)",
            3,
            &mut g,
        );
        if g == 3 {
            done = true;
        } else {
            let mut s: u32 = 0;
            get_menu_choice("Please select board size:\n1. Standard Board\n2. Larger Board", 2,
                &mut s);
            let mut gm: u32 = 0;
            get_menu_choice(
                "Please select a game mode:\n1. vs Player\n2. vs Computer (Easy)\n3. vs Computer (Hard)",
                3,
                &mut gm,
            );
            let _result = match g {
                1 => play_connect4(s, gm),
                2 => String::from_str("unimplemented"),
                _ => String::from_str("Something went wrong, please try again"),
            };
            get_continue();
        }
        rounds = rounds + 1;
    }
}

} // verus!
