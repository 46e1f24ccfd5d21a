//! Rules engines and adversarial search for two vertical-grid connection
//! games: a single-token four-in-a-row game and a dual-token variant in
//! which a win is a four-cell pattern whose outer tokens match and whose
//! inner tokens are the opposite symbol.

pub mod board;
pub mod grid;
pub mod connect4;
pub mod otto;
pub mod ottobot;
pub mod hostio;
pub mod cli;
