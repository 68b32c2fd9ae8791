//! Tabular Q-learning for a line-forming grid game played by two seats.

pub mod board;
pub mod game;
pub mod grid;
pub mod piece;
pub mod q_agent;
pub mod q_table;
pub mod random;
pub mod results;
pub mod seats;
pub mod state;
pub mod training;
pub mod value;
pub mod vector;
