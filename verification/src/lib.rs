//! Connect-Four on the classic seven-by-six board: the rules of the game,
//! incremental win detection and a perspective-dependent encoding of a
//! position as one wide integer.
//!
//! Every executable function carries a contract over a mathematical model of
//! the board (a sequence of columns, each a sequence of cell values), and the
//! properties that relate several operations are stated as proof functions
//! next to the definitions they speak of.

pub mod board;
pub mod game;
pub mod hash;
pub mod lines;
pub mod moves;
pub mod player;
pub mod position;
pub mod random_strategy;
pub mod render;
pub mod score;
pub mod selfplay;
pub mod standings;
pub mod strategy;
pub mod table;

pub use board::{Board, BOARD_SIZE, COLUMNS, EMPTY_VALUE, ROWS};
pub use game::Game;
pub use moves::Move;
pub use player::{Player, PLAYER_1_VALUE, PLAYER_2_VALUE};
pub use position::Position;
pub use random_strategy::RandomStrategy;
pub use score::{Score, Tally};
pub use selfplay::{play_game, GameRecord, Playthrough, MAX_TURNS};
pub use standings::{simulate, Standings, MAX_GAMES};
pub use strategy::Strategy;
pub use table::ScoreTable;
