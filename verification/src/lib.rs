//! Verified game logic of the Omi card game: the 32-card deck, trick
//! resolution, move validation, round scoring, the bot player and the
//! room/table state machine driven by the server's requests.

pub mod types;
pub mod deck;
pub mod game_logic;
pub mod random;
pub mod bot_ai;
pub mod tables;
pub mod queries;
pub mod ops;
pub mod text;
pub mod steps;
pub mod reducers;
pub mod integrity;
pub mod progress;
