//! The board model: players, outcomes, actions, quadrant swaps, symmetries
//! and the bit-packed board itself.
pub mod action;
pub mod board;
pub mod board_symmetries;
pub mod outcome;
pub mod player;
pub mod swap;

pub use action::Action;
pub use board::Board;
pub use board_symmetries::flip_antidiagonal;
pub use board_symmetries::flip_diagonal;
pub use board_symmetries::flip_horizontal;
pub use board_symmetries::flip_vertical;
pub use outcome::Outcome;
pub use player::Player;
pub use swap::Swap;
