//! A verified tic-tac-toe engine: a 3x3 board with enforced turn-taking,
//! win and draw detection, and an exhaustive minimax search that picks the
//! engine's best move.

pub mod grid;
pub mod input;
pub mod search;

pub use grid::Grid;
pub use grid::Player;
pub use input::parse_move;
pub use search::minimax;
