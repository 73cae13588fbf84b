//! Data model and validation engine for an "Islands" (Nurikabe-style) grid
//! puzzle: cell states and their toggle cycle, grids parsed from puzzle and
//! solution text, the land/water win check, and the play session that pairs a
//! working grid with its solution.
#![verifier::loop_isolation(false)]

mod cell;
mod grid;
mod parse;
mod session;

pub use cell::CellState;
pub use grid::Grid;
pub use grid::GridComponent;
pub use grid::GridSize;
pub use session::ChangeGameState;
pub use session::GameState;
pub use session::Puzzle;
pub use session::ToggleOutcome;
pub use session::update_game_state;
