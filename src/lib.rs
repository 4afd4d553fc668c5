//! A deterministic game-state engine for a grid-based snake game.
//!
//! [`SnakeGame`] owns the board, the snake's body, the direction buffer, the
//! food and the score, and advances one cell per [`SnakeGame::tick`].  Every
//! operation is specified against the mathematical model in [`GameView`].

mod direction;
mod game;
mod laws;
mod model;
mod random;

pub use direction::Direction;
pub use game::{GameError, SnakeGame};
pub use laws::{
    lemma_collision_ends_game, lemma_filling_the_board_wins, lemma_finished_is_terminal,
    lemma_growth, lemma_reversal_ignored, lemma_tick_keeps_invariant, lemma_wrap_at_edges, play,
    Input,
};
pub use model::{
    free_cells, free_in_row, free_in_rows, lemma_free_cells, lemma_free_count, lemma_free_in_row,
    lemma_free_in_rows, moved, wrap, GameView, Position,
};
