//! A grid-based snake game: a fixed board, a snake that advances one cell per
//! tick, food that appears on free cells, and an absorbing game-over state.
//!
//! The executable game is [`SnakeGame`]; its mathematical model, over which
//! every contract is stated, is [`GameView`].

pub mod direction;
pub mod game;
pub mod model;
pub mod random;

pub use direction::{get_opposite_direction, Direction};
pub use game::SnakeGame;
pub use model::{GameView, Position};
pub use random::rand_position;
