//! A verified grid-based snake simulation: a single snake moves on a fixed
//! square board, grows when it eats fruit, and the session ends when the
//! snake leaves the board, collides with itself, or fills the whole board.
pub mod clock;
pub mod fruit;
pub mod game;
pub mod grid;
pub mod session;
pub mod snake;
