//! Core of a terminal snake game: an occupancy grid with collision
//! detection, a snake kept as a history of moves, an apple that is placed on
//! a random free cell, and the rules that tie them into frames and ticks.
//!
//! Nothing here touches a terminal. A frame leaves its glyphs in the
//! [`grid::Grid`], and the two scheduling loops of a front end ask
//! [`scheduler`] what to do next.
//!
//! Every type has a mathematical model, its view, and every operation is
//! specified as a function on these models: [`grid::GridView::claim`],
//! [`snake::SnakeView::turned`], [`game::GameView::framed`] and so on. The
//! one thing that the models leave open is where an apple without a place
//! is put. A rendering is therefore specified for a given cell, `spot`, and
//! the contracts add that the cell which was in fact chosen is free.
//! Functions whose names begin with `law_` state what holds of the models
//! in general.

pub mod apple;
pub mod coordinate;
pub mod game;
pub mod grid;
mod random;
pub mod scheduler;
pub mod snake;
pub mod stage;
