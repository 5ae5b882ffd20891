//! The logical core of a Minesweeper game, verified with Verus.
//!
//! The game is a value of its own: it reads no key, draws nothing and
//! asks no clock. A front end hands it one input event at a time, with
//! the time, and draws what it is told to.
//!
//! - `rng`: the generator that the mines are drawn from
//! - `tile`: one cell, packed into a byte
//! - `grid`: cells, indices and neighbours of a rectangular grid
//! - `board`: the tiles and the count of safe tiles still covered
//! - `placer`: laying the mines clear of the first reveal
//! - `uncover`: revealing a tile, and the flood from an empty one
//! - `game`: cursor, state of play and the step from event to action
//! - `input`: from key codes to events
//! - `render`: glyphs, colours, the frame and the final report
//! - `console`: what the library shares with a console front end
//! - `laws`: what holds of all this together

pub mod board;
pub mod console;
pub mod game;
pub mod grid;
pub mod input;
pub mod laws;
pub mod placer;
pub mod render;
pub mod rng;
pub mod tile;
pub mod uncover;
