//! A grid of colored text tiles for drawing ascii to a terminal, with strings
//! that can be wrapped, aligned by a pivot and colored by embedded tags.
pub mod ascii;
pub mod color;
pub mod grid_rect;
pub mod laws;
pub mod padding;
pub mod pivot;
pub mod renderer;
pub mod rex;
pub mod string;
pub mod string_formatting;
pub mod strings;
pub mod terminal;
pub mod tile;
pub mod ui;
