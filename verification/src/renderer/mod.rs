//! Settings that decide how a terminal is drawn: its font, tile scaling and
//! mesh pivot.
pub mod font;
pub mod mesh;
pub mod tile_scaling;
