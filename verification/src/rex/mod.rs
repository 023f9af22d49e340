//! Reading of REXPaint `.xp` images.
pub mod reader;
