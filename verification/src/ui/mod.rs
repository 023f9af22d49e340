//! Boxes and progress bars drawn on a terminal.
pub mod ui_box;
pub mod ui_progress_bar;
