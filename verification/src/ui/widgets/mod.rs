//! Parts of screens.

pub mod log_pane;
pub mod progress_bar;
