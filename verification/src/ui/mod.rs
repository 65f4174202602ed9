//! What the screens show and how they react to keys.

pub mod images;
pub mod layout;
pub mod line;
pub mod screens;
pub mod theme;
pub mod widgets;
