//! Settings and presets.

pub mod presets;
pub mod settings;
