//! The screens.

pub mod file_browser;
pub mod form_view;
pub mod help;
pub mod missing_ffmpeg;
pub mod operation_picker;
pub mod parameter_form;
pub mod placeholder;
pub mod popups;
pub mod queue;
pub mod running;
pub mod startup;
pub mod trim;
pub mod trim_view;
