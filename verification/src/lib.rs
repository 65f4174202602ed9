//! ffkit: the verified core of a terminal interface to FFmpeg.
//!
//! Everything the program decides is here, stated in contracts over plain
//! sequences of characters and integers: which command line an operation
//! builds, how a command is quoted for display, how FFmpeg's own output is
//! read back, how the job queue moves, what a key press does on each screen.
//! Processes, files, the terminal and the clock stay outside, in `app/`.

pub mod app;
pub mod background;
pub mod backlog;
pub mod config;
pub mod date;
pub mod ffmpeg;
pub mod key;
pub mod names;
pub mod number;
pub mod text;
pub mod order;
pub mod path;
pub mod time;
pub mod ops;
pub mod queue;
pub mod ui;
