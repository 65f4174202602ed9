//! FFmpeg's command line, its output, and the files it reads.

pub mod builder;
pub mod probe;
pub mod capabilities;
pub mod errors;
pub mod progress;
pub mod reading;
pub mod runner;
