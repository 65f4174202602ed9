//! What background work reports.

use vstd::prelude::*;
use crate::ffmpeg::capabilities::CapabilityReport;
use crate::ffmpeg::probe::{ProbeError, ProbeResult};
use crate::ffmpeg::progress::ProgressUpdate;
use crate::ffmpeg::runner::JobResult;

verus! {

/// A report of background work.
#[derive(Debug)]
pub enum BackgroundMsg {
    /// It is known what FFmpeg can do, or that there is none.
    CapabilitiesReady(CapabilityReport),
    /// A path that the user typed was tried out.
    CustomPathChecked(CapabilityReport),
    /// A file was probed.
    ProbeReady { path: String, result: Result<ProbeResult, ProbeError> },
    /// A job runs, as this process.
    JobStarted { job_id: u64, pid: Option<u32> },
    /// A job made progress.
    JobProgress { job_id: u64, update: ProgressUpdate },
    /// A job wrote a line of error output.
    JobStderrLine { job_id: u64, line: String },
    /// A job ended.
    JobFinished { job_id: u64, result: JobResult },
}

} // verus!
