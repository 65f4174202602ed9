//! Global settings.
//!
//! The configuration file is read and written outside; its decoded fields
//! arrive here as plain values, and what is missing takes the defaults below.

use vstd::prelude::*;
use crate::config::presets::Preset;
use crate::text::copy_text;

verus! {

/// All settings.
#[derive(Debug, Clone, PartialEq, Eq)]
pub struct Settings {
    /// General behaviour.
    pub general: GeneralSettings,
    /// Encoder defaults, applied to matching form fields.
    pub defaults: EncoderDefaults,
    /// Presets that the user saved.
    pub presets: Vec<Preset>,
}

/// Settings that apply to every operation.
#[derive(Debug, Clone, PartialEq, Eq)]
pub struct GeneralSettings {
    /// Custom `ffmpeg` binary; none or empty means the one on the search path.
    pub ffmpeg_path: Option<String>,
    /// Custom `ffprobe` binary; none means the one beside `ffmpeg`, or on the
    /// search path.
    pub ffprobe_path: Option<String>,
    /// Default output directory; empty means beside the input.
    pub default_output_dir: String,
    /// Ask before overwriting existing outputs.
    pub confirm_overwrite: bool,
    /// Theme name.
    pub theme: String,
    /// How many FFmpeg processes may run at once.
    pub max_concurrent_jobs: usize,
    /// Naming template for batch outputs.
    pub batch_template: String,
}

/// Encoder defaults for form fields with the same ids.
#[derive(Debug, Clone, PartialEq, Eq)]
pub struct EncoderDefaults {
    pub video_codec: String,
    pub crf: i64,
    pub preset: String,
    pub audio_codec: String,
    pub audio_bitrate: String,
}

/// Overwriting is confirmed by default.
pub fn default_confirm_overwrite() -> (r: bool)
    ensures
        r,
{
    true
}

/// The default theme.
pub fn default_theme() -> (r: String)
    ensures
        r@ == "dark"@,
{
    copy_text("dark")
}

/// Jobs run one after another by default.
pub fn default_concurrency() -> (r: usize)
    ensures
        r == 1,
{
    1
}

/// The default naming template.
pub fn default_batch_template() -> (r: String)
    ensures
        r@ == "{parent}/{stem}_{suffix}.{ext}"@,
{
    copy_text("{parent}/{stem}_{suffix}.{ext}")
}

/// The default video encoder.
pub fn default_video_codec() -> (r: String)
    ensures
        r@ == "libx264"@,
{
    copy_text("libx264")
}

/// The default quality.
pub fn default_crf() -> (r: i64)
    ensures
        r == 23,
{
    23
}

/// The default encoder preset.
pub fn default_preset() -> (r: String)
    ensures
        r@ == "medium"@,
{
    copy_text("medium")
}

/// The default audio encoder.
pub fn default_audio_codec() -> (r: String)
    ensures
        r@ == "aac"@,
{
    copy_text("aac")
}

/// The default audio bit rate.
pub fn default_audio_bitrate() -> (r: String)
    ensures
        r@ == "128k"@,
{
    copy_text("128k")
}

impl Default for GeneralSettings {
    fn default() -> (r: Self)
        ensures
            r.ffmpeg_path is None,
            r.ffprobe_path is None,
            r.default_output_dir@.len() == 0,
            r.confirm_overwrite,
            r.theme@ == "dark"@,
            r.max_concurrent_jobs == 1,
            r.batch_template@ == "{parent}/{stem}_{suffix}.{ext}"@,
    {
        GeneralSettings {
            ffmpeg_path: None,
            ffprobe_path: None,
            default_output_dir: String::new(),
            confirm_overwrite: default_confirm_overwrite(),
            theme: default_theme(),
            max_concurrent_jobs: default_concurrency(),
            batch_template: default_batch_template(),
        }
    }
}

impl Default for EncoderDefaults {
    fn default() -> (r: Self)
        ensures
            r.video_codec@ == "libx264"@,
            r.crf == 23,
            r.preset@ == "medium"@,
            r.audio_codec@ == "aac"@,
            r.audio_bitrate@ == "128k"@,
    {
        EncoderDefaults {
            video_codec: default_video_codec(),
            crf: default_crf(),
            preset: default_preset(),
            audio_codec: default_audio_codec(),
            audio_bitrate: default_audio_bitrate(),
        }
    }
}

impl Default for Settings {
    fn default() -> (r: Self)
        ensures
            r.general.ffmpeg_path is None,
            r.general.ffprobe_path is None,
            r.general.default_output_dir@.len() == 0,
            r.general.confirm_overwrite,
            r.general.theme@ == "dark"@,
            r.general.max_concurrent_jobs == 1,
            r.general.batch_template@ == "{parent}/{stem}_{suffix}.{ext}"@,
            r.defaults.video_codec@ == "libx264"@,
            r.defaults.crf == 23,
            r.defaults.preset@ == "medium"@,
            r.defaults.audio_codec@ == "aac"@,
            r.defaults.audio_bitrate@ == "128k"@,
            r.presets@.len() == 0,
    {
        Settings {
            general: GeneralSettings::default(),
            defaults: EncoderDefaults::default(),
            presets: Vec::new(),
        }
    }
}

impl Settings {
    /// The number of jobs that may run at once: the configured one, within 1 to 8.
    pub open spec fn concurrency(self) -> int {
        let n = self.general.max_concurrent_jobs as int;
        if n < 1 {
            1
        } else if n > 8 {
            8
        } else {
            n
        }
    }

    /// Clamps the configured concurrency into 1 to 8.
    pub fn effective_concurrency(&self) -> (r: usize)
        ensures
            r == self.concurrency(),
            1 <= r <= 8,
    {
        let n: usize = self.general.max_concurrent_jobs;
        if n < 1 {
            1
        } else if n > 8 {
            8
        } else {
            n
        }
    }
}

/// A number of jobs from one to eight is taken as configured, and any other as
/// the nearest of these.
pub proof fn law_concurrency_is_as_configured(s: Settings, n: int)
    requires
        1 <= n <= 8,
    ensures
        1 <= s.concurrency() <= 8,
        s.general.max_concurrent_jobs == n ==> s.concurrency() == n,
        s.general.max_concurrent_jobs <= n ==> s.concurrency() <= n,
        s.general.max_concurrent_jobs >= n ==> s.concurrency() >= n,
{
}

} // verus!
