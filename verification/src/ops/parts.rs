//! Pieces that several operations share: form rows, and the beginning of a
//! command.

use vstd::prelude::*;
use crate::ffmpeg::builder::{
    container, input_extension, operand, push_globals, safe_path_arg, Command, CommandSpec,
};
use crate::ffmpeg::capabilities::CapabilityReport;
use crate::ffmpeg::probe::{odd_sized, ProbeResult};
use crate::ops::fields::{
    choices, gate_by_capability, gated, marks, slider_row, Choice, Field, Row, SelectOption,
};
use crate::text::copy_text;

verus! {

/// Why a command could not be built.
#[derive(Debug, Clone, PartialEq, Eq)]
pub struct BuildError {
    /// What to tell the user.
    pub message: String,
}

/// A failure with the given message.
pub fn fail(message: &str) -> (r: BuildError)
    ensures
        r.message@ == message@,
{
    BuildError { message: copy_text(message) }
}

/// Whether a build's result is the command or the message that it should be.
pub open spec fn builds(r: Result<CommandSpec, BuildError>, want: Result<Command, Seq<char>>) -> bool {
    match r {
        Ok(spec) => want == Ok::<Command, Seq<char>>(spec@),
        Err(e) => want == Err::<Command, Seq<char>>(e.message@),
    }
}

/// What is known of the probe, by value.
pub open spec fn probe_of(o: Option<&ProbeResult>) -> Option<ProbeResult> {
    match o {
        Some(p) => Some(*p),
        None => None,
    }
}

/// What is known of the capabilities, by value.
pub open spec fn caps_of(o: Option<&CapabilityReport>) -> Option<CapabilityReport> {
    match o {
        Some(c) => Some(*c),
        None => None,
    }
}

/// Choices with one greyed out when the build is known to lack an encoder.
pub open spec fn need(
    v: Seq<Choice>,
    value: Seq<char>,
    encoder: Seq<char>,
    caps: Option<CapabilityReport>,
) -> Seq<Choice> {
    gated(
        v,
        value,
        match caps {
            Some(c) => c.encoders@.contains(encoder),
            None => false,
        },
        caps is Some,
    )
}

/// Greys out a choice when the build is known to lack an encoder.
pub fn need_encoder(
    options: &mut Vec<SelectOption>,
    value: &str,
    encoder: &str,
    caps: Option<&CapabilityReport>,
)
    ensures
        choices(final(options)@) == need(choices(old(options)@), value@, encoder@, caps_of(caps)),
        final(options)@.len() == old(options)@.len(),
{
    let has = match caps {
        Some(c) => c.has_encoder(encoder),
        None => false,
    };
    gate_by_capability(options, value, has, caps.is_some());
}

/// The software video encoders.
pub open spec fn video_codecs(caps: Option<CapabilityReport>) -> Seq<Choice> {
    need(
        need(
            seq![
                Choice::of("H.264 (libx264)"@, "libx264"@),
                Choice::of("H.265 (libx265)"@, "libx265"@),
            ],
            "libx264"@,
            "libx264"@,
            caps,
        ),
        "libx265"@,
        "libx265"@,
        caps,
    )
}

/// Offers the software video encoders.
pub fn offer_video_codecs(caps: Option<&CapabilityReport>) -> (r: Vec<SelectOption>)
    ensures
        choices(r@) == video_codecs(caps_of(caps)),
{
    let mut v = vec![
        SelectOption::labeled("H.264 (libx264)", "libx264"),
        SelectOption::labeled("H.265 (libx265)", "libx265"),
    ];
    assert(choices(v@) =~= seq![
        Choice::of("H.264 (libx264)"@, "libx264"@),
        Choice::of("H.265 (libx265)"@, "libx265"@),
    ]);
    need_encoder(&mut v, "libx264", "libx264", caps);
    need_encoder(&mut v, "libx265", "libx265", caps);
    v
}

/// The audio encoders of video files, and copying.
pub open spec fn audio_codecs(caps: Option<CapabilityReport>) -> Seq<Choice> {
    need(
        need(
            seq![
                Choice::of("AAC"@, "aac"@),
                Choice::of("Opus (libopus)"@, "libopus"@),
                Choice::of("Copy audio stream"@, "copy"@),
            ],
            "aac"@,
            "aac"@,
            caps,
        ),
        "libopus"@,
        "libopus"@,
        caps,
    )
}

/// Offers the audio encoders of video files.
pub fn offer_audio_codecs(caps: Option<&CapabilityReport>) -> (r: Vec<SelectOption>)
    ensures
        choices(r@) == audio_codecs(caps_of(caps)),
{
    let mut v = vec![
        SelectOption::labeled("AAC", "aac"),
        SelectOption::labeled("Opus (libopus)", "libopus"),
        SelectOption::labeled("Copy audio stream", "copy"),
    ];
    assert(choices(v@) =~= seq![
        Choice::of("AAC"@, "aac"@),
        Choice::of("Opus (libopus)"@, "libopus"@),
        Choice::of("Copy audio stream"@, "copy"@),
    ]);
    need_encoder(&mut v, "aac", "aac", caps);
    need_encoder(&mut v, "libopus", "libopus", caps);
    v
}

/// The quality slider of the x264 family.
pub open spec fn crf_row(help: Seq<char>) -> Row {
    slider_row(
        "crf"@,
        "Quality (CRF)"@,
        (0, 23, 51),
        seq![(18int, "visually lossless"@), (23int, "x264 default"@), (28int, "noticeably lossy"@)],
        "smaller file ◂──▸ better quality"@,
        help,
    )
}

/// Makes the quality slider.
pub fn crf_field(help: &str) -> (r: Field)
    ensures
        r@ == crf_row(help@),
{
    let landmarks: Vec<(i64, String)> = vec![
        (18, copy_text("visually lossless")),
        (23, copy_text("x264 default")),
        (28, copy_text("noticeably lossy")),
    ];
    assert(marks(landmarks@) =~= seq![
        (18int, "visually lossless"@),
        (23int, "x264 default"@),
        (28int, "noticeably lossy"@),
    ]);
    Field::slider(
        "crf",
        "Quality (CRF)",
        (0, 23, 51),
        landmarks,
        "smaller file ◂──▸ better quality",
        help,
    )
}

/// The input that a form's default output follows: the probed one, or a
/// stand-in.
pub open spec fn form_input(probe: Option<ProbeResult>, stand_in: Seq<char>) -> Seq<char> {
    match probe {
        Some(p) => p.path@,
        None => stand_in,
    }
}

/// The input that a form's default output follows.
pub fn input_of(probe: Option<&ProbeResult>, stand_in: &str) -> (r: String)
    ensures
        r@ == form_input(probe_of(probe), stand_in@),
{
    match probe {
        Some(p) => copy_text(p.path.as_str()),
        None => copy_text(stand_in),
    }
}

/// An input's extension in lower case, or `mp4`.
pub open spec fn kept_extension(input: Seq<char>) -> Seq<char> {
    if container(input).len() == 0 {
        "mp4"@
    } else {
        container(input)
    }
}

/// An input's extension, or `mp4`.
pub fn keep_extension(input: &str) -> (r: String)
    ensures
        r@ == kept_extension(input@),
{
    let ext = input_extension(input);
    if ext.as_str().is_empty() {
        copy_text("mp4")
    } else {
        ext
    }
}

/// The beginning of most commands: the program, the common flags, the input.
pub open spec fn started(program: Seq<char>, input: Seq<char>) -> Command {
    Command::new(program).globals(true).arg("-i"@).arg(operand(input))
}

/// Begins a command that reads one input.
pub fn start(program: &str, input: &str) -> (r: CommandSpec)
    ensures
        r@ == started(program@, input@),
{
    let mut spec = CommandSpec::new(program);
    push_globals(&mut spec, true);
    spec.arg("-i");
    spec.arg(safe_path_arg(input).as_str());
    spec
}

/// The scale that makes an odd-sized picture even, when it is needed.
pub open spec fn even_scale(probe: Option<ProbeResult>) -> Option<Seq<char>> {
    if odd_sized(probe) {
        Some("trunc(iw/2)*2:trunc(ih/2)*2"@)
    } else {
        None
    }
}

/// The scale that shaves an odd-sized picture to even dimensions; none when
/// the dimensions are even or unknown.
pub fn even_dims_filter(probe: Option<&ProbeResult>) -> (r: Option<&'static str>)
    ensures
        match r {
            Some(s) => even_scale(probe_of(probe)) == Some(s@),
            None => even_scale(probe_of(probe)) is None,
        },
{
    match probe {
        Some(p) => match p.video_stream() {
            Some(v) => {
                let odd_width = match v.width {
                    Some(w) => w % 2 == 1,
                    None => false,
                };
                let odd_height = match v.height {
                    Some(h) => h % 2 == 1,
                    None => false,
                };
                if odd_width || odd_height {
                    Some("trunc(iw/2)*2:trunc(ih/2)*2")
                } else {
                    None
                }
            },
            None => None,
        },
        None => None,
    }
}

} // verus!
