//! Extract audio: one audio track out of a video.
//!
//! The encoder follows the target format. Audio that already has the right
//! codec is passed through, and the command shows which of the two it does.

use vstd::prelude::*;
use crate::ffmpeg::builder::{
    chosen_output, default_output_name, operand, or_else, output_name, resolve_output,
    safe_path_arg, Command, CommandSpec,
};
use crate::ffmpeg::capabilities::CapabilityReport;
use crate::ffmpeg::probe::{is_audio, ProbeResult, StreamInfo, StreamType};
use crate::number::{dec, show_usize};
use crate::ops::fields::{
    choices, default_choice, default_selected, rows, select_row, text_row, BuildContext, Choice,
    Field, FieldContext, Row, SelectOption,
};
use crate::ops::parts::{
    caps_of, fail, form_input, input_of, need, need_encoder, probe_of, start, started,
    BuildError,
};
use crate::ops::{About, InputKind, Operation, OperationMeta};
use crate::text::{copy_text, has, join2, join3, opt_text, same};

verus! {

/// The extract-audio operation.
#[derive(Debug, Clone, Copy)]
pub struct ExtractAudioOp;

/// The audio bit rates.
pub open spec fn rate_choices() -> Seq<Choice> {
    seq![
        Choice::of("96k"@, "96k"@),
        Choice::of("128k"@, "128k"@),
        Choice::of("192k"@, "192k"@),
        Choice::of("320k"@, "320k"@),
    ]
}

/// Offers these choices.
fn offer_rate() -> (r: Vec<SelectOption>)
    ensures
        choices(r@) == rate_choices(),
{
    let v = vec![
        SelectOption::available("96k"),
        SelectOption::available("128k"),
        SelectOption::available("192k"),
        SelectOption::available("320k"),
    ];
    assert(choices(v@) =~= rate_choices());
    v
}

/// What a target format stands for: its extension, its encoder, and the codec
/// of audio that needs no re-encoding.
pub open spec fn target(format: Seq<char>) -> (Seq<char>, Seq<char>, Seq<char>) {
    if format == "mp3"@ {
        ("mp3"@, "libmp3lame"@, "mp3"@)
    } else if format == "opus"@ {
        ("opus"@, "libopus"@, "opus"@)
    } else if format == "flac"@ {
        ("flac"@, "flac"@, "flac"@)
    } else if format == "wav"@ {
        ("wav"@, "pcm_s16le"@, "pcm_s16le"@)
    } else {
        ("m4a"@, "aac"@, "aac"@)
    }
}

/// Looks a target format up.
fn target_of(format: &str) -> (r: (&'static str, &'static str, &'static str))
    ensures
        (r.0@, r.1@, r.2@) == target(format@),
{
    if same(format, "mp3") {
        ("mp3", "libmp3lame", "mp3")
    } else if same(format, "opus") {
        ("opus", "libopus", "opus")
    } else if same(format, "flac") {
        ("flac", "flac", "flac")
    } else if same(format, "wav") {
        ("wav", "pcm_s16le", "pcm_s16le")
    } else {
        ("m4a", "aac", "aac")
    }
}

/// Whether some target format takes the probed audio as it is.
pub open spec fn audio_copyable(probe: Option<ProbeResult>) -> bool {
    match probe {
        Some(p) => match p.acodec() {
            Some(c) => c == "mp3"@ || c == "aac"@ || c == "opus"@ || c == "flac"@ || c
                == "pcm_s16le"@,
            None => false,
        },
        None => false,
    }
}

/// Tests whether some target format takes the probed audio as it is.
fn can_copy(probe: Option<&ProbeResult>) -> (r: bool)
    ensures
        r == audio_copyable(probe_of(probe)),
{
    match probe {
        Some(p) => match p.audio_codec() {
            Some(c) => same(c, "mp3") || same(c, "aac") || same(c, "opus") || same(c, "flac")
                || same(c, "pcm_s16le"),
            None => false,
        },
        None => false,
    }
}

/// The target formats, and copying where the probe shows that it is possible.
pub open spec fn format_choices(
    probe: Option<ProbeResult>,
    caps: Option<CapabilityReport>,
) -> Seq<Choice> {
    let all = seq![
        Choice::of("MP3 (libmp3lame)"@, "mp3"@),
        Choice::of("M4A (AAC)"@, "m4a"@),
        Choice::of("Opus"@, "opus"@),
        Choice::of("FLAC (lossless)"@, "flac"@),
        Choice::of("WAV (uncompressed)"@, "wav"@),
    ];
    let usable = need(need(need(need(need(all, "mp3"@, "libmp3lame"@, caps), "m4a"@, "aac"@, caps), "opus"@, "libopus"@, caps), "flac"@, "flac"@, caps), "wav"@, "pcm_s16le"@, caps);
    if audio_copyable(probe) {
        usable.push(Choice::of("Copy original audio (no re-encode)"@, "copy"@))
    } else {
        usable
    }
}

/// Offers the target formats.
fn offer_formats(probe: Option<&ProbeResult>, caps: Option<&CapabilityReport>) -> (r: Vec<
    SelectOption,
>)
    ensures
        choices(r@) == format_choices(probe_of(probe), caps_of(caps)),
{
    let mut v = vec![
        SelectOption::labeled("MP3 (libmp3lame)", "mp3"),
        SelectOption::labeled("M4A (AAC)", "m4a"),
        SelectOption::labeled("Opus", "opus"),
        SelectOption::labeled("FLAC (lossless)", "flac"),
        SelectOption::labeled("WAV (uncompressed)", "wav"),
    ];
    assert(choices(v@) =~= seq![
        Choice::of("MP3 (libmp3lame)"@, "mp3"@),
        Choice::of("M4A (AAC)"@, "m4a"@),
        Choice::of("Opus"@, "opus"@),
        Choice::of("FLAC (lossless)"@, "flac"@),
        Choice::of("WAV (uncompressed)"@, "wav"@),
    ]);
    need_encoder(&mut v, "mp3", "libmp3lame", caps);
    need_encoder(&mut v, "m4a", "aac", caps);
    need_encoder(&mut v, "opus", "libopus", caps);
    need_encoder(&mut v, "flac", "flac", caps);
    need_encoder(&mut v, "wav", "pcm_s16le", caps);
    if can_copy(probe) {
        let ghost before = choices(v@);
        v.push(SelectOption::labeled("Copy original audio (no re-encode)", "copy"));
        assert(choices(v@) =~= before.push(
            Choice::of("Copy original audio (no re-encode)"@, "copy"@),
        ));
    }
    v
}

/// The choice for the audio stream `s`, which `n` audio streams precede.
pub open spec fn track(n: nat, s: StreamInfo) -> Choice {
    let lang = match s.language {
        Some(l) => ", "@ + l@,
        None => ""@,
    };
    Choice::of(
        "Track "@ + dec(n + 1) + " ("@ + or_else(opt_text(s.codec_name), "?"@) + lang + ")"@,
        dec(n),
    )
}

/// One choice per audio stream.
pub open spec fn audio_tracks(v: Seq<StreamInfo>) -> Seq<Choice>
    decreases v.len(),
{
    if v.len() == 0 {
        Seq::empty()
    } else {
        let before = audio_tracks(v.drop_last());
        if is_audio(v.last()) {
            before.push(track(before.len(), v.last()))
        } else {
            before
        }
    }
}

/// The tracks: those of the probe, one default where nothing is probed, and a
/// disabled notice where the file has no audio.
pub open spec fn track_choices(probe: Option<ProbeResult>) -> Seq<Choice> {
    match probe {
        Some(p) => {
            let tracks = audio_tracks(p.streams@);
            if tracks.len() == 0 {
                seq![
                    Choice {
                        label: "No audio tracks"@,
                        value: ""@,
                        enabled: false,
                        reason: Some("this file has no audio streams"@),
                    },
                ]
            } else {
                tracks
            }
        },
        None => seq![Choice::of("Default audio track"@, "0"@)],
    }
}

/// Makes the choice for one audio stream.
fn offer_track(n: usize, s: &StreamInfo) -> (r: SelectOption)
    requires
        n < usize::MAX,
    ensures
        r@ == track(n as nat, *s),
{
    let codec = match &s.codec_name {
        Some(c) => copy_text(c.as_str()),
        None => copy_text("?"),
    };
    let lang = match &s.language {
        Some(l) => join2(", ", l.as_str()),
        None => copy_text(""),
    };
    let head = join3("Track ", show_usize(n + 1).as_str(), " (");
    let body = join3(head.as_str(), codec.as_str(), lang.as_str());
    SelectOption::labeled(join2(body.as_str(), ")").as_str(), show_usize(n).as_str())
}

/// Offers the tracks.
fn offer_tracks(probe: Option<&ProbeResult>) -> (r: Vec<SelectOption>)
    ensures
        choices(r@) == track_choices(probe_of(probe)),
{
    let p = match probe {
        Some(p) => p,
        None => {
            let v = vec![SelectOption::labeled("Default audio track", "0")];
            assert(choices(v@) =~= seq![Choice::of("Default audio track"@, "0"@)]);
            return v;
        },
    };
    let mut v: Vec<SelectOption> = Vec::new();
    let mut i: usize = 0;
    assert(choices(v@) =~= audio_tracks(p.streams@.take(0)));
    while i < p.streams.len()
        invariant
            i <= p.streams@.len(),
            v@.len() <= i,
            choices(v@) == audio_tracks(p.streams@.take(i as int)),
        decreases p.streams@.len() - i,
    {
        let ghost before = choices(v@);
        proof {
            let upto = p.streams@.take(i + 1);
            assert(upto.drop_last() =~= p.streams@.take(i as int));
            assert(upto.last() == p.streams@[i as int]);
        }
        if matches!(&p.streams[i].codec_type, Some(StreamType::Audio)) {
            let n: usize = v.len();
            v.push(offer_track(n, &p.streams[i]));
            assert(choices(v@) =~= before.push(track(n as nat, p.streams@[i as int])));
        }
        i = i + 1;
    }
    assert(p.streams@.take(i as int) =~= p.streams@);
    if v.len() == 0 {
        v.push(
            SelectOption::unavailable("No audio tracks", "", "this file has no audio streams"),
        );
        assert(choices(v@) =~= track_choices(probe_of(probe)));
    }
    v
}

pub const FORMAT_HELP: &'static str = "Output audio format; the encoder follows the container. Copy passes matching source audio through untouched.";

pub const TRACK_HELP: &'static str = "Which audio stream to extract, mapped with -map 0:a:N.";

pub const BITRATE_HELP: &'static str = "Audio bitrate. Ignored for FLAC/WAV (lossless) and for stream copy.";

pub const OUTPUT_HELP: &'static str = "Output path.";

/// The form.
pub open spec fn extract_audio_form(probe: Option<ProbeResult>, caps: Option<CapabilityReport>) -> Seq<Row> {
    let input = form_input(probe, "input.mp4"@);
    seq![
        select_row(
            "format"@,
            "Format"@,
            format_choices(probe, caps),
            default_choice(format_choices(probe, caps)),
            FORMAT_HELP@,
        ),
        select_row(
            "track"@,
            "Audio track"@,
            track_choices(probe),
            0,
            TRACK_HELP@,
        ),
        select_row(
            "bitrate"@,
            "Bitrate"@,
            rate_choices(),
            1,
            BITRATE_HELP@,
        ),
        text_row("output"@, "Output"@, output_name(input, "audio"@, "m4a"@), OUTPUT_HELP@),
    ]
}

/// The audio flags: a copy when it is asked for or the source already fits,
/// else an encoder, with a bit rate where the encoder is lossy.
pub open spec fn extract_codec(c: Command, ctx: BuildContext) -> Command {
    let format = ctx.text_at("format"@, "m4a"@);
    let (_ext, encoder, source) = target(format);
    let matching = match ctx.probed() {
        Some(p) => p.acodec() == Some(source),
        None => false,
    };
    if format == "copy"@ || matching {
        c.flag_value(
            "-c:a"@,
            "copy"@,
            "Audio stream copy: the source codec already matches — no re-encode."@,
        )
    } else {
        let coded = c.flag_value("-c:a"@, encoder, "Encode audio with "@ + encoder + "."@);
        if encoder == "flac"@ || encoder == "pcm_s16le"@ {
            coded
        } else {
            coded.flag_value("-b:a"@, ctx.text_at("bitrate"@, "128k"@), "Audio bitrate."@)
        }
    }
}

/// The command. A file that is known to have no audio is refused.
pub open spec fn extract_audio_command(ctx: BuildContext) -> Result<Command, Seq<char>> {
    if ctx.inputs@.len() == 0 {
        Err("extract-audio needs an input file"@)
    } else if ctx.probed() is Some && !ctx.probed()->0.sounded() {
        Err("this file has no audio streams to extract"@)
    } else {
        let input = ctx.inputs@[0]@;
        let output = chosen_output(
            ctx.output_text(),
            output_name(input, "audio"@, target(ctx.text_at("format"@, "m4a"@)).0),
        );
        let mapped = started(ctx.program_text(), input).flag_value(
            "-map"@,
            "0:a:"@ + ctx.text_at("track"@, "0"@),
            "Select the audio stream to extract."@,
        );
        Ok(extract_codec(mapped, ctx).arg(operand(output)))
    }
}

impl Operation for ExtractAudioOp {
    open spec fn about(&self) -> About {
        About {
            id: "extract-audio"@,
            name: "Extract audio"@,
            description: "Pull the audio track out (MP3, AAC, Opus, …)"@,
            accepts: InputKind::Video,
        }
    }

    open spec fn form(&self, probe: Option<ProbeResult>, caps: Option<CapabilityReport>) -> Seq<Row> {
        extract_audio_form(probe, caps)
    }

    open spec fn command(&self, ctx: BuildContext) -> Result<Command, Seq<char>> {
        extract_audio_command(ctx)
    }

    fn meta(&self) -> (r: OperationMeta) {
        OperationMeta {
            id: "extract-audio",
            name: "Extract audio",
            description: "Pull the audio track out (MP3, AAC, Opus, …)",
            accepts: InputKind::Video,
        }
    }

    fn fields(&self, ctx: &FieldContext) -> (r: Vec<Field>) {
        let formats = offer_formats(ctx.probe, ctx.caps);
        let format = default_selected(formats.as_slice());
        let input = input_of(ctx.probe, "input.mp4");
        let output = default_output_name(input.as_str(), "audio", "m4a");
        let out = vec![
            Field::select("format", "Format", formats, format, FORMAT_HELP),
            Field::select("track", "Audio track", offer_tracks(ctx.probe), 0, TRACK_HELP),
            Field::select("bitrate", "Bitrate", offer_rate(), 1, BITRATE_HELP),
            Field::text("output", "Output", output.as_str(), OUTPUT_HELP),
        ];
        assert(rows(out@) =~= self.form(probe_of(ctx.probe), caps_of(ctx.caps)));
        out
    }

    fn build(&self, ctx: &BuildContext) -> (r: Result<CommandSpec, BuildError>) {
        let input = match ctx.first_input() {
            Some(p) => p,
            None => return Err(fail("extract-audio needs an input file")),
        };
        if let Some(p) = ctx.probe {
            if !p.has_audio() {
                return Err(fail("this file has no audio streams to extract"));
            }
        }
        let format = ctx.get_str("format", "m4a");
        let (ext, encoder, source) = target_of(format.as_str());
        let mut spec = start(ctx.program().as_str(), input.as_str());
        let track = join2("0:a:", ctx.get_str("track", "0").as_str());
        spec.flag_value("-map", track.as_str(), "Select the audio stream to extract.");
        let matching = match ctx.probe {
            Some(p) => match p.audio_codec() {
                Some(c) => same(c, source),
                None => false,
            },
            None => false,
        };
        if same(format.as_str(), "copy") || matching {
            spec.flag_value(
                "-c:a",
                "copy",
                "Audio stream copy: the source codec already matches — no re-encode.",
            );
        } else {
            let why = join3("Encode audio with ", encoder, ".");
            spec.flag_value("-c:a", encoder, why.as_str());
            if !same(encoder, "flac") && !same(encoder, "pcm_s16le") {
                spec.flag_value("-b:a", ctx.get_str("bitrate", "128k").as_str(), "Audio bitrate.");
            }
        }
        let default = default_output_name(input.as_str(), "audio", ext);
        let output = resolve_output(ctx.output, default);
        spec.arg(safe_path_arg(output.as_str()).as_str());
        Ok(spec)
    }
}

} // verus!
