//! Compress: smaller files, by quality first.
//!
//! When nothing about the video stream would change, the form offers to copy
//! it, and the command always shows which of the two it does.

use vstd::prelude::*;
use crate::ffmpeg::builder::{
    chosen_output, default_output_name, operand, output_name, resolve_output, safe_path_arg,
    Command, CommandSpec,
};
use crate::ffmpeg::capabilities::CapabilityReport;
use crate::ffmpeg::probe::{first_video, ProbeResult};
use crate::number::{dec, dec_int, show, show_int};
use crate::ops::fields::{
    choices, default_choice, default_selected, rows, select_row, text_row, toggle_row,
    BuildContext, Choice, Field, FieldContext, Row, SelectOption,
};
use crate::ops::parts::{
    audio_codecs, caps_of, crf_field, crf_row, even_dims_filter, even_scale, fail, form_input,
    input_of, keep_extension, kept_extension, need, need_encoder, offer_audio_codecs, probe_of,
    start, started, BuildError,
};
use crate::ops::{About, InputKind, Operation, OperationMeta};
use crate::text::{copy_text, has, join2, join3, same};

verus! {

/// The compress operation.
#[derive(Debug, Clone, Copy)]
pub struct CompressOp;

/// The video encoders, with the GPU one.
pub open spec fn compress_codecs(caps: Option<CapabilityReport>) -> Seq<Choice> {
    let all = seq![
        Choice::of("H.264 (libx264)"@, "libx264"@),
        Choice::of("H.265 (libx265)"@, "libx265"@),
        Choice::of("H.264 NVENC (GPU, faster but larger)"@, "h264_nvenc"@),
    ];
    need(
        need(need(all, "libx264"@, "libx264"@, caps), "libx265"@, "libx265"@, caps),
        "h264_nvenc"@,
        "h264_nvenc"@,
        caps,
    )
}

/// Offers the video encoders.
fn offer_codecs(caps: Option<&CapabilityReport>) -> (r: Vec<SelectOption>)
    ensures
        choices(r@) == compress_codecs(caps_of(caps)),
{
    let mut v = vec![
        SelectOption::labeled("H.264 (libx264)", "libx264"),
        SelectOption::labeled("H.265 (libx265)", "libx265"),
        SelectOption::labeled("H.264 NVENC (GPU, faster but larger)", "h264_nvenc"),
    ];
    assert(choices(v@) =~= seq![
        Choice::of("H.264 (libx264)"@, "libx264"@),
        Choice::of("H.265 (libx265)"@, "libx265"@),
        Choice::of("H.264 NVENC (GPU, faster but larger)"@, "h264_nvenc"@),
    ]);
    need_encoder(&mut v, "libx264", "libx264", caps);
    need_encoder(&mut v, "libx265", "libx265", caps);
    need_encoder(&mut v, "h264_nvenc", "h264_nvenc", caps);
    v
}

/// Whether the video can be passed through: the probe shows a codec of the
/// family that this operation encodes to.
pub open spec fn copyable(probe: Option<ProbeResult>) -> bool {
    match probe {
        Some(p) => match p.vcodec() {
            Some(c) => c == "libx264"@ || c == "libx265"@ || c == "h264"@ || c == "hevc"@,
            None => false,
        },
        None => false,
    }
}

/// Tests whether the video can be passed through.
fn can_copy(probe: Option<&ProbeResult>) -> (r: bool)
    ensures
        r == copyable(probe_of(probe)),
{
    match probe {
        Some(p) => match p.video_codec() {
            Some(c) => same(c, "libx264") || same(c, "libx265") || same(c, "h264") || same(
                c,
                "hevc",
            ),
            None => false,
        },
        None => false,
    }
}

/// The encoder presets.
pub open spec fn preset_choices() -> Seq<Choice> {
    seq![
        Choice::of("ultrafast"@, "ultrafast"@),
        Choice::of("veryfast"@, "veryfast"@),
        Choice::of("faster"@, "faster"@),
        Choice::of("fast"@, "fast"@),
        Choice::of("medium"@, "medium"@),
        Choice::of("slow"@, "slow"@),
        Choice::of("slower"@, "slower"@),
        Choice::of("veryslow"@, "veryslow"@),
    ]
}

/// Offers these choices.
fn offer_preset() -> (r: Vec<SelectOption>)
    ensures
        choices(r@) == preset_choices(),
{
    let v = vec![
        SelectOption::available("ultrafast"),
        SelectOption::available("veryfast"),
        SelectOption::available("faster"),
        SelectOption::available("fast"),
        SelectOption::available("medium"),
        SelectOption::available("slow"),
        SelectOption::available("slower"),
        SelectOption::available("veryslow"),
    ];
    assert(choices(v@) =~= preset_choices());
    v
}

/// The audio bit rates.
pub open spec fn bitrate_choices() -> Seq<Choice> {
    seq![
        Choice::of("96k"@, "96k"@),
        Choice::of("128k"@, "128k"@),
        Choice::of("160k"@, "160k"@),
        Choice::of("192k"@, "192k"@),
    ]
}

/// Offers these choices.
fn offer_bitrate() -> (r: Vec<SelectOption>)
    ensures
        choices(r@) == bitrate_choices(),
{
    let v = vec![
        SelectOption::available("96k"),
        SelectOption::available("128k"),
        SelectOption::available("160k"),
        SelectOption::available("192k"),
    ];
    assert(choices(v@) =~= bitrate_choices());
    v
}

/// The resolutions.
pub open spec fn resolution_choices() -> Seq<Choice> {
    seq![
        Choice::of("Keep original"@, ""@),
        Choice::of("1080p"@, "1920:-2"@),
        Choice::of("720p"@, "1280:-2"@),
        Choice::of("480p"@, "854:-2"@),
    ]
}

/// Offers these choices.
fn offer_resolution() -> (r: Vec<SelectOption>)
    ensures
        choices(r@) == resolution_choices(),
{
    let v = vec![
        SelectOption::labeled("Keep original", ""),
        SelectOption::labeled("1080p", "1920:-2"),
        SelectOption::labeled("720p", "1280:-2"),
        SelectOption::labeled("480p", "854:-2"),
    ];
    assert(choices(v@) =~= resolution_choices());
    v
}

pub const VIDEO_CODEC_HELP: &'static str = "Encoder for the video stream. libx264 is the safe default; libx265 is ~25% smaller but slower; NVENC uses your GPU (much faster, larger files).";

pub const VIDEO_MODE_HELP: &'static str = "Copy passes the video through untouched — only possible when the codec already matches and no scaling is applied. Watch the preview switch between -c:v libx264 and -c:v copy.";

pub const CRF_HELP: &'static str = "Constant Rate Factor: quality-targeted encoding. Lower means better quality and a larger file. Only applies when re-encoding (ignored with stream copy).";

pub const PRESET_HELP: &'static str = "Speed vs compression tradeoff. Slower squeezes more quality per byte but takes longer. Ignored by NVENC (it has its own presets) and by stream copy.";

pub const AUDIO_CODEC_HELP: &'static str = "Audio encoder. Copy avoids re-encoding when the source audio is already fine.";

pub const AUDIO_BITRATE_HELP: &'static str = "Audio bitrate. 128k AAC is transparent for most listening; ignored with audio stream copy.";

pub const RESOLUTION_HELP: &'static str = "Downscale with -vf scale. The -2 keeps the aspect ratio with even dimensions (this codec family refuses odd heights). Scaling forces a re-encode.";

pub const OUTPUT_HELP: &'static str = "Output path. ffkit checks existence and asks before overwriting, then passes -y so ffmpeg never blocks on its own prompt.";

/// The form.
pub open spec fn compress_form(probe: Option<ProbeResult>, caps: Option<CapabilityReport>) -> Seq<Row> {
    let input = form_input(probe, "input.mp4"@);
    seq![
        select_row(
            "video_codec"@,
            "Video codec"@,
            compress_codecs(caps),
            default_choice(compress_codecs(caps)),
            VIDEO_CODEC_HELP@,
        ),
        toggle_row(
            "video_mode"@,
            "Video"@,
            "Re-encode"@,
            "Copy stream (faster, no quality loss)"@,
            if copyable(probe) {
                1
            } else {
                0
            },
            VIDEO_MODE_HELP@,
        ),
        crf_row(CRF_HELP@),
        select_row(
            "preset"@,
            "Preset"@,
            preset_choices(),
            4,
            PRESET_HELP@,
        ),
        select_row(
            "audio_codec"@,
            "Audio"@,
            audio_codecs(caps),
            default_choice(audio_codecs(caps)),
            AUDIO_CODEC_HELP@,
        ),
        select_row(
            "audio_bitrate"@,
            "Audio bitrate"@,
            bitrate_choices(),
            1,
            AUDIO_BITRATE_HELP@,
        ),
        select_row(
            "resolution"@,
            "Resolution"@,
            resolution_choices(),
            0,
            RESOLUTION_HELP@,
        ),
        text_row("output"@, "Output"@, output_name(input, "compressed"@, kept_extension(input)), OUTPUT_HELP@),
    ]
}

/// The picture size of a probed input, as `WxH`.
pub open spec fn dims_text(probe: Option<ProbeResult>) -> Seq<char> {
    match probe {
        Some(p) => if p.videoed() {
            let v = p.streams@[first_video(p.streams@)];
            dec(
                match v.width {
                    Some(w) => w as nat,
                    None => 0,
                },
            ) + "x"@ + dec(
                match v.height {
                    Some(h) => h as nat,
                    None => 0,
                },
            )
        } else {
            "odd-sized"@
        },
        None => "odd-sized"@,
    }
}

/// The video flags: a copy, or an encoder with its quality and the scaling.
pub open spec fn compress_video(c: Command, ctx: BuildContext) -> Command {
    let vcodec = ctx.text_at("video_codec"@, "libx264"@);
    let scale = ctx.text_at("resolution"@, ""@);
    let crf = dec_int(ctx.int_at("crf"@, 23));
    if ctx.toggle_at("video_mode"@, 0) == 1 {
        c.flag_value("-c:v"@, "copy"@, COPY_WHY@)
    } else {
        let coded = c.flag_value("-c:v"@, vcodec, "Re-encode the video with "@ + vcodec + "."@);
        let rated = if vcodec == "h264_nvenc"@ {
            coded.flag_value(
                "-cq"@,
                crf,
                "Constant-quality level for NVENC (its equivalent of CRF)."@,
            )
        } else {
            coded.flag_value(
                "-crf"@,
                crf,
                "Quality level — lower means better quality and a larger file."@,
            ).flag_value(
                "-preset"@,
                ctx.text_at("preset"@, "medium"@),
                "Speed vs compression tradeoff for the software encoder."@,
            )
        };
        if scale.len() > 0 {
            rated.flag_value(
                "-vf"@,
                "scale="@ + scale,
                "Downscale the video, preserving aspect ratio with even dimensions."@,
            )
        } else {
            match even_scale(ctx.probed()) {
                Some(even) => rated.flag_value(
                    "-vf"@,
                    "scale="@ + even,
                    "Source is "@ + dims_text(ctx.probed())
                        + ", which these encoders refuse — shave one pixel edge to even dimensions."@,
                ),
                None => rated,
            }
        }
    }
}

/// The audio flags: a copy, or an encoder with its bit rate.
pub open spec fn compress_audio(c: Command, ctx: BuildContext) -> Command {
    let acodec = ctx.text_at("audio_codec"@, "aac"@);
    if acodec == "copy"@ {
        c.flag_value("-c:a"@, "copy"@, "Audio stream copy: no re-encode, no quality loss."@)
    } else {
        c.flag_value(
            "-c:a"@,
            acodec,
            "Re-encode the audio with "@ + acodec + "."@,
        ).flag_value("-b:a"@, ctx.text_at("audio_bitrate"@, "128k"@), "Audio bitrate."@)
    }
}

/// The command.
pub open spec fn compress_command(ctx: BuildContext) -> Result<Command, Seq<char>> {
    if ctx.inputs@.len() == 0 {
        Err("compress needs an input file"@)
    } else {
        let input = ctx.inputs@[0]@;
        let output = chosen_output(
            ctx.output_text(),
            output_name(input, "compressed"@, kept_extension(input)),
        );
        Ok(
            compress_audio(compress_video(started(ctx.program_text(), input), ctx), ctx).arg(
                operand(output),
            ),
        )
    }
}

pub const COPY_WHY: &'static str = "Stream copy: the video is passed through without re-encoding — much faster, zero quality loss.";

/// Renders the picture size of a probed input.
fn show_dims(probe: Option<&ProbeResult>) -> (r: String)
    ensures
        r@ == dims_text(probe_of(probe)),
{
    match probe {
        Some(p) => match p.video_stream() {
            Some(v) => {
                let w: u32 = match v.width {
                    Some(w) => w,
                    None => 0,
                };
                let h: u32 = match v.height {
                    Some(h) => h,
                    None => 0,
                };
                join3(show(w as u128).as_str(), "x", show(h as u128).as_str())
            },
            None => copy_text("odd-sized"),
        },
        None => copy_text("odd-sized"),
    }
}

/// Pushes the video flags.
fn push_video(spec: &mut CommandSpec, ctx: &BuildContext)
    ensures
        final(spec)@ == compress_video(old(spec)@, *ctx),
{
    let vcodec = ctx.get_str("video_codec", "libx264");
    let scale = ctx.get_str("resolution", "");
    if ctx.get_toggle("video_mode", 0) == 1 {
        spec.flag_value("-c:v", "copy", COPY_WHY);
        return;
    }
    let why = join3("Re-encode the video with ", vcodec.as_str(), ".");
    spec.flag_value("-c:v", vcodec.as_str(), why.as_str());
    let crf = show_int(ctx.get_int("crf", 23));
    if same(vcodec.as_str(), "h264_nvenc") {
        // NVENC has a constant-quality mode in place of CRF: the same slider
        // under its own flag.
        spec.flag_value(
            "-cq",
            crf.as_str(),
            "Constant-quality level for NVENC (its equivalent of CRF).",
        );
    } else {
        spec.flag_value(
            "-crf",
            crf.as_str(),
            "Quality level — lower means better quality and a larger file.",
        );
        spec.flag_value(
            "-preset",
            ctx.get_str("preset", "medium").as_str(),
            "Speed vs compression tradeoff for the software encoder.",
        );
    }
    if !scale.as_str().is_empty() {
        spec.flag_value(
            "-vf",
            join2("scale=", scale.as_str()).as_str(),
            "Downscale the video, preserving aspect ratio with even dimensions.",
        );
    } else if let Some(even) = even_dims_filter(ctx.probe) {
        // These encoders refuse odd sizes (phone video, screen recordings):
        // shave the odd edge.
        let dims = show_dims(ctx.probe);
        let why = join3(
            "Source is ",
            dims.as_str(),
            ", which these encoders refuse — shave one pixel edge to even dimensions.",
        );
        spec.flag_value("-vf", join2("scale=", even).as_str(), why.as_str());
    }
}

/// Pushes the audio flags.
fn push_audio(spec: &mut CommandSpec, ctx: &BuildContext)
    ensures
        final(spec)@ == compress_audio(old(spec)@, *ctx),
{
    let acodec = ctx.get_str("audio_codec", "aac");
    if same(acodec.as_str(), "copy") {
        spec.flag_value("-c:a", "copy", "Audio stream copy: no re-encode, no quality loss.");
    } else {
        let why = join3("Re-encode the audio with ", acodec.as_str(), ".");
        spec.flag_value("-c:a", acodec.as_str(), why.as_str());
        spec.flag_value("-b:a", ctx.get_str("audio_bitrate", "128k").as_str(), "Audio bitrate.");
    }
}

impl Operation for CompressOp {
    open spec fn about(&self) -> About {
        About {
            id: "compress"@,
            name: "Compress video"@,
            description: "Shrink file size with a quality slider (CRF)"@,
            accepts: InputKind::Video,
        }
    }

    open spec fn form(&self, probe: Option<ProbeResult>, caps: Option<CapabilityReport>) -> Seq<Row> {
        compress_form(probe, caps)
    }

    open spec fn command(&self, ctx: BuildContext) -> Result<Command, Seq<char>> {
        compress_command(ctx)
    }

    fn meta(&self) -> (r: OperationMeta) {
        OperationMeta {
            id: "compress",
            name: "Compress video",
            description: "Shrink file size with a quality slider (CRF)",
            accepts: InputKind::Video,
        }
    }

    fn fields(&self, ctx: &FieldContext) -> (r: Vec<Field>) {
        let codecs = offer_codecs(ctx.caps);
        let codec = default_selected(codecs.as_slice());
        let mode: usize = if can_copy(ctx.probe) {
            1
        } else {
            0
        };
        let audio = offer_audio_codecs(ctx.caps);
        let sound = default_selected(audio.as_slice());
        let input = input_of(ctx.probe, "input.mp4");
        let ext = keep_extension(input.as_str());
        let output = default_output_name(input.as_str(), "compressed", ext.as_str());
        let out = vec![
            Field::select("video_codec", "Video codec", codecs, codec, VIDEO_CODEC_HELP),
            Field::toggle(
                "video_mode",
                "Video",
                "Re-encode",
                "Copy stream (faster, no quality loss)",
                mode,
                VIDEO_MODE_HELP,
            ),
            crf_field(CRF_HELP),
            Field::select("preset", "Preset", offer_preset(), 4, PRESET_HELP),
            Field::select("audio_codec", "Audio", audio, sound, AUDIO_CODEC_HELP),
            Field::select("audio_bitrate", "Audio bitrate", offer_bitrate(), 1, AUDIO_BITRATE_HELP),
            Field::select("resolution", "Resolution", offer_resolution(), 0, RESOLUTION_HELP),
            Field::text("output", "Output", output.as_str(), OUTPUT_HELP),
        ];
        assert(rows(out@) =~= self.form(probe_of(ctx.probe), caps_of(ctx.caps)));
        out
    }

    fn build(&self, ctx: &BuildContext) -> (r: Result<CommandSpec, BuildError>) {
        let input = match ctx.first_input() {
            Some(p) => p,
            None => return Err(fail("compress needs an input file")),
        };
        let mut spec = start(ctx.program().as_str(), input.as_str());
        push_video(&mut spec, ctx);
        push_audio(&mut spec, ctx);
        let ext = keep_extension(input.as_str());
        let default = default_output_name(input.as_str(), "compressed", ext.as_str());
        let output = resolve_output(ctx.output, default);
        spec.arg(safe_path_arg(output.as_str()).as_str());
        Ok(spec)
    }
}

} // verus!
