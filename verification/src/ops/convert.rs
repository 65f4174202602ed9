//! Convert: another container, another codec, or both.

use vstd::prelude::*;
use crate::ffmpeg::builder::{
    chosen_output, default_output_name, operand, output_name, resolve_output, safe_path_arg,
    Command, CommandSpec,
};
use crate::ffmpeg::capabilities::CapabilityReport;
use crate::ffmpeg::probe::ProbeResult;
use crate::number::{dec_int, show_int};
use crate::ops::fields::{
    choices, default_choice, default_selected, rows, select_row, text_row, toggle_row,
    BuildContext, Choice, Field, FieldContext, Row, SelectOption,
};
use crate::ops::parts::{
    audio_codecs, caps_of, crf_field, crf_row, fail, form_input, input_of, need, need_encoder,
    offer_audio_codecs, probe_of, start, started, BuildError,
};
use crate::ops::{About, InputKind, Operation, OperationMeta};
use crate::path::extension;
use crate::text::{join3, same};

verus! {

/// The convert operation.
#[derive(Debug, Clone, Copy)]
pub struct ConvertOp;

/// The video encoders, and copying.
pub open spec fn convert_codecs(caps: Option<CapabilityReport>) -> Seq<Choice> {
    let all = seq![
        Choice::of("H.264 (libx264)"@, "libx264"@),
        Choice::of("H.265 (libx265)"@, "libx265"@),
        Choice::of("Copy video stream"@, "copy"@),
    ];
    need(need(all, "libx264"@, "libx264"@, caps), "libx265"@, "libx265"@, caps)
}

/// Offers the video encoders.
fn offer_codecs(caps: Option<&CapabilityReport>) -> (r: Vec<SelectOption>)
    ensures
        choices(r@) == convert_codecs(caps_of(caps)),
{
    let mut v = vec![
        SelectOption::labeled("H.264 (libx264)", "libx264"),
        SelectOption::labeled("H.265 (libx265)", "libx265"),
        SelectOption::labeled("Copy video stream", "copy"),
    ];
    assert(choices(v@) =~= seq![
        Choice::of("H.264 (libx264)"@, "libx264"@),
        Choice::of("H.265 (libx265)"@, "libx265"@),
        Choice::of("Copy video stream"@, "copy"@),
    ]);
    need_encoder(&mut v, "libx264", "libx264", caps);
    need_encoder(&mut v, "libx265", "libx265", caps);
    v
}

/// The containers.
pub open spec fn container_choices() -> Seq<Choice> {
    seq![
        Choice::of("MP4"@, "mp4"@),
        Choice::of("Matroska (MKV)"@, "mkv"@),
        Choice::of("WebM"@, "webm"@),
        Choice::of("QuickTime (MOV)"@, "mov"@),
    ]
}

/// Offers these choices.
fn offer_container() -> (r: Vec<SelectOption>)
    ensures
        choices(r@) == container_choices(),
{
    let v = vec![
        SelectOption::labeled("MP4", "mp4"),
        SelectOption::labeled("Matroska (MKV)", "mkv"),
        SelectOption::labeled("WebM", "webm"),
        SelectOption::labeled("QuickTime (MOV)", "mov"),
    ];
    assert(choices(v@) =~= container_choices());
    v
}

pub const FORMAT_HELP: &'static str = "Output container. MP4 plays everywhere; MKV holds anything; WebM is the web streaming default.";

pub const VIDEO_CODEC_HELP: &'static str = "Video encoder, or stream copy when the codec is already compatible with the new container.";

pub const AUDIO_CODEC_HELP: &'static str = "Audio encoder, or stream copy to avoid a needless re-encode.";

pub const CRF_HELP: &'static str = "Quality for the re-encoded streams. Ignored for any stream set to copy.";

pub const FASTSTART_HELP: &'static str = "Moves the MP4/MOV index (moov atom) to the front so playback starts before the download finishes. Only applies to MP4 and MOV.";

pub const OUTPUT_HELP: &'static str = "Output path; the extension follows the target format.";

/// The form.
pub open spec fn convert_form(probe: Option<ProbeResult>, caps: Option<CapabilityReport>) -> Seq<Row> {
    let input = form_input(probe, "input.mkv"@);
    seq![
        select_row(
            "format"@,
            "Target format"@,
            container_choices(),
            0,
            FORMAT_HELP@,
        ),
        select_row(
            "video_codec"@,
            "Video codec"@,
            convert_codecs(caps),
            default_choice(convert_codecs(caps)),
            VIDEO_CODEC_HELP@,
        ),
        select_row(
            "audio_codec"@,
            "Audio codec"@,
            audio_codecs(caps),
            default_choice(audio_codecs(caps)),
            AUDIO_CODEC_HELP@,
        ),
        crf_row(CRF_HELP@),
        toggle_row(
            "faststart"@,
            "Web faststart"@,
            "On"@,
            "Off"@,
            0,
            FASTSTART_HELP@,
        ),
        text_row("output"@, "Output"@, output_name(input, "converted"@, "mp4"@), OUTPUT_HELP@),
    ]
}

/// The video flags: a copy, or an encoder with its quality.
pub open spec fn convert_video(c: Command, ctx: BuildContext) -> Command {
    let vcodec = ctx.text_at("video_codec"@, "libx264"@);
    if vcodec == "copy"@ {
        c.flag_value("-c:v"@, "copy"@, "Video stream copy into the new container."@)
    } else {
        c.flag_value(
            "-c:v"@,
            vcodec,
            "Re-encode video with "@ + vcodec + "."@,
        ).flag_value(
            "-crf"@,
            dec_int(ctx.int_at("crf"@, 23)),
            "Quality level for the re-encoded video."@,
        )
    }
}

/// The audio flags: a copy, or an encoder.
pub open spec fn convert_audio(c: Command, ctx: BuildContext) -> Command {
    let acodec = ctx.text_at("audio_codec"@, "aac"@);
    if acodec == "copy"@ {
        c.flag_value("-c:a"@, "copy"@, "Audio stream copy into the new container."@)
    } else {
        c.flag_value("-c:a"@, acodec, "Re-encode audio with "@ + acodec + "."@)
    }
}

/// The container flags: an index at the front, where the container has one and
/// it is wanted.
pub open spec fn convert_index(c: Command, ctx: BuildContext) -> Command {
    let format = ctx.text_at("format"@, "mp4"@);
    if (format == "mp4"@ || format == "mov"@) && ctx.toggle_at("faststart"@, 0) == 0 {
        c.flag_value(
            "-movflags"@,
            "+faststart"@,
            "Move the index to the front so web playback starts immediately."@,
        )
    } else {
        c
    }
}

/// The command.
pub open spec fn convert_command(ctx: BuildContext) -> Result<Command, Seq<char>> {
    if ctx.inputs@.len() == 0 {
        Err("convert needs an input file"@)
    } else {
        let input = ctx.inputs@[0]@;
        let output = chosen_output(
            ctx.output_text(),
            output_name(input, "converted"@, ctx.text_at("format"@, "mp4"@)),
        );
        let coded = convert_audio(convert_video(started(ctx.program_text(), input), ctx), ctx);
        Ok(convert_index(coded, ctx).arg(operand(output)))
    }
}

impl Operation for ConvertOp {
    open spec fn about(&self) -> About {
        About {
            id: "convert"@,
            name: "Convert"@,
            description: "Change container or codec (e.g. MKV to MP4)"@,
            accepts: InputKind::AudioOrVideo,
        }
    }

    open spec fn form(&self, probe: Option<ProbeResult>, caps: Option<CapabilityReport>) -> Seq<Row> {
        convert_form(probe, caps)
    }

    open spec fn command(&self, ctx: BuildContext) -> Result<Command, Seq<char>> {
        convert_command(ctx)
    }

    fn meta(&self) -> (r: OperationMeta) {
        OperationMeta {
            id: "convert",
            name: "Convert",
            description: "Change container or codec (e.g. MKV to MP4)",
            accepts: InputKind::AudioOrVideo,
        }
    }

    fn fields(&self, ctx: &FieldContext) -> (r: Vec<Field>) {
        let codecs = offer_codecs(ctx.caps);
        let codec = default_selected(codecs.as_slice());
        let audio = offer_audio_codecs(ctx.caps);
        let sound = default_selected(audio.as_slice());
        let input = input_of(ctx.probe, "input.mkv");
        let output = default_output_name(input.as_str(), "converted", "mp4");
        let out = vec![
            Field::select("format", "Target format", offer_container(), 0, FORMAT_HELP),
            Field::select("video_codec", "Video codec", codecs, codec, VIDEO_CODEC_HELP),
            Field::select("audio_codec", "Audio codec", audio, sound, AUDIO_CODEC_HELP),
            crf_field(CRF_HELP),
            Field::toggle(
                "faststart",
                "Web faststart",
                "On",
                "Off",
                0,
                FASTSTART_HELP,
            ),
            Field::text("output", "Output", output.as_str(), OUTPUT_HELP),
        ];
        assert(rows(out@) =~= self.form(probe_of(ctx.probe), caps_of(ctx.caps)));
        out
    }

    fn build(&self, ctx: &BuildContext) -> (r: Result<CommandSpec, BuildError>) {
        let input = match ctx.first_input() {
            Some(p) => p,
            None => return Err(fail("convert needs an input file")),
        };
        let format = ctx.get_str("format", "mp4");
        let mut spec = start(ctx.program().as_str(), input.as_str());
        let vcodec = ctx.get_str("video_codec", "libx264");
        if same(vcodec.as_str(), "copy") {
            spec.flag_value("-c:v", "copy", "Video stream copy into the new container.");
        } else {
            let why = join3("Re-encode video with ", vcodec.as_str(), ".");
            spec.flag_value("-c:v", vcodec.as_str(), why.as_str());
            spec.flag_value(
                "-crf",
                show_int(ctx.get_int("crf", 23)).as_str(),
                "Quality level for the re-encoded video.",
            );
        }
        let acodec = ctx.get_str("audio_codec", "aac");
        if same(acodec.as_str(), "copy") {
            spec.flag_value("-c:a", "copy", "Audio stream copy into the new container.");
        } else {
            let why = join3("Re-encode audio with ", acodec.as_str(), ".");
            spec.flag_value("-c:a", acodec.as_str(), why.as_str());
        }
        if (same(format.as_str(), "mp4") || same(format.as_str(), "mov")) && ctx.get_toggle(
            "faststart",
            0,
        ) == 0 {
            spec.flag_value(
                "-movflags",
                "+faststart",
                "Move the index to the front so web playback starts immediately.",
            );
        }
        let default = default_output_name(input.as_str(), "converted", format.as_str());
        let output = resolve_output(ctx.output, default);
        spec.arg(safe_path_arg(output.as_str()).as_str());
        Ok(spec)
    }
}

} // verus!
