//! Subtitles: burned into the picture, or added as a track.
//!
//! Burning draws the text and so re-encodes the video. Adding a track copies
//! every stream and only converts the subtitles.

use vstd::prelude::*;
use crate::ffmpeg::builder::{
    chosen_output, default_output_name, operand, output_name, resolve_output, safe_path_arg,
    Command, CommandSpec,
};
use crate::ffmpeg::capabilities::CapabilityReport;
use crate::ffmpeg::probe::ProbeResult;
use crate::number::{dec_int, show_int};
use crate::ops::fields::{
    default_choice, default_selected, rows, select_row, text_row, toggle_row, BuildContext,
    Field, FieldContext, Row,
};
use crate::ops::parts::{
    caps_of, crf_field, crf_row, fail, form_input, input_of, keep_extension, kept_extension,
    offer_video_codecs, probe_of, start, started, video_codecs, BuildError,
};
use crate::ops::{About, InputKind, Operation, OperationMeta};
use crate::text::{join2, join3, replace_all, replaced, trim, trimmed};

verus! {

/// The subtitles operation.
#[derive(Debug, Clone, Copy)]
pub struct SubtitlesOp;

/// Switch index for burning in.
pub const MODE_BURN: usize = 0;

/// Switch index for adding a track.
pub const MODE_TRACK: usize = 1;

pub const SUBS_HELP: &'static str = "Path of the subtitle file (SRT, ASS, VTT, …).";

pub const MODE_HELP: &'static str = "Burn in draws the text into the picture, so the video is re-encoded. Add as track keeps every stream untouched and lets the player switch the subtitles on and off.";

pub const VIDEO_CODEC_HELP: &'static str = "Encoder used when burning in. Ignored when adding a track.";

pub const CRF_HELP: &'static str = "Quality for the re-encoded video. Ignored when adding a track.";

pub const OUTPUT_HELP: &'static str = "Output path.";

/// The form.
pub open spec fn subtitles_form(probe: Option<ProbeResult>, caps: Option<CapabilityReport>) -> Seq<Row> {
    let input = form_input(probe, "input.mp4"@);
    seq![
        text_row("subs"@, "Subtitle file"@, ""@, SUBS_HELP@),
        toggle_row(
            "mode"@,
            "Mode"@,
            "Burn in (re-encode)"@,
            "Add as track (copy)"@,
            0,
            MODE_HELP@,
        ),
        select_row(
            "video_codec"@,
            "Video codec"@,
            video_codecs(caps),
            default_choice(video_codecs(caps)),
            VIDEO_CODEC_HELP@,
        ),
        crf_row(CRF_HELP@),
        text_row("output"@, "Output"@, output_name(input, "subtitled"@, kept_extension(input)), OUTPUT_HELP@),
    ]
}

/// A path inside a filter: backslashes, colons and quotes are escaped.
pub open spec fn filter_path(p: Seq<char>) -> Seq<char> {
    replaced(replaced(replaced(p, "\\"@, "\\\\"@), ":"@, "\\:"@), "'"@, "\\'"@)
}

/// Escapes a path for use inside a filter.
fn escape_path(p: &str) -> (r: String)
    ensures
        r@ == filter_path(p@),
{
    proof {
        reveal_strlit("\\");
        reveal_strlit(":");
        reveal_strlit("'");
    }
    let a = replace_all(p, "\\", "\\\\");
    let b = replace_all(a.as_str(), ":", "\\:");
    replace_all(b.as_str(), "'", "\\'")
}

/// The command.
pub open spec fn subtitles_command(ctx: BuildContext) -> Result<Command, Seq<char>> {
    let subs = trimmed(ctx.text_at("subs"@, ""@));
    if ctx.inputs@.len() == 0 {
        Err("subtitles needs an input file"@)
    } else if subs.len() == 0 {
        Err("subtitles needs a subtitle file"@)
    } else {
        let input = ctx.inputs@[0]@;
        let vcodec = ctx.text_at("video_codec"@, "libx264"@);
        let output = chosen_output(
            ctx.output_text(),
            output_name(input, "subtitled"@, kept_extension(input)),
        );
        let begun = started(ctx.program_text(), input);
        let made = if ctx.toggle_at("mode"@, 0) == MODE_TRACK {
            begun.arg("-i"@).arg(operand(subs)).arg("-map"@).arg("0"@).arg("-map"@).arg(
                "1"@,
            ).flag_value("-c"@, "copy"@, "Every stream is copied, not re-encoded."@).flag_value(
                "-c:s"@,
                "mov_text"@,
                "Convert the subtitles to the text format of MP4 files."@,
            )
        } else {
            begun.flag_value(
                "-vf"@,
                "subtitles="@ + filter_path(subs),
                "Draw the subtitles into the picture, which forces a re-encode."@,
            ).flag_value("-c:v"@, vcodec, "Re-encode with "@ + vcodec + "."@).flag_value(
                "-crf"@,
                dec_int(ctx.int_at("crf"@, 23)),
                "Quality level for the re-encoded video."@,
            ).flag_value("-c:a"@, "copy"@, "Audio is copied, not re-encoded."@)
        };
        Ok(made.arg(operand(output)))
    }
}

impl Operation for SubtitlesOp {
    open spec fn about(&self) -> About {
        About {
            id: "subtitles"@,
            name: "Subtitles"@,
            description: "Burn subtitles in or add them as a track"@,
            accepts: InputKind::Video,
        }
    }

    open spec fn form(&self, probe: Option<ProbeResult>, caps: Option<CapabilityReport>) -> Seq<Row> {
        subtitles_form(probe, caps)
    }

    open spec fn command(&self, ctx: BuildContext) -> Result<Command, Seq<char>> {
        subtitles_command(ctx)
    }

    fn meta(&self) -> (r: OperationMeta) {
        OperationMeta {
            id: "subtitles",
            name: "Subtitles",
            description: "Burn subtitles in or add them as a track",
            accepts: InputKind::Video,
        }
    }

    fn fields(&self, ctx: &FieldContext) -> (r: Vec<Field>) {
        let codecs = offer_video_codecs(ctx.caps);
        let codec = default_selected(codecs.as_slice());
        let input = input_of(ctx.probe, "input.mp4");
        let ext = keep_extension(input.as_str());
        let output = default_output_name(input.as_str(), "subtitled", ext.as_str());
        let out = vec![
            Field::text("subs", "Subtitle file", "", SUBS_HELP),
            Field::toggle(
                "mode",
                "Mode",
                "Burn in (re-encode)",
                "Add as track (copy)",
                0,
                MODE_HELP,
            ),
            Field::select("video_codec", "Video codec", codecs, codec, VIDEO_CODEC_HELP),
            crf_field(CRF_HELP),
            Field::text("output", "Output", output.as_str(), OUTPUT_HELP),
        ];
        assert(rows(out@) =~= self.form(probe_of(ctx.probe), caps_of(ctx.caps)));
        out
    }

    fn build(&self, ctx: &BuildContext) -> (r: Result<CommandSpec, BuildError>) {
        let input = match ctx.first_input() {
            Some(p) => p,
            None => return Err(fail("subtitles needs an input file")),
        };
        let subs = trim(ctx.get_str("subs", "").as_str());
        if subs.as_str().is_empty() {
            return Err(fail("subtitles needs a subtitle file"));
        }
        let mut spec = start(ctx.program().as_str(), input.as_str());
        if ctx.get_toggle("mode", MODE_BURN) == MODE_TRACK {
            spec.arg("-i");
            spec.arg(safe_path_arg(subs.as_str()).as_str());
            spec.arg("-map");
            spec.arg("0");
            spec.arg("-map");
            spec.arg("1");
            spec.flag_value("-c", "copy", "Every stream is copied, not re-encoded.");
            spec.flag_value(
                "-c:s",
                "mov_text",
                "Convert the subtitles to the text format of MP4 files.",
            );
        } else {
            let filter = join2("subtitles=", escape_path(subs.as_str()).as_str());
            spec.flag_value(
                "-vf",
                filter.as_str(),
                "Draw the subtitles into the picture, which forces a re-encode.",
            );
            let vcodec = ctx.get_str("video_codec", "libx264");
            let why = join3("Re-encode with ", vcodec.as_str(), ".");
            spec.flag_value("-c:v", vcodec.as_str(), why.as_str());
            spec.flag_value(
                "-crf",
                show_int(ctx.get_int("crf", 23)).as_str(),
                "Quality level for the re-encoded video.",
            );
            spec.flag_value("-c:a", "copy", "Audio is copied, not re-encoded.");
        }
        let ext = keep_extension(input.as_str());
        let default = default_output_name(input.as_str(), "subtitled", ext.as_str());
        let output = resolve_output(ctx.output, default);
        spec.arg(safe_path_arg(output.as_str()).as_str());
        Ok(spec)
    }
}

} // verus!
