//! Resize: another resolution, by preset or by custom size.
//!
//! Presets keep the aspect ratio with even dimensions. Scaling always
//! re-encodes the video and copies the audio.

use vstd::prelude::*;
use crate::ffmpeg::builder::{
    chosen_output, default_output_name, operand, output_name, resolve_output, safe_path_arg,
    Command, CommandSpec,
};
use crate::ffmpeg::capabilities::CapabilityReport;
use crate::ffmpeg::probe::ProbeResult;
use crate::number::{dec_int, show_int};
use crate::ops::fields::{
    choices, default_choice, default_selected, rows, select_row, text_row, toggle_row,
    BuildContext, Choice, Field, FieldContext, Row, SelectOption,
};
use crate::ops::parts::{
    caps_of, crf_field, crf_row, fail, form_input, input_of, keep_extension, kept_extension,
    offer_video_codecs, probe_of, start, started, video_codecs, BuildError,
};
use crate::ops::{About, InputKind, Operation, OperationMeta};
use crate::text::{copy_text, join2, join3, same, trim, trimmed};

verus! {

/// The resize operation.
#[derive(Debug, Clone, Copy)]
pub struct ResizeOp;

/// The sizes.
pub open spec fn size_choices() -> Seq<Choice> {
    seq![
        Choice::of("1080p"@, "1920:-2"@),
        Choice::of("720p"@, "1280:-2"@),
        Choice::of("480p"@, "854:-2"@),
        Choice::of("Custom…"@, "custom"@),
    ]
}

/// Offers these choices.
fn offer_size() -> (r: Vec<SelectOption>)
    ensures
        choices(r@) == size_choices(),
{
    let v = vec![
        SelectOption::labeled("1080p", "1920:-2"),
        SelectOption::labeled("720p", "1280:-2"),
        SelectOption::labeled("480p", "854:-2"),
        SelectOption::labeled("Custom…", "custom"),
    ];
    assert(choices(v@) =~= size_choices());
    v
}

/// The crops.
pub open spec fn crop_choices() -> Seq<Choice> {
    seq![
        Choice::of("No crop"@, ""@),
        Choice::of("Square (center)"@, "square"@),
    ]
}

/// Offers these choices.
fn offer_crop() -> (r: Vec<SelectOption>)
    ensures
        choices(r@) == crop_choices(),
{
    let v = vec![
        SelectOption::labeled("No crop", ""),
        SelectOption::labeled("Square (center)", "square"),
    ];
    assert(choices(v@) =~= crop_choices());
    v
}

pub const PRESET_HELP: &'static str = "Downscale presets keep the aspect ratio with even dimensions. Custom uses the width/height below.";

pub const CUSTOM_W_HELP: &'static str = "Custom width in pixels (used when Size is Custom). Empty means “scale from height”.";

pub const CUSTOM_H_HELP: &'static str = "Custom height in pixels (used when Size is Custom). Empty means “scale from width”.";

pub const ASPECT_HELP: &'static str = "Keep replaces an empty dimension with -2 (aspect-preserving, even). Stretch needs both dimensions and distorts. Watch -vf change.";

pub const CROP_HELP: &'static str = "Center square crop applied before scaling — for social-media squares. Uses crop=min(iw\\,ih):min(iw\\,ih) (the backslash-comma is a literal comma inside the filter).";

pub const VIDEO_CODEC_HELP: &'static str = "Scaling forces a re-encode, so stream copy is not offered here.";

pub const CRF_HELP: &'static str = "Quality for the re-encoded, resized video.";

pub const OUTPUT_HELP: &'static str = "Output path.";

/// The form.
pub open spec fn resize_form(probe: Option<ProbeResult>, caps: Option<CapabilityReport>) -> Seq<Row> {
    let input = form_input(probe, "input.mp4"@);
    seq![
        select_row(
            "preset"@,
            "Size"@,
            size_choices(),
            1,
            PRESET_HELP@,
        ),
        text_row("custom_w"@, "Custom width"@, "1280"@, CUSTOM_W_HELP@),
        text_row("custom_h"@, "Custom height"@, ""@, CUSTOM_H_HELP@),
        toggle_row(
            "aspect"@,
            "Aspect"@,
            "Keep aspect ratio"@,
            "Stretch to exact"@,
            0,
            ASPECT_HELP@,
        ),
        select_row(
            "crop"@,
            "Crop"@,
            crop_choices(),
            0,
            CROP_HELP@,
        ),
        select_row(
            "video_codec"@,
            "Video codec"@,
            video_codecs(caps),
            default_choice(video_codecs(caps)),
            VIDEO_CODEC_HELP@,
        ),
        crf_row(CRF_HELP@),
        text_row("output"@, "Output"@, output_name(input, "720p"@, kept_extension(input)), OUTPUT_HELP@),
    ]
}

/// A dimension, or `-2` (from the other one, even) when it is empty.
pub open spec fn or_even(s: Seq<char>) -> Seq<char> {
    if s.len() == 0 {
        "-2"@
    } else {
        s
    }
}

/// The scale: the preset's, or the custom one. A custom size needs a
/// dimension, and stretching needs both.
pub open spec fn scale_of(ctx: BuildContext) -> Result<Seq<char>, Seq<char>> {
    let preset = ctx.text_at("preset"@, "1280:-2"@);
    let w = trimmed(ctx.text_at("custom_w"@, ""@));
    let h = trimmed(ctx.text_at("custom_h"@, ""@));
    if preset != "custom"@ {
        Ok(preset)
    } else if w.len() == 0 && h.len() == 0 {
        Err("custom size needs at least a width or a height"@)
    } else if ctx.toggle_at("aspect"@, 0) != 1 {
        Ok(or_even(w) + ":"@ + or_even(h))
    } else if w.len() == 0 || h.len() == 0 {
        Err("stretch needs both width and height — or keep the aspect ratio"@)
    } else {
        Ok(w + ":"@ + h)
    }
}

/// The filter: the scale, behind a square crop where one is wanted.
pub open spec fn resize_filter(ctx: BuildContext, scale: Seq<char>) -> Seq<char> {
    if ctx.text_at("crop"@, ""@) == "square"@ {
        "crop=min(iw\\,ih):min(iw\\,ih),scale="@ + scale
    } else {
        "scale="@ + scale
    }
}

/// The command.
pub open spec fn resize_command(ctx: BuildContext) -> Result<Command, Seq<char>> {
    if ctx.inputs@.len() == 0 {
        Err("resize needs an input file"@)
    } else {
        match scale_of(ctx) {
            Err(message) => Err(message),
            Ok(scale) => {
                let input = ctx.inputs@[0]@;
                let vcodec = ctx.text_at("video_codec"@, "libx264"@);
                let output = chosen_output(
                    ctx.output_text(),
                    output_name(input, "resized"@, kept_extension(input)),
                );
                Ok(
                    started(ctx.program_text(), input).flag_value(
                        "-vf"@,
                        resize_filter(ctx, scale),
                        SCALE_WHY@,
                    ).flag_value("-c:v"@, vcodec, "Re-encode with "@ + vcodec + "."@).flag_value(
                        "-crf"@,
                        dec_int(ctx.int_at("crf"@, 23)),
                        "Quality level for the resized video."@,
                    ).flag_value(
                        "-c:a"@,
                        "copy"@,
                        "Audio is untouched by a resize — copied, not re-encoded."@,
                    ).arg(operand(output)),
                )
            },
        }
    }
}

pub const SCALE_WHY: &'static str = "Scale the video. -2 keeps the aspect ratio with even dimensions (odd heights are refused by these codecs).";

/// Settles the scale.
fn settle_scale(ctx: &BuildContext) -> (r: Result<String, BuildError>)
    ensures
        match r {
            Ok(s) => scale_of(*ctx) == Ok::<Seq<char>, Seq<char>>(s@),
            Err(e) => scale_of(*ctx) == Err::<Seq<char>, Seq<char>>(e.message@),
        },
{
    let preset = ctx.get_str("preset", "1280:-2");
    if !same(preset.as_str(), "custom") {
        return Ok(preset);
    }
    let w = trim(ctx.get_str("custom_w", "").as_str());
    let h = trim(ctx.get_str("custom_h", "").as_str());
    if w.as_str().is_empty() && h.as_str().is_empty() {
        return Err(fail("custom size needs at least a width or a height"));
    }
    if ctx.get_toggle("aspect", 0) != 1 {
        let left = if w.as_str().is_empty() {
            copy_text("-2")
        } else {
            w
        };
        let right = if h.as_str().is_empty() {
            copy_text("-2")
        } else {
            h
        };
        return Ok(join3(left.as_str(), ":", right.as_str()));
    }
    if w.as_str().is_empty() || h.as_str().is_empty() {
        return Err(fail("stretch needs both width and height — or keep the aspect ratio"));
    }
    Ok(join3(w.as_str(), ":", h.as_str()))
}

impl Operation for ResizeOp {
    open spec fn about(&self) -> About {
        About {
            id: "resize"@,
            name: "Resize"@,
            description: "Scale resolution with presets or custom dimensions"@,
            accepts: InputKind::Video,
        }
    }

    open spec fn form(&self, probe: Option<ProbeResult>, caps: Option<CapabilityReport>) -> Seq<Row> {
        resize_form(probe, caps)
    }

    open spec fn command(&self, ctx: BuildContext) -> Result<Command, Seq<char>> {
        resize_command(ctx)
    }

    fn meta(&self) -> (r: OperationMeta) {
        OperationMeta {
            id: "resize",
            name: "Resize",
            description: "Scale resolution with presets or custom dimensions",
            accepts: InputKind::Video,
        }
    }

    fn fields(&self, ctx: &FieldContext) -> (r: Vec<Field>) {
        let codecs = offer_video_codecs(ctx.caps);
        let codec = default_selected(codecs.as_slice());
        let input = input_of(ctx.probe, "input.mp4");
        let ext = keep_extension(input.as_str());
        let output = default_output_name(input.as_str(), "720p", ext.as_str());
        let out = vec![
            Field::select("preset", "Size", offer_size(), 1, PRESET_HELP),
            Field::text("custom_w", "Custom width", "1280", CUSTOM_W_HELP),
            Field::text("custom_h", "Custom height", "", CUSTOM_H_HELP),
            Field::toggle(
                "aspect",
                "Aspect",
                "Keep aspect ratio",
                "Stretch to exact",
                0,
                ASPECT_HELP,
            ),
            Field::select("crop", "Crop", offer_crop(), 0, CROP_HELP),
            Field::select("video_codec", "Video codec", codecs, codec, VIDEO_CODEC_HELP),
            crf_field(CRF_HELP),
            Field::text("output", "Output", output.as_str(), OUTPUT_HELP),
        ];
        assert(rows(out@) =~= self.form(probe_of(ctx.probe), caps_of(ctx.caps)));
        out
    }

    fn build(&self, ctx: &BuildContext) -> (r: Result<CommandSpec, BuildError>) {
        let input = match ctx.first_input() {
            Some(p) => p,
            None => return Err(fail("resize needs an input file")),
        };
        let scale = match settle_scale(ctx) {
            Ok(s) => s,
            Err(e) => return Err(e),
        };
        let mut spec = start(ctx.program().as_str(), input.as_str());
        let vcodec = ctx.get_str("video_codec", "libx264");
        let filter = if same(ctx.get_str("crop", "").as_str(), "square") {
            join2("crop=min(iw\\,ih):min(iw\\,ih),scale=", scale.as_str())
        } else {
            join2("scale=", scale.as_str())
        };
        spec.flag_value("-vf", filter.as_str(), SCALE_WHY);
        let why = join3("Re-encode with ", vcodec.as_str(), ".");
        spec.flag_value("-c:v", vcodec.as_str(), why.as_str());
        spec.flag_value(
            "-crf",
            show_int(ctx.get_int("crf", 23)).as_str(),
            "Quality level for the resized video.",
        );
        spec.flag_value(
            "-c:a",
            "copy",
            "Audio is untouched by a resize — copied, not re-encoded.",
        );
        let ext = keep_extension(input.as_str());
        let default = default_output_name(input.as_str(), "resized", ext.as_str());
        let output = resolve_output(ctx.output, default);
        spec.arg(safe_path_arg(output.as_str()).as_str());
        Ok(spec)
    }
}

} // verus!
