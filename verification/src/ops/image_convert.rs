//! Image convert: another image format.
//!
//! One quality slider serves every encoder's own scale: WebP takes it as it
//! is, JPEG takes it inverted, and PNG is lossless.

use vstd::prelude::*;
use crate::ffmpeg::builder::{
    chosen_output, default_output_name, operand, output_name, resolve_output, safe_path_arg,
    Command, CommandSpec,
};
use crate::ffmpeg::capabilities::CapabilityReport;
use crate::ffmpeg::probe::ProbeResult;
use crate::number::{dec, show};
use crate::ops::fields::{
    choices, default_choice, default_selected, marks, rows, select_row, slider_row, text_row,
    BuildContext, Choice, Field, FieldContext, Row, SelectOption,
};
use crate::ops::parts::{
    caps_of, fail, form_input, input_of, need, need_encoder, probe_of, start, started,
    BuildError,
};
use crate::ops::{About, InputKind, Operation, OperationMeta};
use crate::path::extension;
use crate::text::{copy_text, join2, join3, same};

verus! {

/// The image-convert operation.
#[derive(Debug, Clone, Copy)]
pub struct ImageConvertOp;

/// The encoder of each format. It is named in every command, so that the bytes
/// follow the chosen format whatever the file name says.
pub open spec fn image_encoder(format: Seq<char>) -> Seq<char> {
    if format == "jpg"@ {
        "mjpeg"@
    } else if format == "webp"@ {
        "libwebp"@
    } else {
        "png"@
    }
}

/// Looks the encoder of a format up.
pub fn encoder_for(format: &str) -> (r: &'static str)
    ensures
        r@ == image_encoder(format@),
{
    if same(format, "jpg") {
        "mjpeg"
    } else if same(format, "webp") {
        "libwebp"
    } else {
        "png"
    }
}

/// A quality within 1 to 100.
pub open spec fn quality_in(q: int) -> int {
    if q < 1 {
        1
    } else if q > 100 {
        100
    } else {
        q
    }
}

/// JPEG's scale for a quality: the whole number nearest to `31 - 29 q / 100`,
/// the greater of two equally near; 2 is best and 31 worst.
pub open spec fn jpeg_scale(q: int) -> nat {
    ((3100 - 29 * q + 50) / 100) as nat
}

/// The quality flag and its value; none for a lossless format.
pub open spec fn quality_flag(format: Seq<char>, quality: int) -> Option<(Seq<char>, Seq<char>)> {
    let q = quality_in(quality);
    if format == "jpg"@ {
        Some(("-q:v"@, dec(jpeg_scale(q))))
    } else if format == "webp"@ {
        Some(("-quality"@, dec(q as nat)))
    } else {
        None
    }
}

/// Works out the quality flag.
pub fn quality_args(format: &str, quality: i64) -> (r: Option<(String, String)>)
    ensures
        match r {
            Some((flag, value)) => quality_flag(format@, quality as int) == Some((flag@, value@)),
            None => quality_flag(format@, quality as int) is None,
        },
{
    let mut q: i64 = quality;
    if q < 1 {
        q = 1;
    } else if q > 100 {
        q = 100;
    }
    if same(format, "jpg") {
        let scale: i64 = (3100 - 29 * q + 50) / 100;
        Some((copy_text("-q:v"), show(scale as u128)))
    } else if same(format, "webp") {
        Some((copy_text("-quality"), show(q as u128)))
    } else {
        None
    }
}

/// The image formats.
pub open spec fn format_choices(caps: Option<CapabilityReport>) -> Seq<Choice> {
    let all = seq![
        Choice::of("PNG"@, "png"@),
        Choice::of("JPEG"@, "jpg"@),
        Choice::of("WebP"@, "webp"@),
    ];
    need(
        need(need(all, "jpg"@, "mjpeg"@, caps), "png"@, "png"@, caps),
        "webp"@,
        "libwebp"@,
        caps,
    )
}

/// Offers the image formats.
fn offer_formats(caps: Option<&CapabilityReport>) -> (r: Vec<SelectOption>)
    ensures
        choices(r@) == format_choices(caps_of(caps)),
        r@.len() == 3,
{
    let mut v = vec![
        SelectOption::labeled("PNG", "png"),
        SelectOption::labeled("JPEG", "jpg"),
        SelectOption::labeled("WebP", "webp"),
    ];
    assert(choices(v@) =~= seq![
        Choice::of("PNG"@, "png"@),
        Choice::of("JPEG"@, "jpg"@),
        Choice::of("WebP"@, "webp"@),
    ]);
    need_encoder(&mut v, "jpg", "mjpeg", caps);
    need_encoder(&mut v, "png", "png", caps);
    need_encoder(&mut v, "webp", "libwebp", caps);
    v
}

/// The widths.
pub open spec fn width_choices() -> Seq<Choice> {
    seq![
        Choice::of("Keep original"@, ""@),
        Choice::of("1920 wide"@, "1920:-2"@),
        Choice::of("1280 wide"@, "1280:-2"@),
        Choice::of("800 wide"@, "800:-2"@),
    ]
}

/// Offers these choices.
fn offer_width() -> (r: Vec<SelectOption>)
    ensures
        choices(r@) == width_choices(),
{
    let v = vec![
        SelectOption::labeled("Keep original", ""),
        SelectOption::labeled("1920 wide", "1920:-2"),
        SelectOption::labeled("1280 wide", "1280:-2"),
        SelectOption::labeled("800 wide", "800:-2"),
    ];
    assert(choices(v@) =~= width_choices());
    v
}

pub const FORMAT_HELP: &'static str = "Output image format. Keep the Output extension in sync with it — the bytes always follow this choice (-c:v), but a mismatched extension lies about them.";

pub const QUALITY_HELP: &'static str = "Quality 1–100. WebP takes it directly; JPEG maps to inverted -q:v (lower is better); PNG ignores it (lossless).";

pub const RESIZE_HELP: &'static str = "Downscale, preserving aspect with even dimensions.";

pub const OUTPUT_HELP: &'static str = "Output path for single files; batch naming uses the queue template in M6.";

/// The form.
pub open spec fn image_convert_form(probe: Option<ProbeResult>, caps: Option<CapabilityReport>) -> Seq<Row> {
    let input = form_input(probe, "photo.png"@);
    let formats = format_choices(caps);
    seq![
        select_row(
            "format"@,
            "Target format"@,
            formats,
            default_choice(formats),
            FORMAT_HELP@,
        ),
        slider_row(
            "quality"@,
            "Quality"@,
            (1, 85, 100),
            seq![(60int, "small"@), (85int, "balanced"@), (100int, "max"@)],
            "smaller file ◂──▸ better quality"@,
            QUALITY_HELP@,
        ),
        select_row(
            "resize"@,
            "Resize"@,
            width_choices(),
            0,
            RESIZE_HELP@,
        ),
        text_row("output"@, "Output"@, output_name(input, "converted"@, formats[default_choice(formats)].value), OUTPUT_HELP@),
    ]
}

/// The command.
pub open spec fn image_convert_command(ctx: BuildContext) -> Result<Command, Seq<char>> {
    if ctx.inputs@.len() == 0 {
        Err("image-convert needs an input file"@)
    } else {
        let input = ctx.inputs@[0]@;
        let format = ctx.text_at("format"@, "jpg"@);
        let resize = ctx.text_at("resize"@, ""@);
        let output = chosen_output(ctx.output_text(), output_name(input, "converted"@, format));
        let begun = started(ctx.program_text(), input);
        let sized = if resize.len() > 0 {
            begun.flag_value(
                "-vf"@,
                "scale="@ + resize,
                "Downscale, preserving aspect with even dimensions."@,
            )
        } else {
            begun
        };
        let coded = sized.flag_value(
            "-c:v"@,
            image_encoder(format),
            "Image encoder for "@ + format
                + " — the bytes follow this choice, not the filename."@,
        );
        let rated = match quality_flag(format, ctx.int_at("quality"@, 85)) {
            Some((flag, value)) => coded.flag_value(
                flag,
                value,
                "Quality for the lossy encoder (JPEG -q:v is inverted: lower is better)."@,
            ),
            None => coded.note(
                "(no quality flag)"@,
                "PNG is lossless — the quality slider does not apply."@,
            ),
        };
        Ok(rated.arg(operand(output)))
    }
}

impl Operation for ImageConvertOp {
    open spec fn about(&self) -> About {
        About {
            id: "image-convert"@,
            name: "Convert images"@,
            description: "Batch image format change with quality and resize"@,
            accepts: InputKind::Image,
        }
    }

    open spec fn form(&self, probe: Option<ProbeResult>, caps: Option<CapabilityReport>) -> Seq<Row> {
        image_convert_form(probe, caps)
    }

    open spec fn command(&self, ctx: BuildContext) -> Result<Command, Seq<char>> {
        image_convert_command(ctx)
    }

    fn meta(&self) -> (r: OperationMeta) {
        OperationMeta {
            id: "image-convert",
            name: "Convert images",
            description: "Batch image format change with quality and resize",
            accepts: InputKind::Image,
        }
    }

    fn fields(&self, ctx: &FieldContext) -> (r: Vec<Field>) {
        let formats = offer_formats(ctx.caps);
        let format = default_selected(formats.as_slice());
        let chosen = copy_text(formats[format].value.as_str());
        assert(choices(formats@)[format as int] == formats@[format as int]@);
        let marked: Vec<(i64, String)> = vec![
            (60, copy_text("small")),
            (85, copy_text("balanced")),
            (100, copy_text("max")),
        ];
        assert(marks(marked@) =~= seq![(60int, "small"@), (85int, "balanced"@), (100int, "max"@)]);
        let input = input_of(ctx.probe, "photo.png");
        let output = default_output_name(input.as_str(), "converted", chosen.as_str());
        let out = vec![
            Field::select("format", "Target format", formats, format, FORMAT_HELP),
            Field::slider(
                "quality",
                "Quality",
                (1, 85, 100),
                marked,
                "smaller file ◂──▸ better quality",
                QUALITY_HELP,
            ),
            Field::select("resize", "Resize", offer_width(), 0, RESIZE_HELP),
            Field::text("output", "Output", output.as_str(), OUTPUT_HELP),
        ];
        assert(rows(out@) =~= self.form(probe_of(ctx.probe), caps_of(ctx.caps)));
        out
    }

    fn build(&self, ctx: &BuildContext) -> (r: Result<CommandSpec, BuildError>) {
        let input = match ctx.first_input() {
            Some(p) => p,
            None => return Err(fail("image-convert needs an input file")),
        };
        let format = ctx.get_str("format", "jpg");
        let mut spec = start(ctx.program().as_str(), input.as_str());
        let resize = ctx.get_str("resize", "");
        if !resize.as_str().is_empty() {
            spec.flag_value(
                "-vf",
                join2("scale=", resize.as_str()).as_str(),
                "Downscale, preserving aspect with even dimensions.",
            );
        }
        let why = join3(
            "Image encoder for ",
            format.as_str(),
            " — the bytes follow this choice, not the filename.",
        );
        spec.flag_value("-c:v", encoder_for(format.as_str()), why.as_str());
        match quality_args(format.as_str(), ctx.get_int("quality", 85)) {
            Some((flag, value)) => {
                spec.flag_value(
                    flag.as_str(),
                    value.as_str(),
                    "Quality for the lossy encoder (JPEG -q:v is inverted: lower is better).",
                );
            },
            None => {
                spec.note(
                    "(no quality flag)",
                    "PNG is lossless — the quality slider does not apply.",
                );
            },
        }
        let default = default_output_name(input.as_str(), "converted", format.as_str());
        let output = resolve_output(ctx.output, default);
        spec.arg(safe_path_arg(output.as_str()).as_str());
        Ok(spec)
    }
}

} // verus!
