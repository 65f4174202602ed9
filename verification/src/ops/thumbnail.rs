//! Thumbnail: one frame.
//!
//! The seek stands before the input: a thumbnail needs no frame accuracy, and
//! so the grab is instant even in a long file.

use vstd::prelude::*;
use crate::ffmpeg::builder::{
    chosen_output, default_output_name, operand, output_name, push_globals, resolve_output,
    safe_path_arg, Command, CommandSpec,
};
use crate::ffmpeg::capabilities::CapabilityReport;
use crate::ffmpeg::probe::ProbeResult;
use crate::ops::fields::{
    choices, rows, select_row, text_row, BuildContext, Choice, Field, FieldContext, Row,
    SelectOption,
};
use crate::ops::parts::{caps_of, fail, form_input, input_of, probe_of, BuildError};
use crate::ops::{About, InputKind, Operation, OperationMeta};
use crate::text::{join2, trim, trimmed};
use crate::time::timestamp;

verus! {

/// The thumbnail operation.
#[derive(Debug, Clone, Copy)]
pub struct ThumbnailOp;

/// The image formats.
pub open spec fn picture_choices() -> Seq<Choice> {
    seq![
        Choice::of("PNG"@, "png"@),
        Choice::of("JPEG"@, "jpg"@),
        Choice::of("WebP"@, "webp"@),
    ]
}

/// Offers these choices.
fn offer_picture() -> (r: Vec<SelectOption>)
    ensures
        choices(r@) == picture_choices(),
{
    let v = vec![
        SelectOption::labeled("PNG", "png"),
        SelectOption::labeled("JPEG", "jpg"),
        SelectOption::labeled("WebP", "webp"),
    ];
    assert(choices(v@) =~= picture_choices());
    v
}

/// The sizes.
pub open spec fn size_choices() -> Seq<Choice> {
    seq![
        Choice::of("Original"@, ""@),
        Choice::of("640 wide"@, "640:-2"@),
        Choice::of("1280 wide"@, "1280:-2"@),
    ]
}

/// Offers these choices.
fn offer_size() -> (r: Vec<SelectOption>)
    ensures
        choices(r@) == size_choices(),
{
    let v = vec![
        SelectOption::labeled("Original", ""),
        SelectOption::labeled("640 wide", "640:-2"),
        SelectOption::labeled("1280 wide", "1280:-2"),
    ];
    assert(choices(v@) =~= size_choices());
    v
}

pub const TIMESTAMP_HELP: &'static str = "Which frame to grab (HH:MM:SS or seconds). Seeks before the input — instant, keyframe-adjacent, plenty for a thumbnail.";

pub const FORMAT_HELP: &'static str = "Output image format.";

pub const SIZE_HELP: &'static str = "Downscale the grabbed frame, preserving aspect with even dimensions.";

pub const OUTPUT_HELP: &'static str = "Output path.";

/// The form.
pub open spec fn thumbnail_form(probe: Option<ProbeResult>, _caps: Option<CapabilityReport>) -> Seq<Row> {
    let input = form_input(probe, "input.mp4"@);
    seq![
        text_row("timestamp"@, "Timestamp"@, "00:00:01"@, TIMESTAMP_HELP@),
        select_row(
            "format"@,
            "Format"@,
            picture_choices(),
            0,
            FORMAT_HELP@,
        ),
        select_row(
            "size"@,
            "Size"@,
            size_choices(),
            0,
            SIZE_HELP@,
        ),
        text_row("output"@, "Output"@, output_name(input, "thumb"@, "png"@), OUTPUT_HELP@),
    ]
}

/// The command.
pub open spec fn thumbnail_command(ctx: BuildContext) -> Result<Command, Seq<char>> {
    if ctx.inputs@.len() == 0 {
        Err("thumbnail needs an input file"@)
    } else {
        let input = ctx.inputs@[0]@;
        let size = ctx.text_at("size"@, ""@);
        let output = chosen_output(
            ctx.output_text(),
            output_name(input, "thumb"@, ctx.text_at("format"@, "png"@)),
        );
        let grabbed = Command::new(ctx.program_text()).globals(true).flag_value(
            "-ss"@,
            trimmed(ctx.text_at("timestamp"@, "00:00:01"@)),
            "Seek before the input: instant grab, no decoding of the whole file."@,
        ).arg("-i"@).arg(operand(input)).flag_value(
            "-frames:v"@,
            "1"@,
            "Write exactly one video frame, then stop."@,
        );
        let sized = if size.len() > 0 {
            grabbed.flag_value("-vf"@, "scale="@ + size, "Downscale the grabbed frame."@)
        } else {
            grabbed
        };
        Ok(sized.arg(operand(output)))
    }
}

impl Operation for ThumbnailOp {
    open spec fn about(&self) -> About {
        About {
            id: "thumbnail"@,
            name: "Thumbnail"@,
            description: "Grab a single frame at a timestamp"@,
            accepts: InputKind::Video,
        }
    }

    open spec fn form(&self, probe: Option<ProbeResult>, caps: Option<CapabilityReport>) -> Seq<Row> {
        thumbnail_form(probe, caps)
    }

    open spec fn command(&self, ctx: BuildContext) -> Result<Command, Seq<char>> {
        thumbnail_command(ctx)
    }

    fn meta(&self) -> (r: OperationMeta) {
        OperationMeta {
            id: "thumbnail",
            name: "Thumbnail",
            description: "Grab a single frame at a timestamp",
            accepts: InputKind::Video,
        }
    }

    fn fields(&self, ctx: &FieldContext) -> (r: Vec<Field>) {
        let input = input_of(ctx.probe, "input.mp4");
        let output = default_output_name(input.as_str(), "thumb", "png");
        let out = vec![
            Field::text("timestamp", "Timestamp", "00:00:01", TIMESTAMP_HELP),
            Field::select("format", "Format", offer_picture(), 0, FORMAT_HELP),
            Field::select("size", "Size", offer_size(), 0, SIZE_HELP),
            Field::text("output", "Output", output.as_str(), OUTPUT_HELP),
        ];
        assert(rows(out@) =~= self.form(probe_of(ctx.probe), caps_of(ctx.caps)));
        out
    }

    fn build(&self, ctx: &BuildContext) -> (r: Result<CommandSpec, BuildError>) {
        let input = match ctx.first_input() {
            Some(p) => p,
            None => return Err(fail("thumbnail needs an input file")),
        };
        let format = ctx.get_str("format", "png");
        let timestamp = trim(ctx.get_str("timestamp", "00:00:01").as_str());
        let mut spec = CommandSpec::new(ctx.program().as_str());
        push_globals(&mut spec, true);
        spec.flag_value(
            "-ss",
            timestamp.as_str(),
            "Seek before the input: instant grab, no decoding of the whole file.",
        );
        spec.arg("-i");
        spec.arg(safe_path_arg(input.as_str()).as_str());
        spec.flag_value("-frames:v", "1", "Write exactly one video frame, then stop.");
        let size = ctx.get_str("size", "");
        if !size.as_str().is_empty() {
            spec.flag_value(
                "-vf",
                join2("scale=", size.as_str()).as_str(),
                "Downscale the grabbed frame.",
            );
        }
        let default = default_output_name(input.as_str(), "thumb", format.as_str());
        let output = resolve_output(ctx.output, default);
        spec.arg(safe_path_arg(output.as_str()).as_str());
        Ok(spec)
    }
}

} // verus!
