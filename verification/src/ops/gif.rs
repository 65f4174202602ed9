//! GIF: an animation by way of a palette.
//!
//! A GIF written in one pass looks poor, so two commands are built: one that
//! learns the 256 colours of the clip, and one that renders through them.

use vstd::prelude::*;
use crate::ffmpeg::builder::{
    chosen_output, default_output_name, operand, or_else, output_name, resolve_output,
    safe_path_arg, Command, CommandSpec,
};
use crate::ffmpeg::capabilities::CapabilityReport;
use crate::ffmpeg::probe::ProbeResult;
use crate::number::{dec_int, show_int};
use crate::ops::fields::{
    choices, marks, rows, select_row, slider_row, text_row, toggle_row, BuildContext, Choice,
    Field, FieldContext, Row, SelectOption,
};
use crate::ops::parts::{
    caps_of, fail, form_input, input_of, probe_of, start, started, BuildError,
};
use crate::ops::{About, InputKind, Operation, OperationMeta};
use crate::path::{beside, file_stem, get_file_stem, path_beside};
use crate::text::{copy_text, has, join2, join3};

verus! {

/// The GIF operation.
#[derive(Debug, Clone, Copy)]
pub struct GifOp;

/// The widths.
pub open spec fn width_choices() -> Seq<Choice> {
    seq![
        Choice::of("320"@, "320"@),
        Choice::of("480"@, "480"@),
        Choice::of("640"@, "640"@),
    ]
}

/// Offers these choices.
fn offer_width() -> (r: Vec<SelectOption>)
    ensures
        choices(r@) == width_choices(),
{
    let v = vec![
        SelectOption::available("320"),
        SelectOption::available("480"),
        SelectOption::available("640"),
    ];
    assert(choices(v@) =~= width_choices());
    v
}

/// The ways to dither.
pub open spec fn dither_choices() -> Seq<Choice> {
    seq![
        Choice::of("Bayer (sharp, patterned)"@, "bayer:bayer_scale=5"@),
        Choice::of("Sierra (smooth gradients)"@, "sierra2_4a"@),
        Choice::of("None (flat, banding)"@, "none"@),
    ]
}

/// Offers these choices.
fn offer_dither() -> (r: Vec<SelectOption>)
    ensures
        choices(r@) == dither_choices(),
{
    let v = vec![
        SelectOption::labeled("Bayer (sharp, patterned)", "bayer:bayer_scale=5"),
        SelectOption::labeled("Sierra (smooth gradients)", "sierra2_4a"),
        SelectOption::labeled("None (flat, banding)", "none"),
    ];
    assert(choices(v@) =~= dither_choices());
    v
}

pub const FPS_HELP: &'static str = "GIF frames per second. 10–15 is the sweet spot; GIF has no inter-frame compression, so every fps costs bytes.";

pub const WIDTH_HELP: &'static str = "Output width in pixels; height follows the aspect ratio. GIFs are rarely shown large — 320–480 keeps files sane.";

pub const DITHER_HELP: &'static str = "How paletteuse fakes colors outside the 256-color palette. Bayer is crisp; Sierra blends gradients better.";

pub const LOOP_HELP: &'static str = "GIF loop count: 0 loops forever, -1 plays once.";

pub const OUTPUT_HELP: &'static str = "Output path. A {stem}_palette.png appears next to it — the generated palette, kept so you can see what the second pass used.";

/// The form.
pub open spec fn gif_form(probe: Option<ProbeResult>, _caps: Option<CapabilityReport>) -> Seq<Row> {
    let input = form_input(probe, "input.mp4"@);
    seq![
        slider_row(
            "fps"@,
            "FPS"@,
            (1, 12, 30),
            seq![(10int, "small"@), (15int, "smooth"@), (24int, "large"@)],
            "smaller file ◂──▸ smoother motion"@,
            FPS_HELP@,
        ),
        select_row(
            "width"@,
            "Width"@,
            width_choices(),
            0,
            WIDTH_HELP@,
        ),
        select_row(
            "dither"@,
            "Dithering"@,
            dither_choices(),
            0,
            DITHER_HELP@,
        ),
        toggle_row(
            "loop"@,
            "Loop"@,
            "Forever"@,
            "Once"@,
            0,
            LOOP_HELP@,
        ),
        text_row("output"@, "Output"@, output_name(input, "anim"@, "gif"@), OUTPUT_HELP@),
    ]
}

/// The frame rate: the chosen one, within 1 to 30.
pub open spec fn gif_fps(ctx: BuildContext) -> int {
    let fps = ctx.int_at("fps"@, 12);
    if fps < 1 {
        1
    } else if fps > 30 {
        30
    } else {
        fps
    }
}

/// The filters that both passes begin with.
pub open spec fn gif_scale(ctx: BuildContext) -> Seq<char> {
    "fps="@ + dec_int(gif_fps(ctx)) + ",scale="@ + ctx.text_at("width"@, "320"@)
        + ":-1:flags=lanczos"@
}

/// The palette file, beside the output.
pub open spec fn palette_path(output: Seq<char>) -> Seq<char> {
    beside(output, or_else(file_stem(output), "palette"@) + "_palette.png"@)
}

/// The first pass: learns the palette.
pub open spec fn palette_pass(ctx: BuildContext, input: Seq<char>, palette: Seq<char>) -> Command {
    started(ctx.program_text(), input).flag_value(
        "-vf"@,
        gif_scale(ctx) + ",palettegen"@,
        "First pass: analyze the clip and write the optimal 256-color palette."@,
    ).arg(operand(palette))
}

/// The command: the palette pass first, then the pass that renders through it.
pub open spec fn gif_command(ctx: BuildContext) -> Result<Command, Seq<char>> {
    if ctx.inputs@.len() == 0 {
        Err("gif needs an input file"@)
    } else {
        let input = ctx.inputs@[0]@;
        let output = chosen_output(ctx.output_text(), output_name(input, "anim"@, "gif"@));
        let palette = palette_path(output);
        let dither = ctx.text_at("dither"@, "bayer:bayer_scale=5"@);
        Ok(
            started(ctx.program_text(), input).arg("-i"@).arg(operand(palette)).flag_value(
                "-filter_complex"@,
                gif_scale(ctx) + "[x];[x][1:v]paletteuse=dither="@ + dither,
                RENDER_WHY@,
            ).flag_value(
                "-loop"@,
                if ctx.toggle_at("loop"@, 0) == 0 {
                    "0"@
                } else {
                    "-1"@
                },
                "Loop forever (0) or play once (-1)."@,
            ).arg(operand(output)).after(palette_pass(ctx, input, palette).as_pass()),
        )
    }
}

pub const RENDER_WHY: &'static str = "Second pass: map every frame to the palette. Single-pass GIFs skip this and look posterized — this is the step that makes GIFs look good.";

/// Renders the filters that both passes begin with.
fn show_scale(ctx: &BuildContext) -> (r: String)
    ensures
        r@ == gif_scale(*ctx),
{
    let mut fps: i64 = ctx.get_int("fps", 12);
    if fps < 1 {
        fps = 1;
    } else if fps > 30 {
        fps = 30;
    }
    let head = join3("fps=", show_int(fps).as_str(), ",scale=");
    join3(head.as_str(), ctx.get_str("width", "320").as_str(), ":-1:flags=lanczos")
}

impl Operation for GifOp {
    open spec fn about(&self) -> About {
        About {
            id: "gif"@,
            name: "Video to GIF"@,
            description: "Animated GIF with palette generation (two-pass, high quality)"@,
            accepts: InputKind::Video,
        }
    }

    open spec fn form(&self, probe: Option<ProbeResult>, caps: Option<CapabilityReport>) -> Seq<Row> {
        gif_form(probe, caps)
    }

    open spec fn command(&self, ctx: BuildContext) -> Result<Command, Seq<char>> {
        gif_command(ctx)
    }

    fn meta(&self) -> (r: OperationMeta) {
        OperationMeta {
            id: "gif",
            name: "Video to GIF",
            description: "Animated GIF with palette generation (two-pass, high quality)",
            accepts: InputKind::Video,
        }
    }

    fn fields(&self, ctx: &FieldContext) -> (r: Vec<Field>) {
        let marked: Vec<(i64, String)> = vec![
            (10, copy_text("small")),
            (15, copy_text("smooth")),
            (24, copy_text("large")),
        ];
        assert(marks(marked@) =~= seq![(10int, "small"@), (15int, "smooth"@), (24int, "large"@)]);
        let input = input_of(ctx.probe, "input.mp4");
        let output = default_output_name(input.as_str(), "anim", "gif");
        let out = vec![
            Field::slider(
                "fps",
                "FPS",
                (1, 12, 30),
                marked,
                "smaller file ◂──▸ smoother motion",
                FPS_HELP,
            ),
            Field::select("width", "Width", offer_width(), 0, WIDTH_HELP),
            Field::select("dither", "Dithering", offer_dither(), 0, DITHER_HELP),
            Field::toggle(
                "loop",
                "Loop",
                "Forever",
                "Once",
                0,
                LOOP_HELP,
            ),
            Field::text("output", "Output", output.as_str(), OUTPUT_HELP),
        ];
        assert(rows(out@) =~= self.form(probe_of(ctx.probe), caps_of(ctx.caps)));
        out
    }

    fn build(&self, ctx: &BuildContext) -> (r: Result<CommandSpec, BuildError>) {
        let input = match ctx.first_input() {
            Some(p) => p,
            None => return Err(fail("gif needs an input file")),
        };
        let program = ctx.program();
        let scale = show_scale(ctx);
        let default = default_output_name(input.as_str(), "anim", "gif");
        let output = resolve_output(ctx.output, default);
        let stem = match get_file_stem(output.as_str()) {
            Some(s) => s,
            None => copy_text("palette"),
        };
        let palette_name = join2(stem.as_str(), "_palette.png");
        let palette = path_beside(output.as_str(), palette_name.as_str());

        let mut learn = start(program.as_str(), input.as_str());
        learn.flag_value(
            "-vf",
            join2(scale.as_str(), ",palettegen").as_str(),
            "First pass: analyze the clip and write the optimal 256-color palette.",
        );
        learn.arg(safe_path_arg(palette.as_str()).as_str());

        let mut spec = start(program.as_str(), input.as_str());
        spec.arg("-i");
        spec.arg(safe_path_arg(palette.as_str()).as_str());
        let dither = ctx.get_str("dither", "bayer:bayer_scale=5");
        let filter = join3(
            scale.as_str(),
            "[x];[x][1:v]paletteuse=dither=",
            dither.as_str(),
        );
        spec.flag_value("-filter_complex", filter.as_str(), RENDER_WHY);
        let turns = if ctx.get_toggle("loop", 0) == 0 {
            "0"
        } else {
            "-1"
        };
        spec.flag_value("-loop", turns, "Loop forever (0) or play once (-1).");
        spec.arg(safe_path_arg(output.as_str()).as_str());
        spec.run_first(learn);
        Ok(spec)
    }
}

} // verus!
