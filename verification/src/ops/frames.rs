//! Frames: a video as a sequence of images, on a time grid or on a frame grid.

use vstd::prelude::*;
use crate::ffmpeg::builder::{
    chosen_output, operand, or_else, resolve_output, safe_path_arg, Command, CommandSpec,
};
use crate::ffmpeg::capabilities::CapabilityReport;
use crate::ffmpeg::probe::ProbeResult;
use crate::number::{dec, decimal, read_decimal, read_nat, read_u64, show, signed};
use crate::ops::fields::{
    choices, rows, select_row, text_row, toggle_row, BuildContext, Choice, Field, FieldContext,
    Row, SelectOption,
};
use crate::ops::parts::{caps_of, fail, probe_of, start, started, BuildError};
use crate::ops::{About, InputKind, Operation, OperationMeta};
use crate::path::{beside, file_stem, get_file_stem, path_beside};
use crate::text::{
    chars_of, contains_char, copy_text, join2, join3, lowered, replace_all, replaced, same,
    slice_text, to_lower, trim, trimmed,
};

verus! {

/// The frames operation.
#[derive(Debug, Clone, Copy)]
pub struct FramesOp;

/// Switch index for frames on a time grid.
pub const MODE_FPS: usize = 0;

/// Switch index for frames on a frame grid.
pub const MODE_NTH: usize = 1;

/// The image formats.
pub open spec fn image_choices() -> Seq<Choice> {
    seq![
        Choice::of("PNG"@, "png"@),
        Choice::of("JPEG"@, "jpg"@),
    ]
}

/// Offers these choices.
fn offer_image() -> (r: Vec<SelectOption>)
    ensures
        choices(r@) == image_choices(),
{
    let v = vec![
        SelectOption::labeled("PNG", "png"),
        SelectOption::labeled("JPEG", "jpg"),
    ];
    assert(choices(v@) =~= image_choices());
    v
}

pub const MODE_HELP: &'static str = "FPS extracts on a time grid; Nth-frame extracts on a frame grid (exact frames, uneven times for VFR).";

pub const VALUE_HELP: &'static str = "FPS value (e.g. 1 = one frame per second) or N for every-Nth-frame.";

pub const FORMAT_HELP: &'static str = "Image format per frame.";

pub const PATTERN_HELP: &'static str = "Output name pattern. {stem} becomes the input name; %04d numbers the frames (required — one file per frame).";

pub const OUTPUT_HELP: &'static str = "Optional: a full output pattern overriding Naming (same {stem} and %04d rules). Empty uses Naming next to the input.";

/// The form.
pub open spec fn frames_form(_probe: Option<ProbeResult>, _caps: Option<CapabilityReport>) -> Seq<Row> {
    seq![
        toggle_row(
            "mode"@,
            "Mode"@,
            "Frames per second"@,
            "Every Nth frame"@,
            0,
            MODE_HELP@,
        ),
        text_row("value"@, "Rate / N"@, "1"@, VALUE_HELP@),
        select_row(
            "format"@,
            "Format"@,
            image_choices(),
            0,
            FORMAT_HELP@,
        ),
        text_row("pattern"@, "Naming"@, "{stem}_frame_%04d"@, PATTERN_HELP@),
        text_row("output"@, "Output"@, ""@, OUTPUT_HELP@),
    ]
}

/// The text of a string in double quotes, as std's `Debug` writes it.
pub uninterp spec fn debug_quoted(s: Seq<char>) -> Seq<char>;

/// std's `Debug` for `str`: the string in double quotes, with quotes, backslashes
/// and characters that cannot be printed escaped. The text is named, not stated.
#[verifier::external_body]
fn debug_text(s: &str) -> (r: String)
    ensures
        r@ == debug_quoted(s@),
{
    format!("{:?}", s)
}

/// Whether a text reads as a number: a decimal, or one of the words for
/// infinity and not-a-number.
pub open spec fn numeric(s: Seq<char>) -> bool {
    let word = lowered(signed(s).1);
    decimal(s) is Some || word == "inf"@ || word == "infinity"@ || word == "nan"@
}

/// Tests whether a text reads as a number.
fn is_numeric(s: &str) -> (r: bool)
    ensures
        r == numeric(s@),
{
    if read_decimal(s, 0, 1).is_some() {
        return true;
    }
    let x = chars_of(s);
    let from: usize = if x.len() > 0 && (x[0] == '-' || x[0] == '+') {
        1
    } else {
        0
    };
    let rest = slice_text(&x, from, x.len());
    assert(rest@ =~= signed(s@).1);
    let word = to_lower(rest.as_str());
    same(word.as_str(), "inf") || same(word.as_str(), "infinity") || same(word.as_str(), "nan")
}

/// The filter, for a value that reads as a number: every N-th frame takes a
/// whole N of at least one.
pub open spec fn frame_filter(value: Seq<char>, nth: bool) -> Result<Seq<char>, Seq<char>> {
    if value.len() == 0 || !numeric(value) {
        Err("rate/N must be a number, got "@ + debug_quoted(value))
    } else if !nth {
        Ok("fps="@ + value)
    } else {
        match read_nat(value, u64::MAX as nat) {
            None => Err("every-Nth-frame mode needs an integer N, got "@ + debug_quoted(value)),
            Some(n) => if n == 0 {
                Err("N must be at least 1"@)
            } else {
                Ok("select=not(mod(n\\,"@ + dec(n) + ")),setpts=N/FRAME_RATE/TB"@)
            },
        }
    }
}

/// Settles the filter.
fn settle_filter(value: &str, nth: bool) -> (r: Result<String, BuildError>)
    ensures
        match r {
            Ok(s) => frame_filter(value@, nth) == Ok::<Seq<char>, Seq<char>>(s@),
            Err(e) => frame_filter(value@, nth) == Err::<Seq<char>, Seq<char>>(e.message@),
        },
{
    if value.is_empty() || !is_numeric(value) {
        let got = debug_text(value);
        return Err(fail(join2("rate/N must be a number, got ", got.as_str()).as_str()));
    }
    if !nth {
        return Ok(join2("fps=", value));
    }
    match read_u64(value) {
        None => {
            let got = debug_text(value);
            Err(
                fail(
                    join2("every-Nth-frame mode needs an integer N, got ", got.as_str()).as_str(),
                ),
            )
        },
        Some(n) => if n == 0 {
            Err(fail("N must be at least 1"))
        } else {
            Ok(
                join3(
                    "select=not(mod(n\\,",
                    show(n as u128).as_str(),
                    ")),setpts=N/FRAME_RATE/TB",
                ),
            )
        },
    }
}

/// The output pattern that was typed, with `{stem}` filled in.
pub open spec fn typed_pattern(output: Option<Seq<char>>, stem: Seq<char>) -> Option<Seq<char>> {
    match output {
        Some(p) => if p.len() > 0 {
            Some(replaced(p, "{stem}"@, stem))
        } else {
            None
        },
        None => None,
    }
}

/// The output pattern: the typed one with `{stem}` filled in, or the named one
/// beside the input.
pub open spec fn frames_output(
    output: Option<Seq<char>>,
    input: Seq<char>,
    pattern: Seq<char>,
    format: Seq<char>,
    stem: Seq<char>,
) -> Seq<char> {
    chosen_output(typed_pattern(output, stem), beside(input, pattern + "."@ + format))
}

/// The command. A pattern without a number, the naming one or a typed one, is
/// refused: every frame would overwrite the same file.
pub open spec fn frames_command(ctx: BuildContext) -> Result<Command, Seq<char>> {
    if ctx.inputs@.len() == 0 {
        Err("frames needs an input file"@)
    } else {
        let input = ctx.inputs@[0]@;
        let value = trimmed(ctx.text_at("value"@, "1"@));
        let nth = ctx.toggle_at("mode"@, 0) == MODE_NTH;
        let stem = or_else(file_stem(input), "frames"@);
        let pattern = replaced(ctx.text_at("pattern"@, "{stem}_frame_%04d"@), "{stem}"@, stem);
        match frame_filter(value, nth) {
            Err(message) => Err(message),
            Ok(filter) => if !pattern.contains('%') || (typed_pattern(
                ctx.output_text(),
                stem,
            ) matches Some(p) && !p.contains('%')) {
                Err(PATTERN_ERROR@)
            } else {
                let output = frames_output(
                    ctx.output_text(),
                    input,
                    pattern,
                    ctx.text_at("format"@, "png"@),
                    stem,
                );
                Ok(
                    started(ctx.program_text(), input).flag_value(
                        "-vf"@,
                        filter,
                        "Frame selection: time grid (fps) or frame grid (select)."@,
                    ).arg(operand(output)),
                )
            },
        }
    }
}

pub const PATTERN_ERROR: &'static str = "naming pattern needs a %04d-style number — otherwise every frame overwrites the same file";

/// Fills in `{stem}`.
fn fill_stem(s: &str, stem: &str) -> (r: String)
    ensures
        r@ == replaced(s@, "{stem}"@, stem@),
{
    proof {
        reveal_strlit("{stem}");
    }
    replace_all(s, "{stem}", stem)
}

impl Operation for FramesOp {
    open spec fn about(&self) -> About {
        About {
            id: "frames"@,
            name: "Extract frames"@,
            description: "Video to image sequence (FPS or every-Nth-frame)"@,
            accepts: InputKind::Video,
        }
    }

    open spec fn form(&self, probe: Option<ProbeResult>, caps: Option<CapabilityReport>) -> Seq<Row> {
        frames_form(probe, caps)
    }

    open spec fn command(&self, ctx: BuildContext) -> Result<Command, Seq<char>> {
        frames_command(ctx)
    }

    fn meta(&self) -> (r: OperationMeta) {
        OperationMeta {
            id: "frames",
            name: "Extract frames",
            description: "Video to image sequence (FPS or every-Nth-frame)",
            accepts: InputKind::Video,
        }
    }

    fn fields(&self, ctx: &FieldContext) -> (r: Vec<Field>) {
        let out = vec![
            Field::toggle(
                "mode",
                "Mode",
                "Frames per second",
                "Every Nth frame",
                0,
                MODE_HELP,
            ),
            Field::text("value", "Rate / N", "1", VALUE_HELP),
            Field::select("format", "Format", offer_image(), 0, FORMAT_HELP),
            Field::text("pattern", "Naming", "{stem}_frame_%04d", PATTERN_HELP),
            Field::text("output", "Output", "", OUTPUT_HELP),
        ];
        assert(rows(out@) =~= self.form(probe_of(ctx.probe), caps_of(ctx.caps)));
        out
    }

    fn build(&self, ctx: &BuildContext) -> (r: Result<CommandSpec, BuildError>) {
        let input = match ctx.first_input() {
            Some(p) => p,
            None => return Err(fail("frames needs an input file")),
        };
        let value = trim(ctx.get_str("value", "1").as_str());
        let nth = ctx.get_toggle("mode", MODE_FPS) == MODE_NTH;
        let filter = match settle_filter(value.as_str(), nth) {
            Ok(s) => s,
            Err(e) => return Err(e),
        };
        let stem = match get_file_stem(input.as_str()) {
            Some(s) => s,
            None => copy_text("frames"),
        };
        let typed = ctx.get_str("pattern", "{stem}_frame_%04d");
        let pattern = fill_stem(typed.as_str(), stem.as_str());
        if !contains_char(pattern.as_str(), '%') {
            return Err(fail(PATTERN_ERROR));
        }
        let format = ctx.get_str("format", "png");
        let name = join3(pattern.as_str(), ".", format.as_str());
        let default = path_beside(input.as_str(), name.as_str());
        let output = match ctx.output {
            Some(p) => if p.as_str().is_empty() {
                default
            } else {
                let filled = fill_stem(p.as_str(), stem.as_str());
                if !contains_char(filled.as_str(), '%') {
                    return Err(fail(PATTERN_ERROR));
                }
                resolve_output(Some(&filled), default)
            },
            None => default,
        };
        let mut spec = start(ctx.program().as_str(), input.as_str());
        spec.flag_value(
            "-vf",
            filter.as_str(),
            "Frame selection: time grid (fps) or frame grid (select).",
        );
        spec.arg(safe_path_arg(output.as_str()).as_str());
        Ok(spec)
    }
}

} // verus!
