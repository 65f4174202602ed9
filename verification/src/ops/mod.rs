//! Operations: one module each, and the form model they share.

pub mod compress;
pub mod concat;
pub mod convert;
pub mod extract_audio;
pub mod fields;
pub mod form_laws;
pub mod frames;
pub mod gif;
pub mod image_convert;
pub mod joins;
pub mod laws;
pub mod parts;
pub mod resize;
pub mod subtitles;
pub mod thumbnail;
pub mod trim;

use vstd::prelude::*;
use crate::ffmpeg::builder::{
    chosen_output, operand, output_name, Command, CommandSpec, ListFile, Pass,
};
use crate::ffmpeg::capabilities::CapabilityReport;
use crate::ffmpeg::probe::ProbeResult;
use crate::ops::compress::CompressOp;
use crate::ops::concat::{reading, ConcatOp};
use crate::ops::convert::ConvertOp;
use crate::ops::extract_audio::ExtractAudioOp;
use crate::ops::frames::FramesOp;
use crate::ops::gif::GifOp;
use crate::ops::image_convert::ImageConvertOp;
use crate::ops::resize::ResizeOp;
use crate::ops::subtitles::SubtitlesOp;
use crate::ops::thumbnail::ThumbnailOp;
use crate::ops::trim::{by_start, clip_file, clip_files, cut_clip, cut_of, cutting, Cut, TrimOp};
use crate::ops::fields::{
    all_steady, lemma_default_choice, rows, BuildContext, ClipRange, Field, FieldContext, Row,
};
use crate::ops::parts::{builds, caps_of, kept_extension, probe_of, BuildError};
use crate::text::{same, texts};

verus! {

/// Which input media an operation accepts.
#[derive(Debug, Clone, Copy, PartialEq, Eq, Structural)]
pub enum InputKind {
    /// One video file.
    Video,
    /// One audio file.
    Audio,
    /// Audio or video.
    AudioOrVideo,
    /// One image file.
    Image,
    /// Several files.
    Multiple,
}

/// What menus and presets need to know of an operation.
#[derive(Debug, Clone, Copy, PartialEq, Eq)]
pub struct OperationMeta {
    /// Stable identifier.
    pub id: &'static str,
    /// Menu label.
    pub name: &'static str,
    /// One line under the menu selection.
    pub description: &'static str,
    /// Which input media it accepts.
    pub accepts: InputKind,
}

/// What an operation says of itself.
#[verifier::ext_equal]
pub struct About {
    pub id: Seq<char>,
    pub name: Seq<char>,
    pub description: Seq<char>,
    pub accepts: InputKind,
}

impl OperationMeta {
    pub open spec fn view(&self) -> About {
        About {
            id: self.id@,
            name: self.name@,
            description: self.description@,
            accepts: self.accepts,
        }
    }
}

/// An operation: a form, and a command built from the form's values.
pub trait Operation {
    /// What the operation says of itself.
    spec fn about(&self) -> About;

    /// The form for what is known of the input and of the build.
    spec fn form(&self, probe: Option<ProbeResult>, caps: Option<CapabilityReport>) -> Seq<Row>;

    /// The command, or why there is none.
    spec fn command(&self, ctx: BuildContext) -> Result<Command, Seq<char>>;

    /// What menus and presets need to know.
    fn meta(&self) -> (r: OperationMeta)
        ensures
            r@ == self.about(),
    ;

    /// The form's fields, with their defaults.
    fn fields(&self, ctx: &FieldContext) -> (r: Vec<Field>)
        ensures
            rows(r@) == self.form(probe_of(ctx.probe), caps_of(ctx.caps)),
    ;

    /// Builds the command from the current values.
    fn build(&self, ctx: &BuildContext) -> (r: Result<CommandSpec, BuildError>)
        ensures
            builds(r, self.command(*ctx)),
    ;
}


/// Any of the operations.
#[derive(Debug, Clone, Copy)]
pub enum AnyOperation {
    Convert(ConvertOp),
    Compress(CompressOp),
    Trim(TrimOp),
    ExtractAudio(ExtractAudioOp),
    Resize(ResizeOp),
    Gif(GifOp),
    Thumbnail(ThumbnailOp),
    Frames(FramesOp),
    Concat(ConcatOp),
    Subtitles(SubtitlesOp),
    ImageConvert(ImageConvertOp),
}

impl Operation for AnyOperation {
    open spec fn about(&self) -> About {
        match self {
            AnyOperation::Convert(op) => op.about(),
            AnyOperation::Compress(op) => op.about(),
            AnyOperation::Trim(op) => op.about(),
            AnyOperation::ExtractAudio(op) => op.about(),
            AnyOperation::Resize(op) => op.about(),
            AnyOperation::Gif(op) => op.about(),
            AnyOperation::Thumbnail(op) => op.about(),
            AnyOperation::Frames(op) => op.about(),
            AnyOperation::Concat(op) => op.about(),
            AnyOperation::Subtitles(op) => op.about(),
            AnyOperation::ImageConvert(op) => op.about(),
        }
    }

    open spec fn form(&self, probe: Option<ProbeResult>, caps: Option<CapabilityReport>) -> Seq<Row> {
        match self {
            AnyOperation::Convert(op) => op.form(probe, caps),
            AnyOperation::Compress(op) => op.form(probe, caps),
            AnyOperation::Trim(op) => op.form(probe, caps),
            AnyOperation::ExtractAudio(op) => op.form(probe, caps),
            AnyOperation::Resize(op) => op.form(probe, caps),
            AnyOperation::Gif(op) => op.form(probe, caps),
            AnyOperation::Thumbnail(op) => op.form(probe, caps),
            AnyOperation::Frames(op) => op.form(probe, caps),
            AnyOperation::Concat(op) => op.form(probe, caps),
            AnyOperation::Subtitles(op) => op.form(probe, caps),
            AnyOperation::ImageConvert(op) => op.form(probe, caps),
        }
    }

    open spec fn command(&self, ctx: BuildContext) -> Result<Command, Seq<char>> {
        match self {
            AnyOperation::Convert(op) => op.command(ctx),
            AnyOperation::Compress(op) => op.command(ctx),
            AnyOperation::Trim(op) => op.command(ctx),
            AnyOperation::ExtractAudio(op) => op.command(ctx),
            AnyOperation::Resize(op) => op.command(ctx),
            AnyOperation::Gif(op) => op.command(ctx),
            AnyOperation::Thumbnail(op) => op.command(ctx),
            AnyOperation::Frames(op) => op.command(ctx),
            AnyOperation::Concat(op) => op.command(ctx),
            AnyOperation::Subtitles(op) => op.command(ctx),
            AnyOperation::ImageConvert(op) => op.command(ctx),
        }
    }

    fn meta(&self) -> (r: OperationMeta) {
        match self {
            AnyOperation::Convert(op) => op.meta(),
            AnyOperation::Compress(op) => op.meta(),
            AnyOperation::Trim(op) => op.meta(),
            AnyOperation::ExtractAudio(op) => op.meta(),
            AnyOperation::Resize(op) => op.meta(),
            AnyOperation::Gif(op) => op.meta(),
            AnyOperation::Thumbnail(op) => op.meta(),
            AnyOperation::Frames(op) => op.meta(),
            AnyOperation::Concat(op) => op.meta(),
            AnyOperation::Subtitles(op) => op.meta(),
            AnyOperation::ImageConvert(op) => op.meta(),
        }
    }

    fn fields(&self, ctx: &FieldContext) -> (r: Vec<Field>) {
        match self {
            AnyOperation::Convert(op) => op.fields(ctx),
            AnyOperation::Compress(op) => op.fields(ctx),
            AnyOperation::Trim(op) => op.fields(ctx),
            AnyOperation::ExtractAudio(op) => op.fields(ctx),
            AnyOperation::Resize(op) => op.fields(ctx),
            AnyOperation::Gif(op) => op.fields(ctx),
            AnyOperation::Thumbnail(op) => op.fields(ctx),
            AnyOperation::Frames(op) => op.fields(ctx),
            AnyOperation::Concat(op) => op.fields(ctx),
            AnyOperation::Subtitles(op) => op.fields(ctx),
            AnyOperation::ImageConvert(op) => op.fields(ctx),
        }
    }

    fn build(&self, ctx: &BuildContext) -> (r: Result<CommandSpec, BuildError>) {
        match self {
            AnyOperation::Convert(op) => op.build(ctx),
            AnyOperation::Compress(op) => op.build(ctx),
            AnyOperation::Trim(op) => op.build(ctx),
            AnyOperation::ExtractAudio(op) => op.build(ctx),
            AnyOperation::Resize(op) => op.build(ctx),
            AnyOperation::Gif(op) => op.build(ctx),
            AnyOperation::Thumbnail(op) => op.build(ctx),
            AnyOperation::Frames(op) => op.build(ctx),
            AnyOperation::Concat(op) => op.build(ctx),
            AnyOperation::Subtitles(op) => op.build(ctx),
            AnyOperation::ImageConvert(op) => op.build(ctx),
        }
    }
}

/// The operations, in menu order.
pub open spec fn registry() -> Seq<AnyOperation> {
    seq![
        AnyOperation::Convert(ConvertOp),
        AnyOperation::Compress(CompressOp),
        AnyOperation::Trim(TrimOp),
        AnyOperation::ExtractAudio(ExtractAudioOp),
        AnyOperation::Resize(ResizeOp),
        AnyOperation::Gif(GifOp),
        AnyOperation::Thumbnail(ThumbnailOp),
        AnyOperation::Frames(FramesOp),
        AnyOperation::Concat(ConcatOp),
        AnyOperation::Subtitles(SubtitlesOp),
        AnyOperation::ImageConvert(ImageConvertOp),
    ]
}

/// What the operations say of themselves, in menu order.
pub open spec fn menu() -> Seq<About> {
    registry().map_values(|op: AnyOperation| op.about())
}

/// Lists the operations, in menu order.
pub fn operations() -> (r: Vec<OperationMeta>)
    ensures
        r@.map_values(|m: OperationMeta| m@) == menu(),
{
    let out = vec![
        ConvertOp.meta(),
        CompressOp.meta(),
        TrimOp.meta(),
        ExtractAudioOp.meta(),
        ResizeOp.meta(),
        GifOp.meta(),
        ThumbnailOp.meta(),
        FramesOp.meta(),
        ConcatOp.meta(),
        SubtitlesOp.meta(),
        ImageConvertOp.meta(),
    ];
    assert(out@.map_values(|m: OperationMeta| m@) =~= menu());
    out
}

/// The position of the operation with the given id, or the number of operations.
pub open spec fn position(v: Seq<About>, id: Seq<char>) -> int
    decreases v.len(),
{
    if v.len() == 0 || v[0].id == id {
        0
    } else {
        1 + position(v.skip(1), id)
    }
}

proof fn lemma_position(v: Seq<About>, id: Seq<char>, i: int)
    requires
        0 <= i <= v.len(),
        forall|j: int| 0 <= j < i ==> (#[trigger] v[j]).id != id,
        i < v.len() ==> v[i].id == id,
    ensures
        position(v, id) == i,
    decreases v.len(),
{
    if i > 0 {
        assert(v[0].id != id);
        assert forall|j: int| 0 <= j < i - 1 implies (#[trigger] v.skip(1)[j]).id != id by {
            assert(v.skip(1)[j] == v[j + 1]);
        }
        lemma_position(v.skip(1), id, i - 1);
    }
}

/// Looks an operation up by its id.
#[verifier::loop_isolation(false)]
pub fn find_by_id(id: &str) -> (r: Option<OperationMeta>)
    ensures
        match r {
            Some(m) => position(menu(), id@) < menu().len() && m@ == menu()[position(menu(), id@)],
            None => position(menu(), id@) == menu().len(),
        },
{
    let all = operations();
    let ghost v = menu();
    let mut i: usize = 0;
    while i < all.len()
        invariant
            i <= all@.len(),
            v == all@.map_values(|m: OperationMeta| m@),
            forall|j: int| 0 <= j < i ==> (#[trigger] v[j]).id != id@,
        decreases all@.len() - i,
    {
        assert(v[i as int] == all@[i as int]@);
        if same(all[i].id, id) {
            proof {
                lemma_position(v, id@, i as int);
            }
            return Some(all[i]);
        }
        i = i + 1;
    }
    proof {
        lemma_position(v, id@, i as int);
    }
    None
}

/// Makes the operation with the given id; nothing for an unknown one, such as
/// that of a preset for an operation that no longer exists.
pub fn operation_for(id: &str) -> (r: Option<AnyOperation>)
    ensures
        match r {
            Some(op) => position(menu(), id@) < menu().len() && op == registry()[position(
                menu(),
                id@,
            )],
            None => position(menu(), id@) == menu().len(),
        },
{
    let ghost v = menu();
    if same(id, "convert") {
        proof {
            lemma_position(v, id@, 0);
        }
        return Some(AnyOperation::Convert(ConvertOp));
    }
    if same(id, "compress") {
        proof {
            lemma_position(v, id@, 1);
        }
        return Some(AnyOperation::Compress(CompressOp));
    }
    if same(id, "trim") {
        proof {
            lemma_position(v, id@, 2);
        }
        return Some(AnyOperation::Trim(TrimOp));
    }
    if same(id, "extract-audio") {
        proof {
            lemma_position(v, id@, 3);
        }
        return Some(AnyOperation::ExtractAudio(ExtractAudioOp));
    }
    if same(id, "resize") {
        proof {
            lemma_position(v, id@, 4);
        }
        return Some(AnyOperation::Resize(ResizeOp));
    }
    if same(id, "gif") {
        proof {
            lemma_position(v, id@, 5);
        }
        return Some(AnyOperation::Gif(GifOp));
    }
    if same(id, "thumbnail") {
        proof {
            lemma_position(v, id@, 6);
        }
        return Some(AnyOperation::Thumbnail(ThumbnailOp));
    }
    if same(id, "frames") {
        proof {
            lemma_position(v, id@, 7);
        }
        return Some(AnyOperation::Frames(FramesOp));
    }
    if same(id, "concat") {
        proof {
            lemma_position(v, id@, 8);
        }
        return Some(AnyOperation::Concat(ConcatOp));
    }
    if same(id, "subtitles") {
        proof {
            lemma_position(v, id@, 9);
        }
        return Some(AnyOperation::Subtitles(SubtitlesOp));
    }
    if same(id, "image-convert") {
        proof {
            lemma_position(v, id@, 10);
        }
        return Some(AnyOperation::ImageConvert(ImageConvertOp));
    }
    proof {
        lemma_position(v, id@, v.len() as int);
    }
    None
}

/// Operation ids are distinct, and no text of an operation is empty.
pub proof fn law_ids_unique()
    ensures
        forall|i: int, j: int|
            0 <= i < j < menu().len() ==> (#[trigger] menu()[i]).id != (#[trigger] menu()[j]).id,
        forall|i: int|
            0 <= i < menu().len() ==> (#[trigger] menu()[i]).id.len() > 0 && menu()[i].name.len()
                > 0 && menu()[i].description.len() > 0,
{
    reveal_strlit("convert");
    reveal_strlit("compress");
    reveal_strlit("trim");
    reveal_strlit("extract-audio");
    reveal_strlit("resize");
    reveal_strlit("gif");
    reveal_strlit("thumbnail");
    reveal_strlit("frames");
    reveal_strlit("concat");
    reveal_strlit("subtitles");
    reveal_strlit("image-convert");
    reveal_strlit("Convert");
    reveal_strlit("Change container or codec (e.g. MKV to MP4)");
    reveal_strlit("Compress video");
    reveal_strlit("Shrink file size with a quality slider (CRF)");
    reveal_strlit("Trim");
    reveal_strlit("Cut timeline clips: fast keyframe cuts or accurate re-encode");
    reveal_strlit("Extract audio");
    reveal_strlit("Pull the audio track out (MP3, AAC, Opus, …)");
    reveal_strlit("Resize");
    reveal_strlit("Scale resolution with presets or custom dimensions");
    reveal_strlit("Video to GIF");
    reveal_strlit("Animated GIF with palette generation (two-pass, high quality)");
    reveal_strlit("Thumbnail");
    reveal_strlit("Grab a single frame at a timestamp");
    reveal_strlit("Extract frames");
    reveal_strlit("Video to image sequence (FPS or every-Nth-frame)");
    reveal_strlit("Join videos");
    reveal_strlit("Concatenate files (stream-copy when possible)");
    reveal_strlit("Subtitles");
    reveal_strlit("Burn subtitles in or add them as a track");
    reveal_strlit("Convert images");
    reveal_strlit("Batch image format change with quality and resize");
    assert("convert"@.len() == 7 && "convert"@[0] == 'c');
    assert("compress"@.len() == 8 && "compress"@[0] == 'c');
    assert("trim"@.len() == 4 && "trim"@[0] == 't');
    assert("extract-audio"@.len() == 13 && "extract-audio"@[0] == 'e');
    assert("resize"@.len() == 6 && "resize"@[0] == 'r');
    assert("gif"@.len() == 3 && "gif"@[0] == 'g');
    assert("thumbnail"@.len() == 9 && "thumbnail"@[0] == 't');
    assert("frames"@.len() == 6 && "frames"@[0] == 'f');
    assert("concat"@.len() == 6 && "concat"@[0] == 'c');
    assert("subtitles"@.len() == 9 && "subtitles"@[0] == 's');
    assert("image-convert"@.len() == 13 && "image-convert"@[0] == 'i');
    assert forall|i: int, j: int| 0 <= i < j < menu().len() implies (#[trigger] menu()[i]).id != (
    #[trigger] menu()[j]).id by {
        let a = menu()[i].id;
        let b = menu()[j].id;
        if a == b {
            assert(a.len() == b.len() && a[0] == b[0]);
        }
    }
}

/// Every operation of the menu is found again by its id.
pub proof fn law_ids_resolve(i: int)
    requires
        0 <= i < menu().len(),
    ensures
        position(menu(), menu()[i].id) == i,
{
    law_ids_unique();
    lemma_position(menu(), menu()[i].id, i);
}


// ---------------------------------------------------------------------------
// What every command has
// ---------------------------------------------------------------------------

/// The arguments that every command begins with.
pub open spec fn global_args() -> Seq<Seq<char>> {
    seq!["-hide_banner"@, "-y"@, "-progress"@, "pipe:1"@, "-nostats"@]
}

/// Whether a preliminary command runs the program, never asks on the terminal,
/// and needs nothing else to run.
pub open spec fn pass_sound(p: Pass, program: Seq<char>) -> bool {
    p.program == program && p.plain && p.args.len() >= 5 && p.args.take(5) == global_args()
}

/// Whether a command and its preliminary ones run the program and never ask on
/// the terminal.
pub open spec fn sound(c: Command, program: Seq<char>) -> bool {
    &&& c.program == program
    &&& c.working_dir is None
    &&& c.args.len() >= 5
    &&& c.args.take(5) == global_args()
    &&& forall|i: int| 0 <= i < c.pre.len() ==> pass_sound(#[trigger] c.pre[i], program)
}

broadcast proof fn lemma_sound_globals(program: Seq<char>)
    ensures
        #[trigger] sound(Command::new(program).globals(true), program),
{
    assert(Command::new(program).globals(true).args.take(5) =~= global_args());
}

broadcast proof fn lemma_sound_arg(c: Command, a: Seq<char>, program: Seq<char>)
    requires
        sound(c, program),
    ensures
        #[trigger] sound(c.arg(a), program),
{
    assert(c.arg(a).args.take(5) =~= c.args.take(5));
}

broadcast proof fn lemma_sound_flag_value(
    c: Command,
    flag: Seq<char>,
    value: Seq<char>,
    why: Seq<char>,
    program: Seq<char>,
)
    requires
        sound(c, program),
    ensures
        #[trigger] sound(c.flag_value(flag, value, why), program),
{
    assert(c.flag_value(flag, value, why).args.take(5) =~= c.args.take(5));
}

broadcast proof fn lemma_sound_note(
    c: Command,
    flag: Seq<char>,
    why: Seq<char>,
    program: Seq<char>,
)
    requires
        sound(c, program),
    ensures
        #[trigger] sound(c.note(flag, why), program),
{
}

broadcast proof fn lemma_sound_listing(c: Command, list: ListFile, program: Seq<char>)
    requires
        sound(c, program),
    ensures
        #[trigger] sound(c.listing(list), program),
{
}

broadcast proof fn lemma_sound_after(c: Command, pre: Command, program: Seq<char>)
    requires
        sound(c, program),
        sound(pre, program),
        pre.pre.len() == 0,
        pre.concat_list is None,
    ensures
        #[trigger] sound(c.after(pre.as_pass()), program),
{
}

broadcast group group_sound {
    lemma_sound_globals,
    lemma_sound_arg,
    lemma_sound_flag_value,
    lemma_sound_note,
    lemma_sound_listing,
    lemma_sound_after,
}

proof fn lemma_sound_reading(c: Command, inputs: Seq<Seq<char>>, program: Seq<char>)
    requires
        sound(c, program),
    ensures
        sound(reading(c, inputs), program),
    decreases inputs.len(),
{
    broadcast use group_sound;

    if inputs.len() > 0 {
        lemma_sound_reading(c, inputs.drop_last(), program);
    }
}

proof fn lemma_sound_cut(cut: Cut, clip: ClipRange, output: Seq<char>)
    ensures
        sound(cut_clip(cut, clip, output), cut.program),
        cut_clip(cut, clip, output).pre.len() == 0,
        cut_clip(cut, clip, output).concat_list is None,
{
    broadcast use group_sound;

}

proof fn lemma_sound_cutting(
    c: Command,
    cut: Cut,
    clips: Seq<ClipRange>,
    output: Seq<char>,
    ext: Seq<char>,
    n: nat,
)
    requires
        sound(c, cut.program),
    ensures
        sound(cutting(c, cut, clips, output, ext, n), cut.program),
    decreases n,
{
    if n > 0 {
        let i = (n - 1) as nat;
        lemma_sound_cutting(c, cut, clips, output, ext, i);
        let pre = cut_clip(cut, clips[i as int], clip_file(output, ext, i));
        lemma_sound_cut(cut, clips[i as int], clip_file(output, ext, i));
        lemma_sound_after(cutting(c, cut, clips, output, ext, i), pre, cut.program);
    }
}

/// Whether a command, if it was built, is sound, and its last argument is a
/// path that never reads as a flag.
pub open spec fn sound_outcome(o: Result<Command, Seq<char>>, program: Seq<char>) -> bool {
    o matches Ok(c) ==> {
        &&& sound(c, program)
        &&& exists|output: Seq<char>| c.args.last() == #[trigger] operand(output)
        &&& c.args.last().len() > 0 ==> c.args.last()[0] != '-'
    }
}

proof fn lemma_sound_convert(ctx: BuildContext)
    ensures
        sound_outcome(ConvertOp.command(ctx), ctx.program_text()),
{
    broadcast use group_sound;

}

proof fn lemma_sound_compress(ctx: BuildContext)
    ensures
        sound_outcome(CompressOp.command(ctx), ctx.program_text()),
{
    broadcast use group_sound;

}

proof fn lemma_sound_extract_audio(ctx: BuildContext)
    ensures
        sound_outcome(ExtractAudioOp.command(ctx), ctx.program_text()),
{
    broadcast use group_sound;

}

proof fn lemma_sound_resize(ctx: BuildContext)
    ensures
        sound_outcome(ResizeOp.command(ctx), ctx.program_text()),
{
    broadcast use group_sound;

}

proof fn lemma_sound_gif(ctx: BuildContext)
    ensures
        sound_outcome(GifOp.command(ctx), ctx.program_text()),
{
    broadcast use group_sound;

}

proof fn lemma_sound_thumbnail(ctx: BuildContext)
    ensures
        sound_outcome(ThumbnailOp.command(ctx), ctx.program_text()),
{
    broadcast use group_sound;

}

proof fn lemma_sound_frames(ctx: BuildContext)
    ensures
        sound_outcome(FramesOp.command(ctx), ctx.program_text()),
{
    broadcast use group_sound;

}

proof fn lemma_sound_subtitles(ctx: BuildContext)
    ensures
        sound_outcome(SubtitlesOp.command(ctx), ctx.program_text()),
{
    broadcast use group_sound;

}

proof fn lemma_sound_image_convert(ctx: BuildContext)
    ensures
        sound_outcome(ImageConvertOp.command(ctx), ctx.program_text()),
{
    broadcast use group_sound;

}

proof fn lemma_sound_concat(ctx: BuildContext)
    ensures
        sound_outcome(ConcatOp.command(ctx), ctx.program_text()),
{
    broadcast use group_sound;

    let program = ctx.program_text();
    let begun = Command::new(program).globals(true);
    lemma_sound_globals(program);
    lemma_sound_reading(begun, texts(ctx.inputs@), program);
}

proof fn lemma_sound_trim(ctx: BuildContext)
    ensures
        sound_outcome(TrimOp.command(ctx), ctx.program_text()),
{
    broadcast use group_sound;

    let program = ctx.program_text();
    let clips = by_start(ctx.clips@);
    let input = ctx.inputs@[0]@;
    let ext = kept_extension(input);
    let output = chosen_output(ctx.output_text(), output_name(input, "trimmed"@, ext));
    let cut = cut_of(ctx);
    let begun = Command::new(program).globals(true);
    lemma_sound_globals(program);
    lemma_sound_cut(cut, clips[0], output);
    lemma_sound_cutting(begun, cut, clips, output, ext, clips.len());
    let files = clip_files(output, ext, clips.len());
    let cuts = cutting(begun, cut, clips, output, ext, clips.len());
    lemma_sound_reading(cuts, files, program);
}

/// Every command that any operation builds, and every command that runs before
/// it, runs the resolved program and begins with the flags that keep FFmpeg
/// from asking on the terminal and make it report its progress. The last
/// argument is the output, and it never reads as a flag.
pub proof fn law_commands_are_sound(op: AnyOperation, ctx: BuildContext)
    ensures
        sound_outcome(op.command(ctx), ctx.program_text()),
{
    match op {
        AnyOperation::Convert(_) => {
            lemma_sound_convert(ctx);
        },
        AnyOperation::Compress(_) => {
            lemma_sound_compress(ctx);
        },
        AnyOperation::Trim(_) => {
            lemma_sound_trim(ctx);
        },
        AnyOperation::ExtractAudio(_) => {
            lemma_sound_extract_audio(ctx);
        },
        AnyOperation::Resize(_) => {
            lemma_sound_resize(ctx);
        },
        AnyOperation::Gif(_) => {
            lemma_sound_gif(ctx);
        },
        AnyOperation::Thumbnail(_) => {
            lemma_sound_thumbnail(ctx);
        },
        AnyOperation::Frames(_) => {
            lemma_sound_frames(ctx);
        },
        AnyOperation::Concat(_) => {
            lemma_sound_concat(ctx);
        },
        AnyOperation::Subtitles(_) => {
            lemma_sound_subtitles(ctx);
        },
        AnyOperation::ImageConvert(_) => {
            lemma_sound_image_convert(ctx);
        },
    }
}

// ---------------------------------------------------------------------------
// What every form has
// ---------------------------------------------------------------------------

/// Whether a form has rows, each of them steady.
pub open spec fn form_sound(v: Seq<Row>) -> bool {
    v.len() > 0 && all_steady(v)
}

proof fn lemma_form_convert(probe: Option<ProbeResult>, caps: Option<CapabilityReport>)
    ensures
        form_sound(ConvertOp.form(probe, caps)),
{
    broadcast use lemma_default_choice;

}

proof fn lemma_form_compress(probe: Option<ProbeResult>, caps: Option<CapabilityReport>)
    ensures
        form_sound(CompressOp.form(probe, caps)),
{
    broadcast use lemma_default_choice;

}

proof fn lemma_form_trim(probe: Option<ProbeResult>, caps: Option<CapabilityReport>)
    ensures
        form_sound(TrimOp.form(probe, caps)),
{
    broadcast use lemma_default_choice;

}

proof fn lemma_form_extract_audio(probe: Option<ProbeResult>, caps: Option<CapabilityReport>)
    ensures
        form_sound(ExtractAudioOp.form(probe, caps)),
{
    broadcast use lemma_default_choice;

}

proof fn lemma_form_resize(probe: Option<ProbeResult>, caps: Option<CapabilityReport>)
    ensures
        form_sound(ResizeOp.form(probe, caps)),
{
    broadcast use lemma_default_choice;

}

proof fn lemma_form_gif(probe: Option<ProbeResult>, caps: Option<CapabilityReport>)
    ensures
        form_sound(GifOp.form(probe, caps)),
{
    broadcast use lemma_default_choice;

}

proof fn lemma_form_thumbnail(probe: Option<ProbeResult>, caps: Option<CapabilityReport>)
    ensures
        form_sound(ThumbnailOp.form(probe, caps)),
{
    broadcast use lemma_default_choice;

}

proof fn lemma_form_frames(probe: Option<ProbeResult>, caps: Option<CapabilityReport>)
    ensures
        form_sound(FramesOp.form(probe, caps)),
{
    broadcast use lemma_default_choice;

}

proof fn lemma_form_concat(probe: Option<ProbeResult>, caps: Option<CapabilityReport>)
    ensures
        form_sound(ConcatOp.form(probe, caps)),
{
    broadcast use lemma_default_choice;

}

proof fn lemma_form_subtitles(probe: Option<ProbeResult>, caps: Option<CapabilityReport>)
    ensures
        form_sound(SubtitlesOp.form(probe, caps)),
{
    broadcast use lemma_default_choice;

}

proof fn lemma_form_image_convert(probe: Option<ProbeResult>, caps: Option<CapabilityReport>)
    ensures
        form_sound(ImageConvertOp.form(probe, caps)),
{
    broadcast use lemma_default_choice;

}

/// Every operation has a form, and every row of it can be stepped through its
/// whole range.
pub proof fn law_forms_are_sound(
    op: AnyOperation,
    probe: Option<ProbeResult>,
    caps: Option<CapabilityReport>,
)
    ensures
        form_sound(op.form(probe, caps)),
{
    match op {
        AnyOperation::Convert(_) => {
            lemma_form_convert(probe, caps);
        },
        AnyOperation::Compress(_) => {
            lemma_form_compress(probe, caps);
        },
        AnyOperation::Trim(_) => {
            lemma_form_trim(probe, caps);
        },
        AnyOperation::ExtractAudio(_) => {
            lemma_form_extract_audio(probe, caps);
        },
        AnyOperation::Resize(_) => {
            lemma_form_resize(probe, caps);
        },
        AnyOperation::Gif(_) => {
            lemma_form_gif(probe, caps);
        },
        AnyOperation::Thumbnail(_) => {
            lemma_form_thumbnail(probe, caps);
        },
        AnyOperation::Frames(_) => {
            lemma_form_frames(probe, caps);
        },
        AnyOperation::Concat(_) => {
            lemma_form_concat(probe, caps);
        },
        AnyOperation::Subtitles(_) => {
            lemma_form_subtitles(probe, caps);
        },
        AnyOperation::ImageConvert(_) => {
            lemma_form_image_convert(probe, caps);
        },
    }
}

} // verus!
