//! What the forms offer, and how that fits what the builders read.

use vstd::prelude::*;
use crate::ffmpeg::capabilities::CapabilityReport;
use crate::number::dec;
use crate::ops::compress::{
    compress_codecs, compress_form, resolution_choices, CompressOp,
};
use crate::ops::concat::{concat_form, shows, sounds, stream_kinds, ConcatOp};
use crate::ops::convert::{convert_codecs, convert_form, ConvertOp};
use crate::ops::fields::{
    entries, law_builders_see_what_forms_show, law_only_what_is_missing_is_greyed_out,
    law_the_first_usable_choice_is_the_default, row_values, BuildContext, Choice,
};
use crate::ops::frames::{frames_form, FramesOp};
use crate::ops::gif::{gif_form, GifOp};
use crate::ops::image_convert::width_choices;
use crate::ops::parts::{audio_codecs, need, video_codecs};
use crate::ops::resize::{resize_form, ResizeOp};
use crate::ops::subtitles::{subtitles_form, SubtitlesOp};
use crate::ops::thumbnail::{thumbnail_form, ThumbnailOp};
use crate::ops::trim::{trim_form, TrimOp};
use crate::ops::{AnyOperation, Operation};

verus! {

/// Whether two builds are about the same files and the same FFmpeg.
pub open spec fn alike(a: BuildContext, b: BuildContext) -> bool {
    a == (BuildContext { fields: a.fields, ..b })
}

/// A form that nobody touched builds the command of no form at all: every
/// field starts at the value that its builder takes a missing one for. Only the
/// two operations whose first format is another than that are left out.
pub proof fn law_untouched_forms_change_nothing(
    op: AnyOperation,
    fresh: BuildContext,
    bare: BuildContext,
)
    requires
        !(op is ExtractAudio) && !(op is ImageConvert),
        alike(fresh, bare),
        entries(fresh.fields@) == row_values(op.form(None, None)),
        bare.fields@.len() == 0,
    ensures
        op.command(fresh) == op.command(bare),
{
    match op {
        AnyOperation::Convert(_) => {
            lemma_untouched_convert(fresh, bare);
        },
        AnyOperation::Compress(_) => {
            lemma_untouched_compress(fresh, bare);
        },
        AnyOperation::Resize(_) => {
            lemma_untouched_resize(fresh, bare);
        },
        AnyOperation::Gif(_) => {
            lemma_untouched_gif(fresh, bare);
        },
        AnyOperation::Thumbnail(_) => {
            lemma_untouched_thumbnail(fresh, bare);
        },
        AnyOperation::Frames(_) => {
            lemma_untouched_frames(fresh, bare);
        },
        AnyOperation::Subtitles(_) => {
            lemma_untouched_subtitles(fresh, bare);
        },
        AnyOperation::Trim(_) => {
            lemma_untouched_trim(fresh, bare);
        },
        AnyOperation::Concat(_) => {
            lemma_untouched_concat(fresh, bare);
        },
        _ => {},
    }
}

proof fn lemma_untouched_convert(fresh: BuildContext, bare: BuildContext)
    requires
        alike(fresh, bare),
        entries(fresh.fields@) == row_values(convert_form(None, None)),
        bare.fields@.len() == 0,
    ensures
        ConvertOp.command(fresh) == ConvertOp.command(bare),
{
    let v = convert_form(None, None);
    reveal_strlit("format");
    reveal_strlit("video_codec");
    reveal_strlit("audio_codec");
    reveal_strlit("crf");
    reveal_strlit("faststart");
    reveal_strlit("output");
    assert(v[0].id == "format"@ && v[0].id.len() == 6 && v[0].id[0] == 'f' && v[0].id[5] == 't');
    assert(v[1].id == "video_codec"@ && v[1].id.len() == 11 && v[1].id[0] == 'v'
        && v[1].id[10] == 'c');
    assert(v[2].id == "audio_codec"@ && v[2].id.len() == 11 && v[2].id[0] == 'a'
        && v[2].id[10] == 'c');
    assert(v[3].id == "crf"@ && v[3].id.len() == 3 && v[3].id[0] == 'c' && v[3].id[2] == 'f');
    assert(v[4].id == "faststart"@ && v[4].id.len() == 9 && v[4].id[0] == 'f'
        && v[4].id[8] == 't');
    assert(v[5].id == "output"@ && v[5].id.len() == 6 && v[5].id[0] == 'o' && v[5].id[5] == 't');
    assert(v.len() == 6);
    assert forall|i: int, j: int| 0 <= i < v.len() && 0 <= j < v.len() && i != j implies (
    #[trigger] v[i]).id != (#[trigger] v[j]).id by {}
    assert(entries(bare.fields@).len() == 0);
    law_the_first_usable_choice_is_the_default(convert_codecs(None), 0);
    law_the_first_usable_choice_is_the_default(audio_codecs(None), 0);
    law_builders_see_what_forms_show(v, fresh, 0);
    law_builders_see_what_forms_show(v, fresh, 1);
    law_builders_see_what_forms_show(v, fresh, 2);
    law_builders_see_what_forms_show(v, fresh, 3);
    law_builders_see_what_forms_show(v, fresh, 4);
    law_builders_see_what_forms_show(v, fresh, 5);
}

proof fn lemma_untouched_compress(fresh: BuildContext, bare: BuildContext)
    requires
        alike(fresh, bare),
        entries(fresh.fields@) == row_values(compress_form(None, None)),
        bare.fields@.len() == 0,
    ensures
        CompressOp.command(fresh) == CompressOp.command(bare),
{
    let v = compress_form(None, None);
    reveal_strlit("video_codec");
    reveal_strlit("video_mode");
    reveal_strlit("crf");
    reveal_strlit("preset");
    reveal_strlit("audio_codec");
    reveal_strlit("audio_bitrate");
    reveal_strlit("resolution");
    reveal_strlit("output");
    assert(v[0].id == "video_codec"@ && v[0].id.len() == 11 && v[0].id[0] == 'v'
        && v[0].id[10] == 'c');
    assert(v[1].id == "video_mode"@ && v[1].id.len() == 10 && v[1].id[0] == 'v'
        && v[1].id[9] == 'e');
    assert(v[2].id == "crf"@ && v[2].id.len() == 3 && v[2].id[0] == 'c' && v[2].id[2] == 'f');
    assert(v[3].id == "preset"@ && v[3].id.len() == 6 && v[3].id[0] == 'p' && v[3].id[5] == 't');
    assert(v[4].id == "audio_codec"@ && v[4].id.len() == 11 && v[4].id[0] == 'a'
        && v[4].id[10] == 'c');
    assert(v[5].id == "audio_bitrate"@ && v[5].id.len() == 13 && v[5].id[0] == 'a'
        && v[5].id[12] == 'e');
    assert(v[6].id == "resolution"@ && v[6].id.len() == 10 && v[6].id[0] == 'r'
        && v[6].id[9] == 'n');
    assert(v[7].id == "output"@ && v[7].id.len() == 6 && v[7].id[0] == 'o' && v[7].id[5] == 't');
    assert(v.len() == 8);
    assert forall|i: int, j: int| 0 <= i < v.len() && 0 <= j < v.len() && i != j implies (
    #[trigger] v[i]).id != (#[trigger] v[j]).id by {}
    assert(entries(bare.fields@).len() == 0);
    law_the_first_usable_choice_is_the_default(compress_codecs(None), 0);
    law_the_first_usable_choice_is_the_default(audio_codecs(None), 0);
    law_builders_see_what_forms_show(v, fresh, 0);
    law_builders_see_what_forms_show(v, fresh, 1);
    law_builders_see_what_forms_show(v, fresh, 2);
    law_builders_see_what_forms_show(v, fresh, 3);
    law_builders_see_what_forms_show(v, fresh, 4);
    law_builders_see_what_forms_show(v, fresh, 5);
    law_builders_see_what_forms_show(v, fresh, 6);
    law_builders_see_what_forms_show(v, fresh, 7);
}

proof fn lemma_untouched_resize(fresh: BuildContext, bare: BuildContext)
    requires
        alike(fresh, bare),
        entries(fresh.fields@) == row_values(resize_form(None, None)),
        bare.fields@.len() == 0,
    ensures
        ResizeOp.command(fresh) == ResizeOp.command(bare),
{
    let v = resize_form(None, None);
    reveal_strlit("preset");
    reveal_strlit("custom_w");
    reveal_strlit("custom_h");
    reveal_strlit("aspect");
    reveal_strlit("crop");
    reveal_strlit("video_codec");
    reveal_strlit("crf");
    reveal_strlit("output");
    assert(v[0].id == "preset"@ && v[0].id.len() == 6 && v[0].id[0] == 'p' && v[0].id[5] == 't');
    assert(v[1].id == "custom_w"@ && v[1].id.len() == 8 && v[1].id[0] == 'c' && v[1].id[7] == 'w');
    assert(v[2].id == "custom_h"@ && v[2].id.len() == 8 && v[2].id[0] == 'c' && v[2].id[7] == 'h');
    assert(v[3].id == "aspect"@ && v[3].id.len() == 6 && v[3].id[0] == 'a' && v[3].id[5] == 't');
    assert(v[4].id == "crop"@ && v[4].id.len() == 4 && v[4].id[0] == 'c' && v[4].id[3] == 'p');
    assert(v[5].id == "video_codec"@ && v[5].id.len() == 11 && v[5].id[0] == 'v'
        && v[5].id[10] == 'c');
    assert(v[6].id == "crf"@ && v[6].id.len() == 3 && v[6].id[0] == 'c' && v[6].id[2] == 'f');
    assert(v[7].id == "output"@ && v[7].id.len() == 6 && v[7].id[0] == 'o' && v[7].id[5] == 't');
    assert(v.len() == 8);
    assert forall|i: int, j: int| 0 <= i < v.len() && 0 <= j < v.len() && i != j implies (
    #[trigger] v[i]).id != (#[trigger] v[j]).id by {}
    assert(entries(bare.fields@).len() == 0);
    reveal_strlit("custom");
    reveal_strlit("1280:-2");
    assert("custom"@[0] == 'c' && "1280:-2"@[0] == '1');
    law_the_first_usable_choice_is_the_default(video_codecs(None), 0);
    law_builders_see_what_forms_show(v, fresh, 0);
    law_builders_see_what_forms_show(v, fresh, 1);
    law_builders_see_what_forms_show(v, fresh, 2);
    law_builders_see_what_forms_show(v, fresh, 3);
    law_builders_see_what_forms_show(v, fresh, 4);
    law_builders_see_what_forms_show(v, fresh, 5);
    law_builders_see_what_forms_show(v, fresh, 6);
    law_builders_see_what_forms_show(v, fresh, 7);
}

proof fn lemma_untouched_gif(fresh: BuildContext, bare: BuildContext)
    requires
        alike(fresh, bare),
        entries(fresh.fields@) == row_values(gif_form(None, None)),
        bare.fields@.len() == 0,
    ensures
        GifOp.command(fresh) == GifOp.command(bare),
{
    let v = gif_form(None, None);
    reveal_strlit("fps");
    reveal_strlit("width");
    reveal_strlit("dither");
    reveal_strlit("loop");
    reveal_strlit("output");
    assert(v[0].id == "fps"@ && v[0].id.len() == 3 && v[0].id[0] == 'f' && v[0].id[2] == 's');
    assert(v[1].id == "width"@ && v[1].id.len() == 5 && v[1].id[0] == 'w' && v[1].id[4] == 'h');
    assert(v[2].id == "dither"@ && v[2].id.len() == 6 && v[2].id[0] == 'd' && v[2].id[5] == 'r');
    assert(v[3].id == "loop"@ && v[3].id.len() == 4 && v[3].id[0] == 'l' && v[3].id[3] == 'p');
    assert(v[4].id == "output"@ && v[4].id.len() == 6 && v[4].id[0] == 'o' && v[4].id[5] == 't');
    assert(v.len() == 5);
    assert forall|i: int, j: int| 0 <= i < v.len() && 0 <= j < v.len() && i != j implies (
    #[trigger] v[i]).id != (#[trigger] v[j]).id by {}
    assert(entries(bare.fields@).len() == 0);
    law_builders_see_what_forms_show(v, fresh, 0);
    law_builders_see_what_forms_show(v, fresh, 1);
    law_builders_see_what_forms_show(v, fresh, 2);
    law_builders_see_what_forms_show(v, fresh, 3);
    law_builders_see_what_forms_show(v, fresh, 4);
}

proof fn lemma_untouched_thumbnail(fresh: BuildContext, bare: BuildContext)
    requires
        alike(fresh, bare),
        entries(fresh.fields@) == row_values(thumbnail_form(None, None)),
        bare.fields@.len() == 0,
    ensures
        ThumbnailOp.command(fresh) == ThumbnailOp.command(bare),
{
    let v = thumbnail_form(None, None);
    reveal_strlit("timestamp");
    reveal_strlit("format");
    reveal_strlit("size");
    reveal_strlit("output");
    assert(v[0].id == "timestamp"@ && v[0].id.len() == 9 && v[0].id[0] == 't'
        && v[0].id[8] == 'p');
    assert(v[1].id == "format"@ && v[1].id.len() == 6 && v[1].id[0] == 'f' && v[1].id[5] == 't');
    assert(v[2].id == "size"@ && v[2].id.len() == 4 && v[2].id[0] == 's' && v[2].id[3] == 'e');
    assert(v[3].id == "output"@ && v[3].id.len() == 6 && v[3].id[0] == 'o' && v[3].id[5] == 't');
    assert(v.len() == 4);
    assert forall|i: int, j: int| 0 <= i < v.len() && 0 <= j < v.len() && i != j implies (
    #[trigger] v[i]).id != (#[trigger] v[j]).id by {}
    assert(entries(bare.fields@).len() == 0);
    law_builders_see_what_forms_show(v, fresh, 0);
    law_builders_see_what_forms_show(v, fresh, 1);
    law_builders_see_what_forms_show(v, fresh, 2);
    law_builders_see_what_forms_show(v, fresh, 3);
}

proof fn lemma_untouched_frames(fresh: BuildContext, bare: BuildContext)
    requires
        alike(fresh, bare),
        entries(fresh.fields@) == row_values(frames_form(None, None)),
        bare.fields@.len() == 0,
    ensures
        FramesOp.command(fresh) == FramesOp.command(bare),
{
    let v = frames_form(None, None);
    reveal_strlit("mode");
    reveal_strlit("value");
    reveal_strlit("format");
    reveal_strlit("pattern");
    reveal_strlit("output");
    assert(v[0].id == "mode"@ && v[0].id.len() == 4 && v[0].id[0] == 'm' && v[0].id[3] == 'e');
    assert(v[1].id == "value"@ && v[1].id.len() == 5 && v[1].id[0] == 'v' && v[1].id[4] == 'e');
    assert(v[2].id == "format"@ && v[2].id.len() == 6 && v[2].id[0] == 'f' && v[2].id[5] == 't');
    assert(v[3].id == "pattern"@ && v[3].id.len() == 7 && v[3].id[0] == 'p' && v[3].id[6] == 'n');
    assert(v[4].id == "output"@ && v[4].id.len() == 6 && v[4].id[0] == 'o' && v[4].id[5] == 't');
    assert(v.len() == 5);
    assert forall|i: int, j: int| 0 <= i < v.len() && 0 <= j < v.len() && i != j implies (
    #[trigger] v[i]).id != (#[trigger] v[j]).id by {}
    assert(entries(bare.fields@).len() == 0);
    law_builders_see_what_forms_show(v, fresh, 0);
    law_builders_see_what_forms_show(v, fresh, 1);
    law_builders_see_what_forms_show(v, fresh, 2);
    law_builders_see_what_forms_show(v, fresh, 3);
    law_builders_see_what_forms_show(v, fresh, 4);
}

proof fn lemma_untouched_subtitles(fresh: BuildContext, bare: BuildContext)
    requires
        alike(fresh, bare),
        entries(fresh.fields@) == row_values(subtitles_form(None, None)),
        bare.fields@.len() == 0,
    ensures
        SubtitlesOp.command(fresh) == SubtitlesOp.command(bare),
{
    let v = subtitles_form(None, None);
    reveal_strlit("subs");
    reveal_strlit("mode");
    reveal_strlit("video_codec");
    reveal_strlit("crf");
    reveal_strlit("output");
    assert(v[0].id == "subs"@ && v[0].id.len() == 4 && v[0].id[0] == 's' && v[0].id[3] == 's');
    assert(v[1].id == "mode"@ && v[1].id.len() == 4 && v[1].id[0] == 'm' && v[1].id[3] == 'e');
    assert(v[2].id == "video_codec"@ && v[2].id.len() == 11 && v[2].id[0] == 'v'
        && v[2].id[10] == 'c');
    assert(v[3].id == "crf"@ && v[3].id.len() == 3 && v[3].id[0] == 'c' && v[3].id[2] == 'f');
    assert(v[4].id == "output"@ && v[4].id.len() == 6 && v[4].id[0] == 'o' && v[4].id[5] == 't');
    assert(v.len() == 5);
    assert forall|i: int, j: int| 0 <= i < v.len() && 0 <= j < v.len() && i != j implies (
    #[trigger] v[i]).id != (#[trigger] v[j]).id by {}
    assert(entries(bare.fields@).len() == 0);
    law_the_first_usable_choice_is_the_default(video_codecs(None), 0);
    law_builders_see_what_forms_show(v, fresh, 0);
    law_builders_see_what_forms_show(v, fresh, 1);
    law_builders_see_what_forms_show(v, fresh, 2);
    law_builders_see_what_forms_show(v, fresh, 3);
    law_builders_see_what_forms_show(v, fresh, 4);
}

proof fn lemma_untouched_trim(fresh: BuildContext, bare: BuildContext)
    requires
        alike(fresh, bare),
        entries(fresh.fields@) == row_values(trim_form(None, None)),
        bare.fields@.len() == 0,
    ensures
        TrimOp.command(fresh) == TrimOp.command(bare),
{
    let v = trim_form(None, None);
    reveal_strlit("mode");
    reveal_strlit("video_codec");
    reveal_strlit("crf");
    reveal_strlit("output");
    assert(v[0].id == "mode"@ && v[0].id.len() == 4 && v[0].id[0] == 'm' && v[0].id[3] == 'e');
    assert(v[1].id == "video_codec"@ && v[1].id.len() == 11 && v[1].id[0] == 'v'
        && v[1].id[10] == 'c');
    assert(v[2].id == "crf"@ && v[2].id.len() == 3 && v[2].id[0] == 'c' && v[2].id[2] == 'f');
    assert(v[3].id == "output"@ && v[3].id.len() == 6 && v[3].id[0] == 'o' && v[3].id[5] == 't');
    assert(v.len() == 4);
    assert forall|i: int, j: int| 0 <= i < v.len() && 0 <= j < v.len() && i != j implies (
    #[trigger] v[i]).id != (#[trigger] v[j]).id by {}
    assert(entries(bare.fields@).len() == 0);
    law_the_first_usable_choice_is_the_default(video_codecs(None), 0);
    law_builders_see_what_forms_show(v, fresh, 0);
    law_builders_see_what_forms_show(v, fresh, 1);
    law_builders_see_what_forms_show(v, fresh, 2);
    law_builders_see_what_forms_show(v, fresh, 3);
}

proof fn lemma_untouched_concat(fresh: BuildContext, bare: BuildContext)
    requires
        alike(fresh, bare),
        entries(fresh.fields@) == row_values(concat_form(None, None)),
        bare.fields@.len() == 0,
    ensures
        ConcatOp.command(fresh) == ConcatOp.command(bare),
{
    let v = concat_form(None, None);
    reveal_strlit("method");
    reveal_strlit("output");
    assert(v[0].id == "method"@ && v[0].id.len() == 6 && v[0].id[0] == 'm' && v[0].id[5] == 'd');
    assert(v[1].id == "output"@ && v[1].id.len() == 6 && v[1].id[0] == 'o' && v[1].id[5] == 't');
    assert(v.len() == 2);
    assert forall|i: int, j: int| 0 <= i < v.len() && 0 <= j < v.len() && i != j implies (
    #[trigger] v[i]).id != (#[trigger] v[j]).id by {}
    assert(entries(bare.fields@).len() == 0);
    assert forall|i: int|
        #![trigger shows(fresh, i)]
        #![trigger shows(bare, i)]
        shows(fresh, i) == shows(bare, i) by {}
    assert forall|i: int|
        #![trigger sounds(fresh, i)]
        #![trigger sounds(bare, i)]
        sounds(fresh, i) == sounds(bare, i) by {}
    let n = fresh.inputs@.len() as int;
    assert((exists|i: int| 0 <= i < n && #[trigger] shows(fresh, i)) == (exists|i: int|
        0 <= i < n && #[trigger] shows(bare, i)));
    assert((exists|i: int| 0 <= i < n && #[trigger] sounds(fresh, i)) == (exists|i: int|
        0 <= i < n && #[trigger] sounds(bare, i)));
    assert(stream_kinds(fresh) == stream_kinds(bare));
    law_builders_see_what_forms_show(v, fresh, 0);
    law_builders_see_what_forms_show(v, fresh, 1);
}

/// Whether a size is what its label says: so many lines of a picture in sixteen
/// to nine, an even number of pixels wide, and as high as its shape makes it.
pub open spec fn sized_as_labelled(c: Choice, lines: nat, width: nat) -> bool {
    &&& c.label == dec(lines) + "p"@
    &&& c.value == dec(width) + ":-2"@
    &&& width % 2 == 0
    &&& -9 <= 9 * width - 16 * lines <= 9
}

/// The sizes on offer are as wide as their labels promise.
pub proof fn law_sizes_are_as_labelled()
    ensures
        sized_as_labelled(resolution_choices()[1], 1080, 1920),
        sized_as_labelled(resolution_choices()[2], 720, 1280),
        sized_as_labelled(resolution_choices()[3], 480, 854),
        forall|i: int|
            0 <= i < 3 ==> #[trigger] crate::ops::resize::size_choices()[i]
                == resolution_choices()[i + 1],
        forall|i: int|
            1 <= i < width_choices().len() ==> exists|w: nat|
                #![trigger dec(w)]
                w % 2 == 0 && (#[trigger] width_choices()[i]).label == dec(w) + " wide"@
                    && width_choices()[i].value == dec(w) + ":-2"@,
        forall|i: int|
            1 <= i < crate::ops::thumbnail::size_choices().len() ==> exists|w: nat|
                #![trigger dec(w)]
                w % 2 == 0 && (#[trigger] crate::ops::thumbnail::size_choices()[i]).label == dec(w)
                    + " wide"@ && crate::ops::thumbnail::size_choices()[i].value == dec(w)
                    + ":-2"@,
{
    reveal_with_fuel(dec, 5);
    reveal_strlit("1080p");
    reveal_strlit("720p");
    reveal_strlit("480p");
    reveal_strlit("p");
    reveal_strlit("1920:-2");
    reveal_strlit("1280:-2");
    reveal_strlit("854:-2");
    reveal_strlit("800:-2");
    reveal_strlit("640:-2");
    reveal_strlit(":-2");
    reveal_strlit(" wide");
    reveal_strlit("1920 wide");
    reveal_strlit("1280 wide");
    reveal_strlit("800 wide");
    reveal_strlit("640 wide");
    assert(dec(1080) =~= seq!['1', '0', '8', '0']);
    assert(dec(720) =~= seq!['7', '2', '0']);
    assert(dec(480) =~= seq!['4', '8', '0']);
    assert(dec(1920) =~= seq!['1', '9', '2', '0']);
    assert(dec(1280) =~= seq!['1', '2', '8', '0']);
    assert(dec(854) =~= seq!['8', '5', '4']);
    assert(dec(800) =~= seq!['8', '0', '0']);
    assert(dec(640) =~= seq!['6', '4', '0']);
    assert("1080p"@ =~= dec(1080) + "p"@ && "1920:-2"@ =~= dec(1920) + ":-2"@);
    assert("720p"@ =~= dec(720) + "p"@ && "1280:-2"@ =~= dec(1280) + ":-2"@);
    assert("480p"@ =~= dec(480) + "p"@ && "854:-2"@ =~= dec(854) + ":-2"@);
    assert("1920 wide"@ =~= dec(1920) + " wide"@ && "1280 wide"@ =~= dec(1280) + " wide"@);
    assert("800 wide"@ =~= dec(800) + " wide"@ && "800:-2"@ =~= dec(800) + ":-2"@);
    assert("640 wide"@ =~= dec(640) + " wide"@ && "640:-2"@ =~= dec(640) + ":-2"@);
}

/// The choice of an encoder is greyed out exactly when the build is known to
/// lack that encoder.
pub proof fn law_missing_encoders_are_greyed_out(c: CapabilityReport)
    ensures
        compress_codecs(Some(c))[0].enabled == c.encoders@.contains("libx264"@),
        compress_codecs(Some(c))[1].enabled == c.encoders@.contains("libx265"@),
        compress_codecs(Some(c))[2].enabled == c.encoders@.contains("h264_nvenc"@),
        video_codecs(Some(c))[0].enabled == c.encoders@.contains("libx264"@),
        video_codecs(Some(c))[1].enabled == c.encoders@.contains("libx265"@),
        convert_codecs(Some(c))[0].enabled == c.encoders@.contains("libx264"@),
        convert_codecs(Some(c))[1].enabled == c.encoders@.contains("libx265"@),
        convert_codecs(Some(c))[2].enabled,
        audio_codecs(Some(c))[0].enabled == c.encoders@.contains("aac"@),
        audio_codecs(Some(c))[1].enabled == c.encoders@.contains("libopus"@),
        audio_codecs(Some(c))[2].enabled,
        forall|i: int|
            0 <= i < 3 ==> (#[trigger] compress_codecs(Some(c))[i]).value == compress_codecs(None)[i].value
                && compress_codecs(None)[i].enabled,
        forall|i: int|
            0 <= i < 2 ==> (#[trigger] video_codecs(Some(c))[i]).value == video_codecs(None)[i].value
                && video_codecs(None)[i].enabled,
        forall|i: int|
            0 <= i < 3 ==> (#[trigger] audio_codecs(Some(c))[i]).value == audio_codecs(None)[i].value
                && audio_codecs(None)[i].enabled,
{
    reveal_strlit("libx264");
    reveal_strlit("libx265");
    reveal_strlit("h264_nvenc");
    reveal_strlit("copy");
    reveal_strlit("aac");
    reveal_strlit("libopus");
    assert("libx264"@[6] == '4' && "libx265"@[6] == '5');
    assert("h264_nvenc"@.len() == 10 && "libx264"@.len() == 7 && "copy"@.len() == 4 && "aac"@.len()
        == 3 && "libopus"@.len() == 7 && "libx264"@[3] == 'x' && "libopus"@[3] == 'o');
    let a = compress_codecs(None);
    let b = need(a, "libx264"@, "libx264"@, Some(c));
    let d = need(b, "libx265"@, "libx265"@, Some(c));
    lemma_greyed(a, 0, c);
    lemma_greyed(b, 1, c);
    lemma_greyed(d, 2, c);
    let v = video_codecs(None);
    let w = need(v, "libx264"@, "libx264"@, Some(c));
    lemma_greyed(v, 0, c);
    lemma_greyed(w, 1, c);
    let x = convert_codecs(None);
    let y = need(x, "libx264"@, "libx264"@, Some(c));
    lemma_greyed(x, 0, c);
    lemma_greyed(y, 1, c);
    let p = audio_codecs(None);
    let q = need(p, "aac"@, "aac"@, Some(c));
    lemma_greyed(p, 0, c);
    lemma_greyed(q, 1, c);
}

proof fn lemma_greyed(v: Seq<Choice>, i: int, c: CapabilityReport)
    requires
        0 <= i < v.len(),
        forall|j: int| 0 <= j < i ==> (#[trigger] v[j]).value != v[i].value,
        v[i].enabled,
    ensures
        need(v, v[i].value, v[i].value, Some(c)).len() == v.len(),
        need(v, v[i].value, v[i].value, Some(c))[i].enabled == c.encoders@.contains(v[i].value),
        need(v, v[i].value, v[i].value, Some(c))[i].value == v[i].value,
        forall|j: int|
            0 <= j < v.len() && j != i ==> #[trigger] need(v, v[i].value, v[i].value, Some(c))[j]
                == v[j],
{
    law_only_what_is_missing_is_greyed_out(
        v,
        v[i].value,
        c.encoders@.contains(v[i].value),
        true,
        i,
    );
}

} // verus!
