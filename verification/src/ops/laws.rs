//! What each operation does with what was chosen, read off the finished command.

use vstd::prelude::*;
use crate::ffmpeg::builder::{chosen_output, operand, or_else, output_name, Command};
use crate::ffmpeg::capabilities::CapabilityReport;
use crate::ffmpeg::probe::{is_audio, odd_sized, ProbeResult, StreamInfo};
use crate::ffmpeg::reading::{
    given, given_ahead, group_reading, lemma_closed, lemma_flags, lemma_globals, whole, written,
};
use crate::number::{dec, dec_int, law_integers_read_back, read_nat};
use crate::ops::compress::{compress_audio, compress_video, CompressOp};
use crate::ops::convert::{convert_audio, convert_index, convert_video, ConvertOp};
use crate::ops::extract_audio::{
    audio_tracks, extract_codec, target, track, track_choices, ExtractAudioOp,
};
use crate::ops::fields::{BuildContext, Control};
use crate::ops::frames::{frame_filter, frames_output, numeric, typed_pattern, FramesOp};
use crate::ops::gif::{gif_fps, gif_scale, palette_path, GifOp};
use crate::ops::image_convert::{
    image_encoder, jpeg_scale, quality_flag, quality_in, ImageConvertOp,
};
use crate::ops::parts::{kept_extension, started};
use crate::ops::resize::{resize_filter, scale_of, ResizeOp};
use crate::ops::subtitles::{filter_path, SubtitlesOp};
use crate::ops::thumbnail::ThumbnailOp;
use crate::ops::trim::{by_start, cut_clip, cut_of, joined_cuts, TrimOp};
use crate::ops::{AnyOperation, Operation};
use crate::path::{beside, extension, file_stem, tidy};
use crate::text::{begins, has, lowered, occurs_at, replaced, trimmed};

verus! {

/// Whether a command gives a flag exactly this value.
pub open spec fn sets(args: Seq<Seq<char>>, flag: Seq<char>, value: Seq<char>) -> bool {
    given(args, flag) == seq![value]
}

/// Whether a command does not give a flag.
pub open spec fn omits(args: Seq<Seq<char>>, flag: Seq<char>) -> bool {
    given(args, flag).len() == 0
}

/// What a command that has opened one input sets.
proof fn lemma_started(program: Seq<char>, input: Seq<char>)
    ensures
        whole(started(program, input).args),
        given(started(program, input).args, "-i"@) == seq![operand(input)],
        forall|flag: Seq<char>|
            flag != "-i"@ && flag != "-progress"@ ==> #[trigger] given(
                started(program, input).args,
                flag,
            ) == Seq::<Seq<char>>::empty(),
        written(started(program, input).args) == Seq::<Seq<char>>::empty(),
{
    broadcast use group_reading;

    lemma_flags();
    lemma_globals(program);
    let a = Command::new(program).globals(true).args;
    assert(started(program, input).args == a.push("-i"@).push(operand(input)));
    assert(given(a, "-i"@).push(operand(input)) =~= seq![operand(input)]);
}

/// Compressing reads the first input and does to it what was chosen. Copied
/// video has no quality, preset or scaling. Re-encoded video has the chosen
/// encoder and quality, a preset where the encoder takes one, and the chosen
/// size; where none was chosen it is scaled only if it has an odd side. Copied
/// audio has no bit rate, and other audio the chosen encoder and rate.
pub proof fn law_compressing_follows_the_form(ctx: BuildContext)
    requires
        ctx.inputs@.len() > 0,
    ensures
        CompressOp.command(ctx) matches Ok(c) && {
            let a = c.args;
            let codec = ctx.text_at("video_codec"@, "libx264"@);
            let size = ctx.text_at("resolution"@, ""@);
            let sound = ctx.text_at("audio_codec"@, "aac"@);
            let quality = dec_int(ctx.int_at("crf"@, 23));
            &&& whole(a)
            &&& c.pre.len() == 0
            &&& sets(a, "-i"@, operand(ctx.inputs@[0]@))
            &&& if ctx.toggle_at("video_mode"@, 0) == 1 {
                &&& sets(a, "-c:v"@, "copy"@)
                &&& omits(a, "-crf"@) && omits(a, "-cq"@) && omits(a, "-preset"@) && omits(a, "-vf"@)
            } else {
                &&& sets(a, "-c:v"@, codec)
                &&& if codec == "h264_nvenc"@ {
                    sets(a, "-cq"@, quality) && omits(a, "-crf"@) && omits(a, "-preset"@)
                } else {
                    &&& sets(a, "-crf"@, quality) && omits(a, "-cq"@)
                    &&& sets(a, "-preset"@, ctx.text_at("preset"@, "medium"@))
                }
                &&& if size.len() > 0 {
                    sets(a, "-vf"@, "scale="@ + size)
                } else if odd_sized(ctx.probed()) {
                    sets(a, "-vf"@, "scale="@ + "trunc(iw/2)*2:trunc(ih/2)*2"@)
                } else {
                    omits(a, "-vf"@)
                }
            }
            &&& sets(a, "-c:a"@, sound)
            &&& if sound == "copy"@ {
                omits(a, "-b:a"@)
            } else {
                sets(a, "-b:a"@, ctx.text_at("audio_bitrate"@, "128k"@))
            }
            &&& omits(a, "-map"@)
        },
{
    broadcast use group_reading;

    lemma_flags();
    let input = ctx.inputs@[0]@;
    lemma_started(ctx.program_text(), input);
    let output = chosen_output(
        ctx.output_text(),
        output_name(
            input,
            "compressed"@,
            kept_extension(input),
        ),
    );
    let video = compress_video(started(ctx.program_text(), input), ctx);
    let done = compress_audio(video, ctx);
    assert(whole(video.args));
    assert(whole(done.args));
    lemma_closed(done.args, output);
}

/// Sizes, encoders, qualities and presets that differ show in the command.
pub proof fn law_compressing_tells_choices_apart(a: BuildContext, b: BuildContext)
    requires
        a.inputs@.len() > 0,
        b.inputs@.len() > 0,
        a.toggle_at("video_mode"@, 0) != 1,
        b.toggle_at("video_mode"@, 0) != 1,
        CompressOp.command(a)->Ok_0.args == CompressOp.command(b)->Ok_0.args,
    ensures
        operand(a.inputs@[0]@) == operand(b.inputs@[0]@),
        a.text_at("video_codec"@, "libx264"@) == b.text_at("video_codec"@, "libx264"@),
        a.int_at("crf"@, 23) == b.int_at("crf"@, 23),
        a.text_at("video_codec"@, "libx264"@) != "h264_nvenc"@ ==> a.text_at("preset"@, "medium"@)
            == b.text_at("preset"@, "medium"@),
        a.text_at("resolution"@, ""@).len() > 0 && b.text_at("resolution"@, ""@).len() > 0
            ==> a.text_at("resolution"@, ""@) == b.text_at("resolution"@, ""@),
        a.text_at("audio_codec"@, "aac"@) == b.text_at("audio_codec"@, "aac"@),
        a.text_at("audio_codec"@, "aac"@) != "copy"@ ==> a.text_at("audio_bitrate"@, "128k"@)
            == b.text_at("audio_bitrate"@, "128k"@),
{
    law_compressing_follows_the_form(a);
    law_compressing_follows_the_form(b);
    law_integers_read_back(a.int_at("crf"@, 23));
    let args = CompressOp.command(a)->Ok_0.args;
    lemma_one(operand(a.inputs@[0]@), operand(b.inputs@[0]@));
    lemma_one(a.text_at("video_codec"@, "libx264"@), b.text_at("video_codec"@, "libx264"@));
    lemma_one(dec_int(a.int_at("crf"@, 23)), dec_int(b.int_at("crf"@, 23)));
    lemma_one(a.text_at("preset"@, "medium"@), b.text_at("preset"@, "medium"@));
    lemma_one(a.text_at("audio_codec"@, "aac"@), b.text_at("audio_codec"@, "aac"@));
    lemma_one(a.text_at("audio_bitrate"@, "128k"@), b.text_at("audio_bitrate"@, "128k"@));
    let s = a.text_at("resolution"@, ""@);
    let t = b.text_at("resolution"@, ""@);
    lemma_one("scale="@ + s, "scale="@ + t);
    lemma_behind("scale="@, s, t);
}

/// Lists of one are told apart by what they hold.
proof fn lemma_one(x: Seq<char>, y: Seq<char>)
    ensures
        seq![x] == seq![y] ==> x == y,
{
    assert(seq![x][0] == x);
    assert(seq![y][0] == y);
}

/// Texts with the same beginning are told apart by their ends.
proof fn lemma_behind(p: Seq<char>, x: Seq<char>, y: Seq<char>)
    ensures
        p + x == p + y ==> x == y,
{
    assert((p + x).skip(p.len() as int) =~= x);
    assert((p + y).skip(p.len() as int) =~= y);
}

// ---------------------------------------------------------------------------
// Extracting audio
// ---------------------------------------------------------------------------

/// Whether audio is passed through as it is.
pub open spec fn sound_copied(args: Seq<Seq<char>>) -> bool {
    sets(args, "-c:a"@, "copy"@) && omits(args, "-b:a"@)
}

/// Extracting takes the chosen track of the first input, and refuses a file
/// that is known to have no audio. Each format has its encoder, with the chosen
/// bit rate where the encoder is lossy; audio that already has the format's
/// codec is passed through, and so is any when a copy is asked for.
pub proof fn law_extracting_follows_the_form(ctx: BuildContext)
    requires
        ctx.inputs@.len() > 0,
    ensures
        ExtractAudioOp.command(ctx) is Err <==> (ctx.probed() matches Some(p) && !p.sounded()),
        ExtractAudioOp.command(ctx) matches Ok(c) ==> {
            let a = c.args;
            let format = ctx.text_at("format"@, "m4a"@);
            let rate = ctx.text_at("bitrate"@, "128k"@);
            let codec = match ctx.probed() {
                Some(p) => p.acodec(),
                None => None,
            };
            &&& whole(a)
            &&& c.pre.len() == 0
            &&& sets(a, "-i"@, operand(ctx.inputs@[0]@))
            &&& sets(a, "-map"@, "0:a:"@ + ctx.text_at("track"@, "0"@))
            &&& omits(a, "-c:v"@) && omits(a, "-vf"@)
            &&& format == "copy"@ ==> sound_copied(a)
            &&& format == "mp3"@ ==> if codec == Some("mp3"@) {
                sound_copied(a)
            } else {
                sets(a, "-c:a"@, "libmp3lame"@) && sets(a, "-b:a"@, rate)
            }
            &&& format == "opus"@ ==> if codec == Some("opus"@) {
                sound_copied(a)
            } else {
                sets(a, "-c:a"@, "libopus"@) && sets(a, "-b:a"@, rate)
            }
            &&& format == "m4a"@ ==> if codec == Some("aac"@) {
                sound_copied(a)
            } else {
                sets(a, "-c:a"@, "aac"@) && sets(a, "-b:a"@, rate)
            }
            &&& format == "flac"@ ==> if codec == Some("flac"@) {
                sound_copied(a)
            } else {
                sets(a, "-c:a"@, "flac"@) && omits(a, "-b:a"@)
            }
            &&& format == "wav"@ ==> if codec == Some("pcm_s16le"@) {
                sound_copied(a)
            } else {
                sets(a, "-c:a"@, "pcm_s16le"@) && omits(a, "-b:a"@)
            }
        },
{
    broadcast use group_reading;

    lemma_flags();
    reveal_strlit("mp3");
    reveal_strlit("opus");
    reveal_strlit("m4a");
    reveal_strlit("flac");
    reveal_strlit("wav");
    reveal_strlit("copy");
    reveal_strlit("libmp3lame");
    reveal_strlit("libopus");
    reveal_strlit("aac");
    reveal_strlit("pcm_s16le");
    assert("mp3"@[1] == 'p' && "m4a"@[1] == '4' && "wav"@[1] == 'a' && "aac"@[2] == 'c');
    assert("opus"@[0] == 'o' && "flac"@[0] == 'f' && "copy"@[0] == 'c');
    let input = ctx.inputs@[0]@;
    lemma_started(ctx.program_text(), input);
    let output = chosen_output(
        ctx.output_text(),
        output_name(input, "audio"@, target(ctx.text_at("format"@, "m4a"@)).0),
    );
    let mapped = started(ctx.program_text(), input).flag_value(
        "-map"@,
        "0:a:"@ + ctx.text_at("track"@, "0"@),
        "Select the audio stream to extract."@,
    );
    let done = extract_codec(mapped, ctx);
    assert(whole(mapped.args));
    assert(whole(done.args));
    lemma_closed(done.args, output);
}

/// Different tracks make different commands.
pub proof fn law_extracting_tells_tracks_apart(a: BuildContext, b: BuildContext)
    requires
        a.inputs@.len() > 0,
        b.inputs@.len() > 0,
        ExtractAudioOp.command(a) is Ok,
        ExtractAudioOp.command(b) is Ok,
        a.text_at("track"@, "0"@) != b.text_at("track"@, "0"@),
    ensures
        ExtractAudioOp.command(a)->Ok_0.args != ExtractAudioOp.command(b)->Ok_0.args,
{
    law_extracting_follows_the_form(a);
    law_extracting_follows_the_form(b);
    let s = a.text_at("track"@, "0"@);
    let t = b.text_at("track"@, "0"@);
    lemma_behind("0:a:"@, s, t);
    lemma_one("0:a:"@ + s, "0:a:"@ + t);
}

/// How many audio streams there are.
pub open spec fn audio_count(v: Seq<StreamInfo>) -> nat
    decreases v.len(),
{
    if v.len() == 0 {
        0
    } else {
        audio_count(v.drop_last()) + (if is_audio(v.last()) {
            1nat
        } else {
            0
        })
    }
}

proof fn lemma_audio_tracks(v: Seq<StreamInfo>, i: int)
    requires
        0 <= i < v.len(),
        is_audio(v[i]),
    ensures
        audio_tracks(v).len() == audio_count(v),
        audio_count(v.take(i)) < audio_count(v),
        audio_tracks(v)[audio_count(v.take(i)) as int] == track(audio_count(v.take(i)), v[i]),
    decreases v.len(),
{
    let front = v.drop_last();
    lemma_audio_count(front);
    if i == v.len() - 1 {
        assert(v.take(i) =~= front);
    } else {
        assert(front.take(i) =~= v.take(i));
        lemma_audio_tracks(front, i);
    }
}

proof fn lemma_audio_count(v: Seq<StreamInfo>)
    ensures
        audio_tracks(v).len() == audio_count(v),
    decreases v.len(),
{
    if v.len() > 0 {
        lemma_audio_count(v.drop_last());
    }
}

/// Choosing an audio stream extracts that stream: the form offers one track per
/// audio stream, in order, each with its number counted from zero as its value
/// and its codec in its label, and the number is what the command maps.
pub proof fn law_each_track_can_be_extracted(
    probe: ProbeResult,
    caps: Option<CapabilityReport>,
    ctx: BuildContext,
    i: int,
)
    requires
        0 <= i < probe.streams@.len(),
        is_audio(probe.streams@[i]),
        ctx.inputs@.len() > 0,
        ctx.probed() == Some(probe),
    ensures
        ({
            let form = ExtractAudioOp.form(Some(probe), caps);
            let k = audio_count(probe.streams@.take(i));
            exists|r: int|
                0 <= r < form.len() && (#[trigger] form[r]).id == "track"@ && (
                form[r].control matches Control::Select { options, .. } && {
                    &&& options.len() == audio_count(probe.streams@)
                    &&& k < options.len()
                    &&& options[k as int].enabled
                    &&& probe.streams@[i].codec_name matches Some(name) ==> has(
                        options[k as int].label,
                        name@,
                    )
                    &&& ctx.text_at("track"@, "0"@) == options[k as int].value ==> (
                    ExtractAudioOp.command(ctx) matches Ok(c) ==> sets(
                        c.args,
                        "-map"@,
                        "0:a:"@ + dec(k),
                    ))
                })
        }),
{
    let v = probe.streams@;
    let k = audio_count(v.take(i));
    lemma_audio_tracks(v, i);
    law_extracting_follows_the_form(ctx);
    let form = ExtractAudioOp.form(Some(probe), caps);
    let options = track_choices(Some(probe));
    assert(form[1].id == "track"@ && form[1].control == Control::Select { options, selected: 0 });
    let s = v[i];
    let lang = match s.language {
        Some(l) => ", "@ + l@,
        None => ""@,
    };
    if s.codec_name is Some {
        let name = s.codec_name->0@;
        let head = "Track "@ + dec(k + 1) + " ("@;
        let label = options[k as int].label;
        assert(label =~= head + name + lang + ")"@);
        assert(label.subrange(head.len() as int, (head.len() + name.len()) as int) =~= name);
        assert(occurs_at(label, name, head.len() as int));
    }
}

// ---------------------------------------------------------------------------
// Converting
// ---------------------------------------------------------------------------

/// Converting reads the first input and gives it the chosen encoders. Copied
/// video has no quality. The index moves to the front only where the container
/// has one and nobody switched that off.
pub proof fn law_converting_follows_the_form(ctx: BuildContext)
    requires
        ctx.inputs@.len() > 0,
    ensures
        ConvertOp.command(ctx) matches Ok(c) && {
            let a = c.args;
            let format = ctx.text_at("format"@, "mp4"@);
            let codec = ctx.text_at("video_codec"@, "libx264"@);
            &&& whole(a)
            &&& c.pre.len() == 0
            &&& sets(a, "-i"@, operand(ctx.inputs@[0]@))
            &&& sets(a, "-c:v"@, codec)
            &&& if codec == "copy"@ {
                omits(a, "-crf"@)
            } else {
                sets(a, "-crf"@, dec_int(ctx.int_at("crf"@, 23)))
            }
            &&& sets(a, "-c:a"@, ctx.text_at("audio_codec"@, "aac"@))
            &&& if (format == "mp4"@ || format == "mov"@) && ctx.toggle_at("faststart"@, 0) == 0 {
                sets(a, "-movflags"@, "+faststart"@)
            } else {
                omits(a, "-movflags"@)
            }
            &&& omits(a, "-vf"@) && omits(a, "-map"@)
        },
{
    broadcast use group_reading;

    lemma_flags();
    let input = ctx.inputs@[0]@;
    lemma_started(ctx.program_text(), input);
    let output = chosen_output(
        ctx.output_text(),
        output_name(input, "converted"@, ctx.text_at("format"@, "mp4"@)),
    );
    let video = convert_video(started(ctx.program_text(), input), ctx);
    let sound = convert_audio(video, ctx);
    let done = convert_index(sound, ctx);
    assert(whole(video.args));
    assert(whole(sound.args));
    assert(whole(done.args));
    lemma_closed(done.args, output);
}

// ---------------------------------------------------------------------------
// Resizing
// ---------------------------------------------------------------------------

/// Resizing scales the first input to the chosen size, behind a square crop
/// where one is wanted, and copies the audio. Of a custom size a side that was
/// left empty follows from the other; with both empty, or one where the picture
/// is to be stretched, there is no command.
pub proof fn law_resizing_follows_the_form(ctx: BuildContext)
    requires
        ctx.inputs@.len() > 0,
    ensures
        ({
            let size = ctx.text_at("preset"@, "1280:-2"@);
            let w = trimmed(ctx.text_at("custom_w"@, ""@));
            let h = trimmed(ctx.text_at("custom_h"@, ""@));
            let custom = size == "custom"@;
            let stretched = ctx.toggle_at("aspect"@, 0) == 1;
            let crop = if ctx.text_at("crop"@, ""@) == "square"@ {
                "crop=min(iw\\,ih):min(iw\\,ih),scale="@
            } else {
                "scale="@
            };
            &&& ResizeOp.command(ctx) is Err <==> custom && ((w.len() == 0 && h.len() == 0) || (
            stretched && (w.len() == 0 || h.len() == 0)))
            &&& ResizeOp.command(ctx) matches Ok(c) ==> {
                let a = c.args;
                &&& whole(a)
                &&& c.pre.len() == 0
                &&& sets(a, "-i"@, operand(ctx.inputs@[0]@))
                &&& !custom ==> sets(a, "-vf"@, crop + size)
                &&& custom && w.len() > 0 && h.len() > 0 ==> sets(a, "-vf"@, crop + (w + ":"@ + h))
                &&& custom && w.len() == 0 ==> sets(a, "-vf"@, crop + ("-2"@ + ":"@ + h))
                &&& custom && h.len() == 0 ==> sets(a, "-vf"@, crop + (w + ":"@ + "-2"@))
                &&& sets(a, "-c:v"@, ctx.text_at("video_codec"@, "libx264"@))
                &&& sets(a, "-crf"@, dec_int(ctx.int_at("crf"@, 23)))
                &&& sets(a, "-c:a"@, "copy"@)
            }
        }),
{
    broadcast use group_reading;

    lemma_flags();
    let input = ctx.inputs@[0]@;
    lemma_started(ctx.program_text(), input);
    if ResizeOp.command(ctx) is Ok {
        let c = ResizeOp.command(ctx)->Ok_0;
        let output = chosen_output(
            ctx.output_text(),
            output_name(input, "resized"@, kept_extension(input)),
        );
        let body = c.args.drop_last();
        assert(body.push(operand(output)) =~= c.args);
        let a = started(ctx.program_text(), input).args;
        let filter = resize_filter(ctx, scale_of(ctx)->Ok_0);
        let codec = ctx.text_at("video_codec"@, "libx264"@);
        let crf = dec_int(ctx.int_at("crf"@, 23));
        assert(body =~= a.push("-vf"@).push(filter).push("-c:v"@).push(codec).push("-crf"@).push(
            crf,
        ).push("-c:a"@).push("copy"@));
        assert(whole(body));
        lemma_closed(body, output);
    }
}

// ---------------------------------------------------------------------------
// Thumbnails
// ---------------------------------------------------------------------------

/// A thumbnail is one frame at the chosen instant, sought before the input is
/// opened, and scaled only where a size was chosen.
pub proof fn law_thumbnails_follow_the_form(ctx: BuildContext)
    requires
        ctx.inputs@.len() > 0,
    ensures
        ThumbnailOp.command(ctx) matches Ok(c) && {
            let a = c.args;
            let size = ctx.text_at("size"@, ""@);
            let at = trimmed(ctx.text_at("timestamp"@, "00:00:01"@));
            &&& whole(a)
            &&& c.pre.len() == 0
            &&& sets(a, "-i"@, operand(ctx.inputs@[0]@))
            &&& sets(a, "-ss"@, at)
            &&& given_ahead(a, "-ss"@) == seq![at]
            &&& sets(a, "-frames:v"@, "1"@)
            &&& if size.len() > 0 {
                sets(a, "-vf"@, "scale="@ + size)
            } else {
                omits(a, "-vf"@)
            }
        },
{
    broadcast use group_reading;

    lemma_flags();
    lemma_globals(ctx.program_text());
    let input = ctx.inputs@[0]@;
    let size = ctx.text_at("size"@, ""@);
    let output = chosen_output(
        ctx.output_text(),
        output_name(input, "thumb"@, ctx.text_at("format"@, "png"@)),
    );
    let c = ThumbnailOp.command(ctx)->Ok_0;
    let body = c.args.drop_last();
    let at = trimmed(ctx.text_at("timestamp"@, "00:00:01"@));
    let g = Command::new(ctx.program_text()).globals(true).args;
    let one = g.push("-ss"@).push(at).push("-i"@).push(operand(input)).push("-frames:v"@).push(
        "1"@,
    );
    assert(whole(one));
    assert(given(g, "-i"@).len() == 0);
    assert(given_ahead(g, "-ss"@) =~= Seq::<Seq<char>>::empty());
    if size.len() > 0 {
        assert(body =~= one.push("-vf"@).push("scale="@ + size));
    } else {
        assert(body =~= one);
    }
    assert(body.push(operand(output)) =~= c.args);
    assert(whole(body));
    lemma_closed(body, output);
}

// ---------------------------------------------------------------------------
// Frames
// ---------------------------------------------------------------------------

/// Frames are taken at the chosen rate, or every N-th one for a whole N of at
/// least one; anything else is refused. The name of what is written always
/// holds a number, so no frame overwrites another.
pub proof fn law_frames_follow_the_form(ctx: BuildContext)
    requires
        ctx.inputs@.len() > 0,
    ensures
        ({
            let value = trimmed(ctx.text_at("value"@, "1"@));
            let nth = ctx.toggle_at("mode"@, 0) == 1;
            &&& value.len() == 0 ==> FramesOp.command(ctx) is Err
            &&& !numeric(value) ==> FramesOp.command(ctx) is Err
            &&& nth && (read_nat(value, u64::MAX as nat) is None || read_nat(
                value,
                u64::MAX as nat,
            ) == Some(0nat)) ==> FramesOp.command(ctx) is Err
            &&& !ctx.text_at("pattern"@, "{stem}_frame_%04d"@).contains('%') && (file_stem(
                ctx.inputs@[0]@,
            ) matches Some(s) && !s.contains('%')) ==> FramesOp.command(ctx) is Err
            &&& FramesOp.command(ctx) matches Ok(c) ==> {
                let a = c.args;
                &&& whole(a)
                &&& c.pre.len() == 0
                &&& sets(a, "-i"@, operand(ctx.inputs@[0]@))
                &&& !nth ==> sets(a, "-vf"@, "fps="@ + value)
                &&& nth ==> (read_nat(value, u64::MAX as nat) matches Some(n) && n > 0 && sets(
                    a,
                    "-vf"@,
                    "select=not(mod(n\\,"@ + dec(n) + ")),setpts=N/FRAME_RATE/TB"@,
                ))
                &&& written(a).len() == 1
                &&& written(a)[0].contains('%')
            }
        }),
{
    broadcast use group_reading;

    lemma_flags();
    reveal_strlit("{stem}");
    let input = ctx.inputs@[0]@;
    lemma_started(ctx.program_text(), input);
    let value = trimmed(ctx.text_at("value"@, "1"@));
    let stem = or_else(file_stem(input), "frames"@);
    let named = ctx.text_at("pattern"@, "{stem}_frame_%04d"@);
    let pattern = replaced(named, "{stem}"@, stem);
    if !named.contains('%') && (file_stem(input) matches Some(s) && !s.contains('%')) {
        lemma_no_more(named, "{stem}"@, stem, '%');
    }
    if FramesOp.command(ctx) is Ok {
        let c = FramesOp.command(ctx)->Ok_0;
        let format = ctx.text_at("format"@, "png"@);
        let output = frames_output(ctx.output_text(), input, pattern, format, stem);
        let body = c.args.drop_last();
        let nth = ctx.toggle_at("mode"@, 0) == 1;
        let a = started(ctx.program_text(), input).args;
        assert(body =~= a.push("-vf"@).push(frame_filter(value, nth)->Ok_0));
        assert(body.push(operand(output)) =~= c.args);
        assert(whole(body));
        lemma_closed(body, output);
        lemma_numbered(ctx.output_text(), input, pattern, format, stem);
        let i = choose|i: int| 0 <= i < output.len() && output[i] == '%';
        if operand(output) != output {
            assert(operand(output)[i + 2] == '%');
        }
    }
}

/// Replacing brings in nothing but what it puts in.
proof fn lemma_no_more(s: Seq<char>, pat: Seq<char>, with: Seq<char>, c: char)
    requires
        !s.contains(c),
        !with.contains(c),
    ensures
        !replaced(s, pat, with).contains(c),
    decreases s.len(),
{
    if pat.len() > 0 && s.len() > 0 {
        let t = if begins(s, pat) {
            s.skip(pat.len() as int)
        } else {
            s.skip(1)
        };
        assert(!t.contains(c)) by {
            if t.contains(c) {
                let i = choose|i: int| 0 <= i < t.len() && t[i] == c;
                assert(s.contains(t[i]));
            }
        }
        lemma_no_more(t, pat, with, c);
        let r = replaced(s, pat, with);
        let more = replaced(t, pat, with);
        if r.contains(c) {
            let i = choose|i: int| 0 <= i < r.len() && r[i] == c;
            let head = if begins(s, pat) {
                with
            } else {
                seq![s[0]]
            };
            assert(r =~= head + more);
            if i < head.len() {
                assert(head[i] == c);
                if begins(s, pat) {
                    assert(with.contains(c));
                } else {
                    assert(s.contains(c));
                }
            } else {
                assert(more[i - head.len()] == c);
                assert(more.contains(c));
            }
        }
    }
}

/// What frames are written to holds a number.
proof fn lemma_numbered(
    output: Option<Seq<char>>,
    input: Seq<char>,
    pattern: Seq<char>,
    format: Seq<char>,
    stem: Seq<char>,
)
    requires
        pattern.contains('%'),
        typed_pattern(output, stem) matches Some(p) ==> p.contains('%'),
    ensures
        frames_output(output, input, pattern, format, stem).contains('%'),
{
    let name = pattern + "."@ + format;
    let i = choose|i: int| 0 <= i < pattern.len() && pattern[i] == '%';
    assert(name[i] == '%');
    let whole_name = beside(input, name);
    lemma_beside_ends(input, name);
    assert(whole_name[whole_name.len() - name.len() + i] == '%');
    if typed_pattern(output, stem) is Some {
        let p = typed_pattern(output, stem)->0;
        lemma_tidy_keeps(p, '%');
        let j = choose|j: int| 0 <= j < tidy(p).len() && tidy(p)[j] == '%';
        let long = tidy(p) + seq!['.'] + extension(whole_name)->0;
        assert(long[j] == '%');
    }
}

/// A file beside another ends in its name.
proof fn lemma_beside_ends(p: Seq<char>, name: Seq<char>)
    ensures
        beside(p, name).len() >= name.len(),
        beside(p, name).skip(beside(p, name).len() - name.len()) == name,
        forall|i: int|
            0 <= i < name.len() ==> beside(p, name)[beside(p, name).len() - name.len() + i]
                == #[trigger] name[i],
{
    let b = beside(p, name);
    assert(b.skip(b.len() - name.len()) =~= name);
}

/// Tidying a path takes off nothing but separators and dots.
proof fn lemma_tidy_keeps(p: Seq<char>, c: char)
    requires
        p.contains(c),
        c != '/',
        c != '.',
    ensures
        tidy(p).contains(c),
    decreases p.len(),
{
    if p.len() > 1 && (p.last() == '/' || (p.last() == '.' && p[p.len() - 2] == '/')) {
        let i = choose|i: int| 0 <= i < p.len() && p[i] == c;
        assert(p.drop_last()[i] == c);
        lemma_tidy_keeps(p.drop_last(), c);
    }
}

// ---------------------------------------------------------------------------
// Subtitles
// ---------------------------------------------------------------------------

/// How a filter reads a text: a backslash makes the next character plain, and a
/// bare colon or quote has a meaning of its own. Nothing where one stands bare.
pub open spec fn filter_read(s: Seq<char>) -> Option<Seq<char>>
    decreases s.len(),
{
    if s.len() == 0 {
        Some(Seq::empty())
    } else if s[0] == '\\' {
        if s.len() == 1 {
            None
        } else {
            match filter_read(s.skip(2)) {
                Some(rest) => Some(seq![s[1]] + rest),
                None => None,
            }
        }
    } else if s[0] == ':' || s[0] == '\'' {
        None
    } else {
        match filter_read(s.skip(1)) {
            Some(rest) => Some(seq![s[0]] + rest),
            None => None,
        }
    }
}

/// A path inside a filter reads as the path.
pub proof fn law_filter_paths_read_back(p: Seq<char>)
    ensures
        filter_read(filter_path(p)) == Some(p),
    decreases p.len(),
{
    reveal_strlit("\\");
    reveal_strlit("\\\\");
    reveal_strlit(":");
    reveal_strlit("\\:");
    reveal_strlit("'");
    reveal_strlit("\\'");
    assert("\\"@ =~= seq!['\\']);
    assert("\\\\"@ =~= seq!['\\', '\\']);
    assert(":"@ =~= seq![':']);
    assert("\\:"@ =~= seq!['\\', ':']);
    assert("'"@ =~= seq!['\'']);
    assert("\\'"@ =~= seq!['\\', '\'']);
    if p.len() > 0 {
        let t = p.skip(1);
        law_filter_paths_read_back(t);
        let one = seq!['\\', '\\'];
        let two = seq!['\\', ':'];
        let three = seq!['\\', '\''];
        lemma_escape(p, '\\', one);
        let a = replaced(t, seq!['\\'], one);
        let b = replaced(a, seq![':'], two);
        let c = replaced(b, seq!['\''], three);
        assert(filter_path(t) == c);
        if p[0] == '\\' {
            let x = one + a;
            assert(x.skip(1) =~= seq!['\\'] + a);
            assert((seq!['\\'] + a).skip(1) =~= a);
            lemma_escape(x, ':', two);
            lemma_escape(x.skip(1), ':', two);
            let y = replaced(x, seq![':'], two);
            assert(y =~= seq!['\\', '\\'] + b);
            assert(y.skip(1) =~= seq!['\\'] + b);
            assert((seq!['\\'] + b).skip(1) =~= b);
            lemma_escape(y, '\'', three);
            lemma_escape(y.skip(1), '\'', three);
            let z = replaced(y, seq!['\''], three);
            assert(z =~= seq!['\\', '\\'] + c);
            assert(z.skip(2) =~= c);
            assert(seq!['\\'] + t =~= p);
        } else {
            let x = seq![p[0]] + a;
            assert(x.skip(1) =~= a);
            lemma_escape(x, ':', two);
            let y = replaced(x, seq![':'], two);
            if p[0] == ':' {
                assert(y =~= seq!['\\', ':'] + b);
                assert(y.skip(1) =~= seq![':'] + b);
                assert((seq![':'] + b).skip(1) =~= b);
                lemma_escape(y, '\'', three);
                lemma_escape(y.skip(1), '\'', three);
                let z = replaced(y, seq!['\''], three);
                assert(z =~= seq!['\\', ':'] + c);
                assert(z.skip(2) =~= c);
                assert(seq![':'] + t =~= p);
            } else {
                assert(y =~= seq![p[0]] + b);
                assert(y.skip(1) =~= b);
                lemma_escape(y, '\'', three);
                let z = replaced(y, seq!['\''], three);
                if p[0] == '\'' {
                    assert(z =~= seq!['\\', '\''] + c);
                    assert(z.skip(2) =~= c);
                    assert(seq!['\''] + t =~= p);
                } else {
                    assert(z =~= seq![p[0]] + c);
                    assert(z.skip(1) =~= c);
                    assert(seq![p[0]] + t =~= p);
                }
            }
        }
    } else {
        assert(filter_path(p) =~= p);
        assert(p =~= Seq::<char>::empty());
    }
}

/// One step of a replacement of one character.
proof fn lemma_escape(s: Seq<char>, c: char, with: Seq<char>)
    requires
        s.len() > 0,
    ensures
        replaced(s, seq![c], with) == (if s[0] == c {
            with
        } else {
            seq![s[0]]
        }) + replaced(s.skip(1), seq![c], with),
{
    if s[0] == c {
        assert(s.take(1) =~= seq![c]);
    } else if begins(s, seq![c]) {
        assert(s.take(1)[0] == s[0]);
    }
}

/// Subtitles come from the chosen file, and without one there is no command.
/// Burning in draws them into the re-encoded picture and copies the audio; as a
/// track they are a second input, all streams of both are kept, and nothing is
/// re-encoded but the text.
pub proof fn law_subtitles_follow_the_form(ctx: BuildContext)
    requires
        ctx.inputs@.len() > 0,
    ensures
        ({
            let subs = trimmed(ctx.text_at("subs"@, ""@));
            &&& SubtitlesOp.command(ctx) is Err <==> subs.len() == 0
            &&& SubtitlesOp.command(ctx) matches Ok(c) ==> {
                let a = c.args;
                &&& whole(a)
                &&& c.pre.len() == 0
                &&& if ctx.toggle_at("mode"@, 0) == 1 {
                    &&& given(a, "-i"@) == seq![operand(ctx.inputs@[0]@), operand(subs)]
                    &&& given(a, "-map"@) == seq!["0"@, "1"@]
                    &&& sets(a, "-c"@, "copy"@)
                    &&& sets(a, "-c:s"@, "mov_text"@)
                    &&& omits(a, "-vf"@) && omits(a, "-c:v"@) && omits(a, "-crf"@)
                } else {
                    &&& sets(a, "-i"@, operand(ctx.inputs@[0]@))
                    &&& given(a, "-vf"@).len() == 1
                    &&& begins(given(a, "-vf"@)[0], "subtitles="@)
                    &&& filter_read(given(a, "-vf"@)[0].skip("subtitles="@.len() as int)) == Some(
                        subs,
                    )
                    &&& sets(a, "-c:v"@, ctx.text_at("video_codec"@, "libx264"@))
                    &&& sets(a, "-crf"@, dec_int(ctx.int_at("crf"@, 23)))
                    &&& sets(a, "-c:a"@, "copy"@)
                    &&& omits(a, "-map"@) && omits(a, "-c"@)
                }
            }
        }),
{
    broadcast use group_reading;

    lemma_flags();
    let input = ctx.inputs@[0]@;
    let subs = trimmed(ctx.text_at("subs"@, ""@));
    lemma_started(ctx.program_text(), input);
    if subs.len() > 0 {
        let c = SubtitlesOp.command(ctx)->Ok_0;
        let output = chosen_output(
            ctx.output_text(),
            output_name(input, "subtitled"@, kept_extension(input)),
        );
        let a = started(ctx.program_text(), input).args;
        let body = c.args.drop_last();
        assert(body.push(operand(output)) =~= c.args);
        let codec = ctx.text_at("video_codec"@, "libx264"@);
        let crf = dec_int(ctx.int_at("crf"@, 23));
        if ctx.toggle_at("mode"@, 0) == 1 {
            assert(body =~= a.push("-i"@).push(operand(subs)).push("-map"@).push("0"@).push(
                "-map"@,
            ).push("1"@).push("-c"@).push("copy"@).push("-c:s"@).push("mov_text"@));
            assert(whole(body));
            lemma_closed(body, output);
            assert(given(a, "-i"@).push(operand(subs)) =~= seq![operand(input), operand(subs)]);
            assert(given(a, "-map"@).push("0"@).push("1"@) =~= seq!["0"@, "1"@]);
        } else {
            let path = filter_path(subs);
            let filter = "subtitles="@ + path;
            law_filter_paths_read_back(subs);
            assert(filter.take("subtitles="@.len() as int) =~= "subtitles="@);
            assert(filter.skip("subtitles="@.len() as int) =~= path);
            assert(body =~= a.push("-vf"@).push(filter).push("-c:v"@).push(codec).push(
                "-crf"@,
            ).push(crf).push("-c:a"@).push("copy"@));
            assert(whole(body));
            lemma_closed(body, output);
        }
    }
}

// ---------------------------------------------------------------------------
// Images
// ---------------------------------------------------------------------------

/// Converting an image names the encoder of the chosen format, and scales only
/// where a width was chosen. WebP takes the quality as it is, JPEG takes it on
/// its own scale, and PNG has none.
pub proof fn law_images_follow_the_form(ctx: BuildContext)
    requires
        ctx.inputs@.len() > 0,
    ensures
        ImageConvertOp.command(ctx) matches Ok(c) && {
            let a = c.args;
            let format = ctx.text_at("format"@, "jpg"@);
            let size = ctx.text_at("resize"@, ""@);
            let quality = ctx.int_at("quality"@, 85);
            &&& whole(a)
            &&& c.pre.len() == 0
            &&& sets(a, "-i"@, operand(ctx.inputs@[0]@))
            &&& if size.len() > 0 {
                sets(a, "-vf"@, "scale="@ + size)
            } else {
                omits(a, "-vf"@)
            }
            &&& format == "jpg"@ ==> sets(a, "-c:v"@, "mjpeg"@) && omits(a, "-quality"@) && given(
                a,
                "-q:v"@,
            ).len() == 1
            &&& format == "webp"@ ==> sets(a, "-c:v"@, "libwebp"@) && omits(a, "-q:v"@) && (1
                <= quality <= 100 ==> sets(a, "-quality"@, dec(quality as nat)))
            &&& format == "png"@ ==> sets(a, "-c:v"@, "png"@) && omits(a, "-q:v"@) && omits(
                a,
                "-quality"@,
            )
            &&& format == "jpg"@ && quality >= 100 ==> sets(a, "-q:v"@, dec(2))
            &&& format == "jpg"@ && quality <= 1 ==> sets(a, "-q:v"@, dec(31))
            &&& format == "jpg"@ && 1 <= quality <= 100 ==> exists|q: nat|
                given(a, "-q:v"@) == seq![#[trigger] dec(q)] && -50 <= 100 * q - (3100 - 29
                    * quality) <= 50
        },
{
    broadcast use group_reading;

    lemma_flags();
    reveal_strlit("jpg");
    reveal_strlit("webp");
    reveal_strlit("png");
    assert("jpg"@[0] == 'j' && "png"@[0] == 'p');
    let input = ctx.inputs@[0]@;
    lemma_started(ctx.program_text(), input);
    let format = ctx.text_at("format"@, "jpg"@);
    let size = ctx.text_at("resize"@, ""@);
    let quality = ctx.int_at("quality"@, 85);
    let output = chosen_output(ctx.output_text(), output_name(input, "converted"@, format));
    let c = ImageConvertOp.command(ctx)->Ok_0;
    let body = c.args.drop_last();
    assert(body.push(operand(output)) =~= c.args);
    let a = started(ctx.program_text(), input).args;
    let sized = if size.len() > 0 {
        a.push("-vf"@).push("scale="@ + size)
    } else {
        a
    };
    assert(whole(sized));
    let coded = sized.push("-c:v"@).push(image_encoder(format));
    assert(whole(coded));
    match quality_flag(format, quality) {
        Some((flag, value)) => {
            assert(body =~= coded.push(flag).push(value));
        },
        None => {
            assert(body =~= coded);
        },
    }
    assert(whole(body));
    lemma_closed(body, output);
    if format == "jpg"@ {
        let q = jpeg_scale(quality_in(quality));
        assert(given(c.args, "-q:v"@) =~= seq![dec(q)]);
    }
}

/// A better JPEG never has a worse place on JPEG's scale, which runs from 31,
/// the worst, to 2, the best.
pub proof fn law_better_images_stay_better(p: int, q: int)
    requires
        p <= q,
    ensures
        2 <= jpeg_scale(quality_in(q)) <= jpeg_scale(quality_in(p)) <= 31,
{
}

// ---------------------------------------------------------------------------
// GIFs
// ---------------------------------------------------------------------------

/// A GIF takes two passes over the first input at the same rate and width. The
/// first writes a palette, and the second reads that very file and draws
/// through it, with the chosen dithering and looping.
pub proof fn law_gifs_take_two_passes(ctx: BuildContext)
    requires
        ctx.inputs@.len() > 0,
    ensures
        GifOp.command(ctx) matches Ok(c) && {
            let a = c.args;
            let first = c.pre[0].args;
            let input = operand(ctx.inputs@[0]@);
            let fps = ctx.int_at("fps"@, 12);
            &&& c.pre.len() == 1
            &&& whole(a) && whole(first)
            &&& sets(first, "-i"@, input)
            &&& written(first).len() == 1
            &&& given(a, "-i"@) == seq![input, written(first)[0]]
            &&& written(a).len() == 1
            &&& sets(
                a,
                "-loop"@,
                if ctx.toggle_at("loop"@, 0) == 0 {
                    "0"@
                } else {
                    "-1"@
                },
            )
            &&& exists|n: int|
                ({
                    let common = "fps="@ + #[trigger] dec_int(n) + ",scale="@ + ctx.text_at(
                        "width"@,
                        "320"@,
                    ) + ":-1:flags=lanczos"@;
                    &&& 1 <= n <= 30
                    &&& 1 <= fps <= 30 ==> n == fps
                    &&& fps < 1 ==> n == 1
                    &&& fps > 30 ==> n == 30
                    &&& sets(first, "-vf"@, common + ",palettegen"@)
                    &&& sets(
                        a,
                        "-filter_complex"@,
                        common + "[x];[x][1:v]paletteuse=dither="@ + ctx.text_at(
                            "dither"@,
                            "bayer:bayer_scale=5"@,
                        ),
                    )
                })
        },
{
    broadcast use group_reading;

    lemma_flags();
    let input = ctx.inputs@[0]@;
    lemma_started(ctx.program_text(), input);
    let output = chosen_output(ctx.output_text(), output_name(input, "anim"@, "gif"@));
    let palette = palette_path(output);
    let c = GifOp.command(ctx)->Ok_0;
    let s = started(ctx.program_text(), input).args;
    let first = s.push("-vf"@).push(gif_scale(ctx) + ",palettegen"@);
    assert(whole(first));
    lemma_closed(first, palette);
    assert(c.pre[0].args =~= first.push(operand(palette)));
    let body = c.args.drop_last();
    let filter = gif_scale(ctx) + "[x];[x][1:v]paletteuse=dither="@ + ctx.text_at(
        "dither"@,
        "bayer:bayer_scale=5"@,
    );
    let turns = if ctx.toggle_at("loop"@, 0) == 0 {
        "0"@
    } else {
        "-1"@
    };
    assert(body =~= s.push("-i"@).push(operand(palette)).push("-filter_complex"@).push(filter).push(
        "-loop"@,
    ).push(turns));
    assert(body.push(operand(output)) =~= c.args);
    assert(whole(body));
    lemma_closed(body, output);
    assert(written(first) =~= Seq::<Seq<char>>::empty());
    assert(given(s, "-i"@).push(operand(palette)) =~= seq![operand(input), operand(palette)]);
    let n = gif_fps(ctx);
    assert(gif_scale(ctx) == "fps="@ + dec_int(n) + ",scale="@ + ctx.text_at("width"@, "320"@)
        + ":-1:flags=lanczos"@);
}

// ---------------------------------------------------------------------------
// Outputs
// ---------------------------------------------------------------------------

/// The extension that an output takes over from its input, in lower case; `mp4`
/// where the input has none.
pub open spec fn inherited(input: Seq<char>) -> Seq<char> {
    match extension(input) {
        Some(e) => if e.len() > 0 {
            lowered(e)
        } else {
            "mp4"@
        },
        None => "mp4"@,
    }
}

/// What an operation adds to the name of its input, and the extension it gives
/// to its output. Joining and taking frames name their outputs otherwise.
pub open spec fn mark_of(op: AnyOperation, ctx: BuildContext) -> Option<(Seq<char>, Seq<char>)> {
    let input = ctx.inputs@[0]@;
    match op {
        AnyOperation::Convert(_) => Some(("converted"@, ctx.text_at("format"@, "mp4"@))),
        AnyOperation::Compress(_) => Some(("compressed"@, inherited(input))),
        AnyOperation::Trim(_) => Some(("trimmed"@, inherited(input))),
        AnyOperation::ExtractAudio(_) => {
            let format = ctx.text_at("format"@, "m4a"@);
            Some(
                (
                    "audio"@,
                    if format == "mp3"@ || format == "opus"@ || format == "flac"@ || format
                        == "wav"@ {
                        format
                    } else {
                        "m4a"@
                    },
                ),
            )
        },
        AnyOperation::Resize(_) => Some(("resized"@, inherited(input))),
        AnyOperation::Gif(_) => Some(("anim"@, "gif"@)),
        AnyOperation::Thumbnail(_) => Some(("thumb"@, ctx.text_at("format"@, "png"@))),
        AnyOperation::Frames(_) => None,
        AnyOperation::Concat(_) => None,
        AnyOperation::Subtitles(_) => Some(("subtitled"@, inherited(input))),
        AnyOperation::ImageConvert(_) => Some(("converted"@, ctx.text_at("format"@, "jpg"@))),
    }
}

/// What is written goes where the user said, under the very name that was
/// typed if it has an extension. Where nothing was typed it goes beside the
/// input, under the input's name with the operation's mark and extension.
#[verifier::rlimit(50)]
pub proof fn law_output_is_the_chosen_file(op: AnyOperation, ctx: BuildContext)
    requires
        ctx.inputs@.len() > 0,
        !(op is Frames),
    ensures
        op.command(ctx) matches Ok(c) ==> {
            &&& c.args.len() > 0
            &&& ctx.output_text() matches Some(typed) ==> (typed.len() > 0 && extension(typed) is Some
                ==> c.args.last() == operand(typed))
            &&& (ctx.output_text() matches Some(typed) ==> typed.len() == 0) ==> match mark_of(op, ctx) {
                Some((mark, ext)) => c.args.last() == operand(
                    beside(
                        ctx.inputs@[0]@,
                        or_else(file_stem(ctx.inputs@[0]@), "output"@) + seq!['_'] + mark + seq!['.']
                            + ext,
                    ),
                ),
                None => c.args.last() == operand("joined.mp4"@),
            }
        },
{
    let input = ctx.inputs@[0]@;
    assert(inherited(input) == kept_extension(input)) by {
        if let Some(e) = extension(input) {
            assert(lowered(e).len() == e.len());
        }
    }
    match op {
        AnyOperation::Trim(_) => {
            if TrimOp.command(ctx) is Ok {
                let clips = by_start(ctx.clips@);
                let ext = kept_extension(input);
                let output = chosen_output(ctx.output_text(), output_name(input, "trimmed"@, ext));
                let c = TrimOp.command(ctx)->Ok_0;
                if clips.len() == 1 {
                    assert(c == cut_clip(cut_of(ctx), clips[0], output));
                } else {
                    assert(c == joined_cuts(ctx, cut_of(ctx), clips, output, ext));
                }
                assert(c.args.last() == operand(output));
            }
        },
        _ => {},
    }
}

} // verus!
