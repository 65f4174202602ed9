//! Trim: what the timeline's clips keep.
//!
//! A seek before the input is fast and lands on key frames; a seek after it is
//! exact and re-encodes. One clip is cut straight into the output. Several are
//! cut into files of their own, which are then joined in timeline order.

use vstd::prelude::*;
use crate::ffmpeg::builder::{
    chosen_output, default_output_name, operand, or_else, output_name, push_globals,
    resolve_output, safe_path_arg, Command, CommandSpec, ListFile,
};
use crate::ffmpeg::capabilities::CapabilityReport;
use crate::ffmpeg::probe::ProbeResult;
use crate::number::{dec, dec_int, show_int, show_usize};
use crate::ops::concat::{
    concat_list_path, demuxed, demuxer_args, filter_args, filtered, list_path, reading,
};
use crate::ops::fields::{
    default_choice, default_selected, rows, select_row, text_row, toggle_row, BuildContext,
    ClipRange, Field, FieldContext, Row,
};
use crate::ops::parts::{
    caps_of, crf_field, crf_row, even_dims_filter, even_scale, fail, form_input, input_of,
    keep_extension, kept_extension, offer_video_codecs, probe_of, start, video_codecs,
    BuildError,
};
use crate::ops::{About, InputKind, Operation, OperationMeta};
use crate::path::{beside, extension, file_stem, get_extension, get_file_stem, path_beside};
use crate::text::{copy_text, join2, join3, texts, trim, trimmed};
use crate::time::{format_timestamp, timestamp};

verus! {

/// The trim operation.
#[derive(Debug, Clone, Copy)]
pub struct TrimOp;

/// Switch index for fast cuts at key frames.
pub const MODE_FAST: usize = 0;

/// Switch index for exact, re-encoded cuts.
pub const MODE_ACCURATE: usize = 1;

/// Clips in order of their starts, with one more put behind those that start
/// no later.
pub open spec fn placed(v: Seq<ClipRange>, c: ClipRange) -> Seq<ClipRange>
    decreases v.len(),
{
    if v.len() == 0 || v.last().start.nanos <= c.start.nanos {
        v.push(c)
    } else {
        placed(v.drop_last(), c).push(v.last())
    }
}

/// Clips in order of their starts; those that start together keep their order.
pub open spec fn by_start(v: Seq<ClipRange>) -> Seq<ClipRange>
    decreases v.len(),
{
    if v.len() == 0 {
        Seq::empty()
    } else {
        placed(by_start(v.drop_last()), v.last())
    }
}

/// A clip is put where those before it start no later and those after it
/// start later.
pub proof fn lemma_placed(v: Seq<ClipRange>, c: ClipRange, p: int)
    requires
        0 <= p <= v.len(),
        p > 0 ==> v[p - 1].start.nanos <= c.start.nanos,
        forall|j: int| p <= j < v.len() ==> (#[trigger] v[j]).start.nanos > c.start.nanos,
    ensures
        placed(v, c) == v.insert(p, c),
    decreases v.len(),
{
    if p == v.len() {
        assert(v.push(c) =~= v.insert(p, c));
    } else {
        assert(v.last() == v[v.len() - 1]);
        lemma_placed(v.drop_last(), c, p);
        assert(v.drop_last().insert(p, c).push(v.last()) =~= v.insert(p, c));
    }
}

/// Sorts clips by their starts.
pub fn sort_by_start(clips: &Vec<ClipRange>) -> (r: Vec<ClipRange>)
    ensures
        r@ == by_start(clips@),
        r@.len() == clips@.len(),
{
    let mut out: Vec<ClipRange> = Vec::new();
    let mut i: usize = 0;
    assert(clips@.take(0) =~= Seq::<ClipRange>::empty());
    while i < clips.len()
        invariant
            i <= clips@.len(),
            out@ == by_start(clips@.take(i as int)),
            out@.len() == i,
        decreases clips@.len() - i,
    {
        let c = clips[i];
        let mut p: usize = out.len();
        while p > 0 && out[p - 1].start.nanos > c.start.nanos
            invariant
                p <= out@.len(),
                forall|j: int|
                    p <= j < out@.len() ==> (#[trigger] out@[j]).start.nanos > c.start.nanos,
            decreases p,
        {
            p = p - 1;
        }
        proof {
            lemma_placed(out@, c, p as int);
            assert(clips@.take(i + 1).drop_last() =~= clips@.take(i as int));
            assert(clips@.take(i + 1).last() == c);
        }
        out.insert(p, c);
        i = i + 1;
    }
    assert(clips@.take(i as int) =~= clips@);
    out
}

proof fn lemma_placed_sorted(v: Seq<ClipRange>, c: ClipRange)
    requires
        starts_in_order(v),
    ensures
        starts_in_order(placed(v, c)),
        placed(v, c).len() == v.len() + 1,
        placed(v, c).to_multiset() == v.to_multiset().insert(c),
        placed(v, c).last().start.nanos >= c.start.nanos,
        v.len() > 0 ==> placed(v, c).last().start.nanos >= v.last().start.nanos,
        placed(v, c).last() == c || (v.len() > 0 && placed(v, c).last() == v.last()),
    decreases v.len(),
{
    broadcast use vstd::seq_lib::group_to_multiset_ensures;

    if v.len() == 0 || v.last().start.nanos <= c.start.nanos {
    } else {
        lemma_placed_sorted(v.drop_last(), c);
        let front = placed(v.drop_last(), c);
        assert(v.drop_last().push(v.last()) =~= v);
        assert(front.last().start.nanos <= v.last().start.nanos);
        let out = front.push(v.last());
        assert forall|i: int, j: int| 0 <= i <= j < out.len() implies (
        #[trigger] out[i]).start.nanos <= (#[trigger] out[j]).start.nanos by {
            if j == front.len() && i < front.len() {
                assert(front[i].start.nanos <= front[front.len() - 1].start.nanos);
            }
        }
        assert(v.to_multiset() =~= v.drop_last().to_multiset().insert(v.last()));
        assert(out.to_multiset() =~= v.to_multiset().insert(c));
    }
}

/// Whether clips stand in order of their starts.
pub open spec fn starts_in_order(v: Seq<ClipRange>) -> bool {
    forall|i: int, j: int|
        0 <= i <= j < v.len() ==> (#[trigger] v[i]).start.nanos <= (#[trigger] v[j]).start.nanos
}

/// The output follows the timeline: the clips come in order of their starts,
/// and they are exactly the given ones.
pub proof fn law_clips_in_timeline_order(v: Seq<ClipRange>)
    ensures
        starts_in_order(by_start(v)),
        by_start(v).to_multiset() == v.to_multiset(),
        by_start(v).len() == v.len(),
    decreases v.len(),
{
    broadcast use vstd::seq_lib::group_to_multiset_ensures;

    if v.len() > 0 {
        law_clips_in_timeline_order(v.drop_last());
        lemma_placed_sorted(by_start(v.drop_last()), v.last());
        assert(v.drop_last().push(v.last()) =~= v);
    } else {
        assert(v =~= Seq::empty());
    }
}

/// Sorting leaves clips that stand in order as they are.
pub proof fn law_sorting_keeps_order(v: Seq<ClipRange>)
    requires
        starts_in_order(v),
    ensures
        by_start(v) == v,
    decreases v.len(),
{
    if v.len() > 0 {
        let front = v.drop_last();
        assert forall|i: int, j: int| 0 <= i <= j < front.len() implies (
        #[trigger] front[i]).start.nanos <= (#[trigger] front[j]).start.nanos by {
            assert(front[i] == v[i] && front[j] == v[j]);
        }
        law_sorting_keeps_order(front);
        if front.len() > 0 {
            assert(front.last() == v[v.len() - 2]);
            assert(v[v.len() - 2].start.nanos <= v[v.len() - 1].start.nanos);
        }
        assert(front.push(v.last()) =~= v);
    } else {
        assert(v =~= Seq::empty());
    }
}

/// Whether no two clips start together.
pub open spec fn starts_differ(v: Seq<ClipRange>) -> bool {
    forall|i: int, j: int|
        0 <= i < j < v.len() ==> (#[trigger] v[i]).start.nanos != (#[trigger] v[j]).start.nanos
}

/// Whether clips that start together are the same.
spec fn start_tells(v: Seq<ClipRange>) -> bool {
    forall|x: ClipRange, y: ClipRange|
        v.contains(x) && v.contains(y) && x.start.nanos == y.start.nanos ==> x == y
}

/// Clips in order of their starts are told by what they are.
proof fn lemma_sorted_alike(v: Seq<ClipRange>, w: Seq<ClipRange>)
    requires
        starts_in_order(v),
        starts_in_order(w),
        v.to_multiset() == w.to_multiset(),
        start_tells(v),
    ensures
        v == w,
    decreases v.len(),
{
    broadcast use vstd::seq_lib::group_to_multiset_ensures;

    assert(v.len() == v.to_multiset().len());
    assert(w.len() == w.to_multiset().len());
    if v.len() == 0 {
        assert(v =~= w);
    } else {
        let x = v.last();
        let y = w.last();
        assert(v[v.len() - 1] == x && w[w.len() - 1] == y);
        assert(v.contains(x) && w.contains(y));
        assert(v.to_multiset().count(x) > 0 && w.to_multiset().count(y) > 0);
        assert(w.contains(x) && v.contains(y));
        let i = choose|i: int| 0 <= i < w.len() && w[i] == x;
        let j = choose|j: int| 0 <= j < v.len() && v[j] == y;
        assert(w[i].start.nanos <= w[w.len() - 1].start.nanos);
        assert(v[j].start.nanos <= v[v.len() - 1].start.nanos);
        assert(x == y);
        let a = v.drop_last();
        let b = w.drop_last();
        assert(a.push(x) =~= v && b.push(x) =~= w);
        assert(v.to_multiset() =~= a.to_multiset().insert(x));
        assert(w.to_multiset() =~= b.to_multiset().insert(x));
        assert forall|c: ClipRange| a.to_multiset().count(c) == b.to_multiset().count(c) by {
            let one = vstd::multiset::Multiset::singleton(x);
            assert(a.to_multiset().insert(x).count(c) == a.to_multiset().count(c) + one.count(c));
            assert(b.to_multiset().insert(x).count(c) == b.to_multiset().count(c) + one.count(c));
        }
        assert(a.to_multiset() =~= b.to_multiset());
        assert forall|s: ClipRange, t: ClipRange|
            a.contains(s) && a.contains(t) && s.start.nanos == t.start.nanos implies s == t by {
            let m = choose|m: int| 0 <= m < a.len() && a[m] == s;
            let n = choose|n: int| 0 <= n < a.len() && a[n] == t;
            assert(v[m] == s && v[n] == t);
            assert(v.contains(s) && v.contains(t));
        }
        lemma_sorted_alike(a, b);
    }
}

/// Whether a clip keeps something.
pub open spec fn keeps_some(c: ClipRange) -> bool {
    c.start.nanos < c.end.nanos
}

/// Position of the first clip that keeps nothing, or the number of clips.
pub open spec fn first_empty(v: Seq<ClipRange>) -> int
    decreases v.len(),
{
    if v.len() == 0 || !keeps_some(v[0]) {
        0
    } else {
        1 + first_empty(v.skip(1))
    }
}

proof fn lemma_first_empty(v: Seq<ClipRange>, i: int)
    requires
        0 <= i <= v.len(),
        forall|j: int| 0 <= j < i ==> keeps_some(#[trigger] v[j]),
        i < v.len() ==> !keeps_some(v[i]),
    ensures
        first_empty(v) == i,
    decreases v.len(),
{
    if i > 0 {
        assert(keeps_some(v[0]));
        assert forall|j: int| 0 <= j < i - 1 implies keeps_some(#[trigger] v.skip(1)[j]) by {
            assert(v.skip(1)[j] == v[j + 1]);
        }
        lemma_first_empty(v.skip(1), i - 1);
    }
}

/// Finds the first clip that keeps nothing.
fn find_empty(clips: &Vec<ClipRange>) -> (r: usize)
    ensures
        r == first_empty(clips@),
        r <= clips@.len(),
{
    let mut i: usize = 0;
    while i < clips.len()
        invariant
            i <= clips@.len(),
            forall|j: int| 0 <= j < i ==> keeps_some(#[trigger] clips@[j]),
        decreases clips@.len() - i,
    {
        if !(clips[i].start.nanos < clips[i].end.nanos) {
            proof {
                lemma_first_empty(clips@, i as int);
            }
            return i;
        }
        i = i + 1;
    }
    proof {
        lemma_first_empty(clips@, i as int);
    }
    i
}

pub const MODE_HELP: &'static str = "Applies to every clip. Fast puts -ss before -i: instant seeking, but with stream copy cuts land on the nearest keyframe. Accurate puts -ss after -i: frame-exact, but the video is re-encoded. Watch the flag order change in the preview.";

pub const VIDEO_CODEC_HELP: &'static str = "Encoder used in Accurate mode. Ignored in Fast mode, which always stream-copies.";

pub const CRF_HELP: &'static str = "Quality for the re-encoded cut in Accurate mode. Ignored in Fast mode.";

pub const OUTPUT_HELP: &'static str = "Output path.";

/// The form.
pub open spec fn trim_form(probe: Option<ProbeResult>, caps: Option<CapabilityReport>) -> Seq<Row> {
    let input = form_input(probe, "input.mp4"@);
    seq![
        toggle_row(
            "mode"@,
            "Seek mode"@,
            "Fast (keyframe-aligned)"@,
            "Accurate (re-encode)"@,
            0,
            MODE_HELP@,
        ),
        select_row(
            "video_codec"@,
            "Video codec"@,
            video_codecs(caps),
            default_choice(video_codecs(caps)),
            VIDEO_CODEC_HELP@,
        ),
        crf_row(CRF_HELP@),
        text_row("output"@, "Output"@, output_name(input, "trimmed"@, kept_extension(input)), OUTPUT_HELP@),
    ]
}

/// How clips are cut: the program, the input, the way, and the encoder.
#[verifier::ext_equal]
pub struct Cut {
    pub program: Seq<char>,
    pub input: Seq<char>,
    pub accurate: bool,
    pub vcodec: Seq<char>,
    pub crf: int,
    pub even: Option<Seq<char>>,
}

/// The cut of one clip into `output`.
pub open spec fn cut_clip(cut: Cut, clip: ClipRange, output: Seq<char>) -> Command {
    let begun = Command::new(cut.program).globals(true);
    let start = timestamp(clip.start.nanos as nat);
    let done = if !cut.accurate {
        let sought = if clip.start.nanos > 0 {
            begun.flag_value(
                "-ss"@,
                start,
                "Seek before the input: fast, jumps to the nearest keyframe."@,
            )
        } else {
            begun
        };
        sought.arg("-i"@).arg(operand(cut.input)).flag_value(
            "-t"@,
            timestamp(clip.length()),
            "Keep this many seconds from the seek point (a duration, not a timestamp)."@,
        ).flag_value(
            "-c"@,
            "copy"@,
            "Stream copy: no re-encode, so cuts stay keyframe-aligned."@,
        )
    } else {
        let opened = begun.arg("-i"@).arg(operand(cut.input));
        let sought = if clip.start.nanos > 0 {
            opened.flag_value("-ss"@, start, EXACT_WHY@)
        } else {
            opened
        };
        let ended = sought.flag_value(
            "-to"@,
            timestamp(clip.end.nanos as nat),
            "Stop writing when the output reaches this timestamp."@,
        );
        let scaled = match cut.even {
            Some(even) => ended.flag_value("-vf"@, "scale="@ + even, EVEN_WHY@),
            None => ended,
        };
        scaled.flag_value(
            "-c:v"@,
            cut.vcodec,
            "Re-encode the cut with "@ + cut.vcodec + " for frame accuracy."@,
        ).flag_value("-crf"@, dec_int(cut.crf), "Quality level for the re-encoded cut."@).flag_value(
            "-c:a"@,
            "aac"@,
            "Re-encode the audio to stay in sync."@,
        )
    };
    done.arg(operand(output))
}

pub const EXACT_WHY: &'static str = "Seek after the input: decodes everything up to the timestamp, so the cut is frame-accurate.";

pub const EVEN_WHY: &'static str = "Odd-sized source, which these encoders refuse — shave one pixel edge to even dimensions.";

/// Builds the cut of one clip.
pub fn single_clip(
    program: &str,
    input: &str,
    clip: &ClipRange,
    accurate: bool,
    vcodec: &str,
    crf: i64,
    probe: Option<&ProbeResult>,
    output: &str,
) -> (r: CommandSpec)
    ensures
        r@ == cut_clip(
            Cut {
                program: program@,
                input: input@,
                accurate,
                vcodec: vcodec@,
                crf: crf as int,
                even: even_scale(probe_of(probe)),
            },
            *clip,
            output@,
        ),
{
    let mut spec = CommandSpec::new(program);
    push_globals(&mut spec, true);
    let start = format_timestamp(clip.start);
    if !accurate {
        // The duration counts from the seek point; an end timestamp would
        // count on the shifted output timeline and overshoot.
        if clip.start.nanos > 0 {
            spec.flag_value(
                "-ss",
                start.as_str(),
                "Seek before the input: fast, jumps to the nearest keyframe.",
            );
        }
        spec.arg("-i");
        spec.arg(safe_path_arg(input).as_str());
        spec.flag_value(
            "-t",
            format_timestamp(clip.len()).as_str(),
            "Keep this many seconds from the seek point (a duration, not a timestamp).",
        );
        spec.flag_value(
            "-c",
            "copy",
            "Stream copy: no re-encode, so cuts stay keyframe-aligned.",
        );
    } else {
        spec.arg("-i");
        spec.arg(safe_path_arg(input).as_str());
        if clip.start.nanos > 0 {
            spec.flag_value("-ss", start.as_str(), EXACT_WHY);
        }
        spec.flag_value(
            "-to",
            format_timestamp(clip.end).as_str(),
            "Stop writing when the output reaches this timestamp.",
        );
        if let Some(even) = even_dims_filter(probe) {
            spec.flag_value("-vf", join2("scale=", even).as_str(), EVEN_WHY);
        }
        let why = join3("Re-encode the cut with ", vcodec, " for frame accuracy.");
        spec.flag_value("-c:v", vcodec, why.as_str());
        spec.flag_value("-crf", show_int(crf).as_str(), "Quality level for the re-encoded cut.");
        spec.flag_value("-c:a", "aac", "Re-encode the audio to stay in sync.");
    }
    spec.arg(safe_path_arg(output).as_str());
    spec
}

/// The file that clip `i` is cut into before the join: numbered from one,
/// beside the output.
pub open spec fn clip_file(output: Seq<char>, ext: Seq<char>, i: nat) -> Seq<char> {
    beside(
        output,
        or_else(file_stem(output), "trimmed"@) + "_clip"@ + dec(i + 1) + "."@ + or_else(
            extension(output),
            ext,
        ),
    )
}

/// The files that `n` clips are cut into.
pub open spec fn clip_files(output: Seq<char>, ext: Seq<char>, n: nat) -> Seq<Seq<char>> {
    Seq::new(n, |i: int| clip_file(output, ext, i as nat))
}

/// With the cuts of the first `n` clips as preliminary commands.
pub open spec fn cutting(
    c: Command,
    cut: Cut,
    clips: Seq<ClipRange>,
    output: Seq<char>,
    ext: Seq<char>,
    n: nat,
) -> Command
    decreases n,
{
    if n == 0 {
        c
    } else {
        let i = (n - 1) as nat;
        cutting(c, cut, clips, output, ext, i).after(
            cut_clip(cut, clips[i as int], clip_file(output, ext, i)).as_pass(),
        )
    }
}

/// The join of several cuts: through a list file when they were re-encoded to
/// the same settings, else through the filter, which lines up the ragged
/// timestamps of copied segments.
pub open spec fn joined_cuts(
    ctx: BuildContext,
    cut: Cut,
    clips: Seq<ClipRange>,
    output: Seq<char>,
    ext: Seq<char>,
) -> Command {
    let n = clips.len();
    let files = clip_files(output, ext, n);
    let begun = cutting(Command::new(cut.program).globals(true), cut, clips, output, ext, n);
    let done = if cut.accurate {
        let list = list_path(ctx.temp_dir@, output);
        demuxed(
            begun.listing(ListFile { path: list, inputs: files }),
            list,
            "Join "@ + dec(n)
                + " timeline clips in order — re-encoded to identical settings, so stream copy applies."@,
        )
    } else {
        filtered(
            begun,
            files,
            cut.vcodec,
            cut.crf,
            "Join "@ + dec(n)
                + " timeline clips in order — the stream-copied segments keep ragged timestamps, so the join re-encodes to line them up."@,
        )
    };
    done.arg(operand(output))
}

/// How the clips of a build are cut.
pub open spec fn cut_of(ctx: BuildContext) -> Cut {
    Cut {
        program: ctx.program_text(),
        input: ctx.inputs@[0]@,
        accurate: ctx.toggle_at("mode"@, 0) == MODE_ACCURATE,
        vcodec: ctx.text_at("video_codec"@, "libx264"@),
        crf: ctx.int_at("crf"@, 23),
        even: even_scale(ctx.probed()),
    }
}

/// The command. A timeline without clips, and a clip that ends before it
/// starts, are refused.
pub open spec fn trim_command(ctx: BuildContext) -> Result<Command, Seq<char>> {
    let clips = by_start(ctx.clips@);
    let bad = first_empty(clips);
    if ctx.inputs@.len() == 0 {
        Err("trim needs an input file"@)
    } else if clips.len() == 0 {
        Err("define at least one clip on the timeline (n creates one)"@)
    } else if bad < clips.len() {
        Err(
            "clip "@ + timestamp(clips[bad].start.nanos as nat) + "–"@ + timestamp(
                clips[bad].end.nanos as nat,
            ) + " is invalid: start must be before end"@,
        )
    } else {
        let input = ctx.inputs@[0]@;
        let ext = kept_extension(input);
        let output = chosen_output(ctx.output_text(), output_name(input, "trimmed"@, ext));
        if clips.len() == 1 {
            Ok(cut_clip(cut_of(ctx), clips[0], output))
        } else {
            Ok(joined_cuts(ctx, cut_of(ctx), clips, output, ext))
        }
    }
}

/// Reading more inputs leaves the preliminary commands alone.
proof fn lemma_reading_keeps_pre(c: Command, inputs: Seq<Seq<char>>)
    ensures
        reading(c, inputs).pre == c.pre,
    decreases inputs.len(),
{
    if inputs.len() > 0 {
        lemma_reading_keeps_pre(c, inputs.drop_last());
    }
}

/// The preliminary commands of a join are the cuts of its clips, in order.
proof fn lemma_cutting(
    c: Command,
    cut: Cut,
    clips: Seq<ClipRange>,
    output: Seq<char>,
    ext: Seq<char>,
    n: nat,
)
    requires
        c.pre.len() == 0,
    ensures
        cutting(c, cut, clips, output, ext, n).pre == Seq::new(
            n,
            |i: int| cut_clip(cut, clips[i], clip_file(output, ext, i as nat)).as_pass(),
        ),
    decreases n,
{
    let all = Seq::new(
        n,
        |i: int| cut_clip(cut, clips[i], clip_file(output, ext, i as nat)).as_pass(),
    );
    if n > 0 {
        lemma_cutting(c, cut, clips, output, ext, (n - 1) as nat);
    }
    assert(cutting(c, cut, clips, output, ext, n).pre =~= all);
}

/// The order in which clips were made is of no account: contexts that differ in
/// it alone build the same, as long as no two clips start together. A join cuts
/// its clips one after the other in timeline order, each into a file of its own.
pub proof fn law_making_order_is_no_matter(a: BuildContext, b: BuildContext)
    requires
        b == (BuildContext { clips: b.clips, ..a }),
        a.clips@.to_multiset() == b.clips@.to_multiset(),
        starts_differ(a.clips@),
    ensures
        TrimOp.command(a) == TrimOp.command(b),
        a.clips@.len() > 1 ==> (TrimOp.command(a) matches Ok(c) ==> {
            let input = a.inputs@[0]@;
            let ext = kept_extension(input);
            let output = chosen_output(a.output_text(), output_name(input, "trimmed"@, ext));
            &&& starts_in_order(by_start(a.clips@))
            &&& c.pre == Seq::new(
                a.clips@.len(),
                |i: int|
                    cut_clip(
                        cut_of(a),
                        by_start(a.clips@)[i],
                        clip_file(output, ext, i as nat),
                    ).as_pass(),
            )
        }),
{
    broadcast use vstd::seq_lib::group_to_multiset_ensures;

    let v = a.clips@;
    law_clips_in_timeline_order(v);
    law_clips_in_timeline_order(b.clips@);
    let s = by_start(v);
    assert forall|x: ClipRange, y: ClipRange|
        s.contains(x) && s.contains(y) && x.start.nanos == y.start.nanos implies x == y by {
        assert(s.to_multiset().count(x) > 0 && s.to_multiset().count(y) > 0);
        assert(v.contains(x) && v.contains(y));
        let i = choose|i: int| 0 <= i < v.len() && v[i] == x;
        let j = choose|j: int| 0 <= j < v.len() && v[j] == y;
        assert(i == j) by {
            if i < j {
                assert(v[i].start.nanos != v[j].start.nanos);
            } else if j < i {
                assert(v[j].start.nanos != v[i].start.nanos);
            }
        }
    }
    lemma_sorted_alike(s, by_start(b.clips@));
    assert(cut_of(a) == cut_of(b));
    if trim_command(a) is Ok && v.len() > 1 {
        let cut = cut_of(a);
        let input = a.inputs@[0]@;
        let ext = kept_extension(input);
        let output = chosen_output(a.output_text(), output_name(input, "trimmed"@, ext));
        let c = Command::new(cut.program).globals(true);
        lemma_cutting(c, cut, s, output, ext, s.len());
        lemma_reading_keeps_pre(
            cutting(c, cut, s, output, ext, s.len()),
            clip_files(output, ext, s.len()),
        );
    }
}

/// Works out the file that clip `i` is cut into.
fn clip_path(output: &str, ext: &str, i: usize) -> (r: String)
    requires
        i < usize::MAX,
    ensures
        r@ == clip_file(output@, ext@, i as nat),
{
    let stem = match get_file_stem(output) {
        Some(s) => s,
        None => copy_text("trimmed"),
    };
    let clip_ext = match get_extension(output) {
        Some(e) => e,
        None => copy_text(ext),
    };
    let head = join3(stem.as_str(), "_clip", show_usize(i + 1).as_str());
    let name = join3(head.as_str(), ".", clip_ext.as_str());
    path_beside(output, name.as_str())
}

/// Builds the join of several clips.
fn join_clips(
    ctx: &BuildContext,
    input: &str,
    clips: &Vec<ClipRange>,
    output: &str,
    ext: &str,
) -> (r: CommandSpec)
    requires
        ctx.inputs@.len() > 0,
        input@ == ctx.inputs@[0]@,
    ensures
        r@ == joined_cuts(*ctx, cut_of(*ctx), clips@, output@, ext@),
{
    let program = ctx.program();
    let accurate = ctx.get_toggle("mode", MODE_FAST) == MODE_ACCURATE;
    let vcodec = ctx.get_str("video_codec", "libx264");
    let crf: i64 = ctx.get_int("crf", 23);
    let mut spec = CommandSpec::new(program.as_str());
    push_globals(&mut spec, true);
    let ghost begun = spec@;
    let ghost cut = cut_of(*ctx);
    let mut files: Vec<String> = Vec::new();
    let mut i: usize = 0;
    assert(texts(files@) =~= clip_files(output@, ext@, 0));
    while i < clips.len()
        invariant
            i <= clips@.len(),
            program@ == cut.program,
            input@ == cut.input,
            accurate == cut.accurate,
            vcodec@ == cut.vcodec,
            crf == cut.crf,
            cut.even == even_scale(ctx.probed()),
            spec@ == cutting(begun, cut, clips@, output@, ext@, i as nat),
            texts(files@) == clip_files(output@, ext@, i as nat),
        decreases clips@.len() - i,
    {
        let ghost before = texts(files@);
        let file = clip_path(output, ext, i);
        let pre = single_clip(
            program.as_str(),
            input,
            &clips[i],
            accurate,
            vcodec.as_str(),
            crf,
            ctx.probe,
            file.as_str(),
        );
        proof {
            assert(pre@ == cut_clip(cut, clips@[i as int], file@));
        }
        spec.run_first(pre);
        files.push(file);
        proof {
            assert(texts(files@) =~= before.push(file@));
            assert(clip_files(output@, ext@, (i + 1) as nat) =~= before.push(file@));
        }
        i = i + 1;
    }
    if accurate {
        let list = concat_list_path(ctx.temp_dir, output);
        spec.attach_list(list.as_str(), files.as_slice());
        let why = join3(
            "Join ",
            show_usize(clips.len()).as_str(),
            " timeline clips in order — re-encoded to identical settings, so stream copy applies.",
        );
        demuxer_args(&mut spec, list.as_str(), why.as_str());
    } else {
        let why = join3(
            "Join ",
            show_usize(clips.len()).as_str(),
            " timeline clips in order — the stream-copied segments keep ragged timestamps, so the join re-encodes to line them up.",
        );
        filter_args(&mut spec, files.as_slice(), vcodec.as_str(), crf, why.as_str());
    }
    spec.arg(safe_path_arg(output).as_str());
    spec
}

impl Operation for TrimOp {
    open spec fn about(&self) -> About {
        About {
            id: "trim"@,
            name: "Trim"@,
            description: "Cut timeline clips: fast keyframe cuts or accurate re-encode"@,
            accepts: InputKind::AudioOrVideo,
        }
    }

    open spec fn form(&self, probe: Option<ProbeResult>, caps: Option<CapabilityReport>) -> Seq<Row> {
        trim_form(probe, caps)
    }

    open spec fn command(&self, ctx: BuildContext) -> Result<Command, Seq<char>> {
        trim_command(ctx)
    }

    fn meta(&self) -> (r: OperationMeta) {
        OperationMeta {
            id: "trim",
            name: "Trim",
            description: "Cut timeline clips: fast keyframe cuts or accurate re-encode",
            accepts: InputKind::AudioOrVideo,
        }
    }

    fn fields(&self, ctx: &FieldContext) -> (r: Vec<Field>) {
        let codecs = offer_video_codecs(ctx.caps);
        let codec = default_selected(codecs.as_slice());
        let input = input_of(ctx.probe, "input.mp4");
        let ext = keep_extension(input.as_str());
        let output = default_output_name(input.as_str(), "trimmed", ext.as_str());
        let out = vec![
            Field::toggle(
                "mode",
                "Seek mode",
                "Fast (keyframe-aligned)",
                "Accurate (re-encode)",
                0,
                MODE_HELP,
            ),
            Field::select("video_codec", "Video codec", codecs, codec, VIDEO_CODEC_HELP),
            crf_field(CRF_HELP),
            Field::text("output", "Output", output.as_str(), OUTPUT_HELP),
        ];
        assert(rows(out@) =~= self.form(probe_of(ctx.probe), caps_of(ctx.caps)));
        out
    }

    fn build(&self, ctx: &BuildContext) -> (r: Result<CommandSpec, BuildError>) {
        let input = match ctx.first_input() {
            Some(p) => p,
            None => return Err(fail("trim needs an input file")),
        };
        let clips = sort_by_start(&ctx.clips);
        if clips.len() == 0 {
            return Err(fail("define at least one clip on the timeline (n creates one)"));
        }
        let bad = find_empty(&clips);
        if bad < clips.len() {
            let start = format_timestamp(clips[bad].start);
            let end = format_timestamp(clips[bad].end);
            let head = join3("clip ", start.as_str(), "–");
            let message = join3(
                head.as_str(),
                end.as_str(),
                " is invalid: start must be before end",
            );
            return Err(fail(message.as_str()));
        }
        let ext = keep_extension(input.as_str());
        let default = default_output_name(input.as_str(), "trimmed", ext.as_str());
        let output = resolve_output(ctx.output, default);
        if clips.len() == 1 {
            let accurate = ctx.get_toggle("mode", MODE_FAST) == MODE_ACCURATE;
            let spec = single_clip(
                ctx.program().as_str(),
                input.as_str(),
                &clips[0],
                accurate,
                ctx.get_str("video_codec", "libx264").as_str(),
                ctx.get_int("crf", 23),
                ctx.probe,
                output.as_str(),
            );
            return Ok(spec);
        }
        Ok(join_clips(ctx, input.as_str(), &clips, output.as_str(), ext.as_str()))
    }
}

} // verus!
