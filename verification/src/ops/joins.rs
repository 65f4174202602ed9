//! What joining does: which files are joined, and in which order.

use vstd::prelude::*;
use crate::ffmpeg::builder::{chosen_output, operand, or_else, output_name, Command, ListFile};
use crate::ffmpeg::probe::{first_video, odd_sized, ProbeResult};
use crate::ffmpeg::reading::{
    given, given_ahead, group_reading, lemma_closed, lemma_flags, lemma_globals, whole, written,
};
use crate::number::{dec, dec_int, law_numbers_read_back};
use crate::ops::concat::{
    all_alike, by_demuxer, demuxed, demuxer_why, encoding, filter_why, filtered, join_filter,
    list_path, pads, reading, shows, sounds, stream_kinds, ConcatOp,
};
use crate::ops::fields::{BuildContext, ClipRange};
use crate::ops::laws::{omits, sets};
use crate::ops::parts::kept_extension;
use crate::ops::trim::{
    by_start, clip_file, clip_files, cut_clip, cut_of, cutting, first_empty, joined_cuts,
    keeps_some, law_clips_in_timeline_order, starts_in_order, Cut, TrimOp,
};
use crate::ops::Operation;
use crate::path::{extension, file_stem};
use crate::text::{ends, texts};
use crate::time::timestamp;

verus! {

// ---------------------------------------------------------------------------
// Filter graphs
// ---------------------------------------------------------------------------

/// The labels of a filter graph, in order: what stands between square brackets.
/// `open` is what has been read of the label that is open.
pub open spec fn labels(s: Seq<char>, open: Option<Seq<char>>) -> Seq<Seq<char>>
    decreases s.len(),
{
    if s.len() == 0 {
        Seq::empty()
    } else {
        match open {
            None => labels(
                s.skip(1),
                if s[0] == '[' {
                    Some(Seq::empty())
                } else {
                    None
                },
            ),
            Some(t) => if s[0] == ']' {
                seq![t] + labels(s.skip(1), None)
            } else {
                labels(s.skip(1), Some(t.push(s[0])))
            },
        }
    }
}

/// The labels that name the video and the audio of `n` inputs, one input after
/// the other.
pub open spec fn pad_labels(n: nat) -> Seq<Seq<char>> {
    Seq::new(
        2 * n,
        |j: int|
            if j % 2 == 0 {
                dec((j / 2) as nat) + ":v"@
            } else {
                dec((j / 2) as nat) + ":a"@
            },
    )
}

proof fn lemma_inside(t: Seq<char>, rest: Seq<char>, w: Seq<char>)
    requires
        !t.contains(']'),
    ensures
        labels(t + rest, Some(w)) == labels(rest, Some(w + t)),
    decreases t.len(),
{
    if t.len() == 0 {
        assert(t + rest =~= rest);
        assert(w + t =~= w);
    } else {
        assert(t.contains(t[0]));
        let u = t.skip(1);
        assert((t + rest).skip(1) =~= u + rest);
        assert(!u.contains(']')) by {
            if u.contains(']') {
                let i = choose|i: int| 0 <= i < u.len() && u[i] == ']';
                assert(t[i + 1] == ']');
            }
        }
        lemma_inside(u, rest, w.push(t[0]));
        assert(w.push(t[0]) + u =~= w + t);
    }
}

proof fn lemma_outside(t: Seq<char>, rest: Seq<char>)
    requires
        !t.contains('['),
    ensures
        labels(t + rest, None) == labels(rest, None),
    decreases t.len(),
{
    if t.len() == 0 {
        assert(t + rest =~= rest);
    } else {
        assert(t.contains(t[0]));
        let u = t.skip(1);
        assert((t + rest).skip(1) =~= u + rest);
        assert(!u.contains('[')) by {
            if u.contains('[') {
                let i = choose|i: int| 0 <= i < u.len() && u[i] == '[';
                assert(t[i + 1] == '[');
            }
        }
        lemma_outside(u, rest);
    }
}

/// A text in brackets is read as a label.
proof fn lemma_label(t: Seq<char>, rest: Seq<char>)
    requires
        !t.contains(']'),
    ensures
        labels(seq!['['] + t + seq![']'] + rest, None) == seq![t] + labels(rest, None),
{
    let s = seq!['['] + t + seq![']'] + rest;
    let inner = t + (seq![']'] + rest);
    assert(s.skip(1) =~= inner);
    lemma_inside(t, seq![']'] + rest, Seq::empty());
    assert(Seq::<char>::empty() + t =~= t);
    assert((seq![']'] + rest).skip(1) =~= rest);
}

/// A number with a letter behind it is no bracket.
proof fn lemma_pad_text(k: nat, kind: Seq<char>)
    requires
        kind == ":v"@ || kind == ":a"@,
    ensures
        !(dec(k) + kind).contains(']'),
{
    reveal_strlit(":v");
    reveal_strlit(":a");
    law_numbers_read_back(k);
    let t = dec(k) + kind;
    if t.contains(']') {
        let i = choose|i: int| 0 <= i < t.len() && t[i] == ']';
        if i < dec(k).len() {
            assert(crate::text::is_digit(dec(k)[i]));
        } else {
            assert(t[i] == kind[i - dec(k).len()]);
        }
    }
}

proof fn lemma_pads(n: nat, rest: Seq<char>)
    ensures
        labels(pads(n) + rest, None) == pad_labels(n) + labels(rest, None),
    decreases n,
{
    if n == 0 {
        assert(pads(n) + rest =~= rest);
        assert(pad_labels(n) + labels(rest, None) =~= labels(rest, None));
    } else {
        let k = (n - 1) as nat;
        let d = dec(k);
        let v = d + ":v"@;
        let a = d + ":a"@;
        reveal_strlit("[");
        reveal_strlit(":v][");
        reveal_strlit(":a]");
        reveal_strlit(":v");
        reveal_strlit(":a");
        let sound = seq!['['] + a + seq![']'] + rest;
        let both = seq!['['] + v + seq![']'] + sound;
        assert(pads(n) + rest =~= pads(k) + both);
        lemma_pads(k, both);
        lemma_pad_text(k, ":v"@);
        lemma_pad_text(k, ":a"@);
        lemma_label(v, sound);
        lemma_label(a, rest);
        assert(pad_labels(n) =~= pad_labels(k).push(v).push(a));
        assert(pad_labels(k) + (seq![v] + (seq![a] + labels(rest, None))) =~= pad_labels(n)
            + labels(rest, None));
    }
}

/// A join through the filter takes the video and the audio of each input, every
/// input once and in order, and says how many there are.
pub proof fn law_joins_take_every_input_in_order(n: nat)
    ensures
        labels(join_filter(n), None) == pad_labels(n) + seq!["outv"@, "outa"@],
        ends(join_filter(n), "concat=n="@ + dec(n) + ":v=1:a=1[outv][outa]"@),
        forall|i: int, j: int|
            0 <= i < j < 2 * n ==> #[trigger] pad_labels(n)[i] != #[trigger] pad_labels(n)[j],
{
    reveal_strlit("concat=n=");
    reveal_strlit(":v=1:a=1[outv][outa]");
    reveal_strlit("outv");
    reveal_strlit("outa");
    reveal_strlit(":v");
    reveal_strlit(":a");
    law_numbers_read_back(n);
    let last = seq!['['] + "outa"@ + seq![']'];
    let outs = seq!['['] + "outv"@ + seq![']'] + last;
    let head = "concat=n="@ + dec(n) + ":v=1:a=1"@;
    reveal_strlit(":v=1:a=1");
    assert(":v=1:a=1[outv][outa]"@ =~= ":v=1:a=1"@ + outs);
    assert(!head.contains('[')) by {
        if head.contains('[') {
            let i = choose|i: int| 0 <= i < head.len() && head[i] == '[';
            let j = i - "concat=n="@.len();
            if 0 <= j < dec(n).len() {
                assert(crate::text::is_digit(dec(n)[j]));
            }
        }
    }
    assert(join_filter(n) =~= pads(n) + (head + outs));
    lemma_pads(n, head + outs);
    lemma_outside(head, outs);
    assert(last =~= last + Seq::<char>::empty());
    lemma_label("outv"@, last);
    lemma_label("outa"@, Seq::empty());
    assert(labels(Seq::empty(), None) =~= Seq::<Seq<char>>::empty());
    assert(seq!["outv"@] + (seq!["outa"@] + Seq::<Seq<char>>::empty()) =~= seq!["outv"@, "outa"@]);
    let tail = "concat=n="@ + dec(n) + ":v=1:a=1[outv][outa]"@;
    assert(join_filter(n).skip(join_filter(n).len() - tail.len()) =~= tail);
    assert forall|i: int, j: int| 0 <= i < j < 2 * n implies #[trigger] pad_labels(n)[i]
        != #[trigger] pad_labels(n)[j] by {
        let x = dec((i / 2) as nat);
        let y = dec((j / 2) as nat);
        let p = pad_labels(n)[i];
        let q = pad_labels(n)[j];
        assert(":v"@.len() == 2 && ":a"@.len() == 2 && ":v"@[1] == 'v' && ":a"@[1] == 'a');
        assert(p.len() == x.len() + 2 && q.len() == y.len() + 2);
        if p == q {
            assert(x.len() == y.len());
            assert(p.take(x.len() as int) =~= x);
            assert(q.take(y.len() as int) =~= y);
            law_numbers_read_back((i / 2) as nat);
            assert(p[x.len() as int + 1] == q[x.len() as int + 1]);
        }
    }
}

// ---------------------------------------------------------------------------
// Reading several inputs
// ---------------------------------------------------------------------------

/// Paths as operands.
pub open spec fn operands(v: Seq<Seq<char>>) -> Seq<Seq<char>> {
    v.map_values(|p: Seq<char>| operand(p))
}

proof fn lemma_reading(c: Command, inputs: Seq<Seq<char>>)
    requires
        whole(c.args),
    ensures
        whole(reading(c, inputs).args),
        given(reading(c, inputs).args, "-i"@) == given(c.args, "-i"@) + operands(inputs),
        forall|flag: Seq<char>|
            flag != "-i"@ ==> #[trigger] given(reading(c, inputs).args, flag) == given(
                c.args,
                flag,
            ),
        written(reading(c, inputs).args) == written(c.args),
        reading(c, inputs).pre == c.pre,
        reading(c, inputs).concat_list == c.concat_list,
    decreases inputs.len(),
{
    broadcast use group_reading;

    lemma_flags();
    if inputs.len() == 0 {
        assert(operands(inputs) =~= Seq::<Seq<char>>::empty());
        assert(given(c.args, "-i"@) + operands(inputs) =~= given(c.args, "-i"@));
    } else {
        let front = inputs.drop_last();
        lemma_reading(c, front);
        let r = reading(c, front);
        assert(reading(c, inputs).args == r.args.push("-i"@).push(operand(inputs.last())));
        assert(operands(inputs) =~= operands(front).push(operand(inputs.last())));
        assert(given(reading(c, inputs).args, "-i"@) =~= given(c.args, "-i"@) + operands(inputs));
    }
}

/// Whether arguments join files by re-encoding them, in the given order.
pub open spec fn joins_by_filter(
    a: Seq<Seq<char>>,
    inputs: Seq<Seq<char>>,
    codec: Seq<char>,
    crf: int,
) -> bool {
    &&& whole(a)
    &&& given(a, "-i"@) == operands(inputs)
    &&& given(a, "-filter_complex"@).len() == 1
    &&& labels(given(a, "-filter_complex"@)[0], None) == pad_labels(inputs.len()) + seq![
        "outv"@,
        "outa"@,
    ]
    &&& ends(
        given(a, "-filter_complex"@)[0],
        "concat=n="@ + dec(inputs.len()) + ":v=1:a=1[outv][outa]"@,
    )
    &&& given(a, "-map"@) == seq!["[outv]"@, "[outa]"@]
    &&& sets(a, "-c:v"@, codec)
    &&& sets(a, "-crf"@, dec_int(crf))
    &&& sets(a, "-c:a"@, "aac"@)
    &&& omits(a, "-f"@) && omits(a, "-c"@)
}

/// Whether arguments join the files of a list without re-encoding them.
pub open spec fn joins_by_list(a: Seq<Seq<char>>, list: ListFile) -> bool {
    &&& whole(a)
    &&& sets(a, "-f"@, "concat"@)
    &&& sets(a, "-safe"@, "0"@)
    &&& sets(a, "-i"@, operand(list.path))
    &&& sets(a, "-c"@, "copy"@)
    &&& omits(a, "-filter_complex"@) && omits(a, "-c:v"@) && omits(a, "-crf"@) && omits(a, "-c:a"@)
}

proof fn lemma_filtered(
    c: Command,
    inputs: Seq<Seq<char>>,
    codec: Seq<char>,
    crf: int,
    why: Seq<char>,
    output: Seq<char>,
)
    requires
        c.args == Command::new(c.program).globals(true).args,
    ensures
        joins_by_filter(
            filtered(c, inputs, codec, crf, why).arg(operand(output)).args,
            inputs,
            codec,
            crf,
        ),
        filtered(c, inputs, codec, crf, why).pre == c.pre,
        filtered(c, inputs, codec, crf, why).concat_list == c.concat_list,
        written(filtered(c, inputs, codec, crf, why).arg(operand(output)).args) == seq![
            operand(output),
        ],
{
    broadcast use group_reading;

    lemma_flags();
    lemma_globals(c.program);
    lemma_reading(c, inputs);
    law_joins_take_every_input_in_order(inputs.len());
    let f = filtered(c, inputs, codec, crf, why).args;
    let r = reading(c, inputs).args;
    let filter = join_filter(inputs.len());
    assert(f == r.push("-filter_complex"@).push(filter).push("-map"@).push("[outv]"@).push(
        "-c:v"@,
    ).push(codec).push("-crf"@).push(dec_int(crf)).push("-map"@).push("[outa]"@).push("-c:a"@).push(
        "aac"@,
    ));
    assert(whole(f));
    lemma_closed(f, output);
    let a = f.push(operand(output));
    assert(given(c.args, "-i"@) + operands(inputs) =~= operands(inputs));
    assert(given(a, "-filter_complex"@) =~= seq![filter]);
    assert(given(a, "-map"@) =~= seq!["[outv]"@, "[outa]"@]);
    assert(given(a, "-c:v"@) =~= seq![codec]);
    assert(given(a, "-crf"@) =~= seq![dec_int(crf)]);
    assert(given(a, "-c:a"@) =~= seq!["aac"@]);
    assert(written(a) =~= seq![operand(output)]);
}

proof fn lemma_demuxed(c: Command, list: ListFile, why: Seq<char>, output: Seq<char>)
    requires
        c.args == Command::new(c.program).globals(true).args,
    ensures
        joins_by_list(demuxed(c, list.path, why).arg(operand(output)).args, list),
        written(demuxed(c, list.path, why).arg(operand(output)).args) == seq![operand(output)],
{
    broadcast use group_reading;

    lemma_flags();
    lemma_globals(c.program);
    let d = demuxed(c, list.path, why).args;
    assert(d == c.args.push("-f"@).push("concat"@).push("-safe"@).push("0"@).push("-i"@).push(
        operand(list.path),
    ).push("-c"@).push("copy"@));
    assert(whole(d));
    lemma_closed(d, output);
    let a = d.push(operand(output));
    assert(given(a, "-f"@) =~= seq!["concat"@]);
    assert(given(a, "-safe"@) =~= seq!["0"@]);
    assert(given(a, "-i"@) =~= seq![operand(list.path)]);
    assert(given(a, "-c"@) =~= seq!["copy"@]);
    assert(written(a) =~= seq![operand(output)]);
}

// ---------------------------------------------------------------------------
// Joining files
// ---------------------------------------------------------------------------

/// The size of the first picture stream, as far as it is known.
pub open spec fn picture_size(p: ProbeResult) -> (Option<u32>, Option<u32>) {
    if p.videoed() {
        let v = p.streams@[first_video(p.streams@)];
        (v.width, v.height)
    } else {
        (None, None)
    }
}

/// Whether two inputs have the same codecs and the same picture size.
pub open spec fn alike(p: ProbeResult, q: ProbeResult) -> bool {
    p.vcodec() == q.vcodec() && p.acodec() == q.acodec() && picture_size(p) == picture_size(q)
}

/// Whether every input is probed and all are alike.
pub open spec fn known_alike(ctx: BuildContext) -> bool {
    &&& ctx.input_probes@.len() == ctx.inputs@.len()
    &&& forall|i: int, j: int|
        0 <= i < ctx.inputs@.len() && 0 <= j < ctx.inputs@.len() ==> alike(
            *#[trigger] ctx.input_probes@[i],
            *#[trigger] ctx.input_probes@[j],
        )
}

/// Whether some input is known to lack video or audio.
pub open spec fn known_lacking(ctx: BuildContext) -> bool {
    &&& ctx.input_probes@.len() == ctx.inputs@.len()
    &&& exists|i: int|
        0 <= i < ctx.inputs@.len() && !((#[trigger] ctx.input_probes@[i]).videoed()
            && ctx.input_probes@[i].sounded())
}

/// Joining joins the files in the order given. Files that are alike are joined
/// without re-encoding, through a list that names exactly them; so are any
/// when that was asked for. All others are re-encoded, each input once and in
/// order, unless one is known to lack video or audio: then there is no command.
pub proof fn law_joining_keeps_every_file_in_order(ctx: BuildContext)
    requires
        ctx.inputs@.len() >= 2,
    ensures
        ({
            let method = ctx.text_at("method"@, "auto"@);
            let inputs = texts(ctx.inputs@);
            if method == "demuxer"@ || (method != "filter"@ && known_alike(ctx)) {
                ConcatOp.command(ctx) matches Ok(c) && {
                    &&& c.concat_list matches Some(list) && list.inputs == inputs && joins_by_list(
                        c.args,
                        list,
                    )
                    &&& c.pre.len() == 0
                }
            } else if known_lacking(ctx) {
                ConcatOp.command(ctx) is Err
            } else {
                ConcatOp.command(ctx) matches Ok(c) && {
                    &&& joins_by_filter(c.args, inputs, "libx264"@, 23)
                    &&& c.concat_list is None
                    &&& c.pre.len() == 0
                }
            }
        }),
{
    let probes = ctx.input_probes@;
    let n = ctx.inputs@.len() as int;
    let inputs = texts(ctx.inputs@);
    let method = ctx.text_at("method"@, "auto"@);
    reveal_strlit("demuxer");
    reveal_strlit("filter");
    assert("demuxer"@.len() != "filter"@.len());
    assert forall|i: int, j: int| 0 <= i < probes.len() && 0 <= j < probes.len() implies (encoding(
        *#[trigger] probes[i],
    ) == encoding(*#[trigger] probes[j])) == alike(*probes[i], *probes[j]) by {}
    if probes.len() == n {
        assert(all_alike(probes) == known_alike(ctx)) by {
            if known_alike(ctx) {
                assert forall|i: int| 0 <= i < probes.len() implies encoding(*#[trigger] probes[i])
                    == encoding(*probes[0]) by {
                    assert(alike(*probes[i], *probes[0]));
                }
            }
            if all_alike(probes) {
                assert forall|i: int, j: int|
                    0 <= i < n && 0 <= j < n implies alike(
                        *#[trigger] probes[i],
                        *#[trigger] probes[j],
                    ) by {
                    assert(encoding(*probes[i]) == encoding(*probes[0]));
                    assert(encoding(*probes[j]) == encoding(*probes[0]));
                }
            }
        }
    }
    let output = chosen_output(ctx.output_text(), "joined.mp4"@);
    let begun = Command::new(ctx.program_text()).globals(true);
    if by_demuxer(ctx) {
        let path = list_path(ctx.temp_dir@, output);
        let list = ListFile { path, inputs };
        lemma_demuxed(
            begun.listing(list),
            list,
            "Stream copy through the concat demuxer — "@ + demuxer_why(
                probes,
                method == "demuxer"@,
            ) + "."@,
            output,
        );
    } else {
        lemma_stream_kinds(ctx);
        if !known_lacking(ctx) {
            lemma_filtered(
                begun,
                inputs,
                "libx264"@,
                23,
                "Concat filter: re-encode to normalize inputs. "@ + filter_why(ctx),
                output,
            );
        }
    }
}

proof fn lemma_stream_kinds(ctx: BuildContext)
    requires
        ctx.inputs@.len() >= 2,
    ensures
        known_lacking(ctx) <==> stream_kinds(ctx) != Ok::<(bool, bool), Seq<char>>((true, true)),
{
    let n = ctx.inputs@.len() as int;
    let some_video = exists|i: int| 0 <= i < n && #[trigger] shows(ctx, i);
    let all_video = forall|i: int| 0 <= i < n ==> #[trigger] shows(ctx, i);
    let some_audio = exists|i: int| 0 <= i < n && #[trigger] sounds(ctx, i);
    let all_audio = forall|i: int| 0 <= i < n ==> #[trigger] sounds(ctx, i);
    assert(all_video ==> some_video) by {
        if all_video {
            assert(shows(ctx, 0));
        }
    }
    assert(all_audio ==> some_audio) by {
        if all_audio {
            assert(sounds(ctx, 0));
        }
    }
    assert(known_lacking(ctx) == !(all_video && all_audio)) by {
        if all_video && all_audio && known_lacking(ctx) {
            let i = choose|i: int|
                0 <= i < n && !((#[trigger] ctx.input_probes@[i]).videoed()
                    && ctx.input_probes@[i].sounded());
            assert(shows(ctx, i) && sounds(ctx, i));
        }
        if !all_video {
            let i = choose|i: int| 0 <= i < n && !#[trigger] shows(ctx, i);
            assert(!ctx.input_probes@[i].videoed());
        }
        if !all_audio {
            let i = choose|i: int| 0 <= i < n && !#[trigger] sounds(ctx, i);
            assert(!ctx.input_probes@[i].sounded());
        }
    }
}

// ---------------------------------------------------------------------------
// Cutting and joining clips
// ---------------------------------------------------------------------------

/// Whether arguments cut one clip out of the first input. A fast cut seeks
/// before the input is opened, keeps the clip's length and copies the streams.
/// An accurate one seeks afterwards, stops at the clip's end and re-encodes.
pub open spec fn cuts(a: Seq<Seq<char>>, ctx: BuildContext, clip: ClipRange) -> bool {
    let start = if clip.start.nanos > 0 {
        seq![timestamp(clip.start.nanos as nat)]
    } else {
        Seq::empty()
    };
    &&& whole(a)
    &&& sets(a, "-i"@, operand(ctx.inputs@[0]@))
    &&& written(a).len() == 1
    &&& given(a, "-ss"@) == start
    &&& if ctx.toggle_at("mode"@, 0) == 1 {
        &&& given_ahead(a, "-ss"@).len() == 0
        &&& sets(a, "-to"@, timestamp(clip.end.nanos as nat)) && omits(a, "-t"@)
        &&& sets(a, "-c:v"@, ctx.text_at("video_codec"@, "libx264"@))
        &&& sets(a, "-crf"@, dec_int(ctx.int_at("crf"@, 23)))
        &&& sets(a, "-c:a"@, "aac"@) && omits(a, "-c"@)
        &&& if odd_sized(ctx.probed()) {
            sets(a, "-vf"@, "scale="@ + "trunc(iw/2)*2:trunc(ih/2)*2"@)
        } else {
            omits(a, "-vf"@)
        }
    } else {
        &&& given_ahead(a, "-ss"@) == start
        &&& sets(a, "-t"@, timestamp((clip.end.nanos - clip.start.nanos) as nat)) && omits(a, "-to"@)
        &&& sets(a, "-c"@, "copy"@)
        &&& omits(a, "-c:v"@) && omits(a, "-crf"@) && omits(a, "-c:a"@) && omits(a, "-vf"@)
    }
}

proof fn lemma_cut(ctx: BuildContext, clip: ClipRange, output: Seq<char>)
    requires
        ctx.inputs@.len() > 0,
        clip.start.nanos < clip.end.nanos,
    ensures
        cuts(cut_clip(cut_of(ctx), clip, output).args, ctx, clip),
        written(cut_clip(cut_of(ctx), clip, output).args) == seq![operand(output)],
        cut_clip(cut_of(ctx), clip, output).pre.len() == 0,
        cut_clip(cut_of(ctx), clip, output).concat_list is None,
{
    broadcast use group_reading;

    lemma_flags();
    let cut = cut_of(ctx);
    lemma_globals(cut.program);
    let g = Command::new(cut.program).globals(true).args;
    let c = cut_clip(cut, clip, output).args;
    let body = c.drop_last();
    let at = timestamp(clip.start.nanos as nat);
    let none = Seq::<Seq<char>>::empty();
    assert(given(g, "-i"@).len() == 0);
    assert(given_ahead(g, "-ss"@) =~= none);
    assert(given(g, "-ss"@) =~= none);
    assert(none.push(at) =~= seq![at]);
    if !cut.accurate {
        let sought = if clip.start.nanos > 0 {
            g.push("-ss"@).push(at)
        } else {
            g
        };
        assert(whole(sought));
        assert(body =~= sought.push("-i"@).push(operand(cut.input)).push("-t"@).push(
            timestamp(clip.length()),
        ).push("-c"@).push("copy"@));
        assert(whole(body));
    } else {
        let opened = g.push("-i"@).push(operand(cut.input));
        assert(whole(opened));
        assert(given(opened, "-i"@).len() == 1);
        let sought = if clip.start.nanos > 0 {
            opened.push("-ss"@).push(at)
        } else {
            opened
        };
        assert(whole(sought));
        assert(given(sought, "-i"@).len() == 1);
        let ended = sought.push("-to"@).push(timestamp(clip.end.nanos as nat));
        assert(whole(ended));
        assert(given(ended, "-i"@).len() == 1);
        let scaled = match cut.even {
            Some(even) => ended.push("-vf"@).push("scale="@ + even),
            None => ended,
        };
        assert(whole(scaled));
        assert(given(scaled, "-i"@).len() == 1);
        assert(body =~= scaled.push("-c:v"@).push(cut.vcodec).push("-crf"@).push(
            dec_int(cut.crf),
        ).push("-c:a"@).push("aac"@));
        assert(whole(body));
    }
    assert(c =~= body.push(operand(output)));
    lemma_closed(body, output);
    assert(written(c) =~= seq![operand(output)]);
}

/// No clip is empty exactly when none is found.
proof fn lemma_none_empty(v: Seq<ClipRange>)
    ensures
        0 <= first_empty(v) <= v.len(),
        first_empty(v) == v.len() <==> forall|i: int| 0 <= i < v.len() ==> keeps_some(#[trigger] v[i]),
    decreases v.len(),
{
    if v.len() > 0 {
        let t = v.skip(1);
        lemma_none_empty(t);
        if keeps_some(v[0]) {
            if forall|i: int| 0 <= i < v.len() ==> keeps_some(#[trigger] v[i]) {
                assert forall|i: int| 0 <= i < t.len() implies keeps_some(#[trigger] t[i]) by {
                    assert(t[i] == v[i + 1]);
                }
            }
            if forall|i: int| 0 <= i < t.len() ==> keeps_some(#[trigger] t[i]) {
                assert forall|i: int| 0 <= i < v.len() implies keeps_some(#[trigger] v[i]) by {
                    if i > 0 {
                        assert(t[i - 1] == v[i]);
                    }
                }
            }
        } else {
            assert(!keeps_some(v[0]));
        }
    }
}

/// Clips in another order are the same clips.
proof fn lemma_same_clips(v: Seq<ClipRange>, w: Seq<ClipRange>)
    requires
        v.to_multiset() == w.to_multiset(),
        forall|i: int| 0 <= i < v.len() ==> keeps_some(#[trigger] v[i]),
    ensures
        forall|i: int| 0 <= i < w.len() ==> keeps_some(#[trigger] w[i]),
{
    broadcast use vstd::seq_lib::group_to_multiset_ensures;

    assert forall|i: int| 0 <= i < w.len() implies keeps_some(#[trigger] w[i]) by {
        assert(w.contains(w[i]));
        assert(w.to_multiset().count(w[i]) > 0);
        assert(v.contains(w[i]));
    }
}

/// Whether every clip ends behind its start.
pub open spec fn all_keep_some(v: Seq<ClipRange>) -> bool {
    forall|i: int| 0 <= i < v.len() ==> (#[trigger] v[i]).start.nanos < v[i].end.nanos
}

proof fn lemma_trim_refuses(ctx: BuildContext)
    requires
        ctx.inputs@.len() > 0,
    ensures
        TrimOp.command(ctx) is Err <==> ctx.clips@.len() == 0 || !all_keep_some(ctx.clips@),
        all_keep_some(ctx.clips@) ==> all_keep_some(by_start(ctx.clips@)),
        by_start(ctx.clips@).len() == ctx.clips@.len(),
{
    let v = ctx.clips@;
    let s = by_start(v);
    law_clips_in_timeline_order(v);
    lemma_none_empty(s);
    assert(all_keep_some(v) == forall|i: int| 0 <= i < v.len() ==> keeps_some(#[trigger] v[i])) by {
        if all_keep_some(v) {
            assert forall|i: int| 0 <= i < v.len() implies keeps_some(#[trigger] v[i]) by {}
        }
        if forall|i: int| 0 <= i < v.len() ==> keeps_some(#[trigger] v[i]) {
            assert forall|i: int| 0 <= i < v.len() implies (#[trigger] v[i]).start.nanos
                < v[i].end.nanos by {
                assert(keeps_some(v[i]));
            }
        }
    }
    if forall|i: int| 0 <= i < v.len() ==> keeps_some(#[trigger] v[i]) {
        lemma_same_clips(v, s);
        assert forall|i: int| 0 <= i < s.len() implies (#[trigger] s[i]).start.nanos
            < s[i].end.nanos by {
            assert(keeps_some(s[i]));
        }
    }
    if forall|i: int| 0 <= i < s.len() ==> keeps_some(#[trigger] s[i]) {
        lemma_same_clips(s, v);
    }
}

/// Trimming needs a clip, and every clip must end behind its start. One clip is
/// cut straight into the output.
pub proof fn law_one_clip_is_cut_out(ctx: BuildContext)
    requires
        ctx.inputs@.len() > 0,
    ensures
        TrimOp.command(ctx) is Err <==> ctx.clips@.len() == 0 || !all_keep_some(ctx.clips@),
        ctx.clips@.len() == 1 ==> (TrimOp.command(ctx) matches Ok(c) ==> cuts(
            c.args,
            ctx,
            ctx.clips@[0],
        ) && c.pre.len() == 0 && c.concat_list is None),
{
    lemma_trim_refuses(ctx);
    if ctx.clips@.len() == 1 && TrimOp.command(ctx) is Ok {
        let v = ctx.clips@;
        let input = ctx.inputs@[0]@;
        let ext = kept_extension(input);
        let output = chosen_output(ctx.output_text(), output_name(input, "trimmed"@, ext));
        reveal_with_fuel(by_start, 2);
        assert(by_start(v) =~= v) by {
            assert(by_start(v.drop_last()) =~= Seq::<ClipRange>::empty());
        }
        lemma_cut(ctx, v[0], output);
    }
}

/// The files that clips are cut into are told apart by their numbers.
proof fn lemma_clip_files_differ(output: Seq<char>, ext: Seq<char>, i: nat, j: nat)
    requires
        i != j,
    ensures
        operand(clip_file(output, ext, i)) != operand(clip_file(output, ext, j)),
{
    law_numbers_read_back(i + 1);
    law_numbers_read_back(j + 1);
    reveal_strlit("_clip");
    let stem = or_else(file_stem(output), "trimmed"@) + "_clip"@;
    let tail = "."@ + or_else(extension(output), ext);
    let x = stem + dec(i + 1) + "."@ + or_else(extension(output), ext);
    let y = stem + dec(j + 1) + "."@ + or_else(extension(output), ext);
    assert(x =~= stem + (dec(i + 1) + tail));
    assert(y =~= stem + (dec(j + 1) + tail));
    assert(stem.len() > 0);
    assert(x[0] == stem[0] && y[0] == stem[0]);
    let p = clip_file(output, ext, i);
    let q = clip_file(output, ext, j);
    // Both stand in the same directory.
    assert(exists|dir: Seq<char>| p == dir + x && q == dir + y) by {
        let none = Seq::<char>::empty();
        assert(none + x =~= x && none + y =~= y);
        match crate::path::parent(output) {
            Some(d) => {
                if d.len() > 0 && x[0] != '/' {
                    if d.last() == '/' {
                        assert(p == d + x && q == d + y);
                    } else {
                        let dir = d + seq!['/'];
                        assert(p == dir + x && q == dir + y);
                    }
                } else {
                    assert(p == none + x && q == none + y);
                }
            },
            None => {
                assert(p == none + x && q == none + y);
            },
        }
    }
    let dir = choose|dir: Seq<char>| p == dir + x && q == dir + y;
    assert(p[0] == q[0]) by {
        if dir.len() > 0 {
            assert(p[0] == dir[0] && q[0] == dir[0]);
        }
    }
    if operand(p) == operand(q) {
        if p[0] == '-' {
            assert(operand(p).skip(2) =~= p);
            assert(operand(q).skip(2) =~= q);
        }
        assert(p == q);
        let n = (dir.len() + stem.len()) as int;
        assert(p.skip(n) =~= dec(i + 1) + tail);
        assert(q.skip(n) =~= dec(j + 1) + tail);
        assert(dec(i + 1).len() == dec(j + 1).len());
        assert((dec(i + 1) + tail).take(dec(i + 1).len() as int) =~= dec(i + 1));
        assert((dec(j + 1) + tail).take(dec(j + 1).len() as int) =~= dec(j + 1));
    }
}

/// Whether a command cuts clips, in the given order, into files, and joins
/// these files in the same order.
pub open spec fn plays(c: Command, ctx: BuildContext, clips: Seq<ClipRange>) -> bool {
    &&& c.pre.len() == clips.len()
    &&& forall|i: int| 0 <= i < clips.len() ==> cuts((#[trigger] c.pre[i]).args, ctx, clips[i])
    &&& forall|i: int, j: int|
        0 <= i < j < clips.len() ==> written((#[trigger] c.pre[i]).args) != written(
            (#[trigger] c.pre[j]).args,
        )
    &&& exists|files: Seq<Seq<char>>|
        {
            &&& files.len() == clips.len()
            &&& forall|i: int|
                0 <= i < clips.len() ==> written((#[trigger] c.pre[i]).args) == seq![
                    operand(files[i]),
                ]
            &&& if ctx.toggle_at("mode"@, 0) == 1 {
                c.concat_list matches Some(list) && list.inputs == files && joins_by_list(
                    c.args,
                    list,
                )
            } else {
                &&& c.concat_list is None
                &&& #[trigger] joins_by_filter(
                    c.args,
                    files,
                    ctx.text_at("video_codec"@, "libx264"@),
                    ctx.int_at("crf"@, 23),
                )
            }
        }
}

/// Several clips play in timeline order, whatever order they were made in:
/// each is cut into a file of its own, and the files are joined in the order of
/// the clips' starts.
pub proof fn law_clips_play_in_timeline_order(ctx: BuildContext)
    requires
        ctx.inputs@.len() > 0,
        ctx.clips@.len() > 1,
        all_keep_some(ctx.clips@),
    ensures
        TrimOp.command(ctx) matches Ok(c) && exists|clips: Seq<ClipRange>|
            starts_in_order(clips) && clips.to_multiset() == ctx.clips@.to_multiset()
                && #[trigger] plays(c, ctx, clips),
{
    let s = by_start(ctx.clips@);
    law_clips_in_timeline_order(ctx.clips@);
    lemma_trim_refuses(ctx);
    let input = ctx.inputs@[0]@;
    let ext = kept_extension(input);
    let output = chosen_output(ctx.output_text(), output_name(input, "trimmed"@, ext));
    let c = joined_cuts(ctx, cut_of(ctx), s, output, ext);
    assert(TrimOp.command(ctx) == Ok::<Command, Seq<char>>(c));
    lemma_plays(ctx, s, output, ext);
}

proof fn lemma_plays(ctx: BuildContext, s: Seq<ClipRange>, output: Seq<char>, ext: Seq<char>)
    requires
        ctx.inputs@.len() > 0,
        all_keep_some(s),
    ensures
        plays(joined_cuts(ctx, cut_of(ctx), s, output, ext), ctx, s),
{
    let n = s.len();
    let c = joined_cuts(ctx, cut_of(ctx), s, output, ext);
    let files = clip_files(output, ext, n);
    lemma_joined_cuts(ctx, s, output, ext);
    assert forall|i: int| 0 <= i < n implies cuts((#[trigger] c.pre[i]).args, ctx, s[i])
        && written(c.pre[i].args) == seq![operand(files[i])] by {
        lemma_cut(ctx, s[i], files[i]);
    }
    assert forall|i: int, j: int| 0 <= i < j < n implies written((#[trigger] c.pre[i]).args)
        != written((#[trigger] c.pre[j]).args) by {
        lemma_clip_files_differ(output, ext, i as nat, j as nat);
        assert(written(c.pre[i].args)[0] == operand(files[i]));
        assert(written(c.pre[j].args)[0] == operand(files[j]));
    }
    let x = joins_by_filter(
        c.args,
        files,
        ctx.text_at("video_codec"@, "libx264"@),
        ctx.int_at("crf"@, 23),
    );
    assert(x || !x);
}

proof fn lemma_joined_cuts(ctx: BuildContext, s: Seq<ClipRange>, output: Seq<char>, ext: Seq<char>)
    ensures
        ({
            let c = joined_cuts(ctx, cut_of(ctx), s, output, ext);
            let files = clip_files(output, ext, s.len());
            &&& c.pre.len() == s.len()
            &&& forall|i: int|
                0 <= i < s.len() ==> (#[trigger] c.pre[i]).args == cut_clip(
                    cut_of(ctx),
                    s[i],
                    files[i],
                ).args
            &&& if ctx.toggle_at("mode"@, 0) == 1 {
                c.concat_list matches Some(list) && list.inputs == files && joins_by_list(
                    c.args,
                    list,
                )
            } else {
                &&& c.concat_list is None
                &&& joins_by_filter(
                    c.args,
                    files,
                    ctx.text_at("video_codec"@, "libx264"@),
                    ctx.int_at("crf"@, 23),
                )
            }
        }),
{
    let n = s.len();
    let cut = cut_of(ctx);
    let files = clip_files(output, ext, n);
    let begun = Command::new(cut.program).globals(true);
    let made = cutting(begun, cut, s, output, ext, n);
    lemma_cutting_args(begun, cut, s, output, ext, n);
    let list = ListFile { path: list_path(ctx.temp_dir@, output), inputs: files };
    if cut.accurate {
        let why = "Join "@ + dec(n)
            + " timeline clips in order — re-encoded to identical settings, so stream copy applies."@;
        lemma_demuxed(made.listing(list), list, why, output);
    } else {
        let why = "Join "@ + dec(n)
            + " timeline clips in order — the stream-copied segments keep ragged timestamps, so the join re-encodes to line them up."@;
        lemma_filtered(made, files, cut.vcodec, cut.crf, why, output);
    }
}

proof fn lemma_cutting_args(
    c: Command,
    cut: Cut,
    clips: Seq<ClipRange>,
    output: Seq<char>,
    ext: Seq<char>,
    n: nat,
)
    requires
        c.pre.len() == 0,
    ensures
        cutting(c, cut, clips, output, ext, n).args == c.args,
        cutting(c, cut, clips, output, ext, n).program == c.program,
        cutting(c, cut, clips, output, ext, n).concat_list == c.concat_list,
        cutting(c, cut, clips, output, ext, n).pre.len() == n,
        forall|i: int|
            0 <= i < n ==> (#[trigger] cutting(c, cut, clips, output, ext, n).pre[i]).args
                == cut_clip(cut, clips[i], clip_file(output, ext, i as nat)).args,
    decreases n,
{
    if n > 0 {
        lemma_cutting_args(c, cut, clips, output, ext, (n - 1) as nat);
    }
}

} // verus!
