//! Concat: several files joined into one.
//!
//! Inputs with the same encoding join through the `concat` demuxer and a list
//! file, which copies the streams. All others join through the `concat`
//! filter, which re-encodes. The command names the way that was chosen and
//! why; where a probe is missing, the way that always works is taken.

use vstd::prelude::*;
use vstd::string::StringExecFns;
use crate::ffmpeg::builder::{
    chosen_output, operand, or_else, push_globals, resolve_output, safe_path_arg, Command,
    CommandSpec, ListFile,
};
use crate::ffmpeg::capabilities::CapabilityReport;
use crate::ffmpeg::probe::{first_video, ProbeResult};
use crate::number::{dec, dec_int, show, show_int, show_usize};
use crate::ops::fields::{
    choices, rows, select_row, text_row, BuildContext, Choice, Field, FieldContext, Row,
    SelectOption,
};
use crate::ops::parts::{caps_of, fail, need, probe_of, BuildError};
use crate::ops::{About, InputKind, Operation, OperationMeta};
use crate::path::{file_stem, get_file_stem, join_path, joined_path};
use crate::text::{copy_text, join2, join3, opt_text, same, same_opt, texts};

verus! {

/// The concat operation.
#[derive(Debug, Clone, Copy)]
pub struct ConcatOp;

/// The ways to join.
pub open spec fn method_choices() -> Seq<Choice> {
    seq![
        Choice::of("Auto (recommended)"@, "auto"@),
        Choice::of("Stream copy (demuxer)"@, "demuxer"@),
        Choice::of("Re-encode (filter)"@, "filter"@),
    ]
}

/// Offers these choices.
fn offer_method() -> (r: Vec<SelectOption>)
    ensures
        choices(r@) == method_choices(),
{
    let v = vec![
        SelectOption::labeled("Auto (recommended)", "auto"),
        SelectOption::labeled("Stream copy (demuxer)", "demuxer"),
        SelectOption::labeled("Re-encode (filter)", "filter"),
    ];
    assert(choices(v@) =~= method_choices());
    v
}

/// What has to agree for inputs to join without re-encoding.
pub struct Signature {
    pub video_codec: Option<String>,
    pub audio_codec: Option<String>,
    pub width: Option<u32>,
    pub height: Option<u32>,
}

/// What a signature says.
#[verifier::ext_equal]
pub struct Encoding {
    pub video: Option<Seq<char>>,
    pub audio: Option<Seq<char>>,
    pub width: Option<u32>,
    pub height: Option<u32>,
}

/// The encoding of a probed input.
pub open spec fn encoding(p: ProbeResult) -> Encoding {
    let v = p.streams@[first_video(p.streams@)];
    Encoding {
        video: p.vcodec(),
        audio: p.acodec(),
        width: if p.videoed() {
            v.width
        } else {
            None
        },
        height: if p.videoed() {
            v.height
        } else {
            None
        },
    }
}

/// An optional dimension as text.
pub open spec fn dim_text(o: Option<u32>) -> Seq<char> {
    match o {
        Some(n) => dec(n as nat),
        None => "?"@,
    }
}

/// An encoding as text.
pub open spec fn encoding_text(e: Encoding) -> Seq<char> {
    or_else(e.video, "?"@) + "/"@ + or_else(e.audio, "?"@) + " "@ + dim_text(e.width) + "x"@
        + dim_text(e.height)
}

/// Renders an optional dimension.
fn show_dim(o: Option<u32>) -> (r: String)
    ensures
        r@ == dim_text(o),
{
    match o {
        Some(n) => show(n as u128),
        None => copy_text("?"),
    }
}

impl Signature {
    pub open spec fn view(&self) -> Encoding {
        Encoding {
            video: opt_text(self.video_codec),
            audio: opt_text(self.audio_codec),
            width: self.width,
            height: self.height,
        }
    }

    /// The signature of a probed input.
    pub fn of(probe: &ProbeResult) -> (r: Self)
        ensures
            r@ == encoding(*probe),
    {
        let (width, height) = match probe.video_stream() {
            Some(v) => (v.width, v.height),
            None => (None, None),
        };
        Signature {
            video_codec: match probe.video_codec() {
                Some(c) => Some(copy_text(c)),
                None => None,
            },
            audio_codec: match probe.audio_codec() {
                Some(c) => Some(copy_text(c)),
                None => None,
            },
            width,
            height,
        }
    }

    /// Renders a signature as `video/audio WxH`.
    pub fn describe(&self) -> (r: String)
        ensures
            r@ == encoding_text(self@),
    {
        let video = match &self.video_codec {
            Some(c) => copy_text(c.as_str()),
            None => copy_text("?"),
        };
        let audio = match &self.audio_codec {
            Some(c) => copy_text(c.as_str()),
            None => copy_text("?"),
        };
        let codecs = join3(video.as_str(), "/", audio.as_str());
        let wide = join3(codecs.as_str(), " ", show_dim(self.width).as_str());
        join3(wide.as_str(), "x", show_dim(self.height).as_str())
    }

    /// Whether two signatures agree.
    pub fn agrees(&self, other: &Signature) -> (r: bool)
        ensures
            r == (self@ == other@),
    {
        let r = same_opt(&self.video_codec, &other.video_codec) && same_opt(
            &self.audio_codec,
            &other.audio_codec,
        ) && same_dim(self.width, other.width) && same_dim(self.height, other.height);
        assert(r == (self@ =~= other@));
        r
    }
}

/// Whether two optional dimensions agree.
fn same_dim(a: Option<u32>, b: Option<u32>) -> (r: bool)
    ensures
        r == (a == b),
{
    match (a, b) {
        (Some(x), Some(y)) => x == y,
        (None, None) => true,
        _ => false,
    }
}

/// Whether there are inputs and all of them have the same encoding.
pub open spec fn all_alike(probes: Seq<&ProbeResult>) -> bool {
    probes.len() > 0 && forall|i: int|
        0 <= i < probes.len() ==> encoding(*#[trigger] probes[i]) == encoding(*probes[0])
}

/// Compares the encodings of all inputs.
#[verifier::loop_isolation(false)]
pub fn signatures_match(probes: &[&ProbeResult]) -> (r: bool)
    ensures
        r == all_alike(probes@),
{
    if probes.len() == 0 {
        return false;
    }
    let first = Signature::of(probes[0]);
    let mut i: usize = 1;
    while i < probes.len()
        invariant
            1 <= i <= probes@.len(),
            first@ == encoding(*probes@[0]),
            forall|j: int| 0 <= j < i ==> encoding(*#[trigger] probes@[j]) == encoding(*probes@[0]),
        decreases probes@.len() - i,
    {
        if !Signature::of(probes[i]).agrees(&first) {
            return false;
        }
        i = i + 1;
    }
    true
}

pub const METHOD_HELP: &'static str = "Auto compares every input: identical codec, size, and audio → demuxer with stream copy (fast). Anything else → concat filter with re-encode (always works). Forcing demuxer on mismatched files fails — ffmpeg says so loudly.";

pub const OUTPUT_HELP: &'static str = "Joined output path.";

/// The form.
pub open spec fn concat_form(_probe: Option<ProbeResult>, _caps: Option<CapabilityReport>) -> Seq<Row> {
    seq![
        select_row(
            "method"@,
            "Method"@,
            method_choices(),
            0,
            METHOD_HELP@,
        ),
        text_row("output"@, "Output"@, "joined.mp4"@, OUTPUT_HELP@),
    ]
}

/// The list file of a join that writes `output`.
pub open spec fn list_path(temp_dir: Seq<char>, output: Seq<char>) -> Seq<char> {
    joined_path(
        temp_dir,
        "ffkit-concat-"@ + or_else(file_stem(output), "join"@) + ".txt"@,
    )
}

/// Works out where the list file goes.
pub fn concat_list_path(temp_dir: &str, output: &str) -> (r: String)
    ensures
        r@ == list_path(temp_dir@, output@),
{
    let stem = match get_file_stem(output) {
        Some(s) => s,
        None => copy_text("join"),
    };
    let name = join3("ffkit-concat-", stem.as_str(), ".txt");
    join_path(temp_dir, name.as_str())
}

/// With the flags that join what a list file names, stream by stream.
pub open spec fn demuxed(c: Command, list: Seq<char>, why: Seq<char>) -> Command {
    c.arg("-f"@).arg("concat"@).arg("-safe"@).arg("0"@).arg("-i"@).arg(operand(list)).flag_value(
        "-c"@,
        "copy"@,
        why,
    )
}

/// Appends a join through the demuxer.
pub fn demuxer_args(spec: &mut CommandSpec, list_path: &str, reason: &str)
    ensures
        final(spec)@ == demuxed(old(spec)@, list_path@, reason@),
{
    spec.arg("-f");
    spec.arg("concat");
    spec.arg("-safe");
    spec.arg("0");
    spec.arg("-i");
    spec.arg(safe_path_arg(list_path).as_str());
    spec.flag_value("-c", "copy", reason);
}

/// The video and audio pads of the first `n` inputs.
pub open spec fn pads(n: nat) -> Seq<char>
    decreases n,
{
    if n == 0 {
        Seq::empty()
    } else {
        let i = dec((n - 1) as nat);
        pads((n - 1) as nat) + "["@ + i + ":v]["@ + i + ":a]"@
    }
}

/// The filter that joins `n` inputs.
pub open spec fn join_filter(n: nat) -> Seq<char> {
    pads(n) + "concat=n="@ + dec(n) + ":v=1:a=1[outv][outa]"@
}

/// With every input as an operand of its own.
pub open spec fn reading(c: Command, inputs: Seq<Seq<char>>) -> Command
    decreases inputs.len(),
{
    if inputs.len() == 0 {
        c
    } else {
        reading(c, inputs.drop_last()).arg("-i"@).arg(operand(inputs.last()))
    }
}

/// With the flags that join inputs by re-encoding them.
pub open spec fn filtered(
    c: Command,
    inputs: Seq<Seq<char>>,
    vcodec: Seq<char>,
    crf: int,
    why: Seq<char>,
) -> Command {
    reading(c, inputs).flag_value("-filter_complex"@, join_filter(inputs.len()), why).arg(
        "-map"@,
    ).arg("[outv]"@).flag_value(
        "-c:v"@,
        vcodec,
        "Re-encoded join video ("@ + vcodec + ")."@,
    ).flag_value("-crf"@, dec_int(crf), "Quality for the joined video."@).arg("-map"@).arg(
        "[outa]"@,
    ).flag_value("-c:a"@, "aac"@, "Re-encoded join audio."@)
}

/// Appends a join through the filter. Every input must carry video and audio.
pub fn filter_args(
    spec: &mut CommandSpec,
    inputs: &[String],
    vcodec: &str,
    crf: i64,
    reason: &str,
)
    ensures
        final(spec)@ == filtered(old(spec)@, texts(inputs@), vcodec@, crf as int, reason@),
{
    let ghost c = spec@;
    let ghost all = texts(inputs@);
    let mut filter = String::new();
    let mut i: usize = 0;
    assert(all.take(0) =~= Seq::<Seq<char>>::empty());
    while i < inputs.len()
        invariant
            i <= inputs@.len(),
            all == texts(inputs@),
            filter@ == pads(i as nat),
            spec@ == reading(c, all.take(i as int)),
        decreases inputs@.len() - i,
    {
        let n = show_usize(i);
        filter.append("[");
        filter.append(n.as_str());
        filter.append(":v][");
        filter.append(n.as_str());
        filter.append(":a]");
        proof {
            assert(all.take(i + 1).drop_last() =~= all.take(i as int));
            assert(all.take(i + 1).last() == inputs@[i as int]@);
        }
        spec.arg("-i");
        spec.arg(safe_path_arg(inputs[i].as_str()).as_str());
        i = i + 1;
    }
    assert(all.take(i as int) =~= all);
    filter.append("concat=n=");
    filter.append(show_usize(inputs.len()).as_str());
    filter.append(":v=1:a=1[outv][outa]");
    spec.flag_value("-filter_complex", filter.as_str(), reason);
    spec.arg("-map");
    spec.arg("[outv]");
    let why = join3("Re-encoded join video (", vcodec, ").");
    spec.flag_value("-c:v", vcodec, why.as_str());
    spec.flag_value("-crf", show_int(crf).as_str(), "Quality for the joined video.");
    spec.arg("-map");
    spec.arg("[outa]");
    spec.flag_value("-c:a", "aac", "Re-encoded join audio.");
}

/// Why the demuxer was taken.
pub open spec fn demuxer_why(probes: Seq<&ProbeResult>, forced: bool) -> Seq<char> {
    if forced {
        "forced demuxer mode — fails loudly on mismatched files"@
    } else if probes.len() == 0 {
        "inputs unprobed but demuxer forced"@
    } else {
        "all "@ + dec(probes.len()) + " inputs are "@ + encoding_text(encoding(*probes[0]))
            + " — no re-encode needed"@
    }
}

/// Says why the demuxer was taken.
pub fn demuxer_reason(probes: &[&ProbeResult], forced: bool) -> (r: String)
    ensures
        r@ == demuxer_why(probes@, forced),
{
    if forced {
        return copy_text("forced demuxer mode — fails loudly on mismatched files");
    }
    if probes.len() == 0 {
        return copy_text("inputs unprobed but demuxer forced");
    }
    let head = join3("all ", show_usize(probes.len()).as_str(), " inputs are ");
    join3(
        head.as_str(),
        Signature::of(probes[0]).describe().as_str(),
        " — no re-encode needed",
    )
}

/// Why the filter was taken.
pub open spec fn filter_why(ctx: BuildContext) -> Seq<char> {
    if ctx.text_at("method"@, "auto"@) == "filter"@ {
        "Forced re-encode mode."@
    } else if ctx.input_probes@.len() != ctx.inputs@.len() {
        "Not all inputs are probed yet — re-encoding to be safe."@
    } else {
        "Inputs differ in codec, size, or audio — the demuxer would refuse them."@
    }
}

/// Says why the filter was taken.
pub fn filter_reason(ctx: &BuildContext) -> (r: String)
    ensures
        r@ == filter_why(*ctx),
{
    if same(ctx.get_str("method", "auto").as_str(), "filter") {
        copy_text("Forced re-encode mode.")
    } else if ctx.input_probes.len() != ctx.inputs.len() {
        copy_text("Not all inputs are probed yet — re-encoding to be safe.")
    } else {
        copy_text("Inputs differ in codec, size, or audio — the demuxer would refuse them.")
    }
}

/// Whether input `i` carries video; assumed while not all inputs are probed.
pub open spec fn shows(ctx: BuildContext, i: int) -> bool {
    ctx.input_probes@.len() == ctx.inputs@.len() ==> ctx.input_probes@[i].videoed()
}

/// Whether input `i` carries audio; assumed while not all inputs are probed.
pub open spec fn sounds(ctx: BuildContext, i: int) -> bool {
    ctx.input_probes@.len() == ctx.inputs@.len() ==> ctx.input_probes@[i].sounded()
}

/// Whether some input carries video, and whether some carries audio; refused
/// where some do and some do not.
pub open spec fn stream_kinds(ctx: BuildContext) -> Result<(bool, bool), Seq<char>> {
    let n = ctx.inputs@.len() as int;
    let some_video = exists|i: int| 0 <= i < n && #[trigger] shows(ctx, i);
    let all_video = forall|i: int| 0 <= i < n ==> #[trigger] shows(ctx, i);
    let some_audio = exists|i: int| 0 <= i < n && #[trigger] sounds(ctx, i);
    let all_audio = forall|i: int| 0 <= i < n ==> #[trigger] sounds(ctx, i);
    if (some_video && !all_video) || (some_audio && !all_audio) {
        Err(MIXED_ERROR@)
    } else {
        Ok((some_video, some_audio))
    }
}

pub const MIXED_ERROR: &'static str = "inputs mix different stream types (some with video/audio, some without) — normalize them first (e.g. convert each to MP4), then join";

pub const BOTH_ERROR: &'static str = "the concat filter here needs video+audio in every input — mixed inputs need normalizing first";

/// Finds out which streams the inputs carry.
pub fn concat_stream_kinds(ctx: &BuildContext) -> (r: Result<(bool, bool), BuildError>)
    ensures
        match r {
            Ok(kinds) => stream_kinds(*ctx) == Ok::<(bool, bool), Seq<char>>(kinds),
            Err(e) => stream_kinds(*ctx) == Err::<(bool, bool), Seq<char>>(e.message@),
        },
{
    let complete = ctx.input_probes.len() == ctx.inputs.len();
    let mut some_video = false;
    let mut all_video = true;
    let mut some_audio = false;
    let mut all_audio = true;
    let mut i: usize = 0;
    while i < ctx.inputs.len()
        invariant
            i <= ctx.inputs@.len(),
            complete == (ctx.input_probes@.len() == ctx.inputs@.len()),
            some_video == (exists|j: int| 0 <= j < i && #[trigger] shows(*ctx, j)),
            all_video == (forall|j: int| 0 <= j < i ==> #[trigger] shows(*ctx, j)),
            some_audio == (exists|j: int| 0 <= j < i && #[trigger] sounds(*ctx, j)),
            all_audio == (forall|j: int| 0 <= j < i ==> #[trigger] sounds(*ctx, j)),
        decreases ctx.inputs@.len() - i,
    {
        let video = !complete || ctx.input_probes[i].has_video();
        let audio = !complete || ctx.input_probes[i].has_audio();
        assert(video == shows(*ctx, i as int));
        assert(audio == sounds(*ctx, i as int));
        some_video = some_video || video;
        all_video = all_video && video;
        some_audio = some_audio || audio;
        all_audio = all_audio && audio;
        i = i + 1;
    }
    if (some_video && !all_video) || (some_audio && !all_audio) {
        return Err(fail(MIXED_ERROR));
    }
    Ok((some_video, some_audio))
}

/// Whether the demuxer is taken: when it is asked for, or by default when every
/// input is probed and all are alike.
pub open spec fn by_demuxer(ctx: BuildContext) -> bool {
    let method = ctx.text_at("method"@, "auto"@);
    method == "demuxer"@ || (method != "filter"@ && ctx.input_probes@.len() == ctx.inputs@.len()
        && all_alike(ctx.input_probes@))
}

/// The command.
pub open spec fn concat_command(ctx: BuildContext) -> Result<Command, Seq<char>> {
    let output = chosen_output(ctx.output_text(), "joined.mp4"@);
    let begun = Command::new(ctx.program_text()).globals(true);
    let inputs = texts(ctx.inputs@);
    if ctx.inputs@.len() < 2 {
        Err("concat needs at least two inputs — pick more files with Space"@)
    } else if by_demuxer(ctx) {
        let list = list_path(ctx.temp_dir@, output);
        let forced = ctx.text_at("method"@, "auto"@) == "demuxer"@;
        Ok(
            demuxed(
                begun.listing(ListFile { path: list, inputs }),
                list,
                "Stream copy through the concat demuxer — "@ + demuxer_why(
                    ctx.input_probes@,
                    forced,
                ) + "."@,
            ).arg(operand(output)),
        )
    } else {
        match stream_kinds(ctx) {
            Err(message) => Err(message),
            Ok((video, audio)) => if !(video && audio) {
                Err(BOTH_ERROR@)
            } else {
                Ok(
                    filtered(
                        begun,
                        inputs,
                        "libx264"@,
                        23,
                        "Concat filter: re-encode to normalize inputs. "@ + filter_why(ctx),
                    ).arg(operand(output)),
                )
            },
        }
    }
}

impl Operation for ConcatOp {
    open spec fn about(&self) -> About {
        About {
            id: "concat"@,
            name: "Join videos"@,
            description: "Concatenate files (stream-copy when possible)"@,
            accepts: InputKind::Multiple,
        }
    }

    open spec fn form(&self, probe: Option<ProbeResult>, caps: Option<CapabilityReport>) -> Seq<Row> {
        concat_form(probe, caps)
    }

    open spec fn command(&self, ctx: BuildContext) -> Result<Command, Seq<char>> {
        concat_command(ctx)
    }

    fn meta(&self) -> (r: OperationMeta) {
        OperationMeta {
            id: "concat",
            name: "Join videos",
            description: "Concatenate files (stream-copy when possible)",
            accepts: InputKind::Multiple,
        }
    }

    fn fields(&self, ctx: &FieldContext) -> (r: Vec<Field>) {
        
        let out = vec![
            Field::select("method", "Method", offer_method(), 0, METHOD_HELP),
            Field::text("output", "Output", "joined.mp4", OUTPUT_HELP),
        ];
        assert(rows(out@) =~= self.form(probe_of(ctx.probe), caps_of(ctx.caps)));
        out
    }

    fn build(&self, ctx: &BuildContext) -> (r: Result<CommandSpec, BuildError>) {
        if ctx.inputs.len() < 2 {
            return Err(
                fail("concat needs at least two inputs — pick more files with Space"),
            );
        }
        let output = resolve_output(ctx.output, copy_text("joined.mp4"));
        let method = ctx.get_str("method", "auto");
        let forced = same(method.as_str(), "demuxer");
        proof {
            reveal_strlit("demuxer");
            reveal_strlit("filter");
            assert("demuxer"@.len() != "filter"@.len());
        }
        let demuxer = if forced {
            true
        } else if same(method.as_str(), "filter") {
            false
        } else {
            ctx.input_probes.len() == ctx.inputs.len() && signatures_match(
                ctx.input_probes.as_slice(),
            )
        };
        let mut spec = CommandSpec::new(ctx.program().as_str());
        push_globals(&mut spec, true);
        if demuxer {
            let list = concat_list_path(ctx.temp_dir, output.as_str());
            spec.attach_list(list.as_str(), ctx.inputs);
            let reason = demuxer_reason(ctx.input_probes.as_slice(), forced);
            let why = join3("Stream copy through the concat demuxer — ", reason.as_str(), ".");
            demuxer_args(&mut spec, list.as_str(), why.as_str());
        } else {
            let (video, audio) = match concat_stream_kinds(ctx) {
                Ok(kinds) => kinds,
                Err(e) => return Err(e),
            };
            if !(video && audio) {
                return Err(fail(BOTH_ERROR));
            }
            let reason = filter_reason(ctx);
            let why = join2("Concat filter: re-encode to normalize inputs. ", reason.as_str());
            filter_args(&mut spec, ctx.inputs, "libx264", 23, why.as_str());
        }
        spec.arg(safe_path_arg(output.as_str()).as_str());
        Ok(spec)
    }
}

} // verus!
