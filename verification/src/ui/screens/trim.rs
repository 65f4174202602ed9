//! The trim timeline: clips on one track, moved by their handles.

use vstd::prelude::*;
use crate::ffmpeg::builder::CommandSpec;
use crate::ffmpeg::probe::{above_zero, Rate};
use crate::key::{KeyCode, KeyEvent, ALL_MODIFIERS};
use crate::number::{law_nearest_is_nearest, nearest, nearest_of};
use crate::ops::fields::{
    adjusted, all_steady, law_adjusting_keeps_order, rows, steady, ClipRange, Field, FieldKind,
    Row,
};
use crate::ops::trim::{
    by_start, law_sorting_keeps_order, lemma_placed, sort_by_start, starts_in_order,
};
use crate::text::{copy_text, same, texts};
use crate::time::Duration;
use crate::ui::images::{
    blocks_for, iterm2, iterm2_payload, kitty, kitty_payload, shown_cells, thumb_rows,
    ImageBackend, THUMB_COLS, THUMB_ROWS,
};
use crate::ui::layout::Rect;
use crate::ui::screens::parameter_form::{handle_text_edit, text_typed};
use crate::ui::screens::popups::{step_down, stepped_down};
use crate::ui::theme::Color;

verus! {

/// The shortest clip, in nanoseconds: what is shorter is no cut that can be
/// sought.
pub const MIN_CLIP_LEN: u128 = 500_000_000;

/// Which pane has the keyboard.
#[derive(Debug, Clone, Copy, PartialEq, Eq, Structural)]
pub enum TrimZone {
    /// The track with its handles.
    Timeline,
    /// The fields.
    Fields,
}

/// The state of the trim timeline.
#[derive(Debug)]
pub struct TrimState {
    /// The input that is trimmed.
    pub input: String,
    /// Its duration, once it is known.
    pub duration: Option<Duration>,
    /// Its frames per second, if known.
    pub fps: Option<Rate>,
    /// The clips, in timeline order.
    pub clips: Vec<ClipRange>,
    /// The focused handle: two per clip, its start and its end.
    pub handle: usize,
    /// The pane that has the keyboard.
    pub zone: TrimZone,
    /// The focused field.
    pub field_focus: usize,
    /// The fields besides the clips.
    pub fields: Vec<Field>,
    /// Whether a text field is being edited.
    pub editing: bool,
    /// Whether the next character replaces the whole text.
    pub edit_select_all: bool,
    /// The command, when one could be built.
    pub preview: Option<CommandSpec>,
    /// Why none could be built.
    pub build_error: Option<String>,
    /// The part of the command that changed last, and when.
    pub changed: Option<(String, Duration)>,
    /// How far the command is scrolled.
    pub cmd_scroll: usize,
    /// The thumbnail files, in timeline order.
    pub filmstrip: Vec<String>,
    /// Whether thumbnails are being extracted.
    pub strip_pending: bool,
    /// Why none could be extracted.
    pub strip_error: Option<String>,
    /// The thumbnails as coloured cells.
    pub strip_blocks: Vec<Vec<Vec<Color>>>,
    /// The thumbnails as inline images.
    pub strip_payloads: Vec<String>,
    /// Whether the inline images are to be printed again.
    pub strip_dirty: bool,
    /// Where inline images are on the screen.
    pub strip_area: Option<Rect>,
}

/// What a key press means.
#[derive(Debug, PartialEq, Eq)]
pub enum TrimAction {
    /// Nothing.
    Nothing,
    /// Leave the timeline.
    Back,
    /// Clips or fields changed, and the command is to be built again.
    Changed,
    /// Run the command.
    Run,
    /// Show a message.
    Status(String),
}

/// An action, with its message as text.
pub enum TrimMeaning {
    Nothing,
    Back,
    Changed,
    Run,
    Status(Seq<char>),
}

impl View for TrimAction {
    type V = TrimMeaning;

    open spec fn view(&self) -> TrimMeaning {
        match self {
            TrimAction::Nothing => TrimMeaning::Nothing,
            TrimAction::Back => TrimMeaning::Back,
            TrimAction::Changed => TrimMeaning::Changed,
            TrimAction::Run => TrimMeaning::Run,
            TrimAction::Status(s) => TrimMeaning::Status(s@),
        }
    }
}

// ---------------------------------------------------------------------------
// The track
// ---------------------------------------------------------------------------

/// Whether clips are in order: none shorter than the shortest, none overlapping
/// another, and all of them within the duration.
pub open spec fn sound(clips: Seq<ClipRange>, duration: int) -> bool {
    &&& forall|i: int|
        0 <= i < clips.len() ==> (#[trigger] clips[i]).start.nanos + MIN_CLIP_LEN
            <= clips[i].end.nanos && clips[i].end.nanos <= duration
    &&& forall|i: int, j: int|
        0 <= i < j < clips.len() ==> (#[trigger] clips[i]).end.nanos <= (
        #[trigger] clips[j]).start.nanos
}

/// A number, brought between two others.
pub open spec fn between(x: int, low: int, high: int) -> int {
    if x < low {
        low
    } else if x > high {
        high
    } else {
        x
    }
}

/// The larger of two numbers.
pub open spec fn larger(a: int, b: int) -> int {
    if a > b {
        a
    } else {
        b
    }
}

/// Clips with the start of one moved.
pub open spec fn start_moved(
    clips: Seq<ClipRange>,
    i: int,
    delta: int,
    duration: int,
) -> Seq<ClipRange> {
    let low = if i > 0 {
        clips[i - 1].end.nanos as int
    } else {
        0
    };
    let high = larger(clips[i].end.nanos - MIN_CLIP_LEN, low);
    let at = between(between(clips[i].start.nanos + delta, low, high), 0, duration);
    clips.update(i, ClipRange { start: Duration { nanos: at as u128 }, ..clips[i] })
}

/// Where the end of a clip has to stop.
pub open spec fn end_limit(clips: Seq<ClipRange>, i: int, duration: int) -> int {
    if i + 1 < clips.len() {
        clips[i + 1].start.nanos as int
    } else {
        duration
    }
}

/// Clips with the end of one moved; as they were when the shortest clip does
/// not fit there.
pub open spec fn end_moved(
    clips: Seq<ClipRange>,
    i: int,
    delta: int,
    duration: int,
) -> Seq<ClipRange> {
    let low = clips[i].start.nanos + MIN_CLIP_LEN;
    let high = end_limit(clips, i, duration);
    if low > high {
        clips
    } else {
        let at = between(
            between(clips[i].end.nanos + delta, low, high),
            0,
            larger(duration, low),
        );
        clips.update(i, ClipRange { end: Duration { nanos: at as u128 }, ..clips[i] })
    }
}

/// Clips with a handle moved: within the duration, not past the neighbouring
/// clips, and never so far that the clip gets too short.
pub open spec fn moved(
    clips: Seq<ClipRange>,
    handle: int,
    delta: int,
    duration: int,
) -> Seq<ClipRange> {
    let i = handle / 2;
    if i >= clips.len() {
        clips
    } else if handle % 2 == 0 {
        by_start(start_moved(clips, i, delta, duration))
    } else {
        by_start(end_moved(clips, i, delta, duration))
    }
}

/// The starts and ends of clips.
pub open spec fn marks_of(clips: Seq<ClipRange>) -> Seq<u128>
    decreases clips.len(),
{
    if clips.len() == 0 {
        Seq::empty()
    } else {
        marks_of(clips.drop_last()).push(clips.last().start.nanos).push(clips.last().end.nanos)
    }
}

/// Numbers in order, with one more among them.
pub open spec fn slotted(v: Seq<u128>, x: u128) -> Seq<u128>
    decreases v.len(),
{
    if v.len() == 0 || v.last() <= x {
        v.push(x)
    } else {
        slotted(v.drop_last(), x).push(v.last())
    }
}

/// Numbers in order.
pub open spec fn ranked(v: Seq<u128>) -> Seq<u128>
    decreases v.len(),
{
    if v.len() == 0 {
        Seq::empty()
    } else {
        slotted(ranked(v.drop_last()), v.last())
    }
}

/// The marks of a track in order: its beginning, the starts and ends of its
/// clips, and its end. Two by two they bound what is free.
pub open spec fn bounds(clips: Seq<ClipRange>, duration: u128) -> Seq<u128> {
    ranked((seq![0u128] + marks_of(clips)).push(duration))
}

/// The first free stretch with room for two of the shortest clips.
pub open spec fn free_gap(b: Seq<u128>) -> Option<(u128, u128)>
    decreases b.len(),
{
    if b.len() < 2 {
        None
    } else if b[1] - b[0] >= 2 * MIN_CLIP_LEN {
        Some((b[0], b[1]))
    } else {
        free_gap(b.skip(2))
    }
}

/// The first clip that starts at a time, or the number of clips.
pub open spec fn starts_at(clips: Seq<ClipRange>, at: u128) -> int
    decreases clips.len(),
{
    if clips.len() == 0 || clips[0].start.nanos == at {
        0
    } else {
        1 + starts_at(clips.skip(1), at)
    }
}

/// The clip that takes the first half of a free stretch.
pub open spec fn half_of(gap: (u128, u128)) -> ClipRange {
    ClipRange {
        start: Duration { nanos: gap.0 },
        end: Duration { nanos: (gap.0 + (gap.1 - gap.0) / 2) as u128 },
    }
}

/// Clips with one more in the first free stretch, and its place; nothing when
/// no stretch has room.
pub open spec fn added(clips: Seq<ClipRange>, duration: u128) -> Option<(Seq<ClipRange>, int)> {
    match free_gap(bounds(clips, duration)) {
        Some(gap) => {
            let all = by_start(clips.push(half_of(gap)));
            Some((all, starts_at(all, gap.0)))
        },
        None => None,
    }
}

/// The clip that a handle belongs to, or the last one.
pub open spec fn clip_of(handle: int, n: int) -> int {
    if handle / 2 < n {
        handle / 2
    } else {
        n - 1
    }
}

/// How many handles a number of clips has; the largest number when there are
/// more than can be counted.
pub open spec fn handles(n: int) -> int {
    if 2 * n <= usize::MAX {
        2 * n
    } else {
        usize::MAX as int
    }
}

/// A handle, not past the last of a number of clips.
pub open spec fn last_handle(handle: int, n: int) -> int {
    let most = if n > 0 {
        handles(n) - 1
    } else {
        0
    };
    if handle < most {
        handle
    } else {
        most
    }
}

/// The length that clips keep together.
pub open spec fn kept(clips: Seq<ClipRange>) -> nat
    decreases clips.len(),
{
    if clips.len() == 0 {
        0
    } else {
        kept(clips.drop_last()) + clips.last().length()
    }
}

/// The large step of a handle: a hundredth of the duration, at least a second.
pub open spec fn coarse(duration: Option<Duration>) -> int {
    match duration {
        Some(d) => larger((d.nanos / 100) as int, 1_000_000_000),
        None => 1_000_000_000,
    }
}

/// The small step of a handle: one frame, or half a second when the frame rate
/// is not known.
pub open spec fn fine(fps: Option<Rate>) -> int {
    match fps {
        Some(f) => if above_zero(f@) {
            nearest(1_000_000_000 * f@.den, f@.num) as int
        } else {
            500_000_000
        },
        None => 500_000_000,
    }
}

/// Sorts numbers.
fn rank(v: &Vec<u128>) -> (r: Vec<u128>)
    ensures
        r@ == ranked(v@),
{
    let mut out: Vec<u128> = Vec::new();
    let mut i: usize = 0;
    assert(v@.take(0) =~= Seq::<u128>::empty());
    while i < v.len()
        invariant
            i <= v@.len(),
            out@ == ranked(v@.take(i as int)),
            out@.len() == i,
        decreases v@.len() - i,
    {
        let x: u128 = v[i];
        let mut p: usize = out.len();
        while p > 0 && out[p - 1] > x
            invariant
                p <= out@.len(),
                forall|j: int| p <= j < out@.len() ==> (#[trigger] out@[j]) > x,
            decreases p,
        {
            p = p - 1;
        }
        proof {
            lemma_slotted(out@, x, p as int);
            assert(v@.take(i + 1).drop_last() =~= v@.take(i as int));
            assert(v@.take(i + 1).last() == x);
        }
        out.insert(p, x);
        i = i + 1;
    }
    assert(v@.take(i as int) =~= v@);
    out
}

proof fn lemma_slotted(v: Seq<u128>, x: u128, p: int)
    requires
        0 <= p <= v.len(),
        p > 0 ==> v[p - 1] <= x,
        forall|j: int| p <= j < v.len() ==> (#[trigger] v[j]) > x,
    ensures
        slotted(v, x) == v.insert(p, x),
    decreases v.len(),
{
    if p == v.len() {
        assert(v.push(x) =~= v.insert(p, x));
    } else {
        assert(v.last() == v[v.len() - 1]);
        lemma_slotted(v.drop_last(), x, p);
        assert(v.drop_last().insert(p, x).push(v.last()) =~= v.insert(p, x));
    }
}

/// Collects the marks of a track.
fn find_bounds(clips: &Vec<ClipRange>, duration: u128) -> (r: Vec<u128>)
    ensures
        r@ == bounds(clips@, duration),
{
    let mut v: Vec<u128> = Vec::new();
    v.push(0);
    let mut i: usize = 0;
    assert(clips@.take(0) =~= Seq::<ClipRange>::empty());
    assert(v@ =~= seq![0u128] + marks_of(clips@.take(0)));
    while i < clips.len()
        invariant
            i <= clips@.len(),
            v@ == seq![0u128] + marks_of(clips@.take(i as int)),
        decreases clips@.len() - i,
    {
        proof {
            assert(clips@.take(i + 1).drop_last() =~= clips@.take(i as int));
            assert(clips@.take(i + 1).last() == clips@[i as int]);
        }
        v.push(clips[i].start.nanos);
        v.push(clips[i].end.nanos);
        assert(v@ =~= seq![0u128] + marks_of(clips@.take(i + 1)));
        i = i + 1;
    }
    assert(clips@.take(i as int) =~= clips@);
    v.push(duration);
    rank(&v)
}

/// Finds the first free stretch.
#[verifier::loop_isolation(false)]
fn find_gap(b: &Vec<u128>) -> (r: Option<(u128, u128)>)
    ensures
        r == free_gap(b@),
        r matches Some(g) ==> g.1 - g.0 >= 2 * MIN_CLIP_LEN,
{
    let mut i: usize = 0;
    assert(b@.skip(0) =~= b@);
    while b.len() - i >= 2
        invariant
            i <= b@.len(),
            free_gap(b@) == free_gap(b@.skip(i as int)),
        decreases b@.len() - i,
    {
        assert(b@.skip(i as int).skip(2) =~= b@.skip(i + 2));
        let from: u128 = b[i];
        let to: u128 = b[i + 1];
        if to >= from && to - from >= 2 * MIN_CLIP_LEN {
            return Some((from, to));
        }
        i = i + 2;
    }
    None
}

/// Finds the clip that starts at a time.
#[verifier::loop_isolation(false)]
fn find_start(clips: &Vec<ClipRange>, at: u128) -> (r: usize)
    ensures
        r == starts_at(clips@, at),
        r <= clips@.len(),
{
    let mut i: usize = 0;
    assert(clips@.skip(0) =~= clips@);
    while i < clips.len()
        invariant
            i <= clips@.len(),
            starts_at(clips@, at) == i + starts_at(clips@.skip(i as int), at),
        decreases clips@.len() - i,
    {
        assert(clips@.skip(i as int).skip(1) =~= clips@.skip(i + 1));
        if clips[i].start.nanos == at {
            return i;
        }
        i = i + 1;
    }
    i
}

/// Adds or takes away a step; what would not fit is cut off.
fn shifted(x: u128, step: u128, forward: bool) -> (r: u128)
    ensures
        forward ==> (if x + step <= u128::MAX {
            r == x + step
        } else {
            r == u128::MAX
        }),
        !forward ==> (if x >= step {
            r == x - step
        } else {
            r == 0
        }),
{
    if forward {
        if step > u128::MAX - x {
            u128::MAX
        } else {
            x + step
        }
    } else if step > x {
        0
    } else {
        x - step
    }
}

/// Brings a number between two others.
fn clamp(x: u128, low: u128, high: u128) -> (r: u128)
    ensures
        r == between(x as int, low as int, high as int),
{
    if x < low {
        low
    } else if x > high {
        high
    } else {
        x
    }
}

/// Doubles a number; what would not fit is cut off.
fn twice(n: usize) -> (r: usize)
    ensures
        r == handles(n as int),
{
    if n > usize::MAX - n {
        usize::MAX
    } else {
        n + n
    }
}

/// The signed size of a step.
pub open spec fn signed_step(step: int, forward: bool) -> int {
    if forward {
        step
    } else {
        -step
    }
}

/// A thumbnail file with what could be read from it.
#[derive(Debug)]
pub struct Thumb {
    pub path: String,
    pub bytes: Option<Vec<u8>>,
}

impl View for Thumb {
    type V = (Seq<char>, Option<Seq<u8>>);

    open spec fn view(&self) -> (Seq<char>, Option<Seq<u8>>) {
        (
            self.path@,
            match self.bytes {
                Some(b) => Some(b@),
                None => None,
            },
        )
    }
}

/// The inline images of the files that could be read.
pub open spec fn payloads(v: Seq<Thumb>, backend: ImageBackend) -> Seq<Seq<char>>
    decreases v.len(),
{
    if v.len() == 0 {
        Seq::empty()
    } else {
        let before = payloads(v.drop_last(), backend);
        match v.last()@.1 {
            Some(b) => match backend {
                ImageBackend::Kitty => before.push(kitty(b, THUMB_COLS as nat, THUMB_ROWS as nat)),
                ImageBackend::ITerm2 => before.push(iterm2(b, THUMB_COLS as nat)),
                ImageBackend::Blocks => before,
            },
            None => before,
        }
    }
}

/// The files as coloured cells.
pub open spec fn blocks(v: Seq<Thumb>, backend: ImageBackend) -> Seq<Seq<Seq<Color>>> {
    match backend {
        ImageBackend::Blocks => v.map_values(|t: Thumb| shown_cells(t@.0, t@.1)),
        _ => Seq::empty(),
    }
}

/// Writes the inline image of a file.
fn payload_of(bytes: &[u8], backend: ImageBackend) -> (r: Option<String>)
    ensures
        match backend {
            ImageBackend::Kitty => r matches Some(s) && s@ == kitty(
                bytes@,
                THUMB_COLS as nat,
                THUMB_ROWS as nat,
            ),
            ImageBackend::ITerm2 => r matches Some(s) && s@ == iterm2(bytes@, THUMB_COLS as nat),
            ImageBackend::Blocks => r is None,
        },
{
    match backend {
        ImageBackend::Kitty => Some(kitty_payload(bytes, THUMB_COLS as u32, THUMB_ROWS as u32)),
        ImageBackend::ITerm2 => Some(iterm2_payload(bytes, THUMB_COLS as u32)),
        ImageBackend::Blocks => None,
    }
}

impl TrimState {
    /// Whether the fields are as the forms have them.
    pub open spec fn wf(&self) -> bool {
        all_steady(rows(self.fields@))
    }

    /// A timeline with one clip over the whole duration, or with none while the
    /// duration is not known.
    pub fn new(
        input: String,
        duration: Option<Duration>,
        fps: Option<Rate>,
        fields: Vec<Field>,
    ) -> (r: Self)
        ensures
            r.input == input,
            r.duration == duration,
            r.fps == fps,
            r.fields == fields,
            r.clips@ == (match duration {
                Some(d) => if d.nanos > 0 {
                    seq![ClipRange { start: Duration { nanos: 0 }, end: d }]
                } else {
                    Seq::empty()
                },
                None => Seq::empty(),
            }),
            r.handle == 0,
            r.zone == TrimZone::Timeline,
            r.field_focus == 0,
            !r.editing,
            !r.edit_select_all,
            r.preview is None,
            r.build_error is None,
            r.changed is None,
            r.cmd_scroll == 0,
            r.filmstrip@.len() == 0,
            !r.strip_pending,
            r.strip_error is None,
            r.strip_blocks@.len() == 0,
            r.strip_payloads@.len() == 0,
            r.strip_dirty,
            r.strip_area is None,
    {
        let mut clips: Vec<ClipRange> = Vec::new();
        if let Some(d) = duration {
            if d.nanos > 0 {
                clips.push(ClipRange { start: Duration { nanos: 0 }, end: d });
            }
        }
        TrimState {
            input,
            duration,
            fps,
            clips,
            handle: 0,
            zone: TrimZone::Timeline,
            field_focus: 0,
            fields,
            editing: false,
            edit_select_all: false,
            preview: None,
            build_error: None,
            changed: None,
            cmd_scroll: 0,
            filmstrip: Vec::new(),
            strip_pending: false,
            strip_error: None,
            strip_blocks: Vec::new(),
            strip_payloads: Vec::new(),
            strip_dirty: true,
            strip_area: None,
        }
    }

    /// The large step of a handle.
    pub fn coarse_step(&self) -> (r: Duration)
        ensures
            r.nanos == coarse(self.duration),
    {
        match self.duration {
            Some(d) => {
                let part: u128 = d.nanos / 100;
                if part > 1_000_000_000 {
                    Duration { nanos: part }
                } else {
                    Duration { nanos: 1_000_000_000 }
                }
            },
            None => Duration { nanos: 1_000_000_000 },
        }
    }

    /// The small step of a handle.
    pub fn fine_step(&self) -> (r: Duration)
        ensures
            r.nanos == fine(self.fps),
    {
        match self.fps {
            Some(f) => {
                if !f.negative() && f.numerator() > 0 {
                    Duration { nanos: nearest_of(1_000_000_000 * f.denominator(), f.numerator()) }
                } else {
                    Duration { nanos: 500_000_000 }
                }
            },
            None => Duration { nanos: 500_000_000 },
        }
    }

    /// The number of handles.
    pub fn handle_count(&self) -> (r: usize)
        ensures
            r == handles(self.clips@.len() as int),
    {
        twice(self.clips.len())
    }

    /// Takes in the thumbnail files, in the form that the terminal shows.
    pub fn set_filmstrip(&mut self, frames: Vec<Thumb>, backend: ImageBackend)
        ensures
            *final(self) == (TrimState {
                filmstrip: final(self).filmstrip,
                strip_pending: false,
                strip_error: None,
                strip_blocks: final(self).strip_blocks,
                strip_payloads: final(self).strip_payloads,
                strip_dirty: true,
                ..*old(self)
            }),
            texts(final(self).filmstrip@) == frames@.map_values(|t: Thumb| t@.0),
            thumb_rows(final(self).strip_blocks@) == blocks(frames@, backend),
            texts(final(self).strip_payloads@) == payloads(frames@, backend),
    {
        let mut names: Vec<String> = Vec::new();
        let mut cells: Vec<Vec<Vec<Color>>> = Vec::new();
        let mut images: Vec<String> = Vec::new();
        let ghost paths = frames@.map_values(|t: Thumb| t@.0);
        let ghost shown = frames@.map_values(|t: Thumb| shown_cells(t@.0, t@.1));
        let mut i: usize = 0;
        assert(frames@.take(0) =~= Seq::<Thumb>::empty());
        assert(texts(images@) =~= Seq::<Seq<char>>::empty());
        while i < frames.len()
            invariant
                i <= frames@.len(),
                paths == frames@.map_values(|t: Thumb| t@.0),
                shown == frames@.map_values(|t: Thumb| shown_cells(t@.0, t@.1)),
                texts(names@) =~= paths.take(i as int),
                backend == ImageBackend::Blocks ==> thumb_rows(cells@) =~= shown.take(i as int),
                backend != ImageBackend::Blocks ==> cells@.len() == 0,
                texts(images@) == payloads(frames@.take(i as int), backend),
            decreases frames@.len() - i,
        {
            let ghost images0 = texts(images@);
            proof {
                assert(frames@.take(i + 1).drop_last() =~= frames@.take(i as int));
                assert(frames@.take(i + 1).last() == frames@[i as int]);
            }
            let ghost names0 = texts(names@);
            names.push(copy_text(frames[i].path.as_str()));
            assert(texts(names@) =~= names0.push(paths[i as int]));
            match (&frames[i].bytes, backend) {
                (Some(b), ImageBackend::Blocks) => {
                    cells.push(blocks_for(frames[i].path.as_str(), Some(b.as_slice())));
                },
                (None, ImageBackend::Blocks) => {
                    cells.push(blocks_for(frames[i].path.as_str(), None));
                },
                (Some(b), _) => {
                    if let Some(p) = payload_of(b.as_slice(), backend) {
                        let ghost t = p@;
                        images.push(p);
                        assert(texts(images@) =~= images0.push(t));
                    }
                },
                (None, _) => {},
            }
            i = i + 1;
        }
        assert(frames@.take(i as int) =~= frames@);
        assert(texts(names@) =~= paths);
        assert(thumb_rows(cells@) =~= blocks(frames@, backend));
        self.filmstrip = names;
        self.strip_pending = false;
        self.strip_error = None;
        self.strip_blocks = cells;
        self.strip_payloads = images;
        self.strip_dirty = true;
    }

    /// Moves the focused handle: within the duration, the shortest length and
    /// the neighbouring clips.
    pub fn move_handle(&mut self, step: Duration, forward: bool)
        ensures
            *final(self) == (TrimState { clips: final(self).clips, ..*old(self) }),
            final(self).clips@ == (match old(self).duration {
                Some(d) => moved(
                    old(self).clips@,
                    old(self).handle as int,
                    signed_step(step.nanos as int, forward),
                    d.nanos as int,
                ),
                None => old(self).clips@,
            }),
    {
        let duration: u128 = match self.duration {
            Some(d) => d.nanos,
            None => {
                return;
            },
        };
        let n: usize = self.clips.len();
        let i: usize = self.handle / 2;
        if i >= n {
            return;
        }
        let ghost before = self.clips@;
        let clip = self.clips[i];
        if self.handle % 2 == 0 {
            let low: u128 = if i > 0 {
                self.clips[i - 1].end.nanos
            } else {
                0
            };
            let high: u128 = if clip.end.nanos > MIN_CLIP_LEN && clip.end.nanos - MIN_CLIP_LEN
                > low {
                clip.end.nanos - MIN_CLIP_LEN
            } else {
                low
            };
            let at: u128 = clamp(
                clamp(shifted(clip.start.nanos, step.nanos, forward), low, high),
                0,
                duration,
            );
            self.clips.set(i, ClipRange { start: Duration { nanos: at }, end: clip.end });
            assert(self.clips@ =~= start_moved(
                before,
                i as int,
                signed_step(step.nanos as int, forward),
                duration as int,
            ));
        } else {
            let high: u128 = if n - i > 1 {
                self.clips[i + 1].start.nanos
            } else {
                duration
            };
            if high >= MIN_CLIP_LEN && clip.start.nanos <= high - MIN_CLIP_LEN {
                let low: u128 = clip.start.nanos + MIN_CLIP_LEN;
                let most: u128 = if duration > low {
                    duration
                } else {
                    low
                };
                let at: u128 = clamp(
                    clamp(shifted(clip.end.nanos, step.nanos, forward), low, high),
                    0,
                    most,
                );
                self.clips.set(i, ClipRange { start: clip.start, end: Duration { nanos: at } });
            }
            assert(self.clips@ =~= end_moved(
                before,
                i as int,
                signed_step(step.nanos as int, forward),
                duration as int,
            ));
        }
        self.sort_clips();
    }

    /// Keeps the clips in timeline order.
    fn sort_clips(&mut self)
        ensures
            *final(self) == (TrimState { clips: final(self).clips, ..*old(self) }),
            final(self).clips@ == by_start(old(self).clips@),
    {
        let sorted = sort_by_start(&self.clips);
        self.clips = sorted;
    }

    /// Adds a clip in the first free stretch of at least a second, over its
    /// first half, and focuses its start; says whether there was one.
    pub fn new_clip(&mut self) -> (r: bool)
        ensures
            *final(self) == (TrimState {
                clips: final(self).clips,
                handle: final(self).handle,
                ..*old(self)
            }),
            match old(self).duration {
                Some(d) => match added(old(self).clips@, d.nanos) {
                    Some((clips, at)) => r && final(self).clips@ == clips && final(self).handle
                        == (if at < clips.len() {
                        handles(at)
                    } else {
                        old(self).handle as int
                    }),
                    None => !r && *final(self) == *old(self),
                },
                None => !r && *final(self) == *old(self),
            },
    {
        let duration: u128 = match self.duration {
            Some(d) => d.nanos,
            None => {
                return false;
            },
        };
        let marks = find_bounds(&self.clips, duration);
        match find_gap(&marks) {
            Some((from, to)) => {
                let clip = ClipRange {
                    start: Duration { nanos: from },
                    end: Duration { nanos: from + (to - from) / 2 },
                };
                self.clips.push(clip);
                self.sort_clips();
                let at: usize = find_start(&self.clips, from);
                if at < self.clips.len() {
                    self.handle = twice(at);
                }
                true
            },
            None => false,
        }
    }

    /// Removes the focused clip; says whether there was one.
    pub fn remove_clip(&mut self) -> (r: bool)
        ensures
            r == (old(self).clips@.len() > 0),
            *final(self) == (TrimState {
                clips: final(self).clips,
                handle: final(self).handle,
                ..*old(self)
            }),
            r ==> final(self).clips@ == old(self).clips@.remove(
                clip_of(old(self).handle as int, old(self).clips@.len() as int),
            ) && final(self).handle == last_handle(
                old(self).handle as int,
                old(self).clips@.len() - 1,
            ),
            !r ==> *final(self) == *old(self),
    {
        let n: usize = self.clips.len();
        if n == 0 {
            return false;
        }
        let i: usize = if self.handle / 2 < n {
            self.handle / 2
        } else {
            n - 1
        };
        self.clips.remove(i);
        let count: usize = self.handle_count();
        let most: usize = if count > 0 {
            count - 1
        } else {
            0
        };
        if self.handle > most {
            self.handle = most;
        }
        true
    }

    /// The length that the clips keep together.
    pub fn total_kept(&self) -> (r: Duration)
        requires
            kept(self.clips@) <= u128::MAX,
        ensures
            r.nanos == kept(self.clips@),
    {
        let mut sum: u128 = 0;
        let mut i: usize = 0;
        assert(self.clips@.take(0) =~= Seq::<ClipRange>::empty());
        while i < self.clips.len()
            invariant
                i <= self.clips@.len(),
                sum == kept(self.clips@.take(i as int)),
                kept(self.clips@) <= u128::MAX,
            decreases self.clips@.len() - i,
        {
            proof {
                assert(self.clips@.take(i + 1).drop_last() =~= self.clips@.take(i as int));
                assert(self.clips@.take(i + 1).last() == self.clips@[i as int]);
                lemma_kept_grows(self.clips@, i + 1);
            }
            sum = sum + self.clips[i].len().nanos;
            i = i + 1;
        }
        assert(self.clips@.take(i as int) =~= self.clips@);
        Duration { nanos: sum }
    }
}

// ---------------------------------------------------------------------------
// Laws of the track
// ---------------------------------------------------------------------------

/// Whether numbers are in order.
spec fn rising(v: Seq<u128>) -> bool {
    forall|i: int, j: int| 0 <= i <= j < v.len() ==> (#[trigger] v[i]) <= (#[trigger] v[j])
}

proof fn lemma_ranked(v: Seq<u128>)
    requires
        rising(v),
    ensures
        ranked(v) == v,
    decreases v.len(),
{
    if v.len() > 0 {
        let front = v.drop_last();
        assert forall|i: int, j: int| 0 <= i <= j < front.len() implies (#[trigger] front[i]) <= (
        #[trigger] front[j]) by {
            assert(front[i] == v[i] && front[j] == v[j]);
        }
        lemma_ranked(front);
        if front.len() > 0 {
            assert(front.last() == v[v.len() - 2]);
            assert(v[v.len() - 2] <= v[v.len() - 1]);
        }
        assert(front.push(v.last()) =~= v);
    } else {
        assert(v =~= Seq::empty());
    }
}

proof fn lemma_marks(clips: Seq<ClipRange>)
    ensures
        marks_of(clips).len() == 2 * clips.len(),
        forall|k: int|
            0 <= k < clips.len() ==> marks_of(clips)[2 * k] == (
            #[trigger] clips[k]).start.nanos && marks_of(clips)[2 * k + 1] == clips[k].end.nanos,
    decreases clips.len(),
{
    if clips.len() > 0 {
        lemma_marks(clips.drop_last());
        assert forall|k: int| 0 <= k < clips.len() implies marks_of(clips)[2 * k] == (
        #[trigger] clips[k]).start.nanos && marks_of(clips)[2 * k + 1]
            == clips[k].end.nanos by {
            if k < clips.len() - 1 {
                assert(clips.drop_last()[k] == clips[k]);
            }
        }
    }
}

/// The marks of a sound track, as they come: a free stretch lies before each
/// clip and after the last.
proof fn lemma_bounds(clips: Seq<ClipRange>, duration: u128)
    requires
        sound(clips, duration as int),
    ensures
        bounds(clips, duration).len() == 2 * clips.len() + 2,
        bounds(clips, duration)[0] == 0,
        bounds(clips, duration)[2 * (clips.len() as int) + 1] == duration,
        forall|k: int|
            0 <= k < clips.len() ==> bounds(clips, duration)[2 * k + 1] == (
            #[trigger] clips[k]).start.nanos && bounds(clips, duration)[2 * k + 2]
                == clips[k].end.nanos,
{
    lemma_marks(clips);
    let b = (seq![0u128] + marks_of(clips)).push(duration);
    let n = clips.len() as int;
    assert forall|k: int| 0 <= k < n implies b[2 * k + 1] == (#[trigger] clips[k]).start.nanos
        && b[2 * k + 2] == clips[k].end.nanos by {
        assert(b[2 * k + 1] == marks_of(clips)[2 * k]);
        assert(b[2 * k + 2] == marks_of(clips)[2 * k + 1]);
    }
    assert forall|i: int, j: int| 0 <= i <= j < b.len() implies (#[trigger] b[i]) <= (
    #[trigger] b[j]) by {
        if 0 < i && i < j {
            let k = (i - 1) / 2;
            assert(0 <= k < n);
            let first = clips[k];
            assert(i == 2 * k + 1 || i == 2 * k + 2);
            assert(b[i] <= first.end.nanos);
            if j < 2 * n + 1 {
                let m = (j - 1) / 2;
                assert(0 <= m < n);
                assert(j == 2 * m + 1 || j == 2 * m + 2);
                let second = clips[m];
                if k < m {
                    assert(first.end.nanos <= second.start.nanos);
                }
            }
        }
    }
    lemma_ranked(b);
}

/// Where the first free stretch of a sound track lies.
proof fn lemma_gap(b: Seq<u128>) -> (k: int)
    ensures
        free_gap(b) matches Some(g) ==> 0 <= 2 * k && 2 * k + 1 < b.len() && g == (
            b[2 * k],
            b[2 * k + 1],
        ) && g.1 - g.0 >= 2 * MIN_CLIP_LEN,
        free_gap(b) is Some ==> forall|j: int|
            0 <= j < k ==> b[#[trigger] (2 * j) + 1] - b[2 * j] < 2 * MIN_CLIP_LEN,
        free_gap(b) is None ==> forall|j: int|
            0 <= 2 * j && 2 * j + 1 < b.len() ==> b[#[trigger] (2 * j) + 1] - b[2 * j] < 2
                * MIN_CLIP_LEN,
    decreases b.len(),
{
    if b.len() < 2 {
        0
    } else if b[1] - b[0] >= 2 * MIN_CLIP_LEN {
        0
    } else {
        let rest = b.skip(2);
        let k = lemma_gap(rest);
        if free_gap(rest) is Some {
            assert forall|j: int| 0 <= j < k + 1 implies b[#[trigger] (2 * j) + 1] - b[2 * j] < 2
                * MIN_CLIP_LEN by {
                if j > 0 {
                    let i = j - 1;
                    assert(rest[(2 * i) + 1] - rest[2 * i] < 2 * MIN_CLIP_LEN);
                    assert(rest[2 * i + 1] == b[2 * j + 1] && rest[2 * i] == b[2 * j]);
                }
            }
        }
        if free_gap(rest) is None {
            assert forall|j: int| 0 <= 2 * j && 2 * j + 1 < b.len() implies b[#[trigger] (2 * j)
                + 1] - b[2 * j] < 2 * MIN_CLIP_LEN by {
                if j > 0 {
                    let i = j - 1;
                    assert(0 <= 2 * i && 2 * i + 1 < rest.len());
                    assert(rest[2 * i + 1] == b[2 * j + 1] && rest[2 * i] == b[2 * j]);
                }
            }
        }
        k + 1
    }
}

proof fn lemma_starts_at(clips: Seq<ClipRange>, at: u128, k: int)
    requires
        0 <= k < clips.len(),
        clips[k].start.nanos == at,
        forall|j: int| 0 <= j < k ==> (#[trigger] clips[j]).start.nanos != at,
    ensures
        starts_at(clips, at) == k,
    decreases k,
{
    if k > 0 {
        assert(clips[0].start.nanos != at);
        let rest = clips.skip(1);
        assert forall|j: int| 0 <= j < k - 1 implies (#[trigger] rest[j]).start.nanos != at by {
            assert(rest[j] == clips[j + 1]);
        }
        lemma_starts_at(rest, at, k - 1);
    }
}

proof fn lemma_sound_in_order(clips: Seq<ClipRange>, duration: int)
    requires
        sound(clips, duration),
    ensures
        starts_in_order(clips),
{
    assert forall|i: int, j: int| 0 <= i <= j < clips.len() implies (
    #[trigger] clips[i]).start.nanos <= (#[trigger] clips[j]).start.nanos by {
        if i < j {
            assert(clips[i].end.nanos <= clips[j].start.nanos);
        }
    }
}

/// Moving a handle keeps a track in order: no clip gets too short, overlaps
/// another or leaves the duration. The clips keep their places, and only the
/// one that the handle belongs to changes.
pub proof fn law_moving_keeps_tracks_sound(
    clips: Seq<ClipRange>,
    handle: int,
    delta: int,
    duration: u128,
)
    requires
        sound(clips, duration as int),
        0 <= handle,
    ensures
        sound(moved(clips, handle, delta, duration as int), duration as int),
        moved(clips, handle, delta, duration as int).len() == clips.len(),
        forall|j: int|
            0 <= j < clips.len() && j != handle / 2 ==> #[trigger] moved(
                clips,
                handle,
                delta,
                duration as int,
            )[j] == clips[j],
{
    let i = handle / 2;
    let d = duration as int;
    if i < clips.len() {
        let v = if handle % 2 == 0 {
            start_moved(clips, i, delta, d)
        } else {
            end_moved(clips, i, delta, d)
        };
        lemma_moved_is_sound(clips, handle, delta, duration);
        lemma_sound_in_order(v, d);
        law_sorting_keeps_order(v);
    }
}

/// A handle that was moved leaves a sound track as it stands.
proof fn lemma_moved_is_sound(clips: Seq<ClipRange>, handle: int, delta: int, duration: u128)
    requires
        sound(clips, duration as int),
        0 <= handle,
        handle / 2 < clips.len(),
    ensures
        sound(
            if handle % 2 == 0 {
                start_moved(clips, handle / 2, delta, duration as int)
            } else {
                end_moved(clips, handle / 2, delta, duration as int)
            },
            duration as int,
        ),
{
    let i = handle / 2;
    let d = duration as int;
    let v = if handle % 2 == 0 {
        start_moved(clips, i, delta, d)
    } else {
        end_moved(clips, i, delta, d)
    };
    let c = clips[i];
    assert(c.start.nanos + MIN_CLIP_LEN <= c.end.nanos);
    if i > 0 {
        assert(clips[i - 1].end.nanos <= c.start.nanos);
    }
    if i + 1 < clips.len() {
        assert(c.end.nanos <= clips[i + 1].start.nanos);
        assert(clips[i + 1].start.nanos <= clips[i + 1].end.nanos <= d);
    }
    assert(v.len() == clips.len());
    assert forall|j: int| 0 <= j < v.len() && j != i implies #[trigger] v[j] == clips[j] by {}
    assert forall|j: int| 0 <= j < v.len() implies (#[trigger] v[j]).start.nanos
        + MIN_CLIP_LEN <= v[j].end.nanos && v[j].end.nanos <= d by {
        assert(clips[j].start.nanos + MIN_CLIP_LEN <= clips[j].end.nanos);
    }
    assert forall|a: int, b: int| 0 <= a < b < v.len() implies (#[trigger] v[a]).end.nanos <= (
    #[trigger] v[b]).start.nanos by {
        assert(clips[a].end.nanos <= clips[b].start.nanos);
        if b == i && a < i - 1 {
            assert(clips[a].end.nanos <= clips[i - 1].start.nanos);
            assert(clips[i - 1].start.nanos <= clips[i - 1].end.nanos);
        }
        if a == i && b > i + 1 {
            assert(clips[i + 1].end.nanos <= clips[b].start.nanos);
        }
    }
    assert(sound(v, d));
}

/// A new clip keeps a track in order: it takes the front half of the first free
/// stretch that is long enough, and the other clips stay as they were. There is one exactly when some free stretch, before
/// a clip or after the last, is at least a second long, and the handle is on
/// it.
pub proof fn law_new_clip_keeps_tracks_sound(clips: Seq<ClipRange>, duration: u128)
    requires
        sound(clips, duration as int),
    ensures
        match added(clips, duration) {
            Some((all, k)) => {
                &&& 0 <= k <= clips.len()
                &&& all == clips.insert(k, all[k])
                &&& sound(all, duration as int)
                &&& all[k].start.nanos == (if k > 0 {
                    clips[k - 1].end.nanos as int
                } else {
                    0
                })
                &&& all[k].length() == free_before(clips, k, duration as int) / 2
                &&& free_before(clips, k, duration as int) >= 1_000_000_000
                &&& forall|j: int|
                    0 <= j < k ==> #[trigger] free_before(clips, j, duration as int)
                        < 1_000_000_000
            },
            None => forall|k: int|
                0 <= k <= clips.len() ==> #[trigger] end_limit(clips, k - 1, duration as int) - (
                if k > 0 {
                    clips[k - 1].end.nanos as int
                } else {
                    0
                }) < 2 * MIN_CLIP_LEN,
        },
{
    let b = bounds(clips, duration);
    let d = duration as int;
    let n = clips.len() as int;
    lemma_bounds(clips, duration);
    let k = lemma_gap(b);
    match free_gap(b) {
        Some(gap) => {
            let c = half_of(gap);
            assert(0 <= k <= n);
            if k > 0 {
                let before = clips[k - 1];
                assert(b[2 * (k - 1) + 2] == before.end.nanos);
                assert(before.start.nanos + MIN_CLIP_LEN <= before.end.nanos);
            }
            if k < n {
                assert(b[2 * k + 1] == clips[k].start.nanos);
            }
            assert forall|j: int| 0 <= j < k implies #[trigger] free_before(clips, j, d)
                < 1_000_000_000 by {
                assert(b[(2 * j) + 1] - b[2 * j] < 2 * MIN_CLIP_LEN);
                assert(b[2 * j + 1] == clips[j].start.nanos);
                if j > 0 {
                    assert(b[2 * (j - 1) + 2] == clips[j - 1].end.nanos);
                }
            }
            assert forall|j: int| k <= j < n implies (#[trigger] clips[j]).start.nanos
                >= gap.1 by {
                if k < j {
                    assert(clips[k].end.nanos <= clips[j].start.nanos);
                    assert(clips[k].start.nanos + MIN_CLIP_LEN <= clips[k].end.nanos);
                }
            }
            assert forall|j: int| 0 <= j < k implies (#[trigger] clips[j]).end.nanos <= gap.0 by {
                if j < k - 1 {
                    assert(clips[j].end.nanos <= clips[k - 1].start.nanos);
                }
            }
            lemma_sound_in_order(clips, d);
            law_sorting_keeps_order(clips);
            lemma_placed(clips, c, k);
            assert(clips.push(c).drop_last() =~= clips);
            let all = by_start(clips.push(c));
            assert(all == clips.insert(k, c));
            assert forall|j: int| 0 <= j < k implies (#[trigger] all[j]).start.nanos != gap.0 by {
                assert(all[j] == clips[j]);
                assert(clips[j].start.nanos + MIN_CLIP_LEN <= clips[j].end.nanos);
            }
            lemma_starts_at(all, gap.0, k);
            assert(gap.1 <= d) by {
                if k < n {
                    assert(clips[k].start.nanos + MIN_CLIP_LEN <= clips[k].end.nanos);
                }
            }
            assert forall|j: int| 0 <= j < all.len() implies (#[trigger] all[j]).start.nanos
                + MIN_CLIP_LEN <= all[j].end.nanos && all[j].end.nanos <= d by {
                if j < k {
                    assert(all[j] == clips[j]);
                } else if j > k {
                    assert(all[j] == clips[j - 1]);
                }
            }
            assert forall|x: int, y: int| 0 <= x < y < all.len() implies (
            #[trigger] all[x]).end.nanos <= (#[trigger] all[y]).start.nanos by {
                let p = if x < k {
                    x
                } else {
                    x - 1
                };
                let q = if y < k {
                    y
                } else {
                    y - 1
                };
                if x != k {
                    assert(all[x] == clips[p]);
                }
                if y != k {
                    assert(all[y] == clips[q]);
                }
                if x != k && y != k {
                    assert(clips[p].end.nanos <= clips[q].start.nanos);
                }
            }
        },
        None => {
            assert forall|k: int| 0 <= k <= n implies #[trigger] end_limit(clips, k - 1, d) - (
            if k > 0 {
                clips[k - 1].end.nanos as int
            } else {
                0
            }) < 2 * MIN_CLIP_LEN by {
                assert(0 <= 2 * k && 2 * k + 1 < b.len());
                assert(b[(2 * k) + 1] - b[2 * k] < 2 * MIN_CLIP_LEN);
                if k > 0 {
                    assert(b[2 * (k - 1) + 2] == clips[k - 1].end.nanos);
                }
                if k < n {
                    assert(b[2 * k + 1] == clips[k].start.nanos);
                }
            }
        },
    }
}

/// Removing a clip keeps a track in order.
pub proof fn law_removal_keeps_tracks_sound(clips: Seq<ClipRange>, i: int, duration: int)
    requires
        sound(clips, duration),
        0 <= i < clips.len(),
    ensures
        sound(clips.remove(i), duration),
{
    let v = clips.remove(i);
    assert forall|j: int| 0 <= j < v.len() implies (#[trigger] v[j]).start.nanos + MIN_CLIP_LEN
        <= v[j].end.nanos && v[j].end.nanos <= duration by {
        let p = if j < i {
            j
        } else {
            j + 1
        };
        assert(v[j] == clips[p]);
    }
    assert forall|x: int, y: int| 0 <= x < y < v.len() implies (#[trigger] v[x]).end.nanos <= (
    #[trigger] v[y]).start.nanos by {
        let p = if x < i {
            x
        } else {
            x + 1
        };
        let q = if y < i {
            y
        } else {
            y + 1
        };
        assert(v[x] == clips[p] && v[y] == clips[q]);
        assert(clips[p].end.nanos <= clips[q].start.nanos);
    }
}

/// Removing the focused clip right after it was added gives the track back.
pub proof fn law_removal_undoes_new_clip(clips: Seq<ClipRange>, duration: u128)
    requires
        sound(clips, duration as int),
        added(clips, duration) is Some,
        2 * clips.len() <= usize::MAX,
    ensures
        added(clips, duration) matches Some((all, k)) && all.remove(
            clip_of(handles(k), all.len() as int),
        ) == clips,
{
    law_new_clip_keeps_tracks_sound(clips, duration);
    let (all, k) = added(clips, duration)->0;
    assert(clip_of(handles(k), all.len() as int) == k);
    assert(clips.insert(k, all[k]).remove(k) =~= clips);
}

/// The clips of a track that is in order keep no more than its duration.
pub proof fn law_kept_fits(clips: Seq<ClipRange>, duration: int)
    requires
        sound(clips, duration),
        0 <= duration,
    ensures
        kept(clips) <= duration,
    decreases clips.len(),
{
    if clips.len() > 0 {
        let last = clips.last();
        let front = clips.drop_last();
        assert(last == clips[clips.len() - 1]);
        assert forall|j: int| 0 <= j < front.len() implies (#[trigger] front[j]).start.nanos
            + MIN_CLIP_LEN <= front[j].end.nanos && front[j].end.nanos <= last.start.nanos by {
            assert(front[j] == clips[j]);
        }
        assert forall|x: int, y: int| 0 <= x < y < front.len() implies (
        #[trigger] front[x]).end.nanos <= (#[trigger] front[y]).start.nanos by {
            assert(front[x] == clips[x] && front[y] == clips[y]);
        }
        law_kept_fits(front, last.start.nanos as int);
    }
}

/// A new timeline of a length that has room for a clip is in order.
pub proof fn law_new_track_is_sound(d: Duration)
    requires
        d.nanos >= MIN_CLIP_LEN,
    ensures
        sound(seq![ClipRange { start: Duration { nanos: 0 }, end: d }], d.nanos as int),
{
}

proof fn lemma_kept_grows(clips: Seq<ClipRange>, i: int)
    requires
        0 <= i <= clips.len(),
    ensures
        kept(clips.take(i)) <= kept(clips),
    decreases clips.len(),
{
    if i < clips.len() {
        lemma_kept_grows(clips.drop_last(), i);
        assert(clips.drop_last().take(i) =~= clips.take(i));
    } else {
        assert(clips.take(i) =~= clips);
    }
}

// ---------------------------------------------------------------------------
// Keys
// ---------------------------------------------------------------------------

/// The next handle round the track, or the one before.
pub open spec fn handle_round(handle: int, count: int, forward: bool) -> int {
    if count == 0 {
        handle
    } else if forward {
        (handle + 1) % count
    } else {
        (handle + count - 1) % count
    }
}

/// A state with the next handle focused.
pub open spec fn on_next_handle(s: TrimState, forward: bool) -> TrimState {
    TrimState {
        handle: handle_round(s.handle as int, handles(s.clips@.len() as int), forward) as usize,
        ..s
    }
}

/// The step that a key takes a handle.
pub open spec fn step_of(s: TrimState, small: bool) -> int {
    if small {
        fine(s.fps)
    } else {
        coarse(s.duration)
    }
}

/// Whether the focused handle was moved, and nothing else.
pub open spec fn handle_moved(
    before: TrimState,
    small: bool,
    forward: bool,
    after: TrimState,
) -> bool {
    &&& after == (TrimState { clips: after.clips, ..before })
    &&& after.clips@ == (match before.duration {
        Some(d) => moved(
            before.clips@,
            before.handle as int,
            signed_step(step_of(before, small), forward),
            d.nanos as int,
        ),
        None => before.clips@,
    })
}

/// Whether there is room for a new clip.
pub open spec fn has_room(s: TrimState) -> bool {
    s.duration matches Some(d) && added(s.clips@, d.nanos) is Some
}

/// Whether a new clip was added and focused, where there was room.
pub open spec fn clip_added(before: TrimState, after: TrimState) -> bool {
    if has_room(before) {
        let (clips, at) = added(before.clips@, before.duration->0.nanos)->0;
        &&& after == (TrimState { clips: after.clips, handle: after.handle, ..before })
        &&& after.clips@ == clips
        &&& after.handle == (if at < clips.len() {
            handles(at)
        } else {
            before.handle as int
        })
    } else {
        after == before
    }
}

/// Whether the focused clip was removed, where there was one.
pub open spec fn clip_removed(before: TrimState, after: TrimState) -> bool {
    let n = before.clips@.len() as int;
    if n > 0 {
        &&& after == (TrimState { clips: after.clips, handle: after.handle, ..before })
        &&& after.clips@ == before.clips@.remove(clip_of(before.handle as int, n))
        &&& after.handle == last_handle(before.handle as int, n - 1)
    } else {
        after == before
    }
}

/// What a key press on the track makes of a state.
pub open spec fn track_keyed(before: TrimState, key: KeyEvent, after: TrimState) -> bool {
    match key.code {
        KeyCode::Tab => after == on_next_handle(before, true),
        KeyCode::BackTab => after == on_next_handle(before, false),
        KeyCode::Char('f') => after == (TrimState { zone: TrimZone::Fields, ..before }),
        KeyCode::Char('n') => clip_added(before, after),
        KeyCode::Char('d') => clip_removed(before, after),
        KeyCode::Delete => clip_removed(before, after),
        KeyCode::Backspace => clip_removed(before, after),
        KeyCode::Left => handle_moved(before, key.with_shift(), false, after),
        KeyCode::Char('h') => handle_moved(before, key.with_shift(), false, after),
        KeyCode::Right => handle_moved(before, key.with_shift(), true, after),
        KeyCode::Char('l') => handle_moved(before, key.with_shift(), true, after),
        KeyCode::Char('H') => handle_moved(before, true, false, after),
        KeyCode::Char('L') => handle_moved(before, true, true, after),
        _ => after == before,
    }
}

/// What is said when there is no room for a clip.
pub const NO_ROOM: &'static str = "No free space — shorten a clip first.";

/// What is said when there is no clip to remove.
pub const NO_CLIPS: &'static str = "No clips to remove.";

/// What a removal means.
pub open spec fn removal_means(s: TrimState) -> TrimMeaning {
    if s.clips@.len() > 0 {
        TrimMeaning::Changed
    } else {
        TrimMeaning::Status(NO_CLIPS@)
    }
}

/// What a key press on the track means.
pub open spec fn track_means(s: TrimState, code: KeyCode) -> TrimMeaning {
    match code {
        KeyCode::Esc => TrimMeaning::Back,
        KeyCode::Char('n') => if has_room(s) {
            TrimMeaning::Changed
        } else {
            TrimMeaning::Status(NO_ROOM@)
        },
        KeyCode::Char('d') => removal_means(s),
        KeyCode::Delete => removal_means(s),
        KeyCode::Backspace => removal_means(s),
        KeyCode::Left => TrimMeaning::Changed,
        KeyCode::Char('h') => TrimMeaning::Changed,
        KeyCode::Right => TrimMeaning::Changed,
        KeyCode::Char('l') => TrimMeaning::Changed,
        KeyCode::Char('H') => TrimMeaning::Changed,
        KeyCode::Char('L') => TrimMeaning::Changed,
        KeyCode::Enter => TrimMeaning::Run,
        _ => TrimMeaning::Nothing,
    }
}

/// Whether the focused field is one of text.
pub open spec fn text_focused(s: TrimState) -> bool {
    s.field_focus < s.fields@.len() && s.fields@[s.field_focus as int]@.control is Text
}

/// Whether the focused field was adjusted, and nothing else.
pub open spec fn field_adjusted(before: TrimState, dir: int, after: TrimState) -> bool {
    let v = rows(before.fields@);
    &&& after == (TrimState { fields: after.fields, ..before })
    &&& rows(after.fields@) == (if before.field_focus < v.len() {
        let r = v[before.field_focus as int];
        v.update(before.field_focus as int, Row { control: adjusted(r.control, dir), ..r })
    } else {
        v
    })
}

/// A state with the field above focused.
pub open spec fn field_above(s: TrimState) -> TrimState {
    TrimState {
        field_focus: if s.field_focus > 0 {
            (s.field_focus - 1) as usize
        } else {
            0
        },
        ..s
    }
}

/// A state with the field below focused.
pub open spec fn field_below(s: TrimState) -> TrimState {
    TrimState {
        field_focus: stepped_down(s.field_focus as int, s.fields@.len() as int) as usize,
        ..s
    }
}

/// What a key press on the fields makes of a state.
pub open spec fn fields_keyed(before: TrimState, key: KeyEvent, after: TrimState) -> bool {
    let on_track = TrimState { zone: TrimZone::Timeline, ..before };
    match key.code {
        KeyCode::Esc => after == on_track,
        KeyCode::Char('f') => after == on_track,
        KeyCode::Tab => after == on_next_handle(on_track, true),
        KeyCode::Up => after == field_above(before),
        KeyCode::Char('k') => after == field_above(before),
        KeyCode::Down => after == field_below(before),
        KeyCode::Char('j') => after == field_below(before),
        KeyCode::Left => field_adjusted(before, -1, after),
        KeyCode::Char('h') => field_adjusted(before, -1, after),
        KeyCode::Right => field_adjusted(before, 1, after),
        KeyCode::Char('l') => field_adjusted(before, 1, after),
        KeyCode::Enter => if text_focused(before) {
            after == (TrimState {
                editing: true,
                edit_select_all: before.fields@[before.field_focus as int].id@ == "output"@,
                ..before
            })
        } else {
            after == before
        },
        _ => after == before,
    }
}

/// What adjusting a field means.
pub open spec fn adjusting_means(s: TrimState) -> TrimMeaning {
    if s.field_focus < s.fields@.len() {
        TrimMeaning::Changed
    } else {
        TrimMeaning::Nothing
    }
}

/// What a key press on the fields means.
pub open spec fn fields_means(s: TrimState, code: KeyCode) -> TrimMeaning {
    match code {
        KeyCode::Left => adjusting_means(s),
        KeyCode::Char('h') => adjusting_means(s),
        KeyCode::Right => adjusting_means(s),
        KeyCode::Char('l') => adjusting_means(s),
        KeyCode::Enter => if text_focused(s) {
            TrimMeaning::Nothing
        } else {
            TrimMeaning::Run
        },
        _ => TrimMeaning::Nothing,
    }
}

/// What a key press makes of a state while a text is edited.
pub open spec fn typing_keyed(before: TrimState, key: KeyEvent, after: TrimState) -> bool {
    let v = rows(before.fields@);
    let w = rows(after.fields@);
    let at = before.field_focus as int;
    if at < v.len() {
        &&& after == (TrimState {
            fields: after.fields,
            editing: key.code != KeyCode::Enter && key.code != KeyCode::Esc,
            edit_select_all: false,
            ..before
        })
        &&& w.len() == v.len()
        &&& text_typed(v[at], before.edit_select_all, key, w[at])
        &&& w == v.update(at, w[at])
    } else {
        after == (TrimState { editing: false, edit_select_all: false, ..before })
    }
}

/// What a key press means while a text is edited.
pub open spec fn typing_means(s: TrimState, code: KeyCode) -> TrimMeaning {
    if text_focused(s) && code != KeyCode::Enter && code != KeyCode::Esc {
        TrimMeaning::Changed
    } else {
        TrimMeaning::Nothing
    }
}

/// What a key press makes of a state.
pub open spec fn trim_keyed(before: TrimState, key: KeyEvent, after: TrimState) -> bool {
    if before.editing {
        typing_keyed(before, key, after)
    } else {
        match before.zone {
            TrimZone::Timeline => track_keyed(before, key, after),
            TrimZone::Fields => fields_keyed(before, key, after),
        }
    }
}

/// What a key press means.
pub open spec fn trim_means(s: TrimState, code: KeyCode) -> TrimMeaning {
    if s.editing {
        typing_means(s, code)
    } else {
        match s.zone {
            TrimZone::Timeline => track_means(s, code),
            TrimZone::Fields => fields_means(s, code),
        }
    }
}

/// Focuses the next handle, or the one before.
fn cycle_handle(state: &mut TrimState, forward: bool)
    ensures
        *final(state) == on_next_handle(*old(state), forward),
{
    let count: u128 = state.handle_count() as u128;
    if count > 0 {
        let at: u128 = state.handle as u128;
        let next: u128 = if forward {
            (at + 1) % count
        } else {
            (at + count - 1) % count
        };
        state.handle = next as usize;
    }
}

/// Moves the focused handle by a small or a large step.
fn step_handle(state: &mut TrimState, small: bool, forward: bool)
    ensures
        handle_moved(*old(state), small, forward, *final(state)),
{
    let step = if small {
        state.fine_step()
    } else {
        state.coarse_step()
    };
    state.move_handle(step, forward);
}

/// Removes the focused clip.
fn take_clip(state: &mut TrimState) -> (r: TrimAction)
    ensures
        clip_removed(*old(state), *final(state)),
        r@ == removal_means(*old(state)),
{
    if state.remove_clip() {
        TrimAction::Changed
    } else {
        TrimAction::Status(copy_text(NO_CLIPS))
    }
}

/// Takes in a key press on the track.
fn on_key_timeline(state: &mut TrimState, key: KeyEvent) -> (r: TrimAction)
    ensures
        track_keyed(*old(state), key, *final(state)),
        r@ == track_means(*old(state), key.code),
        final(state).fields == old(state).fields,
{
    match key.code {
        KeyCode::Esc => TrimAction::Back,
        KeyCode::Tab => {
            cycle_handle(state, true);
            TrimAction::Nothing
        },
        KeyCode::BackTab => {
            cycle_handle(state, false);
            TrimAction::Nothing
        },
        KeyCode::Char('f') => {
            state.zone = TrimZone::Fields;
            TrimAction::Nothing
        },
        KeyCode::Char('n') => {
            if state.new_clip() {
                TrimAction::Changed
            } else {
                TrimAction::Status(copy_text(NO_ROOM))
            }
        },
        KeyCode::Char('d') | KeyCode::Delete | KeyCode::Backspace => take_clip(state),
        KeyCode::Left | KeyCode::Char('h') => {
            step_handle(state, key.has_shift(), false);
            TrimAction::Changed
        },
        KeyCode::Right | KeyCode::Char('l') => {
            step_handle(state, key.has_shift(), true);
            TrimAction::Changed
        },
        KeyCode::Char('H') => {
            step_handle(state, true, false);
            TrimAction::Changed
        },
        KeyCode::Char('L') => {
            step_handle(state, true, true);
            TrimAction::Changed
        },
        KeyCode::Enter => TrimAction::Run,
        _ => TrimAction::Nothing,
    }
}

/// Adjusts the focused field.
fn adjust_field(state: &mut TrimState, forward: bool) -> (r: TrimAction)
    requires
        old(state).wf(),
    ensures
        final(state).wf(),
        field_adjusted(*old(state), signed_step(1, forward), *final(state)),
        r@ == adjusting_means(*old(state)),
{
    let ghost v = rows(state.fields@);
    let at: usize = state.field_focus;
    if at >= state.fields.len() {
        return TrimAction::Nothing;
    }
    let ghost dir = signed_step(1, forward);
    proof {
        assert(v[at as int] == state.fields@[at as int]@);
        assert(steady(v[at as int].control));
        law_adjusting_keeps_order(v[at as int].control, dir);
    }
    let field = &mut state.fields[at];
    if forward {
        field.adjust_forward();
    } else {
        field.adjust_backward();
    }
    proof {
        let w = rows(state.fields@);
        let r = v[at as int];
        assert(w =~= v.update(at as int, Row { control: adjusted(r.control, dir), ..r }));
    }
    TrimAction::Changed
}

/// Takes in a key press on the fields.
fn on_key_fields(state: &mut TrimState, key: KeyEvent) -> (r: TrimAction)
    requires
        old(state).wf(),
    ensures
        final(state).wf(),
        fields_keyed(*old(state), key, *final(state)),
        r@ == fields_means(*old(state), key.code),
{
    match key.code {
        KeyCode::Esc | KeyCode::Char('f') => {
            state.zone = TrimZone::Timeline;
            TrimAction::Nothing
        },
        KeyCode::Tab => {
            state.zone = TrimZone::Timeline;
            cycle_handle(state, true);
            TrimAction::Nothing
        },
        KeyCode::Up | KeyCode::Char('k') => {
            if state.field_focus > 0 {
                state.field_focus = state.field_focus - 1;
            }
            TrimAction::Nothing
        },
        KeyCode::Down | KeyCode::Char('j') => {
            state.field_focus = step_down(state.field_focus, state.fields.len());
            TrimAction::Nothing
        },
        KeyCode::Left | KeyCode::Char('h') => adjust_field(state, false),
        KeyCode::Right | KeyCode::Char('l') => adjust_field(state, true),
        KeyCode::Enter => {
            if state.field_focus < state.fields.len() {
                if let FieldKind::Text { .. } = &state.fields[state.field_focus].kind {
                    let whole = same(state.fields[state.field_focus].id, "output");
                    state.editing = true;
                    state.edit_select_all = whole;
                    return TrimAction::Nothing;
                }
            }
            TrimAction::Run
        },
        _ => TrimAction::Nothing,
    }
}

/// Takes in a key press while a text is edited.
fn on_key_editing(state: &mut TrimState, key: KeyEvent) -> (r: TrimAction)
    requires
        old(state).wf(),
        old(state).editing,
        key.modifiers <= ALL_MODIFIERS,
    ensures
        final(state).wf(),
        typing_keyed(*old(state), key, *final(state)),
        r@ == typing_means(*old(state), key.code),
{
    let ghost v = rows(state.fields@);
    let at: usize = state.field_focus;
    if at >= state.fields.len() {
        state.editing = false;
        state.edit_select_all = false;
        return TrimAction::Nothing;
    }
    assert(v[at as int] == state.fields@[at as int]@);
    let mut editing = state.editing;
    let mut select_all = state.edit_select_all;
    let field = &mut state.fields[at];
    let changed = handle_text_edit(field, &mut editing, &mut select_all, key);
    state.editing = editing;
    state.edit_select_all = select_all;
    proof {
        let w = rows(state.fields@);
        assert(w[at as int] == state.fields@[at as int]@);
        assert(w =~= v.update(at as int, w[at as int]));
        assert(steady(v[at as int].control));
        assert forall|i: int| 0 <= i < w.len() implies steady((#[trigger] w[i]).control) by {
            if i != at {
                assert(w[i] == v[i]);
            }
        }
    }
    if changed {
        TrimAction::Changed
    } else {
        TrimAction::Nothing
    }
}

/// Takes in a key press.
pub fn on_key(state: &mut TrimState, key: KeyEvent) -> (r: TrimAction)
    requires
        old(state).wf(),
        key.modifiers <= ALL_MODIFIERS,
    ensures
        final(state).wf(),
        trim_keyed(*old(state), key, *final(state)),
        r@ == trim_means(*old(state), key.code),
{
    if state.editing {
        return on_key_editing(state, key);
    }
    match state.zone {
        TrimZone::Timeline => on_key_timeline(state, key),
        TrimZone::Fields => on_key_fields(state, key),
    }
}

/// No key press brings the clips of a track out of order.
pub proof fn law_keys_keep_tracks_sound(before: TrimState, key: KeyEvent, after: TrimState)
    requires
        before.duration matches Some(d) && sound(before.clips@, d.nanos as int),
        trim_keyed(before, key, after),
    ensures
        after.duration == before.duration,
        sound(after.clips@, after.duration->0.nanos as int),
{
    let d = before.duration->0;
    let handle = before.handle as int;
    law_moving_keeps_tracks_sound(before.clips@, handle, signed_step(fine(before.fps), true), d.nanos);
    law_moving_keeps_tracks_sound(before.clips@, handle, signed_step(fine(before.fps), false), d.nanos);
    law_moving_keeps_tracks_sound(
        before.clips@,
        handle,
        signed_step(coarse(before.duration), true),
        d.nanos,
    );
    law_moving_keeps_tracks_sound(
        before.clips@,
        handle,
        signed_step(coarse(before.duration), false),
        d.nanos,
    );
    law_new_clip_keeps_tracks_sound(before.clips@, d.nanos);
    let n = before.clips@.len() as int;
    if n > 0 {
        law_removal_keeps_tracks_sound(before.clips@, clip_of(handle, n), d.nanos as int);
    }
}

/// Where a handle lies: at the start of its clip, or at its end.
pub open spec fn handle_at(clips: Seq<ClipRange>, handle: int) -> int {
    if handle % 2 == 0 {
        clips[handle / 2].start.nanos as int
    } else {
        clips[handle / 2].end.nanos as int
    }
}

/// The free stretch in front of a clip, or behind the last, in nanoseconds.
pub open spec fn free_before(clips: Seq<ClipRange>, k: int, duration: int) -> int {
    (if k < clips.len() {
        clips[k].start.nanos as int
    } else {
        duration
    }) - (if k > 0 {
        clips[k - 1].end.nanos as int
    } else {
        0
    })
}

/// An arrow key moves the focused handle by one step in its direction, and
/// less only where the handle then touches what it may not pass: the
/// neighbouring clip, an end of the file, or the clip's own shortest length.
/// The handle's counterpart and all other clips stay.
pub proof fn law_arrows_move_the_focused_handle(before: TrimState, key: KeyEvent, after: TrimState)
    requires
        !before.editing,
        before.zone == TrimZone::Timeline,
        before.duration matches Some(d) && sound(before.clips@, d.nanos as int),
        before.handle / 2 < before.clips@.len(),
        key.code == KeyCode::Left || key.code == KeyCode::Right,
        trim_keyed(before, key, after),
    ensures
        ({
            let i = before.handle as int / 2;
            let starts = before.handle % 2 == 0;
            let step = step_of(before, key.with_shift());
            let from = handle_at(before.clips@, before.handle as int);
            let to = handle_at(after.clips@, before.handle as int);
            let clip = before.clips@[i];
            &&& after.clips@.len() == before.clips@.len()
            &&& after.handle == before.handle
            &&& forall|j: int|
                0 <= j < before.clips@.len() && j != i ==> (#[trigger] after.clips@[j])
                    == before.clips@[j]
            &&& starts ==> after.clips@[i].end == clip.end
            &&& !starts ==> after.clips@[i].start == clip.start
            &&& key.code == KeyCode::Right ==> {
                &&& from <= to <= from + step
                &&& to < from + step ==> to == if starts {
                    clip.end.nanos - 500_000_000
                } else if i + 1 < before.clips@.len() {
                    before.clips@[i + 1].start.nanos as int
                } else {
                    before.duration->0.nanos as int
                }
            }
            &&& key.code == KeyCode::Left ==> {
                &&& from - step <= to <= from
                &&& from - step < to ==> to == if !starts {
                    clip.start.nanos + 500_000_000
                } else if i > 0 {
                    before.clips@[i - 1].end.nanos as int
                } else {
                    0
                }
            }
        }),
{
    let d = before.duration->0.nanos;
    let delta = signed_step(step_of(before, key.with_shift()), key.code == KeyCode::Right);
    let clips = before.clips@;
    let handle = before.handle as int;
    let i = handle / 2;
    law_moving_keeps_tracks_sound(clips, handle, delta, d);
    assert(step_of(before, key.with_shift()) >= 0);
    let v = if handle % 2 == 0 {
        start_moved(clips, i, delta, d as int)
    } else {
        end_moved(clips, i, delta, d as int)
    };
    assert(clips[i].start.nanos + MIN_CLIP_LEN <= clips[i].end.nanos <= d);
    if i > 0 {
        assert(clips[i - 1].end.nanos <= clips[i].start.nanos);
    }
    if i + 1 < clips.len() {
        assert(clips[i].end.nanos <= clips[i + 1].start.nanos);
        assert(clips[i + 1].start.nanos + MIN_CLIP_LEN <= clips[i + 1].end.nanos <= d);
    }
    assert(after.clips@ == v) by {
        lemma_moved_is_sound(clips, handle, delta, d);
        lemma_sound_in_order(v, d as int);
        law_sorting_keeps_order(v);
    }
}

/// A step is a hundredth of the file but at least a second; with the shift key
/// it is one frame, or half a second where the frame rate is unknown.
pub proof fn law_steps_are_hundredths_or_frames(s: TrimState)
    ensures
        step_of(s, false) >= 1_000_000_000,
        s.duration matches Some(d) ==> (d.nanos >= 100_000_000_000 ==> 100 * step_of(s, false)
            <= d.nanos < 100 * step_of(s, false) + 100) && (d.nanos < 100_000_000_000 ==> step_of(
            s,
            false,
        ) == 1_000_000_000),
        s.duration is None ==> step_of(s, false) == 1_000_000_000,
        s.fps is None ==> step_of(s, true) == 500_000_000,
        s.fps matches Some(f) ==> if f@.below || f@.num == 0 {
            step_of(s, true) == 500_000_000
        } else {
            2 * (step_of(s, true) * f@.num) <= 2 * (1_000_000_000 * f@.den) + f@.num && 2 * (
            1_000_000_000 * f@.den) <= 2 * (step_of(s, true) * f@.num) + f@.num
        },
{
    if let Some(f) = s.fps {
        if !f@.below && f@.num > 0 {
            law_nearest_is_nearest(1_000_000_000 * f@.den, f@.num);
        }
    }
}

/// A removed clip is the one whose handle is focused; the others stay, in
/// order, and the focus stays on a handle that there is.
pub proof fn law_removal_takes_the_focused_clip(before: TrimState, key: KeyEvent, after: TrimState)
    requires
        !before.editing,
        before.zone == TrimZone::Timeline,
        before.handle / 2 < before.clips@.len(),
        2 * before.clips@.len() <= usize::MAX,
        key.code == KeyCode::Char('d') || key.code == KeyCode::Delete || key.code
            == KeyCode::Backspace,
        trim_keyed(before, key, after),
    ensures
        after.clips@.len() == before.clips@.len() - 1,
        forall|j: int|
            0 <= j < before.handle as int / 2 ==> (#[trigger] after.clips@[j]) == before.clips@[j],
        forall|j: int|
            before.handle as int / 2 <= j < after.clips@.len() ==> (#[trigger] after.clips@[j])
                == before.clips@[j + 1],
        after.clips@.len() > 0 ==> after.handle < 2 * after.clips@.len(),
        before.handle < 2 * after.clips@.len() ==> after.handle == before.handle,
        trim_means(before, key.code) == TrimMeaning::Changed,
{
}

/// Tab goes from each handle to the next and from the last to the first, and
/// shift-tab goes the same way back.
pub proof fn law_tab_goes_round_the_handles(before: TrimState, key: KeyEvent, after: TrimState)
    requires
        !before.editing,
        before.zone == TrimZone::Timeline,
        before.handle < 2 * before.clips@.len() <= usize::MAX,
        key.code == KeyCode::Tab,
        trim_keyed(before, key, after),
    ensures
        after.handle == (if before.handle + 1 < 2 * before.clips@.len() {
            before.handle + 1
        } else {
            0
        }),
        after == (TrimState { handle: after.handle, ..before }),
        forall|back: KeyEvent, last: TrimState|
            back.code == KeyCode::BackTab && #[trigger] trim_keyed(after, back, last) ==> last
                == before,
{
    let n = 2 * (before.clips@.len() as int);
    let h = before.handle as int;
    assert((h + 1) % n == (if h + 1 < n {
        h + 1
    } else {
        0
    })) by {
        if h + 1 < n {
            vstd::arithmetic::div_mod::lemma_small_mod((h + 1) as nat, n as nat);
        } else {
            vstd::arithmetic::div_mod::lemma_mod_self_0(n);
        }
    }
    let a = after.handle as int;
    assert((a + n - 1) % n == h) by {
        if a == 0 {
            vstd::arithmetic::div_mod::lemma_small_mod((n - 1) as nat, n as nat);
        } else {
            vstd::arithmetic::div_mod::lemma_mod_add_multiples_vanish(a - 1, n);
            vstd::arithmetic::div_mod::lemma_small_mod((a - 1) as nat, n as nat);
            assert(a + n - 1 == n + (a - 1));
        }
    }
}

/// Going to the fields and back leaves everything as it was.
pub proof fn law_leaving_the_track_and_returning(
    before: TrimState,
    key: KeyEvent,
    mid: TrimState,
    after: TrimState,
)
    requires
        !before.editing,
        before.zone == TrimZone::Timeline,
        key.code == KeyCode::Char('f'),
        trim_keyed(before, key, mid),
        trim_keyed(mid, key, after),
    ensures
        mid.zone == TrimZone::Fields,
        after == before,
{
}

/// What is kept is the sum of the clips' lengths, each from its start to its
/// end.
pub proof fn law_kept_is_the_sum(a: Seq<ClipRange>, b: Seq<ClipRange>, c: ClipRange)
    requires
        c.start.nanos <= c.end.nanos,
    ensures
        kept(a + b) == kept(a) + kept(b),
        kept(seq![c]) == c.end.nanos - c.start.nanos,
        kept(Seq::empty()) == 0,
    decreases b.len(),
{
    if b.len() > 0 {
        law_kept_is_the_sum(a, b.drop_last(), c);
        assert((a + b).drop_last() =~= a + b.drop_last());
    } else {
        assert(a + b =~= a);
    }
    assert(seq![c].drop_last() =~= Seq::empty());
    assert(kept(seq![c].drop_last()) == 0);
}

/// Every thumbnail that was read is sent, once and in order.
pub proof fn law_thumbnails_are_sent_in_order(v: Seq<Thumb>, i: int)
    requires
        0 <= i < v.len(),
        forall|j: int| 0 <= j < v.len() ==> (#[trigger] v[j])@.1 is Some,
    ensures
        payloads(v, ImageBackend::Kitty).len() == v.len(),
        payloads(v, ImageBackend::Kitty)[i] == kitty(
            v[i]@.1->0,
            THUMB_COLS as nat,
            THUMB_ROWS as nat,
        ),
        payloads(v, ImageBackend::ITerm2).len() == v.len(),
        payloads(v, ImageBackend::ITerm2)[i] == iterm2(v[i]@.1->0, THUMB_COLS as nat),
        blocks(v, ImageBackend::Blocks).len() == v.len(),
        blocks(v, ImageBackend::Blocks)[i] == shown_cells(v[i]@.0, v[i]@.1),
        payloads(v, ImageBackend::Blocks).len() == 0,
        blocks(v, ImageBackend::Kitty).len() == 0,
        blocks(v, ImageBackend::ITerm2).len() == 0,
    decreases v.len(),
{
    let w = v.drop_last();
    assert(v[v.len() - 1]@.1 is Some);
    assert forall|j: int| 0 <= j < w.len() implies (#[trigger] w[j])@.1 is Some by {
        assert(w[j] == v[j]);
    }
    if w.len() > 0 {
        law_thumbnails_are_sent_in_order(
            w,
            if i < w.len() {
                i
            } else {
                0
            },
        );
    } else {
        assert(payloads(w, ImageBackend::Kitty).len() == 0);
        assert(payloads(w, ImageBackend::ITerm2).len() == 0);
        assert(payloads(w, ImageBackend::Blocks).len() == 0);
    }
}

} // verus!
