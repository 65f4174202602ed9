//! What ffprobe says about a file.
//!
//! Everything is optional: files in the wild are full of surprises, and a
//! field that ffprobe leaves out or reports as `N/A` is `None` here. The JSON
//! document is decoded outside; its plain fields arrive as [`RawProbe`].

use vstd::prelude::*;
use crate::number::{
    below_zero, dec, dec2, decimal, is_na, is_nil, law_decimals_read_as_written,
    law_fine_units_are_exact, law_nearest_is_nearest, law_numbers_read_back, least, nearest,
    nearest_of, not_available, pow10, read_nat, read_rounded, read_u32, read_u64, reads_nil,
    rounded, show, show2, Decimal,
};
use crate::text::{
    copy_opt, copy_text, has, is_digit, join2, join3, join_all, joined, lemma_find,
    lemma_has_inside, lemma_has_itself, lemma_joined_holds, lower, lowered, occurs_at, opt_text,
    same, split_first, split_once, texts, trim, trimmed,
};
use crate::time::{clock, read_seconds, seconds, show_clock, Duration};

verus! {

/// Seconds to wait for ffprobe before giving up.
pub const PROBE_TIMEOUT_SECS: u64 = 15;

/// Why a file could not be probed, apart from why an encode fails.
#[derive(Debug, Clone, PartialEq, Eq)]
pub enum ProbeError {
    /// No ffprobe binary.
    BinaryNotFound,
    /// No answer in the given number of seconds, for the given path.
    Timeout(u64, String),
    /// ffprobe exited with a failure.
    Failed { path: String, message: String },
    /// The output was not a document of the expected shape.
    Parse { path: String, message: String },
}

impl ProbeError {
    /// The message of each failure.
    pub open spec fn text(self) -> Seq<char> {
        match self {
            ProbeError::BinaryNotFound => "ffprobe not found; install FFmpeg or set a custom path"@,
            ProbeError::Timeout(secs, path) => "ffprobe timed out after "@ + dec(secs as nat)
                + "s on "@ + path@,
            ProbeError::Failed { path, message } => "ffprobe could not read "@ + path@ + ": "@
                + message@,
            ProbeError::Parse { path, message } => "could not parse ffprobe output for "@ + path@
                + ": "@ + message@,
        }
    }

    /// The message of a failure.
    pub fn message(&self) -> (r: String)
        ensures
            r@ == self.text(),
    {
        match self {
            ProbeError::BinaryNotFound => copy_text(
                "ffprobe not found; install FFmpeg or set a custom path",
            ),
            ProbeError::Timeout(secs, path) => {
                let head = join3("ffprobe timed out after ", show(*secs as u128).as_str(), "s on ");
                join2(head.as_str(), path.as_str())
            },
            ProbeError::Failed { path, message } => {
                let head = join3("ffprobe could not read ", path.as_str(), ": ");
                join2(head.as_str(), message.as_str())
            },
            ProbeError::Parse { path, message } => {
                let head = join3("could not parse ffprobe output for ", path.as_str(), ": ");
                join2(head.as_str(), message.as_str())
            },
        }
    }
}

/// What kind of media a stream carries.
#[derive(Debug, Clone, PartialEq, Eq)]
pub enum StreamType {
    Video,
    Audio,
    Subtitle,
    Attachment,
    Data,
    /// Any other kind, with the word that ffprobe used.
    Other(String),
}

impl StreamType {
    /// The word that ffprobe uses for this kind.
    pub open spec fn word(self) -> Seq<char> {
        match self {
            StreamType::Video => "video"@,
            StreamType::Audio => "audio"@,
            StreamType::Subtitle => "subtitle"@,
            StreamType::Attachment => "attachment"@,
            StreamType::Data => "data"@,
            StreamType::Other(s) => s@,
        }
    }

    /// The kind that a word names; an unknown word is kept.
    pub fn from_codec_type(s: &str) -> (r: Self)
        ensures
            r.word() == s@,
            r is Video <==> s@ == "video"@,
            r is Audio <==> s@ == "audio"@,
            r is Subtitle <==> s@ == "subtitle"@,
            r is Attachment <==> s@ == "attachment"@,
            r is Data <==> s@ == "data"@,
    {
        proof {
            reveal_strlit("video");
            reveal_strlit("audio");
            reveal_strlit("subtitle");
            reveal_strlit("attachment");
            reveal_strlit("data");
            assert("video"@[0] == 'v' && "audio"@.len() == 5 && "video"@.len() == 5
                && "audio"@[0] == 'a');
            assert("subtitle"@.len() == 8 && "attachment"@.len() == 10 && "data"@.len() == 4);
        }
        if same(s, "video") {
            StreamType::Video
        } else if same(s, "audio") {
            StreamType::Audio
        } else if same(s, "subtitle") {
            StreamType::Subtitle
        } else if same(s, "attachment") {
            StreamType::Attachment
        } else if same(s, "data") {
            StreamType::Data
        } else {
            StreamType::Other(copy_text(s))
        }
    }
}

/// One stream of a probed file.
#[derive(Debug, Clone, PartialEq, Eq)]
pub struct StreamInfo {
    /// Stream index within the file.
    pub index: u32,
    /// Video, audio, subtitle, ...
    pub codec_type: Option<StreamType>,
    /// Such as `h264` or `aac`; decides whether a stream can be copied.
    pub codec_name: Option<String>,
    /// Pixel width (video only).
    pub width: Option<u32>,
    /// Pixel height (video only).
    pub height: Option<u32>,
    /// Frames per second, from the average frame rate or else the base one.
    pub fps: Option<Rate>,
    /// Audio sample rate in Hz.
    pub sample_rate: Option<u32>,
    /// Audio channel count.
    pub channels: Option<u32>,
    /// Pixel format, such as `yuv420p`.
    pub pix_fmt: Option<String>,
    /// Stream bit rate in bits per second.
    pub bit_rate_bps: Option<u64>,
    /// Stream duration, if reported per stream.
    pub duration: Option<Duration>,
    /// Rotation in millionths of a degree, from side data or tags.
    pub rotation: Option<i64>,
    /// Stream language, such as `eng`.
    pub language: Option<String>,
}

impl Default for StreamInfo {
    fn default() -> (r: Self)
        ensures
            r.index == 0,
            r.codec_type is None,
            r.codec_name is None,
            r.width is None,
            r.height is None,
            r.fps is None,
            r.sample_rate is None,
            r.channels is None,
            r.pix_fmt is None,
            r.bit_rate_bps is None,
            r.duration is None,
            r.rotation is None,
            r.language is None,
    {
        StreamInfo {
            index: 0,
            codec_type: None,
            codec_name: None,
            width: None,
            height: None,
            fps: None,
            sample_rate: None,
            channels: None,
            pix_fmt: None,
            bit_rate_bps: None,
            duration: None,
            rotation: None,
            language: None,
        }
    }
}

/// What probing one file found.
#[derive(Debug, Clone, PartialEq, Eq)]
pub struct ProbeResult {
    /// The probed file.
    pub path: String,
    /// Container duration; drives progress and trim bounds.
    pub duration: Option<Duration>,
    /// File size in bytes.
    pub size_bytes: Option<u64>,
    /// Container names.
    pub format_name: Option<String>,
    /// Overall bit rate in bits per second.
    pub bit_rate_bps: Option<u64>,
    /// The streams, in file order.
    pub streams: Vec<StreamInfo>,
}

/// Whether a stream carries video.
pub open spec fn is_video(s: StreamInfo) -> bool {
    s.codec_type matches Some(StreamType::Video)
}

/// Whether a stream carries audio.
pub open spec fn is_audio(s: StreamInfo) -> bool {
    s.codec_type matches Some(StreamType::Audio)
}

/// Position of the first video stream, or the number of streams.
pub open spec fn first_video(v: Seq<StreamInfo>) -> int
    decreases v.len(),
{
    if v.len() == 0 || is_video(v[0]) {
        0
    } else {
        1 + first_video(v.skip(1))
    }
}

/// Position of the first audio stream, or the number of streams.
pub open spec fn first_audio(v: Seq<StreamInfo>) -> int
    decreases v.len(),
{
    if v.len() == 0 || is_audio(v[0]) {
        0
    } else {
        1 + first_audio(v.skip(1))
    }
}

proof fn lemma_first_video(v: Seq<StreamInfo>, i: int)
    requires
        0 <= i <= v.len(),
        forall|j: int| 0 <= j < i ==> !is_video(#[trigger] v[j]),
        i < v.len() ==> is_video(v[i]),
    ensures
        first_video(v) == i,
    decreases v.len(),
{
    if i > 0 {
        assert(!is_video(v[0]));
        assert forall|j: int| 0 <= j < i - 1 implies !is_video(#[trigger] v.skip(1)[j]) by {
            assert(v.skip(1)[j] == v[j + 1]);
        }
        lemma_first_video(v.skip(1), i - 1);
    }
}

proof fn lemma_first_audio(v: Seq<StreamInfo>, i: int)
    requires
        0 <= i <= v.len(),
        forall|j: int| 0 <= j < i ==> !is_audio(#[trigger] v[j]),
        i < v.len() ==> is_audio(v[i]),
    ensures
        first_audio(v) == i,
    decreases v.len(),
{
    if i > 0 {
        assert(!is_audio(v[0]));
        assert forall|j: int| 0 <= j < i - 1 implies !is_audio(#[trigger] v.skip(1)[j]) by {
            assert(v.skip(1)[j] == v[j + 1]);
        }
        lemma_first_audio(v.skip(1), i - 1);
    }
}

impl ProbeResult {
    /// Whether there is a video stream.
    pub open spec fn videoed(self) -> bool {
        first_video(self.streams@) < self.streams@.len()
    }

    /// Whether there is an audio stream.
    pub open spec fn sounded(self) -> bool {
        first_audio(self.streams@) < self.streams@.len()
    }

    /// The codec of the first video stream, if both are known.
    pub open spec fn vcodec(self) -> Option<Seq<char>> {
        if self.videoed() {
            opt_text(self.streams@[first_video(self.streams@)].codec_name)
        } else {
            None
        }
    }

    /// The codec of the first audio stream, if both are known.
    pub open spec fn acodec(self) -> Option<Seq<char>> {
        if self.sounded() {
            opt_text(self.streams@[first_audio(self.streams@)].codec_name)
        } else {
            None
        }
    }

    /// First video stream, if any.
    pub fn video_stream(&self) -> (r: Option<&StreamInfo>)
        ensures
            r is Some <==> self.videoed(),
            r matches Some(s) ==> *s == self.streams@[first_video(self.streams@)],
    {
        let mut i: usize = 0;
        while i < self.streams.len()
            invariant
                i <= self.streams@.len(),
                forall|j: int| 0 <= j < i ==> !is_video(#[trigger] self.streams@[j]),
            decreases self.streams@.len() - i,
        {
            if matches!(&self.streams[i].codec_type, Some(StreamType::Video)) {
                proof {
                    lemma_first_video(self.streams@, i as int);
                }
                return Some(&self.streams[i]);
            }
            i = i + 1;
        }
        proof {
            lemma_first_video(self.streams@, i as int);
        }
        None
    }

    /// First audio stream, if any.
    pub fn audio_stream(&self) -> (r: Option<&StreamInfo>)
        ensures
            r is Some <==> self.sounded(),
            r matches Some(s) ==> *s == self.streams@[first_audio(self.streams@)],
    {
        let mut i: usize = 0;
        while i < self.streams.len()
            invariant
                i <= self.streams@.len(),
                forall|j: int| 0 <= j < i ==> !is_audio(#[trigger] self.streams@[j]),
            decreases self.streams@.len() - i,
        {
            if matches!(&self.streams[i].codec_type, Some(StreamType::Audio)) {
                proof {
                    lemma_first_audio(self.streams@, i as int);
                }
                return Some(&self.streams[i]);
            }
            i = i + 1;
        }
        proof {
            lemma_first_audio(self.streams@, i as int);
        }
        None
    }

    /// Whether the file has a video stream.
    pub fn has_video(&self) -> (r: bool)
        ensures
            r == self.videoed(),
    {
        self.video_stream().is_some()
    }

    /// Whether the file has an audio stream.
    pub fn has_audio(&self) -> (r: bool)
        ensures
            r == self.sounded(),
    {
        self.audio_stream().is_some()
    }

    /// Codec name of the first video stream.
    pub fn video_codec(&self) -> (r: Option<&str>)
        ensures
            match r {
                Some(s) => self.vcodec() == Some(s@),
                None => self.vcodec() is None,
            },
    {
        match self.video_stream() {
            Some(s) => match &s.codec_name {
                Some(name) => Some(name.as_str()),
                None => None,
            },
            None => None,
        }
    }

    /// Codec name of the first audio stream.
    pub fn audio_codec(&self) -> (r: Option<&str>)
        ensures
            match r {
                Some(s) => self.acodec() == Some(s@),
                None => self.acodec() is None,
            },
    {
        match self.audio_stream() {
            Some(s) => match &s.codec_name {
                Some(name) => Some(name.as_str()),
                None => None,
            },
            None => None,
        }
    }
}


// ---------------------------------------------------------------------------
// Reading the document
// ---------------------------------------------------------------------------

/// The document's fields, as plain values.
#[derive(Debug, Clone)]
pub struct RawProbe {
    pub streams: Vec<RawStream>,
    pub format: Option<RawFormat>,
}

/// One entry of `streams`.
#[derive(Debug, Clone)]
pub struct RawStream {
    pub index: Option<u32>,
    pub codec_name: Option<String>,
    pub codec_type: Option<String>,
    pub width: Option<u32>,
    pub height: Option<u32>,
    pub r_frame_rate: Option<String>,
    pub avg_frame_rate: Option<String>,
    pub sample_rate: Option<String>,
    pub channels: Option<u32>,
    pub pix_fmt: Option<String>,
    pub bit_rate: Option<String>,
    pub duration: Option<String>,
    pub tags: Option<Vec<(String, String)>>,
    /// The rotation of each side-data entry, in millionths of a degree.
    pub side_data_list: Option<Vec<Option<i64>>>,
}

/// The `format` object.
#[derive(Debug, Clone)]
pub struct RawFormat {
    pub duration: Option<String>,
    pub size: Option<String>,
    pub bit_rate: Option<String>,
    pub format_name: Option<String>,
}

/// The length of an optional duration.
pub open spec fn opt_nanos(o: Option<Duration>) -> Option<nat> {
    match o {
        Some(d) => Some(d.nanos as nat),
        None => None,
    }
}

/// An optional number that an optional text denotes.
pub open spec fn opt_number(o: Option<String>, max: nat) -> Option<nat> {
    match o {
        Some(s) => read_nat(s@, max),
        None => None,
    }
}

/// An optional length that an optional text denotes.
pub open spec fn opt_seconds(o: Option<String>) -> Option<nat> {
    match o {
        Some(s) => seconds(s@),
        None => None,
    }
}

/// The value of the first tag with the given key.
pub open spec fn tag(tags: Seq<(String, String)>, key: Seq<char>) -> Option<Seq<char>>
    decreases tags.len(),
{
    if tags.len() == 0 {
        None
    } else if tags[0].0@ == key {
        Some(tags[0].1@)
    } else {
        tag(tags.skip(1), key)
    }
}

/// The value of a tag of a stream.
pub open spec fn stream_tag(raw: RawStream, key: Seq<char>) -> Option<Seq<char>> {
    match raw.tags {
        Some(tags) => tag(tags@, key),
        None => None,
    }
}

/// Finds the first tag with the given key.
fn find_tag(tags: &Vec<(String, String)>, key: &str) -> (r: Option<String>)
    ensures
        opt_text(r) == tag(tags@, key@),
{
    let mut i: usize = 0;
    assert(tags@.skip(0) =~= tags@);
    while i < tags.len()
        invariant
            i <= tags@.len(),
            tag(tags@, key@) == tag(tags@.skip(i as int), key@),
        decreases tags@.len() - i,
    {
        assert(tags@.skip(i as int)[0] == tags@[i as int]);
        if same(tags[i].0.as_str(), key) {
            return Some(copy_text(tags[i].1.as_str()));
        }
        assert(tags@.skip(i as int).skip(1) =~= tags@.skip(i + 1));
        i = i + 1;
    }
    None
}

/// A fraction such as `30000/1001`, each side in units of `10^-11`. The divisor
/// is not zero.
#[derive(Debug, Clone, Copy, PartialEq, Eq)]
pub struct Rate {
    below: bool,
    num: u128,
    den: u128,
}

/// What a fraction says: whether it lies below zero, and its two sides.
pub struct Fraction {
    pub below: bool,
    pub num: nat,
    pub den: nat,
}

/// Largest side of a fraction, in units of `10^-11`.
pub const RATE_CAP: u128 = 100_000_000_000_000_000_000_000_000_000;

impl Rate {
    #[verifier::type_invariant]
    spec fn held(self) -> bool {
        self.num <= RATE_CAP && 0 < self.den <= RATE_CAP
    }

    /// What the fraction says.
    pub closed spec fn view(&self) -> Fraction {
        Fraction { below: self.below, num: self.num as nat, den: self.den as nat }
    }

    /// Whether the fraction lies below zero.
    pub fn negative(&self) -> (r: bool)
        ensures
            r == self@.below,
    {
        self.below
    }

    /// The upper side.
    pub fn numerator(&self) -> (r: u128)
        ensures
            r == self@.num,
            r <= RATE_CAP,
    {
        proof {
            use_type_invariant(self);
        }
        self.num
    }

    /// The lower side.
    pub fn denominator(&self) -> (r: u128)
        ensures
            r == self@.den,
            0 < r <= RATE_CAP,
    {
        proof {
            use_type_invariant(self);
        }
        self.den
    }
}

/// A side of a fraction, in units of `10^-11`: to the nearest, at least one of
/// them unless the side is zero, and cut off at the largest.
pub open spec fn side(d: Decimal) -> nat {
    if is_nil(d) {
        0
    } else if rounded(d, 11) == 0 {
        1
    } else {
        least(rounded(d, 11), RATE_CAP as nat)
    }
}

/// The fraction that a text such as `30000/1001` denotes. Nothing for `0/0`,
/// `N/A`, a text that is not two decimal numbers around a slash, or a divisor of
/// zero.
pub open spec fn rational(s: Seq<char>) -> Option<Fraction> {
    let t = trimmed(s);
    if t.len() == 0 || is_na(t) {
        None
    } else {
        match split_first(t, '/') {
            Some((a, b)) => match (decimal(trimmed(a)), decimal(trimmed(b))) {
                (Some(n), Some(d)) => if is_nil(d) {
                    None
                } else {
                    Some(
                        Fraction {
                            below: below_zero(n) != below_zero(d),
                            num: side(n),
                            den: side(d),
                        },
                    )
                },
                _ => None,
            },
            None => None,
        }
    }
}

/// An optional fraction.
pub open spec fn opt_fraction(o: Option<Rate>) -> Option<Fraction> {
    match o {
        Some(r) => Some(r@),
        None => None,
    }
}

/// Reads a side of a fraction, and whether it lies below zero.
fn read_side(s: &str) -> (r: Option<(bool, u128)>)
    ensures
        match decimal(s@) {
            Some(d) => r == Some((below_zero(d), side(d) as u128)) && side(d) <= RATE_CAP,
            None => r is None,
        },
{
    match read_rounded(s, 11, RATE_CAP) {
        Some((below, v)) => {
            if reads_nil(s) {
                Some((below, 0))
            } else if v == 0 {
                Some((below, 1))
            } else {
                Some((below, v))
            }
        },
        None => None,
    }
}

/// Reads a fraction.
pub fn parse_rational(s: &str) -> (r: Option<Rate>)
    ensures
        opt_fraction(r) == rational(s@),
{
    let t = trim(s);
    if t.as_str().is_empty() || not_available(t.as_str()) {
        return None;
    }
    match split_once(t.as_str(), '/') {
        Some((a, b)) => {
            let num = read_side(trim(a.as_str()).as_str());
            let den = read_side(trim(b.as_str()).as_str());
            match (num, den) {
                (Some((n_below, n)), Some((d_below, d))) => {
                    if d == 0 {
                        return None;
                    }
                    Some(Rate { below: n_below != d_below, num: n, den: d })
                },
                _ => None,
            }
        },
        None => None,
    }
}

/// Whether a fraction lies above zero.
pub open spec fn above_zero(f: Fraction) -> bool {
    !f.below && f.num > 0
}

/// A positive fraction that an optional text denotes.
pub open spec fn positive_rate(o: Option<String>) -> Option<Fraction> {
    match o {
        Some(s) => match rational(s@) {
            Some(f) => if above_zero(f) {
                Some(f)
            } else {
                None
            },
            None => None,
        },
        None => None,
    }
}

/// Reads a positive fraction.
fn read_rate(o: &Option<String>) -> (r: Option<Rate>)
    ensures
        opt_fraction(r) == positive_rate(*o),
{
    match o {
        Some(s) => match parse_rational(s.as_str()) {
            Some(f) => if !f.negative() && f.numerator() > 0 {
                Some(f)
            } else {
                None
            },
            None => None,
        },
        None => None,
    }
}

/// A decimal number of either sign, in millionths, to the nearest and cut off at
/// the largest 64-bit one.
pub open spec fn signed_millionths(s: Seq<char>) -> Option<int> {
    match decimal(s) {
        Some(d) => {
            let v = least(rounded(d, 6), i64::MAX as nat) as int;
            Some(
                if below_zero(d) {
                    -v
                } else {
                    v
                },
            )
        },
        None => None,
    }
}

/// The first rotation among side-data entries.
pub open spec fn first_rotation(v: Seq<Option<i64>>) -> Option<i64>
    decreases v.len(),
{
    if v.len() == 0 {
        None
    } else if v[0] is Some {
        v[0]
    } else {
        first_rotation(v.skip(1))
    }
}

/// A stream's rotation: from its side data, or else from its `rotate` tag.
pub open spec fn rotation(raw: RawStream) -> Option<int> {
    let side = match raw.side_data_list {
        Some(list) => first_rotation(list@),
        None => None,
    };
    match side {
        Some(v) => Some(v as int),
        None => match stream_tag(raw, "rotate"@) {
            Some(s) => signed_millionths(s),
            None => None,
        },
    }
}

/// Finds a stream's rotation.
#[verifier::loop_isolation(false)]
pub fn rotation_from(raw: &RawStream) -> (r: Option<i64>)
    ensures
        match r {
            Some(v) => rotation(*raw) == Some(v as int),
            None => rotation(*raw) is None,
        },
{
    if let Some(list) = &raw.side_data_list {
        let mut i: usize = 0;
        assert(list@.skip(0) =~= list@);
        while i < list.len()
            invariant
                i <= list@.len(),
                first_rotation(list@) == first_rotation(list@.skip(i as int)),
            decreases list@.len() - i,
        {
            assert(list@.skip(i as int)[0] == list@[i as int]);
            if let Some(v) = list[i] {
                return Some(v);
            }
            assert(list@.skip(i as int).skip(1) =~= list@.skip(i + 1));
            i = i + 1;
        }
    }
    match &raw.tags {
        Some(tags) => match find_tag(tags, "rotate") {
            Some(s) => match read_rounded(s.as_str(), 6, i64::MAX as u128) {
                Some((below, v)) => if below {
                    Some(-(v as i64))
                } else {
                    Some(v as i64)
                },
                None => None,
            },
            None => None,
        },
        None => None,
    }
}

/// What a stream entry becomes.
pub open spec fn reads_as(raw: RawStream, s: StreamInfo) -> bool {
    &&& s.index == (match raw.index {
        Some(i) => i,
        None => 0,
    })
    &&& s.codec_type is Some <==> raw.codec_type is Some
    &&& s.codec_type matches Some(kind) ==> kind.word() == raw.codec_type->0@ && (kind is Video
        <==> raw.codec_type->0@ == "video"@) && (kind is Audio <==> raw.codec_type->0@ == "audio"@)
        && (kind is Subtitle <==> raw.codec_type->0@ == "subtitle"@) && (kind is Attachment
        <==> raw.codec_type->0@ == "attachment"@) && (kind is Data <==> raw.codec_type->0@
        == "data"@)
    &&& opt_text(s.codec_name) == opt_text(raw.codec_name)
    &&& s.width == raw.width
    &&& s.height == raw.height
    &&& opt_fraction(s.fps) == (match positive_rate(raw.avg_frame_rate) {
        Some(f) => Some(f),
        None => positive_rate(raw.r_frame_rate),
    })
    &&& match s.sample_rate {
        Some(v) => Some(v as nat),
        None => None,
    } == opt_number(raw.sample_rate, u32::MAX as nat)
    &&& s.channels == raw.channels
    &&& opt_text(s.pix_fmt) == opt_text(raw.pix_fmt)
    &&& match s.bit_rate_bps {
        Some(v) => Some(v as nat),
        None => None,
    } == opt_number(raw.bit_rate, u64::MAX as nat)
    &&& opt_nanos(s.duration) == opt_seconds(raw.duration)
    &&& match s.rotation {
        Some(v) => Some(v as int),
        None => None,
    } == rotation(raw)
    &&& opt_text(s.language) == stream_tag(raw, "language"@)
}

/// Reads an optional 64-bit number.
fn read_opt_u64(o: &Option<String>) -> (r: Option<u64>)
    ensures
        match r {
            Some(v) => opt_number(*o, u64::MAX as nat) == Some(v as nat),
            None => opt_number(*o, u64::MAX as nat) is None,
        },
{
    match o {
        Some(s) => read_u64(s.as_str()),
        None => None,
    }
}

/// Reads an optional length in seconds.
fn read_opt_seconds(o: &Option<String>) -> (r: Option<Duration>)
    ensures
        opt_nanos(r) == opt_seconds(*o),
{
    match o {
        Some(s) => parse_ffprobe_secs(s.as_str()),
        None => None,
    }
}

impl StreamInfo {
    /// Reads one stream entry.
    pub fn from_raw(raw: &RawStream) -> (r: Self)
        ensures
            reads_as(*raw, r),
    {
        let fps = match read_rate(&raw.avg_frame_rate) {
            Some(v) => Some(v),
            None => read_rate(&raw.r_frame_rate),
        };
        StreamInfo {
            index: match raw.index {
                Some(i) => i,
                None => 0,
            },
            codec_type: match &raw.codec_type {
                Some(s) => Some(StreamType::from_codec_type(s.as_str())),
                None => None,
            },
            codec_name: copy_opt(&raw.codec_name),
            width: raw.width,
            height: raw.height,
            fps,
            sample_rate: match &raw.sample_rate {
                Some(s) => read_u32(s.as_str()),
                None => None,
            },
            channels: raw.channels,
            pix_fmt: copy_opt(&raw.pix_fmt),
            bit_rate_bps: read_opt_u64(&raw.bit_rate),
            duration: read_opt_seconds(&raw.duration),
            rotation: rotation_from(raw),
            language: match &raw.tags {
                Some(tags) => find_tag(tags, "language"),
                None => None,
            },
        }
    }
}

/// A field of the `format` object.
pub open spec fn format_field(raw: RawProbe, pick: spec_fn(RawFormat) -> Option<String>) -> Option<
    String,
> {
    match raw.format {
        Some(f) => pick(f),
        None => None,
    }
}

impl ProbeResult {
    /// What a whole document becomes, for the file at `path`.
    pub open spec fn of_document(self, path: Seq<char>, raw: RawProbe) -> bool {
        &&& self.path@ == path
        &&& opt_nanos(self.duration) == opt_seconds(
            format_field(raw, |f: RawFormat| f.duration),
        )
        &&& match self.size_bytes {
            Some(v) => Some(v as nat),
            None => None,
        } == opt_number(format_field(raw, |f: RawFormat| f.size), u64::MAX as nat)
        &&& opt_text(self.format_name) == opt_text(
            format_field(raw, |f: RawFormat| f.format_name),
        )
        &&& match self.bit_rate_bps {
            Some(v) => Some(v as nat),
            None => None,
        } == opt_number(format_field(raw, |f: RawFormat| f.bit_rate), u64::MAX as nat)
        &&& self.streams@.len() == raw.streams@.len()
        &&& forall|i: int|
            0 <= i < raw.streams@.len() ==> reads_as(raw.streams@[i], #[trigger] self.streams@[i])
    }

    /// Reads a whole document.
    pub fn from_raw(path: String, raw: &RawProbe) -> (r: Self)
        ensures
            r.of_document(path@, *raw),
    {
        let mut streams: Vec<StreamInfo> = Vec::new();
        let mut i: usize = 0;
        while i < raw.streams.len()
            invariant
                i <= raw.streams@.len(),
                streams@.len() == i,
                forall|j: int|
                    0 <= j < i ==> reads_as(raw.streams@[j], #[trigger] streams@[j]),
            decreases raw.streams@.len() - i,
        {
            streams.push(StreamInfo::from_raw(&raw.streams[i]));
            i = i + 1;
        }
        match &raw.format {
            Some(f) => ProbeResult {
                path,
                duration: read_opt_seconds(&f.duration),
                size_bytes: read_opt_u64(&f.size),
                format_name: copy_opt(&f.format_name),
                bit_rate_bps: read_opt_u64(&f.bit_rate),
                streams,
            },
            None => ProbeResult {
                path,
                duration: None,
                size_bytes: None,
                format_name: None,
                bit_rate_bps: None,
                streams,
            },
        }
    }
}

/// Reads an ffprobe length such as `248.123456`.
pub fn parse_ffprobe_secs(s: &str) -> (r: Option<Duration>)
    ensures
        opt_nanos(r) == seconds(s@),
{
    read_seconds(s)
}

// ---------------------------------------------------------------------------
// Showing what was found
// ---------------------------------------------------------------------------

/// Renders a duration as `0:02`, `4:12` or `1:02:03`.
pub fn format_duration(d: Duration) -> (r: String)
    ensures
        r@ == clock((d.nanos / 1_000_000_000) as nat),
{
    show_clock(d.as_secs())
}

/// A byte count with 53 significant bits: the nearest multiple of the smallest
/// power of two, from `step` on, that leaves the count below `2^53` steps.
pub open spec fn significant(bytes: nat, step: nat) -> nat
    decreases 0x1_0000_0000_0000_0000 - step,
{
    if step == 0 || step >= 2048 || bytes < 0x20_0000_0000_0000 * step {
        step * nearest(bytes, step)
    } else {
        significant(bytes, 2 * step)
    }
}

/// Which unit a byte count is shown in: the largest of `B`, `KB`, `MB`, `GB`
/// and `TB` that leaves at least one.
pub open spec fn size_unit(v: nat) -> nat {
    if v < 1024 {
        0
    } else if v < 1024 * 1024 {
        1
    } else if v < 1024 * 1024 * 1024 {
        2
    } else if v < 1024 * 1024 * 1024 * 1024 {
        3
    } else {
        4
    }
}

/// A byte count in its unit, to the nearest whole number.
pub open spec fn size_text(bytes: nat) -> Seq<char> {
    let v = significant(bytes, 1);
    let unit = size_unit(v);
    if unit == 0 {
        dec(bytes) + " B"@
    } else if unit == 1 {
        dec(nearest(v, 1024)) + " KB"@
    } else if unit == 2 {
        dec(nearest(v, 1024 * 1024)) + " MB"@
    } else if unit == 3 {
        dec(nearest(v, 1024 * 1024 * 1024)) + " GB"@
    } else {
        dec(nearest(v, 1024 * 1024 * 1024 * 1024)) + " TB"@
    }
}

/// Rounds a byte count to 53 significant bits.
fn significant_of(bytes: u64) -> (r: u128)
    ensures
        r == significant(bytes as nat, 1),
        r <= 0x1_0000_0000_0000_0000,
{
    let b: u128 = bytes as u128;
    let mut step: u128 = 1;
    while step < 2048 && b >= 0x20_0000_0000_0000 * step
        invariant
            b == bytes,
            step == 1 || step == 2 || step == 4 || step == 8 || step == 16 || step == 32 || step
                == 64 || step == 128 || step == 256 || step == 512 || step == 1024 || step == 2048,
            significant(bytes as nat, 1) == significant(bytes as nat, step as nat),
        decreases 2048 - step,
    {
        step = 2 * step;
    }
    let q = nearest_of(b, step);
    assert(step * q <= 0x1_0000_0000_0000_0000) by {
        lemma_rounded(b as nat, step as nat);
    }
    step * q
}

proof fn lemma_rounded(b: nat, step: nat)
    requires
        b < 0x1_0000_0000_0000_0000,
        step == 1 || step == 2 || step == 4 || step == 8 || step == 16 || step == 32 || step == 64
            || step == 128 || step == 256 || step == 512 || step == 1024 || step == 2048,
    ensures
        step * nearest(b, step) <= 0x1_0000_0000_0000_0000,
{
}

/// Renders a byte count as `32 KB` or `248 MB`.
pub fn format_size(bytes: u64) -> (r: String)
    ensures
        r@ == size_text(bytes as nat),
{
    let v = significant_of(bytes);
    if v < 1024 {
        join2(show(bytes as u128).as_str(), " B")
    } else if v < 1024 * 1024 {
        join2(show(nearest_of(v, 1024)).as_str(), " KB")
    } else if v < 1024 * 1024 * 1024 {
        join2(show(nearest_of(v, 1024 * 1024)).as_str(), " MB")
    } else if v < 1024 * 1024 * 1024 * 1024 {
        join2(show(nearest_of(v, 1024 * 1024 * 1024)).as_str(), " GB")
    } else {
        join2(show(nearest_of(v, 1024 * 1024 * 1024 * 1024)).as_str(), " TB")
    }
}

/// A number of hundredths with two decimals.
pub open spec fn two_places(h: nat) -> Seq<char> {
    dec(h / 100) + "."@ + dec2(h % 100)
}

/// A number of millionths with two decimals: the nearest ones, the even ones of
/// two equally near.
pub open spec fn hundredths(m: nat) -> Seq<char> {
    two_places(nearest(m, 10_000))
}

/// A fraction's magnitude with two decimals, likewise.
pub open spec fn rate_text(f: Fraction) -> Seq<char> {
    two_places(nearest(100 * f.num, f.den))
}

/// Renders hundredths with two decimals.
fn show_two_places(h: u128) -> (r: String)
    ensures
        r@ == two_places(h as nat),
{
    join3(show(h / 100).as_str(), ".", show2(h % 100).as_str())
}

/// Renders millionths with two decimals.
pub fn show_hundredths(m: u128) -> (r: String)
    ensures
        r@ == hundredths(m as nat),
{
    show_two_places(nearest_of(m, 10_000))
}

/// Renders a fraction's magnitude with two decimals.
fn show_rate(f: &Rate) -> (r: String)
    ensures
        r@ == rate_text(f@),
{
    show_two_places(nearest_of(100 * f.numerator(), f.denominator()))
}

/// One text, or none.
pub open spec fn one(s: Seq<char>) -> Seq<Seq<char>> {
    seq![s]
}

/// The codecs of a file: `video/audio`, or the one that is known.
pub open spec fn codec_text(v: Option<Seq<char>>, a: Option<Seq<char>>) -> Seq<char> {
    match (v, a) {
        (Some(v), Some(a)) => v + "/"@ + a,
        (Some(v), None) => v,
        (None, Some(a)) => a,
        (None, None) => Seq::empty(),
    }
}

/// The known parts of the media summary, in order.
pub open spec fn summary_parts(p: ProbeResult) -> Seq<Seq<char>> {
    let v = p.streams@[first_video(p.streams@)];
    let dims = if p.videoed() && v.width is Some && v.height is Some {
        one(dec(v.width->0 as nat) + "×"@ + dec(v.height->0 as nat))
    } else {
        Seq::empty()
    };
    let rate = if p.videoed() && v.fps is Some {
        one(rate_text(v.fps->0@) + " fps"@)
    } else {
        Seq::empty()
    };
    let codecs = codec_text(p.vcodec(), p.acodec());
    let named = if codecs.len() > 0 {
        one(codecs)
    } else {
        Seq::empty()
    };
    let length = match p.duration {
        Some(d) => one(clock((d.nanos / 1_000_000_000) as nat)),
        None => Seq::empty(),
    };
    let size = match p.size_bytes {
        Some(b) => one(size_text(b as nat)),
        None => Seq::empty(),
    };
    dims + rate + named + length + size
}

/// The media summary.
pub open spec fn summary(p: ProbeResult) -> Seq<char> {
    if summary_parts(p).len() == 0 {
        "no media info"@
    } else {
        joined(summary_parts(p), " · "@)
    }
}

impl ProbeResult {
    /// One line for the media panel, such as
    /// `320×240 · 30.00 fps · h264/aac · 0:02 · 32 KB`. What is unknown is left out.
    pub fn summary_line(&self) -> (r: String)
        ensures
            r@ == summary(*self),
    {
        let mut parts: Vec<String> = Vec::new();
        let ghost all = summary_parts(*self);
        if let Some(v) = self.video_stream() {
            if let (Some(w), Some(h)) = (v.width, v.height) {
                parts.push(join3(show(w as u128).as_str(), "×", show(h as u128).as_str()));
            }
            if let Some(fps) = v.fps {
                parts.push(join2(show_rate(&fps).as_str(), " fps"));
            }
        }
        let ghost a = texts(parts@);
        let codecs = match (self.video_codec(), self.audio_codec()) {
            (Some(v), Some(a)) => join3(v, "/", a),
            (Some(v), None) => copy_text(v),
            (None, Some(a)) => copy_text(a),
            (None, None) => String::new(),
        };
        if !codecs.as_str().is_empty() {
            parts.push(codecs);
        }
        let ghost b = texts(parts@);
        if let Some(d) = self.duration {
            parts.push(format_duration(d));
        }
        let ghost c = texts(parts@);
        if let Some(n) = self.size_bytes {
            parts.push(format_size(n));
        }
        assert(texts(parts@) =~= all);
        if parts.len() == 0 {
            return copy_text("no media info");
        }
        join_all(&parts, " · ")
    }
}

/// Whether the picture of a probed file has an odd width or height.
pub open spec fn odd_sized(probe: Option<ProbeResult>) -> bool {
    match probe {
        Some(p) => {
            let v = p.streams@[first_video(p.streams@)];
            p.videoed() && ((v.width matches Some(w) && w % 2 == 1) || (v.height matches Some(h)
                && h % 2 == 1))
        },
        None => false,
    }
}

// ---------------------------------------------------------------------------
// Laws
// ---------------------------------------------------------------------------

/// A file has video exactly when a stream of it is video, and its picture is
/// that of the first such stream: the codec is that stream's, and the picture
/// is odd-sized when a side of that stream is odd.
pub proof fn law_the_first_video_stream_counts(p: ProbeResult, i: int)
    requires
        0 <= i <= p.streams@.len(),
        forall|j: int|
            0 <= j < i ==> (#[trigger] p.streams@[j]).codec_type != Some(StreamType::Video),
        i < p.streams@.len() ==> p.streams@[i].codec_type == Some(StreamType::Video),
    ensures
        p.videoed() <==> i < p.streams@.len(),
        i < p.streams@.len() ==> first_video(p.streams@) == i && p.vcodec() == opt_text(
            p.streams@[i].codec_name,
        ),
        i == p.streams@.len() ==> p.vcodec() is None && !odd_sized(Some(p)),
        i < p.streams@.len() ==> (odd_sized(Some(p)) <==> (p.streams@[i].width matches Some(w) && w
            % 2 != 0) || (p.streams@[i].height matches Some(h) && h % 2 != 0)),
{
    assert forall|j: int| 0 <= j < i implies !is_video(#[trigger] p.streams@[j]) by {
        assert(p.streams@[j].codec_type != Some(StreamType::Video));
    }
    lemma_first_video(p.streams@, i);
}

/// The same holds of audio.
pub proof fn law_the_first_audio_stream_counts(p: ProbeResult, i: int)
    requires
        0 <= i <= p.streams@.len(),
        forall|j: int|
            0 <= j < i ==> (#[trigger] p.streams@[j]).codec_type != Some(StreamType::Audio),
        i < p.streams@.len() ==> p.streams@[i].codec_type == Some(StreamType::Audio),
    ensures
        p.sounded() <==> i < p.streams@.len(),
        p.acodec() == (if i < p.streams@.len() {
            opt_text(p.streams@[i].codec_name)
        } else {
            None
        }),
{
    assert forall|j: int| 0 <= j < i implies !is_audio(#[trigger] p.streams@[j]) by {
        assert(p.streams@[j].codec_type != Some(StreamType::Audio));
    }
    lemma_first_audio(p.streams@, i);
}

/// A probe keeps what was reported: every stream in its place, with its codec,
/// picture size and channels; numbers and lengths are those that the texts
/// denote; and lengths and sizes of the file are those of its format.
pub proof fn law_probes_keep_what_was_reported(p: ProbeResult, path: Seq<char>, raw: RawProbe, i: int)
    requires
        p.of_document(path, raw),
        0 <= i < raw.streams@.len(),
    ensures
        p.path@ == path,
        p.streams@.len() == raw.streams@.len(),
        ({
            let s = p.streams@[i];
            let r = raw.streams@[i];
            &&& r.index matches Some(n) ==> s.index == n
            &&& s.width == r.width && s.height == r.height && s.channels == r.channels
            &&& opt_text(s.codec_name) == opt_text(r.codec_name)
            &&& opt_text(s.pix_fmt) == opt_text(r.pix_fmt)
            &&& s.codec_type == Some(StreamType::Video) <==> (r.codec_type matches Some(t) && t@
                == "video"@)
            &&& s.codec_type == Some(StreamType::Audio) <==> (r.codec_type matches Some(t) && t@
                == "audio"@)
            &&& s.codec_type == Some(StreamType::Subtitle) <==> (r.codec_type matches Some(t) && t@
                == "subtitle"@)
            &&& r.duration matches Some(t) ==> match seconds(t@) {
                Some(n) => s.duration matches Some(d) && d.nanos == n,
                None => s.duration is None,
            }
            &&& r.duration is None ==> s.duration is None
            &&& r.sample_rate matches Some(t) ==> match read_nat(t@, u32::MAX as nat) {
                Some(n) => s.sample_rate matches Some(v) && v == n,
                None => s.sample_rate is None,
            }
            &&& r.bit_rate matches Some(t) ==> match read_nat(t@, u64::MAX as nat) {
                Some(n) => s.bit_rate_bps matches Some(v) && v == n,
                None => s.bit_rate_bps is None,
            }
        }),
        raw.format matches Some(f) ==> {
            &&& f.duration matches Some(t) ==> match seconds(t@) {
                Some(n) => p.duration matches Some(d) && d.nanos == n,
                None => p.duration is None,
            }
            &&& f.size matches Some(t) ==> match read_nat(t@, u64::MAX as nat) {
                Some(n) => p.size_bytes matches Some(v) && v == n,
                None => p.size_bytes is None,
            }
            &&& f.bit_rate matches Some(t) ==> match read_nat(t@, u64::MAX as nat) {
                Some(n) => p.bit_rate_bps matches Some(v) && v == n,
                None => p.bit_rate_bps is None,
            }
            &&& opt_text(p.format_name) == opt_text(f.format_name)
        },
        raw.format is None ==> p.duration is None && p.size_bytes is None,
{
    assert(reads_as(raw.streams@[i], p.streams@[i]));
}

/// The frame rate of a stream is the mean one where that is known and above
/// zero, and the nominal one otherwise.
pub proof fn law_the_mean_rate_comes_first(raw: RawStream, s: StreamInfo)
    requires
        reads_as(raw, s),
    ensures
        (raw.avg_frame_rate matches Some(t) && (rational(t@) matches Some(f) && !f.below && f.num
            > 0)) ==> (s.fps matches Some(r) && Some(r@) == rational(raw.avg_frame_rate->0@)),
        raw.avg_frame_rate is None ==> (s.fps matches Some(r) ==> raw.r_frame_rate is Some && Some(
            r@,
        ) == rational(raw.r_frame_rate->0@)),
        s.fps matches Some(r) ==> !r@.below && r@.num > 0,
{
}

/// A frame rate reads as the fraction it is written as.
pub proof fn law_rates_read_as_written(a: nat, b: nat)
    requires
        a < 1_000_000_000,
        0 < b < 1_000_000_000,
    ensures
        rational(dec(a) + seq!['/'] + dec(b)) matches Some(f) && !f.below && f.num * b == f.den * a,
        rational(dec(a) + seq!['/'] + dec(0)) is None,
{
    lemma_rate_text(a, b);
    lemma_rate_text(a, 0);
    reveal_with_fuel(pow10, 12);
    assert(pow10(11) == 100_000_000_000);
    lemma_side(a);
    lemma_side(b);
    assert((a * 100_000_000_000) * b == (b * 100_000_000_000) * a) by (nonlinear_arith);
}

spec fn plain(n: nat) -> Decimal {
    Decimal { neg: false, digits: dec(n), point: dec(n).len() as int }
}

proof fn lemma_side(n: nat)
    requires
        n < 1_000_000_000,
    ensures
        side(plain(n)) == n * pow10(11),
        is_nil(plain(n)) == (n == 0),
        !below_zero(plain(n)),
        pow10(11) == 100_000_000_000,
{
    reveal_with_fuel(pow10, 12);
    law_numbers_read_back(n);
    law_fine_units_are_exact(plain(n), 11);
    assert(pow10(11) == 100_000_000_000);
    assert(rounded(plain(n), 11) == n * pow10(11));
    assert(n * pow10(11) == n * 100_000_000_000);
    assert(n == 0 ==> n * pow10(11) == 0);
}

proof fn lemma_rate_text(a: nat, b: nat)
    requires
        a < 1_000_000_000,
        b < 1_000_000_000,
    ensures
        ({
            let s = dec(a) + seq!['/'] + dec(b);
            rational(s) == (if b == 0 {
                None
            } else {
                Some(Fraction { below: false, num: side(plain(a)), den: side(plain(b)) })
            })
        }),
{
    let s = dec(a) + seq!['/'] + dec(b);
    law_numbers_read_back(a);
    law_numbers_read_back(b);
    let n = dec(a).len() as int;
    let m = dec(b).len() as int;
    assert(is_digit(dec(a)[0]) && is_digit(dec(a)[n - 1]));
    assert(is_digit(dec(b)[0]) && is_digit(dec(b)[m - 1]));
    assert(s[0] == dec(a)[0] && s.last() == dec(b)[m - 1]);
    lemma_digits_stay(s);
    lemma_digits_stay(dec(a));
    lemma_digits_stay(dec(b));
    assert forall|j: int| 0 <= j < n implies s[j] != '/' by {
        assert(s[j] == dec(a)[j]);
        assert(is_digit(dec(a)[j]));
    }
    assert(s[n] == '/');
    lemma_find(s, '/', n);
    assert(s.take(n) =~= dec(a));
    assert(s.skip(n + 1) =~= dec(b));
    let none = Seq::<char>::empty();
    assert(none + dec(a) =~= dec(a) && none + dec(b) =~= dec(b));
    law_decimals_read_as_written(false, dec(a), none);
    law_decimals_read_as_written(false, dec(b), none);
    lemma_side(a);
    lemma_side(b);
}

proof fn lemma_digits_stay(s: Seq<char>)
    requires
        s.len() > 0,
        is_digit(s[0]),
        is_digit(s.last()),
    ensures
        trimmed(s) == s,
        !is_na(s),
{
    reveal_strlit("n/a");
    if is_na(s) {
        assert(lowered(s)[0] == 'n');
        assert(lower(s[0]) == 'n');
    }
}

/// A tag is the first with its key.
pub proof fn law_the_first_tag_counts(tags: Seq<(String, String)>, i: int)
    requires
        0 <= i < tags.len(),
        forall|j: int| 0 <= j < i ==> (#[trigger] tags[j]).0@ != tags[i].0@,
    ensures
        tag(tags, tags[i].0@) == Some(tags[i].1@),
    decreases i,
{
    if i > 0 {
        assert(tags[0].0@ != tags[i].0@);
        let w = tags.skip(1);
        assert forall|j: int| 0 <= j < i - 1 implies (#[trigger] w[j]).0@ != w[i - 1].0@ by {
            assert(w[j] == tags[j + 1]);
        }
        law_the_first_tag_counts(w, i - 1);
    }
}

/// A size is shown in the largest unit of which it holds at least one, to the
/// nearest whole number of them.
pub proof fn law_sizes_are_shown_to_the_nearest_unit(bytes: nat)
    requires
        bytes < 0x20_0000_0000_0000,
    ensures
        bytes < 1024 ==> size_text(bytes) == dec(bytes) + " B"@,
        1024 <= bytes < 1024 * 1024 ==> exists|n: nat|
            size_text(bytes) == #[trigger] dec(n) + " KB"@ && -512 <= n * 1024 - bytes <= 512,
        1024 * 1024 <= bytes < 1024 * 1024 * 1024 ==> exists|n: nat|
            size_text(bytes) == #[trigger] dec(n) + " MB"@ && -524288 <= n * 1048576 - bytes
                <= 524288,
        1024 * 1024 * 1024 <= bytes < 1024 * 1024 * 1024 * 1024 ==> exists|n: nat|
            size_text(bytes) == #[trigger] dec(n) + " GB"@ && -536870912 <= n * 1073741824 - bytes
                <= 536870912,
        bytes >= 1024 * 1024 * 1024 * 1024 ==> exists|n: nat|
            size_text(bytes) == #[trigger] dec(n) + " TB"@ && -549755813888 <= n * 1099511627776
                - bytes <= 549755813888,
{
    law_nearest_is_nearest(bytes, 1);
    assert(nearest(bytes, 1) == bytes);
    assert(significant(bytes, 1) == bytes);
    law_nearest_is_nearest(bytes, 1024);
    law_nearest_is_nearest(bytes, 1048576);
    law_nearest_is_nearest(bytes, 1073741824);
    law_nearest_is_nearest(bytes, 1099511627776);
    assert(size_text(bytes) == size_text(bytes));
    if bytes < 1024 {
    } else if bytes < 1024 * 1024 {
        assert(size_text(bytes) == dec(nearest(bytes, 1024)) + " KB"@);
    } else if bytes < 1024 * 1024 * 1024 {
        assert(size_text(bytes) == dec(nearest(bytes, 1048576)) + " MB"@);
    } else if bytes < 1024 * 1024 * 1024 * 1024 {
        assert(size_text(bytes) == dec(nearest(bytes, 1073741824)) + " GB"@);
    } else {
        assert(size_text(bytes) == dec(nearest(bytes, 1099511627776)) + " TB"@);
    }
}

/// The summary tells what is known: the size of the picture, width first, the
/// codecs, the length and the size of the file.
pub proof fn law_summaries_tell_what_is_known(p: ProbeResult)
    ensures
        p.videoed() ==> {
            let v = p.streams@[first_video(p.streams@)];
            &&& v.width matches Some(w) ==> (v.height matches Some(h) ==> has(
                summary(p),
                dec(w as nat) + "×"@ + dec(h as nat),
            ))
            &&& v.codec_name matches Some(c) ==> has(summary(p), c@)
        },
        p.sounded() ==> (p.streams@[first_audio(p.streams@)].codec_name matches Some(c) ==> has(
            summary(p),
            c@,
        )),
        p.duration matches Some(d) ==> has(summary(p), clock((d.nanos / 1_000_000_000) as nat)),
        p.size_bytes matches Some(b) ==> has(summary(p), size_text(b as nat)),
{
    let v = p.streams@[first_video(p.streams@)];
    let parts = summary_parts(p);
    let none = Seq::<Seq<char>>::empty();
    let dims = if p.videoed() && v.width is Some && v.height is Some {
        one(dec(v.width->0 as nat) + "×"@ + dec(v.height->0 as nat))
    } else {
        none
    };
    let rate = if p.videoed() && v.fps is Some {
        one(rate_text(v.fps->0@) + " fps"@)
    } else {
        none
    };
    let codecs = codec_text(p.vcodec(), p.acodec());
    let named = if codecs.len() > 0 {
        one(codecs)
    } else {
        none
    };
    let length = match p.duration {
        Some(d) => one(clock((d.nanos / 1_000_000_000) as nat)),
        None => none,
    };
    let size = match p.size_bytes {
        Some(b) => one(size_text(b as nat)),
        None => none,
    };
    assert(parts == dims + rate + named + length + size);
    let sep = " · "@;
    if dims.len() > 0 {
        assert(parts[0] == dims[0]);
        lemma_joined_holds(parts, sep, 0);
    }
    if length.len() > 0 {
        let k = (dims.len() + rate.len() + named.len()) as int;
        assert(parts[k] == length[0]);
        lemma_joined_holds(parts, sep, k);
    }
    if size.len() > 0 {
        let k = (dims.len() + rate.len() + named.len() + length.len()) as int;
        assert(parts[k] == size[0]);
        lemma_joined_holds(parts, sep, k);
    }
    if named.len() > 0 {
        let k = (dims.len() + rate.len()) as int;
        assert(parts[k] == codecs);
        lemma_joined_holds(parts, sep, k);
        lemma_codecs_told(p.vcodec(), p.acodec());
        lemma_held(summary(p), codecs, p.vcodec());
        lemma_held(summary(p), codecs, p.acodec());
    } else {
        lemma_codecs_told(p.vcodec(), p.acodec());
        lemma_empty_held(summary(p));
        if let Some(c) = p.vcodec() {
            assert(c =~= Seq::empty());
        }
        if let Some(c) = p.acodec() {
            assert(c =~= Seq::empty());
        }
    }
}

proof fn lemma_empty_held(s: Seq<char>)
    ensures
        has(s, Seq::empty()),
{
    assert(s.subrange(0, 0) =~= Seq::<char>::empty());
    assert(occurs_at(s, Seq::empty(), 0));
}

proof fn lemma_codecs_told(v: Option<Seq<char>>, a: Option<Seq<char>>)
    ensures
        v matches Some(c) ==> has(codec_text(v, a), c) && c.len() <= codec_text(v, a).len(),
        a matches Some(c) ==> has(codec_text(v, a), c) && c.len() <= codec_text(v, a).len(),
{
    let none = Seq::<char>::empty();
    if let Some(c) = v {
        lemma_has_itself(c);
        if let Some(b) = a {
            lemma_has_inside(none, c, "/"@ + b, c);
            assert(none + c + ("/"@ + b) =~= codec_text(v, a));
        }
    }
    if let Some(c) = a {
        lemma_has_itself(c);
        if let Some(b) = v {
            lemma_has_inside(b + "/"@, c, none, c);
            assert(b + "/"@ + c + none =~= codec_text(v, a));
        }
    }
}

proof fn lemma_held(s: Seq<char>, t: Seq<char>, c: Option<Seq<char>>)
    requires
        has(s, t),
        c is Some ==> has(t, c->0),
    ensures
        c is Some ==> has(s, c->0),
{
    if c is Some {
        let k = choose|k: int| occurs_at(s, t, k);
        lemma_has_inside(s.take(k), t, s.skip(k + t.len()), c->0);
        assert(s.take(k) + t + s.skip(k + t.len()) =~= s);
    }
}

/// A picture is odd-sized exactly when its width or its height is no whole
/// number of pairs.
pub proof fn law_even_sizes_are_whole_pairs(p: ProbeResult, w: u32, h: u32)
    requires
        p.videoed(),
        p.streams@[first_video(p.streams@)].width == Some(w),
        p.streams@[first_video(p.streams@)].height == Some(h),
    ensures
        odd_sized(Some(p)) <==> !(w == 2 * (w as int / 2) && h == 2 * (h as int / 2)),
        !odd_sized(None),
{
}

/// The rotation that comes with the stream's data counts before its tag.
pub proof fn law_side_data_counts_before_tags(raw: RawStream, v: Seq<Option<i64>>, k: int)
    requires
        raw.side_data_list matches Some(list) && list@ == v,
        0 <= k < v.len(),
        v[k] is Some,
        forall|j: int| 0 <= j < k ==> (#[trigger] v[j]) is None,
    ensures
        rotation(raw) == Some(v[k]->0 as int),
{
    lemma_first_rotation(v, k);
}

proof fn lemma_first_rotation(v: Seq<Option<i64>>, k: int)
    requires
        0 <= k < v.len(),
        v[k] is Some,
        forall|j: int| 0 <= j < k ==> (#[trigger] v[j]) is None,
    ensures
        first_rotation(v) == v[k],
    decreases k,
{
    if k > 0 {
        assert(v[0] is None);
        let w = v.skip(1);
        assert forall|j: int| 0 <= j < k - 1 implies (#[trigger] w[j]) is None by {
            assert(w[j] == v[j + 1]);
        }
        lemma_first_rotation(w, k - 1);
    }
}

} // verus!
