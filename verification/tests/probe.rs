//! Probing and progress.

use ffkit::ffmpeg::probe::{
    parse_ffprobe_secs, parse_rational, ProbeResult, Rate, RawFormat, RawProbe, RawStream,
    StreamType,
};
use ffkit::ffmpeg::progress::{eta_seconds, progress_ratio, ProgressParser, Ratio, SpeedSmoother};
use ffkit::time::Duration;

/// A real block shape.
const BLOCK: &str = "frame=1234\nfps=45.20\nstream_0_0_q=28.0\nbitrate=1234.5kbits/s\ntotal_size=5242880\nout_time_us=41234567\nout_time_ms=41234567\nout_time=00:00:41.234567\ndup_frames=0\ndrop_frames=3\nspeed=1.52x\nprogress=continue\n";

fn some(s: &str) -> Option<String> {
    Some(s.to_string())
}

fn no_stream() -> RawStream {
    RawStream {
        index: None,
        codec_name: None,
        codec_type: None,
        width: None,
        height: None,
        r_frame_rate: None,
        avg_frame_rate: None,
        sample_rate: None,
        channels: None,
        pix_fmt: None,
        bit_rate: None,
        duration: None,
        tags: None,
        side_data_list: None,
    }
}

fn one_stream(stream: RawStream) -> RawProbe {
    RawProbe { streams: vec![stream], format: None }
}

fn value(rate: Rate) -> f64 {
    let magnitude = rate.numerator() as f64 / rate.denominator() as f64;
    if rate.negative() {
        -magnitude
    } else {
        magnitude
    }
}

#[test]
fn parses_real_probe_fixture() {
    let raw = RawProbe {
        streams: vec![
            RawStream {
                index: Some(0),
                codec_name: some("h264"),
                codec_type: some("video"),
                width: Some(320),
                height: Some(240),
                r_frame_rate: some("30/1"),
                avg_frame_rate: some("30/1"),
                pix_fmt: some("yuv420p"),
                duration: some("2.000000"),
                ..no_stream()
            },
            RawStream {
                index: Some(1),
                codec_name: some("aac"),
                codec_type: some("audio"),
                r_frame_rate: some("0/0"),
                avg_frame_rate: some("0/0"),
                sample_rate: some("44100"),
                channels: Some(1),
                duration: some("2.000000"),
                ..no_stream()
            },
        ],
        format: Some(RawFormat {
            duration: some("2.000000"),
            size: some("32710"),
            bit_rate: some("130840"),
            format_name: some("mov,mp4,m4a,3gp,3g2,mj2"),
        }),
    };
    let result = ProbeResult::from_raw("/tmp/ffkit_sample.mp4".to_string(), &raw);
    assert_eq!(result.streams.len(), 2);
    assert!(result.has_video() && result.has_audio());
    assert_eq!(result.video_codec(), Some("h264"));
    assert_eq!(result.audio_codec(), Some("aac"));

    let video = result.video_stream().expect("video stream");
    assert_eq!((video.width, video.height), (Some(320), Some(240)));
    assert!((video.fps.map(value).unwrap_or(0.0) - 30.0).abs() < 0.01);

    assert_eq!(result.duration, Some(Duration::from_secs(2)));
    assert_eq!(result.size_bytes, Some(32710));

    let summary = result.summary_line();
    assert!(summary.contains("320×240"), "summary: {summary}");
    assert!(summary.contains("h264/aac"), "summary: {summary}");
}

#[test]
fn rational_parsing_handles_real_world_shapes() {
    assert!((parse_rational("30000/1001").map(value).unwrap_or(0.0) - 29.97).abs() < 0.01);
    assert_eq!(parse_rational("30/1").map(value), Some(30.0));
    assert_eq!(parse_rational("0/0"), None);
    assert_eq!(parse_rational("N/A"), None);
    assert_eq!(parse_rational("n/a"), None);
    assert_eq!(parse_rational(""), None);
    assert_eq!(parse_rational("25"), None);
    assert_eq!(parse_rational("abc/def"), None);
    assert_eq!(parse_rational("1/0"), None);
}

#[test]
fn duration_parsing_rejects_garbage() {
    assert_eq!(
        parse_ffprobe_secs("248.123456"),
        Some(Duration::from_micros(248_123_456))
    );
    assert_eq!(parse_ffprobe_secs("N/A"), None);
    assert_eq!(parse_ffprobe_secs(""), None);
    assert_eq!(parse_ffprobe_secs("-3"), None);
    assert_eq!(parse_ffprobe_secs("inf"), None);
}

#[test]
fn an_empty_document_has_no_media_info() {
    let empty = ProbeResult::from_raw(
        "x.mp4".to_string(),
        &RawProbe { streams: Vec::new(), format: None },
    );
    assert!(!empty.has_video());
    assert_eq!(empty.summary_line(), "no media info");
}

#[test]
fn rotation_prefers_side_data_then_tag() {
    let with_side = one_stream(RawStream {
        codec_type: some("video"),
        side_data_list: Some(vec![Some(-90_000_000)]),
        tags: Some(vec![("rotate".to_string(), "180".to_string())]),
        ..no_stream()
    });
    let r = ProbeResult::from_raw("x".to_string(), &with_side);
    assert_eq!(r.streams[0].rotation, Some(-90_000_000));

    let with_tag = one_stream(RawStream {
        codec_type: some("video"),
        tags: Some(vec![("rotate".to_string(), "90".to_string())]),
        ..no_stream()
    });
    let r = ProbeResult::from_raw("x".to_string(), &with_tag);
    assert_eq!(r.streams[0].rotation, Some(90_000_000));
}

#[test]
fn parses_a_full_block() {
    let mut parser = ProgressParser::new();
    let updates = parser.feed_str(BLOCK);
    assert_eq!(updates.len(), 1);
    let update = &updates[0];
    assert_eq!(update.frame, Some(1234));
    assert_eq!(update.fps, Some(45_200_000));
    assert_eq!(update.bitrate_kbps, Some(1_234_500_000));
    assert_eq!(update.total_size_bytes, Some(5242880));
    assert_eq!(update.out_time, Some(Duration::from_micros(41234567)));
    assert_eq!(update.dup_frames, Some(0));
    assert_eq!(update.drop_frames, Some(3));
    assert_eq!(update.speed, Some(1_520_000));
    assert_eq!(update.stream_q, vec![((0, 0), 28_000_000)]);
    assert!(!update.finished);
}

#[test]
fn end_terminator_marks_finished() {
    let mut parser = ProgressParser::new();
    let updates = parser.feed_str("frame=10\nprogress=end\n");
    assert_eq!(updates.len(), 1);
    assert!(updates[0].finished);
}

#[test]
fn na_values_become_none_not_panics() {
    let mut parser = ProgressParser::new();
    let updates = parser.feed_str(
        "frame=N/A\nfps=N/A\nbitrate=N/A\ntotal_size=N/A\nout_time_us=N/A\nout_time=N/A\nspeed=N/A\nprogress=continue\n",
    );
    assert_eq!(updates.len(), 1);
    let update = &updates[0];
    assert_eq!(update.frame, None);
    assert_eq!(update.out_time, None);
    assert_eq!(update.speed, None);
    assert_eq!(update.bitrate_kbps, None);
}

#[test]
fn incomplete_blocks_emit_nothing() {
    let mut parser = ProgressParser::new();
    assert!(parser.feed_str("frame=10\nfps=5.0\n").is_empty());
    // The pending lines join the next block, not lost.
    let updates = parser.feed_str("speed=1.0x\nprogress=continue\n");
    assert_eq!(updates.len(), 1);
    assert_eq!(updates[0].frame, Some(10));
}

#[test]
fn malformed_lines_are_ignored() {
    let mut parser = ProgressParser::new();
    let updates = parser.feed_str("garbage without equals\nframe=7\nprogress=continue\n");
    assert_eq!(updates.len(), 1);
    assert_eq!(updates[0].frame, Some(7));
}

#[test]
fn out_time_string_is_a_fallback_for_missing_us() {
    let mut parser = ProgressParser::new();
    let updates = parser.feed_str("out_time=00:01:02.500000\nprogress=continue\n");
    assert_eq!(updates.len(), 1);
    assert_eq!(updates[0].out_time, Some(Duration::from_millis(62500)));
}

#[test]
fn audio_only_blocks_have_no_frame_keys() {
    let mut parser = ProgressParser::new();
    let updates = parser.feed_str("bitrate=128.0kbits/s\nspeed=2.0x\nprogress=continue\n");
    assert_eq!(updates.len(), 1);
    assert_eq!(updates[0].frame, None);
    assert_eq!(updates[0].fps, None);
    assert_eq!(updates[0].speed, Some(2_000_000));
}

#[test]
fn ratio_clamps_and_rejects_unknown_totals() {
    assert_eq!(
        progress_ratio(Duration::from_secs(41), Duration::from_secs(82)),
        Some(Ratio { num: 41_000_000_000, den: 82_000_000_000 })
    );
    assert_eq!(
        progress_ratio(Duration::from_secs(100), Duration::from_secs(82)),
        Some(Ratio { num: 82_000_000_000, den: 82_000_000_000 })
    );
    assert_eq!(progress_ratio(Duration::from_secs(1), Duration::zero()), None);
}

#[test]
fn eta_needs_positive_speed_and_remaining_work() {
    assert_eq!(
        eta_seconds(Duration::from_secs(40), Duration::from_secs(80), 2_000_000),
        Some(Duration::from_secs(20))
    );
    assert_eq!(
        eta_seconds(Duration::from_secs(80), Duration::from_secs(80), 2_000_000),
        None
    );
    assert_eq!(
        eta_seconds(Duration::from_secs(40), Duration::from_secs(80), 0),
        None
    );
}

#[test]
fn smoother_ignores_garbage_and_averages_the_window() {
    let mut smoother = SpeedSmoother::new(3);
    assert_eq!(smoother.smoothed(), None);
    smoother.push(None);
    smoother.push(Some(0));
    smoother.push(Some(1_000_000));
    smoother.push(Some(3_000_000));
    assert_eq!(smoother.smoothed(), Some(2_000_000));
    smoother.push(Some(5_000_000));
    assert_eq!(smoother.smoothed(), Some(3_000_000));
}

#[test]
fn fractions_keep_their_sides() {
    assert_eq!(parse_rational("-1/4").map(value), Some(-0.25));
    assert_eq!(parse_rational("1/-4").map(value), Some(-0.25));
    assert_eq!(parse_rational("-1/-4").map(value), Some(0.25));
    assert_eq!(parse_rational(" 97 / 8 ").map(value), Some(12.125));
    assert_eq!(parse_rational("0/1").map(value), Some(0.0));
    // Only a divisor of zero is refused.
    assert!(parse_rational("1/0.0000000000001").is_some());
    assert_eq!(parse_rational("1/0.000").map(value), None);
}

#[test]
fn rates_are_shown_with_two_decimals() {
    let shown = |rate: &str| {
        let raw = one_stream(RawStream {
            codec_type: some("video"),
            avg_frame_rate: some(rate),
            ..no_stream()
        });
        ProbeResult::from_raw("v.mp4".to_string(), &raw).summary_line()
    };
    assert_eq!(shown("30000/1001"), "29.97 fps");
    // Of two equally near the even one.
    assert_eq!(shown("97/8"), "12.12 fps");
    assert_eq!(shown("99/8"), "12.38 fps");
    assert_eq!(shown("97000001/8000000"), "12.13 fps");
}

#[test]
fn seconds_are_read_to_the_nearest_nanosecond() {
    assert_eq!(parse_ffprobe_secs("0.0000000019"), Some(Duration { nanos: 2 }));
    assert_eq!(parse_ffprobe_secs("0.0000000014"), Some(Duration { nanos: 1 }));
    // 976562.5 ns lies between two; the even one is taken.
    assert_eq!(parse_ffprobe_secs("0.0009765625"), Some(Duration { nanos: 976_562 }));
    assert_eq!(parse_ffprobe_secs("0.00097656250001"), Some(Duration { nanos: 976_563 }));
    assert_eq!(parse_ffprobe_secs("1e-9"), Some(Duration { nanos: 1 }));
    assert_eq!(parse_ffprobe_secs("0"), Some(Duration { nanos: 0 }));
}

#[test]
fn a_stream_has_one_quality() {
    let mut parser = ProgressParser::new();
    let updates = parser.feed_str(
        "stream_0_0_q=28.0\nstream_0_1_q=20.0\nstream_00_0_q=29.5\nprogress=continue\n",
    );
    assert_eq!(updates[0].stream_q, vec![((0, 0), 29_500_000), ((0, 1), 20_000_000)]);
}

#[test]
fn kinds_of_streams_are_told_apart() {
    let kind = |word: &str| {
        let raw = one_stream(RawStream { codec_type: some(word), ..no_stream() });
        let result = ProbeResult::from_raw("v.mkv".to_string(), &raw);
        result.streams[0].codec_type.clone()
    };
    assert_eq!(kind("video"), Some(StreamType::Video));
    assert_eq!(kind("audio"), Some(StreamType::Audio));
    assert_eq!(kind("subtitle"), Some(StreamType::Subtitle));
    assert_eq!(kind("attachment"), Some(StreamType::Attachment));
    assert_eq!(kind("data"), Some(StreamType::Data));
    assert_eq!(kind("hologram"), Some(StreamType::Other("hologram".to_string())));
}
