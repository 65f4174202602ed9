//! Command building, capability lists and error patterns.

use ffkit::ffmpeg::builder::{
    default_output_name, display_command, push_globals, safe_path_arg, shell_quote, CommandSpec,
};
use ffkit::ffmpeg::capabilities::{
    parse_codec_list, parse_filter_list, parse_hwaccel_list, parse_version_line, FfmpegVersion,
    ANCIENT_MAJOR,
};
use ffkit::ffmpeg::errors::{diagnose, tail_lines};

#[test]
fn quoting_handles_hostile_filenames() {
    assert_eq!(shell_quote("simple.mp4"), "simple.mp4");
    assert_eq!(
        shell_quote("my holiday video.mp4"),
        "'my holiday video.mp4'"
    );
    assert_eq!(shell_quote("it's.mp4"), "'it'\\''s.mp4'");
    assert_eq!(shell_quote(""), "''");
    assert_eq!(shell_quote("café_日本語.mp4"), "'café_日本語.mp4'");
    // A leading dash is shell-safe but NOT flag-safe.
    assert_eq!(shell_quote("-rf.mp4"), "-rf.mp4");
}

#[test]
fn leading_dash_filenames_get_dot_slash() {
    assert_eq!(safe_path_arg("-rf.mp4"), "./-rf.mp4");
    assert_eq!(safe_path_arg("clip.mp4"), "clip.mp4");
    assert_eq!(safe_path_arg("sub/-rf.mp4"), "sub/-rf.mp4");
    assert_eq!(safe_path_arg("/abs/-rf.mp4"), "/abs/-rf.mp4");
}

#[test]
fn output_naming_uses_stem_suffix_ext_template() {
    assert_eq!(
        default_output_name("/v/holiday.mp4", "compressed", "mp4"),
        "/v/holiday_compressed.mp4"
    );
    assert_eq!(
        default_output_name("clip.mkv", "trimmed", "mp4"),
        "clip_trimmed.mp4"
    );
}

#[test]
fn display_wraps_with_continuations() {
    let display = display_command(
        "ffmpeg",
        &[
            "-hide_banner".into(),
            "-y".into(),
            "-i".into(),
            "my video.mp4".into(),
        ],
    );
    assert!(display.starts_with("ffmpeg -hide_banner -y -i 'my video.mp4'"));
    let long: Vec<String> = (0..30).map(|i| format!("-opt{i}")).collect();
    let wrapped = display_command("ffmpeg", &long);
    assert!(wrapped.contains(" \\\n  "), "long commands must wrap");
    // Every continuation line is indented.
    for line in wrapped.lines().skip(1) {
        assert!(line.starts_with("  "), "line not indented: {line}");
    }
}

#[test]
fn argv_never_splits_strings() {
    let mut spec = CommandSpec::new("ffmpeg");
    push_globals(&mut spec, true);
    spec.arg("-i");
    spec.arg("my video.mp4");
    let argv = spec.to_argv();
    assert_eq!(
        argv,
        vec![
            "ffmpeg",
            "-hide_banner",
            "-y",
            "-progress",
            "pipe:1",
            "-nostats",
            "-i",
            "my video.mp4"
        ]
    );
}

#[test]
fn parses_release_and_distro_version_lines() {
    assert_eq!(
        parse_version_line("ffmpeg version 8.0.1-3ubuntu2 Copyright (c) 2000-2025"),
        Some(FfmpegVersion {
            major: 8,
            minor: 0,
            patch: 1
        })
    );
    assert_eq!(
        parse_version_line("ffmpeg version 6.1.2 Copyright (c) 2000-2024"),
        Some(FfmpegVersion {
            major: 6,
            minor: 1,
            patch: 2
        })
    );
}

#[test]
fn dev_builds_yield_none_not_garbage() {
    assert_eq!(
        parse_version_line("ffmpeg version N-118345-gabcdef Copyright"),
        None
    );
    assert_eq!(parse_version_line("not ffmpeg output"), None);
    assert_eq!(parse_version_line(""), None);
}

#[test]
fn codec_list_skips_legend_and_separator() {
    let output = "Encoders:\n V..... = Video\n ------\n V....D libx264            libx264 H.264 / AVC\n A....D aac                 AAC (Advanced Audio Coding)\n";
    let got = parse_codec_list(output);
    assert!(got.contains("libx264") && got.contains("aac"));
    assert_eq!(got.len(), 2);
}

#[test]
fn filter_list_skips_legend() {
    let output = "Filters:\n  T.. = Timeline support\n  ------\n .. acompressor        A->A       Audio compressor.\n T. scale              V->V       Scale the input video size.\n";
    let got = parse_filter_list(output);
    assert!(got.contains("acompressor") && got.contains("scale"));
    assert_eq!(got.len(), 2);
}

#[test]
fn hwaccel_list_parses_and_tolerates_unknown_shapes() {
    let output = "Hardware acceleration methods:\nvdpau\ncuda\nvaapi\n";
    assert_eq!(parse_hwaccel_list(output), vec!["vdpau", "cuda", "vaapi"]);
    assert!(parse_hwaccel_list("garbage\n").is_empty());
}

#[test]
fn ancient_threshold_flags_ffmpeg_5() {
    let v = FfmpegVersion {
        major: 5,
        minor: 1,
        patch: 0,
    };
    assert!(v.major < ANCIENT_MAJOR);
    let v = FfmpegVersion {
        major: 8,
        minor: 0,
        patch: 1,
    };
    assert!(v.major >= ANCIENT_MAJOR);
}

#[test]
fn unknown_encoder_names_the_encoder() {
    let diagnosis = diagnose("  Unknown encoder 'libx265'\n").expect("must match");
    assert_eq!(diagnosis.title, "Encoder not available");
    assert!(diagnosis.detail.contains("libx265"), "{}", diagnosis.detail);
    assert!(diagnosis.suggestion.is_some());
}

#[test]
fn missing_input_names_the_path() {
    let diagnosis = diagnose("/v/clip.mp4: No such file or directory\n").expect("must match");
    assert_eq!(diagnosis.title, "File not found");
}

#[test]
fn permission_denied_points_at_permissions() {
    let diagnosis = diagnose("'/out/x.mp4': Permission denied\n").expect("must match");
    assert_eq!(diagnosis.title, "Permission denied");
    assert!(
        diagnosis.detail.contains("/out/x.mp4"),
        "{}",
        diagnosis.detail
    );
}

#[test]
fn corrupt_input_is_plain_language() {
    let diagnosis = diagnose("Invalid data found when processing input\n").expect("must match");
    assert_eq!(diagnosis.title, "Unreadable input");
}

#[test]
fn empty_output_names_the_filter_cause() {
    let diagnosis =
        diagnose("Output file #0 does not contain any stream\n").expect("must match");
    assert_eq!(diagnosis.title, "No streams left to write");
}

#[test]
fn odd_dimensions_suggest_the_fix() {
    let diagnosis =
        diagnose("[libx264] height not divisible by 2 (1299x719)\n").expect("must match");
    assert_eq!(diagnosis.title, "Odd video dimensions");
    assert!(diagnosis
        .suggestion
        .unwrap_or_default()
        .contains("scale=1280:-2"));
}

#[test]
fn generic_failure_still_matches() {
    let diagnosis = diagnose("Conversion failed!\n").expect("must match");
    assert_eq!(diagnosis.title, "Conversion failed");
}

#[test]
fn unknown_stderr_matches_nothing() {
    assert_eq!(diagnose("some exotic internal error\n"), None);
}

#[test]
fn tail_keeps_the_last_n_lines() {
    let lines: Vec<String> = (0..30).map(|i| format!("line {i}")).collect();
    let tail = tail_lines(&lines, 20);
    assert_eq!(tail.len(), 20);
    assert_eq!(tail[0], "line 10");
}
