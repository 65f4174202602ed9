use std::collections::VecDeque;

use ffkit::app::batch::split_suffix;
use ffkit::config::settings::{default_batch_template, Settings};
use ffkit::ffmpeg::builder::{default_output_name, ConcatListFile};
use ffkit::ffmpeg::capabilities::{
    detect, parse_codec_list, resolve_ffmpeg, resolve_ffprobe, sibling_ffprobe, stale_config_warning, Answers,
};
use ffkit::ffmpeg::probe::{format_duration, format_size};
use ffkit::ffmpeg::runner::{concat_list_text, JobResult};
use ffkit::ops::fields::FieldContext;
use ffkit::ops::{operation_for, Operation};
use ffkit::path::{
    get_extension, get_file_name, get_file_stem, get_parent, join_path, path_beside,
};
use ffkit::queue::job::expand_template;
use ffkit::time::{format_timestamp, Duration};
use ffkit::ui::layout::{centered_rect, Rect};
use ffkit::ui::line::Tone;
use ffkit::ui::screens::file_browser::{
    filter_entries, is_media_file, row_label, row_tone, DirEntry,
};
use ffkit::ui::screens::help::{bindings, popup_size};
use ffkit::ui::screens::trim::{TrimState, TrimZone};
use ffkit::ui::screens::trim_view::{focused_explanation, TRACK_HELP};
use ffkit::ui::widgets::log_pane::{log_lines, log_title, push_log, LOG_DISPLAY_CAP};

fn secs(n: u64) -> Duration {
    Duration::from_secs(n)
}

#[test]
fn sizes_are_written_in_the_largest_unit_that_fits() {
    assert_eq!(format_size(0), "0 B");
    assert_eq!(format_size(1023), "1023 B");
    assert_eq!(format_size(1024), "1 KB");
    assert_eq!(format_size(32_710), "32 KB");
    assert_eq!(format_size(248 * 1024 * 1024), "248 MB");
    assert_eq!(format_size(3 * 1024 * 1024 * 1024), "3 GB");
    assert_eq!(format_size(2 * 1024 * 1024 * 1024 * 1024), "2 TB");
    assert_eq!(format_size(u64::MAX), "16777216 TB");
}

#[test]
fn lengths_of_time_are_written_as_clocks() {
    assert_eq!(format_duration(secs(2)), "0:02");
    assert_eq!(format_duration(secs(252)), "4:12");
    assert_eq!(format_duration(secs(3723)), "1:02:03");
    assert_eq!(format_duration(Duration { nanos: 2_999_999_999 }), "0:02");
}

#[test]
fn a_popup_stands_in_the_middle() {
    for (w, h) in [(80u16, 24u16), (81, 25), (200, 60), (300, 90), (1000, 333), (65535, 65535)] {
        for (pw, ph) in [(0u16, 0u16), (1, 1), (56, 5), (57, 26), (64, 26), (80, 24), (400, 400)] {
            let area = Rect { x: 0, y: 0, width: w, height: h };
            let inner = centered_rect(pw, ph, area);
            assert_eq!(inner.x, w.saturating_sub(pw) / 2);
            assert_eq!(inner.y, h.saturating_sub(ph) / 2);
            assert_eq!(inner.width, pw.min(w));
            assert_eq!(inner.height, ph.min(h));
        }
    }
    let area = Rect { x: 7, y: 3, width: 20, height: 9 };
    let inner = centered_rect(5, 4, area);
    assert_eq!((inner.x, inner.y, inner.width, inner.height), (14, 5, 5, 4));
}

#[test]
fn a_configured_ffmpeg_comes_first() {
    let mut settings = Settings::default();
    let found = || Some("/usr/bin/ffmpeg".to_string());
    assert_eq!(resolve_ffmpeg(&settings, false, found()), found());
    assert_eq!(resolve_ffmpeg(&settings, false, None), None);

    settings.general.ffmpeg_path = Some("/opt/ffmpeg".to_string());
    assert_eq!(resolve_ffmpeg(&settings, true, found()), Some("/opt/ffmpeg".to_string()));
    assert_eq!(resolve_ffmpeg(&settings, false, found()), found());
    assert_eq!(stale_config_warning(&settings, "/opt/ffmpeg"), None);
    assert_eq!(
        stale_config_warning(&settings, "/usr/bin/ffmpeg"),
        Some(
            "Configured ffmpeg path /opt/ffmpeg does not exist; using /usr/bin/ffmpeg instead."
                .to_string()
        )
    );

    // The same path, written otherwise.
    for path in ["/usr//bin/ffmpeg", "/usr/bin/ffmpeg/", "/usr/./bin/ffmpeg"] {
        settings.general.ffmpeg_path = Some(path.to_string());
        assert_eq!(stale_config_warning(&settings, "/usr/bin/ffmpeg"), None);
    }
    for path in ["usr/bin/ffmpeg", "/usr/bin", "/usr/bin/../bin/ffmpeg"] {
        settings.general.ffmpeg_path = Some(path.to_string());
        assert!(stale_config_warning(&settings, "/usr/bin/ffmpeg").is_some());
    }

    settings.general.ffmpeg_path = Some(String::new());
    assert_eq!(resolve_ffmpeg(&settings, true, found()), found());
    assert_eq!(stale_config_warning(&settings, "/usr/bin/ffmpeg"), None);
}

#[test]
fn ffprobe_is_looked_for_beside_ffmpeg() {
    let mut settings = Settings::default();
    let on_path = || Some("/usr/bin/ffprobe".to_string());
    let ffmpeg = Some("/opt/bin/ffmpeg");
    assert_eq!(sibling_ffprobe("/opt/bin/ffmpeg"), Some("/opt/bin/ffprobe".to_string()));
    assert_eq!(
        resolve_ffprobe(&settings, ffmpeg, false, true, on_path()),
        Some("/opt/bin/ffprobe".to_string())
    );
    assert_eq!(resolve_ffprobe(&settings, ffmpeg, false, false, on_path()), on_path());
    assert_eq!(resolve_ffprobe(&settings, None, false, false, None), None);
    settings.general.ffprobe_path = Some("/my/ffprobe".to_string());
    assert_eq!(
        resolve_ffprobe(&settings, ffmpeg, true, true, on_path()),
        Some("/my/ffprobe".to_string())
    );
}

#[test]
fn a_report_holds_what_ffmpeg_answered() {
    let answers = Answers {
        version: Some("ffmpeg version 7.1.2 Copyright (c) 2000-2025\nbuilt with gcc".to_string()),
        encoders: Some(
            "Encoders:\n V..... = Video\n ------\n V....D libx264 H.264\n A....D aac AAC\n"
                .to_string(),
        ),
        decoders: None,
        filters: Some("Filters:\n  T. = Timeline\n TS scale V->V Scale\n".to_string()),
        hwaccels: Some("Hardware acceleration methods:\nvaapi\n".to_string()),
    };
    let report = detect(
        &Settings::default(),
        "/usr/bin/ffmpeg".to_string(),
        Some("/usr/bin/ffprobe".to_string()),
        &answers,
    );
    assert!(report.found);
    assert!(report.usable);
    assert_eq!(report.version_raw, "ffmpeg version 7.1.2 Copyright (c) 2000-2025");
    let version = report.version.expect("a version");
    assert_eq!((version.major, version.minor, version.patch), (7, 1, 2));
    assert!(report.has_encoder("libx264"));
    assert!(report.has_encoder("aac"));
    assert!(!report.has_encoder("libx265"));
    assert!(report.has_filter("scale"));
    assert!(!report.has_filter("crop"));
    assert!(report.has_hwaccel("vaapi"));
    assert!(!report.has_hwaccel("cuda"));
}

#[test]
fn the_tail_of_the_error_output_is_its_end() {
    let result = JobResult {
        success: false,
        cancelled: false,
        exit_code: Some(1),
        stderr: vec!["a".to_string(), "b".to_string(), "c".to_string()],
        wall_time: secs(1),
    };
    assert_eq!(result.stderr_tail(2), vec!["b".to_string(), "c".to_string()]);
    assert_eq!(result.stderr_tail(0), Vec::<String>::new());
    assert_eq!(result.stderr_tail(9).len(), 3);
}

#[test]
fn a_list_file_names_absolute_quoted_paths() {
    let list = ConcatListFile {
        path: "/tmp/list.txt".to_string(),
        inputs: vec!["/a/it's.mp4".to_string(), "b.mp4".to_string()],
    };
    assert_eq!(
        concat_list_text(&list, "/work"),
        "ffconcat version 1.0\nfile '/a/it'\\''s.mp4'\nfile '/work/b.mp4'\n"
    );
}

#[test]
fn paths_come_apart_and_together() {
    assert_eq!(get_file_name("/a/b.tar.gz"), Some("b.tar.gz".to_string()));
    assert_eq!(get_file_stem("/a/b.tar.gz"), Some("b.tar".to_string()));
    assert_eq!(get_extension("/a/b.tar.gz"), Some("gz".to_string()));
    assert_eq!(get_extension("/a/.hidden"), None);
    assert_eq!(get_parent("/a/b"), Some("/a".to_string()));
    assert_eq!(get_parent("b"), Some(String::new()));
    assert_eq!(get_parent("/"), None);
    assert_eq!(join_path("/a", "b"), "/a/b");
    assert_eq!(join_path("/a", "/b"), "/b");
    assert_eq!(path_beside("/a/b.mp4", "c.mp4"), "/a/c.mp4");
    assert_eq!(path_beside("b.mp4", "c.mp4"), "c.mp4");
}

#[test]
fn the_log_keeps_its_end() {
    let mut log: VecDeque<String> = VecDeque::new();
    for i in 0..LOG_DISPLAY_CAP + 2 {
        push_log(&mut log, format!("line {i}"));
    }
    assert_eq!(log.len(), LOG_DISPLAY_CAP);
    assert_eq!(log[0], "line 2");
    assert_eq!(log_title(log.len(), false), "Log — 300 lines (l expands)");
    assert_eq!(log_title(log.len(), true), "Log — 300 lines (l collapses, ↑↓ scrolls)");
    let shown = log_lines(&log, false, 0, 10);
    assert_eq!(shown.len(), 3);
    assert_eq!(shown[2][0].text, "line 301");
    assert_eq!(shown[2][0].tone, Tone::Muted);
    let shown = log_lines(&log, true, 5, 4);
    assert_eq!(shown.len(), 4);
    assert_eq!(shown[0][0].text, "line 293");
    assert_eq!(shown[3][0].text, "line 296");
    let empty: VecDeque<String> = VecDeque::new();
    assert_eq!(log_lines(&empty, true, 0, 4)[0][0].text, "No output yet.");
}

#[test]
fn rows_are_marked_and_muted() {
    let dir = DirEntry::new("/a/d".to_string(), "d".to_string(), true, None);
    let clip = DirEntry::new("/a/c.mp4".to_string(), "c.mp4".to_string(), false, Some(1));
    let note = DirEntry::new("/a/n.txt".to_string(), "n.txt".to_string(), false, Some(1));
    assert_eq!(row_label(&dir, false), "  d/");
    assert_eq!(row_label(&clip, true), "● c.mp4");
    assert_eq!(row_tone(&dir, false), Tone::Plain);
    assert_eq!(row_tone(&clip, false), Tone::Plain);
    assert_eq!(row_tone(&note, false), Tone::Muted);
    assert_eq!(row_tone(&note, true), Tone::Plain);
}

#[test]
fn the_help_has_room_for_every_binding() {
    assert_eq!(popup_size(), (56, bindings().len() as u16 + 5));
}

#[test]
fn the_timeline_explains_what_is_focused() {
    let op = operation_for("trim").expect("trim exists");
    let fields = op.fields(&FieldContext { probe: None, caps: None });
    let mut state = TrimState::new("in.mp4".to_string(), Some(secs(60)), None, fields);
    assert_eq!(focused_explanation(&state), Some(("Timeline", TRACK_HELP)));
    state.zone = TrimZone::Fields;
    state.field_focus = 0;
    let label = state.fields[0].label.clone();
    let text = state.fields[0].explanation.clone();
    assert_eq!(focused_explanation(&state), Some((label.as_str(), text.as_str())));
    state.field_focus = state.fields.len();
    assert_eq!(focused_explanation(&state), None);
}

#[test]
fn a_name_without_a_dot_is_no_media_file() {
    assert!(!is_media_file("mp4"));
    assert!(!is_media_file("MKV"));
    assert!(!is_media_file(""));
    assert!(is_media_file(".mp4"));
    assert!(is_media_file("a.b.mp4"));
    assert!(!is_media_file("mp4."));
    let entry = DirEntry::new("/v/mp4".to_string(), "mp4".to_string(), false, Some(1));
    assert!(!entry.is_media);
    assert_eq!(filter_entries(&[entry], false, "").len(), 0);
}

#[test]
fn instants_are_written_to_the_nearest_millisecond() {
    assert_eq!(format_timestamp(secs(3)), "3");
    assert_eq!(format_timestamp(Duration::from_millis(1500)), "1.500");
    // Of two equally near the even one.
    assert_eq!(format_timestamp(Duration { nanos: 62_500_000 }), "0.062");
    assert_eq!(format_timestamp(Duration { nanos: 187_500_000 }), "0.188");
    assert_eq!(format_timestamp(Duration { nanos: 62_500_001 }), "0.063");
    assert_eq!(format_timestamp(Duration { nanos: 999_999_999 }), "1.000");
}

#[test]
fn splitting_undoes_the_default_naming() {
    for input in ["/v/holiday.mp4", "clip.tar.gz", "/a.mov", "x/y/.hidden", "name"] {
        for (suffix, ext) in [("compressed", "mp4"), ("v1.2", "mkv"), ("a_b-c", "gif")] {
            let out = default_output_name(input, suffix, ext);
            assert_eq!(split_suffix(&out, input), (suffix.to_string(), ext.to_string()));
        }
    }
}

#[test]
fn the_default_template_gives_the_default_name() {
    let template = default_batch_template();
    for input in ["/v/holiday.mp4", "clip.tar.gz", "x/y/.hidden", "name", "../up.mp4"] {
        let named = expand_template(&template, input, 7, "small", "mp4", "2026-01-02");
        assert_eq!(named, default_output_name(input, "small", "mp4"));
    }
    assert_eq!(expand_template(&template, "/a.mov", 7, "s", "mp4", "2026-01-02"), "//a_s.mp4");
    assert_eq!(default_output_name("/a.mov", "s", "mp4"), "/a_s.mp4");
}

#[test]
fn lists_below_each_other_add_up() {
    let a = " V....D libx264 H.264\n A....D aac AAC\r";
    let b = " V....D libx265 H.265\n A....D aac AAC\n";
    let both = parse_codec_list(&format!("{a}\n{b}"));
    let turned = parse_codec_list(&format!("{b}\n{a}"));
    assert_eq!(both.len(), 3);
    assert_eq!(turned.len(), 3);
    for name in ["libx264", "libx265", "aac"] {
        assert!(both.contains(name));
        assert!(turned.contains(name));
        assert!(parse_codec_list(a).contains(name) || parse_codec_list(b).contains(name));
    }
}
