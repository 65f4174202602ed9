use ffkit::config::presets::{
    apply_preset, builtin_presets, preset_from_fields, ParamValue, Preset,
};
use ffkit::config::settings::Settings;
use ffkit::ffmpeg::builder::{windows_quote, CommandSpec};
use ffkit::ffmpeg::progress::Ratio;
use ffkit::ffmpeg::runner::{
    capped_lines, push_capped, JobResult, JobRun, RunEvent, RunNote, Stage, MAX_STDERR_LINES,
};
use ffkit::key::{KeyCode, KeyEvent};
use ffkit::ops::fields::{Field, FieldKind, FieldValue, SelectOption};
use ffkit::ops::find_by_id;
use ffkit::queue::job::{civil_from_days, expand_template, today, Job, JobStatus, NewJob};
use ffkit::queue::QueueState;
use ffkit::time::Duration;
use ffkit::ui::images::{
    base64_encode, blocks_for, blocks_of, detect_with, iterm2_payload, kitty_payload, ImageBackend,
    Pixels, THUMB_COLS, THUMB_ROWS,
};
use ffkit::ui::layout::{centered_rect, Rect};
use ffkit::ui::line::{Piece, Tone};
use ffkit::ui::screens::file_browser::{
    expand_tilde, filter_entries, is_media_file, sort_entries, window_start, BrowserAction,
    BrowserState, DirEntry,
};
use ffkit::ui::screens::form_view::{
    edit_cursor, field_lines, highlight, info_lines, panel_lines, preview_lines, styled_display,
};
use ffkit::ui::screens::parameter_form::{diff_token, FormAction, ParamForm, HIGHLIGHT};
use ffkit::ui::screens::placeholder::card;
use ffkit::ui::screens::startup::startup_text;
use ffkit::ui::theme::{Color, Style, Theme};
use ffkit::ui::widgets::progress_bar::determinate_line;

fn words(line: &[Piece]) -> String {
    line.iter().map(|p| p.text.as_str()).collect()
}

fn key(code: KeyCode) -> KeyEvent {
    KeyEvent::plain(code)
}

// ---------------------------------------------------------------------------
// Presets
// ---------------------------------------------------------------------------

fn params<const N: usize>(pairs: [(&str, ParamValue); N]) -> Vec<(String, ParamValue)> {
    pairs
        .into_iter()
        .map(|(id, value)| (id.to_string(), value))
        .collect()
}

fn text(value: &str) -> ParamValue {
    ParamValue::Text(value.to_string())
}

fn select_field() -> Field {
    Field {
        id: "video_codec",
        label: "Codec".to_string(),
        kind: FieldKind::Select {
            options: vec![
                SelectOption::available("libx264"),
                SelectOption::available("libx265"),
            ],
            selected: 0,
        },
        explanation: String::new(),
    }
}

fn preset(operation: &str, params: Vec<(String, ParamValue)>) -> Preset {
    Preset {
        name: "x".to_string(),
        operation: operation.to_string(),
        description: String::new(),
        params,
    }
}

#[test]
fn select_applies_by_value_and_ignores_unknowns() {
    let mut fields = vec![select_field()];
    apply_preset(
        &mut fields,
        &preset(
            "compress",
            params([("video_codec", text("libx265")), ("nope", text("1"))]),
        ),
    );
    assert_eq!(fields[0].value(), FieldValue::Text("libx265".to_string()));
    // Unknown value keeps the current selection.
    apply_preset(
        &mut fields,
        &preset("compress", params([("video_codec", text("av1"))])),
    );
    assert_eq!(fields[0].value(), FieldValue::Text("libx265".to_string()));
}

#[test]
fn slider_clamps_and_parses_strings() {
    let mut fields = vec![Field {
        id: "crf",
        label: "CRF".to_string(),
        kind: FieldKind::Slider {
            min: 0,
            max: 51,
            value: 23,
            step: 1,
            landmarks: Vec::new(),
            caption: None,
        },
        explanation: String::new(),
    }];
    apply_preset(
        &mut fields,
        &preset("compress", params([("crf", ParamValue::Int(999))])),
    );
    assert_eq!(fields[0].value(), FieldValue::Int(51));
    apply_preset(&mut fields, &preset("compress", params([("crf", text(" 20 "))])));
    assert_eq!(fields[0].value(), FieldValue::Int(20));
}

#[test]
fn toggle_reads_bools_and_ints() {
    let mut fields = vec![Field {
        id: "mode",
        label: "Mode".to_string(),
        kind: FieldKind::Toggle {
            options: ["A".to_string(), "B".to_string()],
            selected: 0,
        },
        explanation: String::new(),
    }];
    apply_preset(
        &mut fields,
        &preset("y", params([("mode", ParamValue::Bool(false))])),
    );
    assert_eq!(fields[0].value(), FieldValue::Toggle(1));
}

#[test]
fn round_trip_through_preset_from_fields() {
    let fields = vec![select_field()];
    let saved = preset_from_fields("Mine".to_string(), "compress".to_string(), &fields);
    assert_eq!(saved.get("video_codec"), Some(&text("libx264")));
    let mut fresh = vec![select_field()];
    apply_preset(&mut fresh, &saved);
    assert_eq!(fresh[0].value(), fields[0].value());
}

#[test]
fn builtin_presets_reference_real_operations() {
    for preset in builtin_presets() {
        assert!(
            find_by_id(&preset.operation).is_some(),
            "builtin {} references unknown op {}",
            preset.name,
            preset.operation
        );
        assert!(
            !preset.params.is_empty(),
            "builtin {} is empty",
            preset.name
        );
    }
}

#[test]
fn concurrency_clamps_to_sane_range() {
    let mut settings = Settings::default();
    assert_eq!(settings.effective_concurrency(), 1);
    settings.general.max_concurrent_jobs = 0;
    assert_eq!(settings.effective_concurrency(), 1);
    settings.general.max_concurrent_jobs = 64;
    assert_eq!(settings.effective_concurrency(), 8);
}

// ---------------------------------------------------------------------------
// Jobs
// ---------------------------------------------------------------------------

#[test]
fn stderr_buffer_stays_capped_and_keeps_the_tail() {
    let mut buffer = std::collections::VecDeque::new();
    for i in 0..MAX_STDERR_LINES + 500 {
        push_capped(&mut buffer, format!("line {i}"));
    }
    assert_eq!(buffer.len(), MAX_STDERR_LINES);
    assert_eq!(buffer.front().map(String::as_str), Some("line 500"));
    let expected_last = format!("line {}", MAX_STDERR_LINES + 499);
    assert_eq!(buffer.back(), Some(&expected_last));
}

#[test]
fn broken_bytes_of_a_pass_are_replaced() {
    assert_eq!(
        capped_lines(b"one\ntwo \xff\n"),
        vec!["one".to_string(), "two \u{fffd}".to_string()]
    );
}

#[test]
fn template_expands_all_variables() {
    let out = expand_template(
        "{parent}/{stem}_{suffix}.{ext}",
        "/v/holiday.mp4",
        3,
        "compressed",
        "mp4",
        "2026-01-02",
    );
    assert_eq!(out, "/v/holiday_compressed.mp4");
}

#[test]
fn template_supports_index_and_date() {
    let out = expand_template(
        "{stem}-{index}-{date}.{ext}",
        "clip.mkv",
        2,
        "x",
        "mp4",
        &today(1_767_312_000),
    );
    assert!(out.starts_with("clip-2-20"), "{out}");
    assert!(out.ends_with(".mp4"), "{out}");
    assert_eq!(out, "clip-2-2026-01-02.mp4");
}

#[test]
fn civil_dates_match_known_values() {
    assert_eq!(civil_from_days(0), "1970-01-01");
    assert_eq!(civil_from_days(20361), "2025-09-30");
    assert_eq!(civil_from_days(-1), "1969-12-31");
}

fn new_job(id: u64) -> Job {
    Job::pending(NewJob {
        id,
        op_id: "compress".to_string(),
        op_name: "Compress".to_string(),
        input: "in.mp4".to_string(),
        output: "out.mp4".to_string(),
        spec: CommandSpec::new("ffmpeg"),
        total_duration: None,
        input_size: None,
    })
}

#[test]
fn settle_keeps_a_short_failure_reason() {
    let mut job = new_job(1);
    job.settle(JobResult {
        success: false,
        cancelled: false,
        exit_code: Some(1),
        stderr: vec!["Error: something broke badly".to_string()],
        wall_time: Duration::zero(),
    });
    assert_eq!(
        job.status,
        JobStatus::Failed("Error: something broke badly".to_string())
    );
}

#[test]
fn slots_fill_in_order() {
    let mut queue = QueueState::new();
    let ids = [queue.take_id(), queue.take_id(), queue.take_id()];
    queue.enqueue(ids.iter().map(|id| new_job(*id)).collect());
    queue.running = true;
    let (started, summary) = queue.pump(2);
    assert_eq!(started, vec![1, 2]);
    assert_eq!(summary, None);
    assert_eq!(queue.active.len(), 2);
    assert_eq!(queue.pending_ids(), vec![3]);
    queue.cancel_pending();
    assert!(queue.pending_ids().is_empty());
    assert_eq!(queue.aggregate_line(), "1/3 settled");
}

#[test]
fn a_run_goes_through_its_stages() {
    let spec = CommandSpec::new("ffmpeg");
    let mut run = JobRun::new(&spec);
    assert_eq!(run.stage(), Stage::Starting);
    let note = run.advance(RunEvent::Started { pid: Some(9) });
    assert!(matches!(note, Some(RunNote::Started { pid: Some(9) })));
    assert_eq!(run.stage(), Stage::Listening);
    let note = run.advance(RunEvent::Log {
        line: "hello".to_string(),
    });
    assert!(matches!(note, Some(RunNote::Log { line }) if line == "hello"));
    run.advance(RunEvent::Output {
        line: "frame=3".to_string(),
    });
    let note = run.advance(RunEvent::Output {
        line: "progress=end".to_string(),
    });
    assert!(matches!(note, Some(RunNote::Progress { update }) if update.frame == Some(3)));
}

#[test]
fn a_missing_program_ends_the_run() {
    let mut run = JobRun::new(&CommandSpec::new("ffmpeg"));
    run.advance(RunEvent::StartFailed {
        missing: true,
        error: "gone".to_string(),
    });
    assert_eq!(run.stage(), Stage::Done);
    let result = run.into_result(Duration::from_secs(2));
    assert!(!result.success);
    assert_eq!(result.wall_time, Duration::from_secs(2));
}

#[test]
fn windows_arguments_are_quoted() {
    assert_eq!(windows_quote(""), "\"\"");
    assert_eq!(windows_quote("a.mp4"), "a.mp4");
    assert_eq!(windows_quote("a b"), "\"a b\"");
    assert_eq!(windows_quote("a\"b"), "\"a\\\"b\"");
}

// ---------------------------------------------------------------------------
// Images
// ---------------------------------------------------------------------------

fn vars(pairs: &[(&str, &str)]) -> Vec<(String, String)> {
    pairs
        .iter()
        .map(|(k, v)| (k.to_string(), v.to_string()))
        .collect()
}

#[test]
fn detection_prefers_kitty_then_iterm2() {
    assert_eq!(
        detect_with(&vars(&[("KITTY_WINDOW_ID", "1")])),
        ImageBackend::Kitty
    );
    assert_eq!(
        detect_with(&vars(&[("TERM_PROGRAM", "iTerm.app")])),
        ImageBackend::ITerm2
    );
    assert_eq!(detect_with(&vars(&[])), ImageBackend::Blocks);
    // Kitty wins when both are set.
    assert_eq!(
        detect_with(&vars(&[
            ("KITTY_WINDOW_ID", "1"),
            ("TERM_PROGRAM", "iTerm.app")
        ])),
        ImageBackend::Kitty
    );
}

#[test]
fn base64_matches_known_vectors() {
    assert_eq!(base64_encode(b""), "");
    assert_eq!(base64_encode(b"f"), "Zg==");
    assert_eq!(base64_encode(b"fo"), "Zm8=");
    assert_eq!(base64_encode(b"foo"), "Zm9v");
    assert_eq!(base64_encode(b"foob"), "Zm9vYg==");
}

#[test]
fn kitty_payload_chunks_and_terminates() {
    let big = vec![0xFFu8; 9000];
    let payload = kitty_payload(&big, 12, 3);
    // 9000 bytes -> 12000 b64 chars -> 3 chunks (4096+4096+3808).
    assert_eq!(payload.matches("\x1b_G").count(), 3);
    assert!(payload.contains("m=0;"), "last chunk closes the stream");
    assert!(payload.contains("c=12,r=3"), "first chunk sizes in cells");
}

#[test]
fn iterm2_payload_is_single_shot() {
    let payload = iterm2_payload(b"abc", 12);
    assert!(payload.starts_with("\x1b]1337;File="));
    assert!(payload.ends_with("\x07"));
}

#[test]
fn undecodable_thumbnails_degrade_to_blank() {
    let rows = blocks_for("/nonexistent/x.jpg", None);
    assert_eq!(rows.len(), THUMB_ROWS);
    assert!(rows.iter().all(|row| row.len() == THUMB_COLS));
    let rows = blocks_for("x.jpg", Some(b"no picture"));
    assert!(rows.iter().flatten().all(|c| *c == Color::Reset));
}

/// A photo in one shade of gray: every block of its pixels is coded as two
/// zero bits.
fn gray_photo(width: u16, height: u16) -> Vec<u8> {
    let mut out = vec![0xFF, 0xD8];
    out.extend_from_slice(&[0xFF, 0xDB, 0, 67, 0]);
    out.extend_from_slice(&[1; 64]);
    out.extend_from_slice(&[0xFF, 0xC0, 0, 11, 8]);
    out.extend_from_slice(&height.to_be_bytes());
    out.extend_from_slice(&width.to_be_bytes());
    out.extend_from_slice(&[1, 1, 0x11, 0]);
    for table in [0x00, 0x10] {
        out.extend_from_slice(&[0xFF, 0xC4, 0, 20, table, 1]);
        out.extend_from_slice(&[0; 15]);
        out.push(0);
    }
    out.extend_from_slice(&[0xFF, 0xDA, 0, 8, 1, 1, 0x00, 0, 63, 0]);
    let blocks = usize::from(width / 8) * usize::from(height / 8);
    out.extend(vec![0; blocks * 2 / 8]);
    out.extend_from_slice(&[0xFF, 0xD9]);
    out
}

#[test]
fn thumbnails_are_scaled_down_and_averaged() {
    let rows = blocks_for("gray.jpg", Some(&gray_photo(192, 96)));
    assert_eq!(rows.len(), THUMB_ROWS);
    assert!(
        rows.iter().flatten().all(|c| *c == Color::Rgb(128, 128, 128)),
        "{rows:?}"
    );
}

/// A file of one shade of gray, sixteen bits deep.
fn deep_gray(width: u32, height: u32, shade: u16) -> Vec<u8> {
    let pixels = image::ImageBuffer::from_pixel(width, height, image::Luma([shade]));
    let mut file = std::io::Cursor::new(Vec::new());
    image::DynamicImage::ImageLuma16(pixels)
        .write_to(&mut file, image::ImageFormat::Png)
        .expect("encodes");
    file.into_inner()
}

#[test]
fn large_deep_pictures_are_averaged_without_loss() {
    let rows = blocks_for("deep.png", Some(&deep_gray(24_960, 260, 0xC8C8)));
    assert!(
        rows.iter().flatten().all(|c| *c == Color::Rgb(200, 200, 200)),
        "{rows:?}"
    );
}

#[test]
fn pictures_too_large_to_scale_down_are_blank() {
    let rows = blocks_for("wide.png", Some(&deep_gray(316_800, 1, 0x6464)));
    assert!(rows.iter().flatten().all(|c| *c == Color::Rgb(100, 100, 100)));
    let rows = blocks_for("wide.png", Some(&deep_gray(316_801, 1, 0x6464)));
    assert!(rows.iter().flatten().all(|c| *c == Color::Reset));
    // The format goes by the name.
    let rows = blocks_for("wide.jpg", Some(&deep_gray(16, 16, 0x6464)));
    assert!(rows.iter().flatten().all(|c| *c == Color::Reset));
}

#[test]
fn cells_average_their_pixels() {
    let mut data = Vec::new();
    for _ in 0..3 {
        for x in 0..12u8 {
            data.extend_from_slice(&[x, 10, 20]);
        }
    }
    let rows = blocks_of(&Pixels {
        width: 12,
        height: 3,
        data,
    });
    assert_eq!(rows[2][5], Color::Rgb(5, 10, 20));
}

// ---------------------------------------------------------------------------
// Layout and colours
// ---------------------------------------------------------------------------

fn rect(x: u16, y: u16, width: u16, height: u16) -> Rect {
    Rect {
        x,
        y,
        width,
        height,
    }
}

#[test]
fn centered_rect_stays_inside_area() {
    let area = rect(0, 0, 100, 40);
    let inner = centered_rect(60, 20, area);
    assert!(inner.x + inner.width <= area.width);
    assert!(inner.y + inner.height <= area.height);
    assert_eq!((inner.x, inner.y, inner.width, inner.height), (20, 10, 60, 20));
}

#[test]
fn centered_rect_clamps_to_tiny_areas() {
    let area = rect(0, 0, 10, 5);
    let inner = centered_rect(60, 20, area);
    assert!(inner.width <= area.width && inner.height <= area.height);
}

#[test]
fn theme_names_resolve_with_dark_fallback() {
    assert_eq!(Theme::from_name("light").accent, Color::Blue);
    assert_eq!(Theme::from_name("dark").accent, Color::Cyan);
    assert_eq!(Theme::from_name("  LIGHT  ").accent, Color::Blue);
    assert_eq!(Theme::from_name("solarized").accent, Color::Cyan);
    assert_eq!(Theme::from_name("").accent, Color::Cyan);
}

#[test]
fn roles_have_their_looks() {
    let theme = Theme::dark();
    assert_eq!(
        theme.style(Tone::Title),
        Style {
            fg: Some(Color::Cyan),
            bg: None,
            bold: true,
            underlined: false
        }
    );
    assert_eq!(theme.style(Tone::Selected), theme.selected());
    assert!(theme.style(Tone::SelectAll).underlined);
    assert_eq!(theme.style(Tone::Footer), theme.muted_style());
}

fn ratio(num: u128, den: u128) -> Ratio {
    Ratio { num, den }
}

#[test]
fn bar_fills_proportionally() {
    let text = words(&determinate_line(ratio(1, 2), 30));
    let filled = text.chars().filter(|c| *c == '█').count();
    let empty = text.chars().filter(|c| *c == '░').count();
    assert_eq!(filled + empty, 19, "bar width is width-11: {text}");
    assert!(
        filled.abs_diff(empty) <= 1,
        "half ratio must ~half-fill: {text}"
    );
    assert!(text.contains("50%"), "{text}");
}

#[test]
fn bar_clamps_out_of_range_ratios() {
    let text = words(&determinate_line(ratio(2, 1), 30));
    assert!(text.contains("100%"), "{text}");
    assert!(!text.contains('░'), "{text}");
}

// ---------------------------------------------------------------------------
// The browser
// ---------------------------------------------------------------------------

fn entry(name: &str, is_dir: bool) -> DirEntry {
    DirEntry {
        path: name.to_string(),
        name: name.to_string(),
        is_dir,
        size: None,
        is_media: !is_dir && is_media_file(name),
    }
}

#[test]
fn media_detection_covers_common_containers() {
    assert!(is_media_file("clip.MP4"));
    assert!(is_media_file("song.flac"));
    assert!(is_media_file("frame.webp"));
    assert!(is_media_file("subs.srt"));
    assert!(!is_media_file("notes.txt"));
    assert!(!is_media_file("Makefile"));
    assert!(!is_media_file("archive.tar.gz"));
}

#[test]
fn sorting_puts_dirs_first_case_insensitively() {
    let mut entries = vec![
        entry("zebra.mp4", false),
        entry("Docs", true),
        entry("apple.mp4", false),
        entry("bin", true),
    ];
    sort_entries(&mut entries);
    let names: Vec<&str> = entries.iter().map(|e| e.name.as_str()).collect();
    assert_eq!(names, vec!["bin", "Docs", "apple.mp4", "zebra.mp4"]);
}

#[test]
fn media_filter_hides_non_media_but_keeps_dirs() {
    let all = vec![
        entry("video.mp4", false),
        entry("notes.txt", false),
        entry("subdir", true),
    ];
    let visible = filter_entries(&all, false, "");
    assert_eq!(visible.len(), 2);
    let visible = filter_entries(&all, true, "");
    assert_eq!(visible.len(), 3);
    let visible = filter_entries(&all, true, "VID");
    assert_eq!(visible.len(), 1);
}

#[test]
fn names_fold_beyond_ascii() {
    let all = vec![entry("Ärger.mp4", false)];
    assert_eq!(filter_entries(&all, true, "äRG").len(), 1);
}

#[test]
fn tilde_expands_only_as_prefix() {
    let home = Some("/home/me");
    assert!(
        expand_tilde("~/x", home).ends_with("/x") || expand_tilde("~/x", home).ends_with("\\x")
    );
    assert_eq!(expand_tilde("/abs/path", home), "/abs/path");
    assert_eq!(expand_tilde("~/x", home), "/home/me/x");
}

#[test]
fn the_highlight_is_always_shown() {
    for cursor in 0..30 {
        let start = window_start(cursor, 7, 30);
        assert!(start <= cursor && cursor < start + 7);
    }
}

#[test]
fn marks_survive_and_are_confirmed_together() {
    let mut browser = BrowserState::open("/v".to_string());
    browser.on_listed(Ok(vec![
        DirEntry::new("/v/b.mp4".to_string(), "b.mp4".to_string(), false, None),
        DirEntry::new("/v/a.mp4".to_string(), "a.mp4".to_string(), false, None),
    ]));
    browser.on_key(key(KeyCode::Char(' ')), None);
    browser.on_key(key(KeyCode::Down), None);
    browser.on_key(key(KeyCode::Char(' ')), None);
    let step = browser.on_key(key(KeyCode::Enter), None);
    match step.action {
        BrowserAction::Confirmed(files) => {
            assert_eq!(files, vec!["/v/a.mp4".to_string(), "/v/b.mp4".to_string()]);
        }
        other => panic!("{other:?}"),
    }
}

// ---------------------------------------------------------------------------
// The form
// ---------------------------------------------------------------------------

/// A form with an output field alone.
fn output_form() -> ParamForm {
    ParamForm {
        op_id: "convert".to_string(),
        fields: vec![Field {
            id: "output",
            label: "Output".to_string(),
            kind: FieldKind::Text {
                value: tui_input::Input::new("clip_converted.mp4".to_string()),
            },
            explanation: String::new(),
        }],
        focus: 0,
        preview: None,
        build_error: None,
        changed: None,
        focus_cmd: false,
        cmd_scroll: 0,
        editing: false,
        edit_select_all: false,
    }
}

fn output_value(form: &ParamForm) -> String {
    match &form.fields[0].kind {
        FieldKind::Text { value } => value.value().to_string(),
        _ => unreachable!(),
    }
}

#[test]
fn diff_finds_value_change_with_flag() {
    let old = vec!["-crf".to_string(), "23".to_string()];
    let new = vec!["-crf".to_string(), "20".to_string()];
    assert_eq!(diff_token(&old, &new), Some("-crf 20".to_string()));
}

#[test]
fn output_field_selects_all_on_enter() {
    let mut form = output_form();
    form.on_key(key(KeyCode::Enter));
    assert!(form.editing);
    assert!(form.edit_select_all);
}

#[test]
fn typing_replaces_selected_output() {
    let mut form = output_form();
    form.on_key(key(KeyCode::Enter));
    let action = form.on_key(key(KeyCode::Char('m')));
    assert_eq!(action, FormAction::Changed);
    assert_eq!(output_value(&form), "m");
    assert!(!form.edit_select_all);
}

#[test]
fn backspace_clears_selected_output() {
    let mut form = output_form();
    form.on_key(key(KeyCode::Enter));
    let action = form.on_key(key(KeyCode::Backspace));
    assert_eq!(action, FormAction::Changed);
    assert_eq!(output_value(&form), "");
}

#[test]
fn arrows_drop_selection_without_editing() {
    let mut form = output_form();
    form.on_key(key(KeyCode::Enter));
    form.on_key(key(KeyCode::Left));
    assert!(!form.edit_select_all);
    assert_eq!(output_value(&form), "clip_converted.mp4");
}

#[test]
fn diff_returns_none_when_identical() {
    let args = vec!["-y".to_string(), "-i".to_string()];
    assert_eq!(diff_token(&args, &args), None);
}

#[test]
fn diff_handles_added_flags() {
    let old = vec!["-y".to_string()];
    let new = vec!["-y".to_string(), "-vf".to_string()];
    assert_eq!(diff_token(&old, &new), Some("-vf".to_string()));
}

#[test]
fn a_focused_slider_shows_its_landmarks() {
    let field = Field {
        id: "crf",
        label: "CRF".to_string(),
        kind: FieldKind::Slider {
            min: 0,
            max: 18,
            value: 9,
            step: 1,
            landmarks: vec![(0, "best".to_string()), (18, "small".to_string())],
            caption: Some("lower is better".to_string()),
        },
        explanation: String::new(),
    };
    let lines = field_lines(&field, true, false);
    let shown: Vec<String> = lines.iter().map(|l| words(l)).collect();
    assert_eq!(
        shown,
        vec![
            "▸ CRF  0 ─────────●───────── 18  [9]".to_string(),
            "      lower is better".to_string(),
            "      0 best · 18 small".to_string(),
        ]
    );
}

#[test]
fn long_texts_are_shown_by_their_end() {
    let mut form = output_form();
    form.fields[0].kind = FieldKind::Text {
        value: tui_input::Input::new("x".repeat(50)),
    };
    let shown = words(&panel_lines(&form)[0]);
    assert_eq!(shown, format!("▸ Output  […{}]", "x".repeat(39)));
    let area = rect(0, 0, 100, 10);
    // Behind the marker, the label, the gap and the bracket.
    assert_eq!(edit_cursor(&form, area), Some((52, 1)));
    assert_eq!(edit_cursor(&form, rect(0, 0, 20, 10)), None);
}

#[test]
fn the_cursor_counts_columns() {
    let mut form = output_form();
    form.fields[0].kind = FieldKind::Text {
        value: tui_input::Input::new("日本".to_string()),
    };
    assert_eq!(edit_cursor(&form, rect(0, 0, 100, 10)), Some((16, 1)));
}

#[test]
fn changes_are_highlighted_for_a_while() {
    let changed = Some(("-crf 20".to_string(), Duration::from_secs(1)));
    let soon = Duration {
        nanos: 1_000_000_000 + HIGHLIGHT - 1,
    };
    let late = Duration {
        nanos: 1_000_000_000 + HIGHLIGHT,
    };
    assert_eq!(highlight(&changed, soon), Some("-crf 20"));
    assert_eq!(highlight(&changed, late), None);
    let lines = styled_display("ffmpeg -crf 20 out", Some("-crf 20"));
    let tones: Vec<(Tone, &str)> = lines[0].iter().map(|p| (p.tone, p.text.as_str())).collect();
    assert_eq!(
        tones,
        vec![
            (Tone::Command, "ffmpeg "),
            (Tone::Selected, "-crf 20"),
            (Tone::Command, " out"),
        ]
    );
}

#[test]
fn long_commands_are_scrolled() {
    let mut spec = CommandSpec::new("ffmpeg");
    for i in 0..60 {
        spec.args.push(format!("-argument{i:03}"));
    }
    let all = spec.to_display().lines().count();
    let lines = preview_lines(Some(&spec), None, None, 1, 2, None);
    assert_eq!(lines.len(), 3);
    assert_eq!(
        words(&lines[2]),
        format!("… {} more lines (Tab focuses, ↑↓ scrolls)", all - 2)
    );
    let none = preview_lines(None, Some("broken"), None, 0, 2, Some(("CRF", "quality")));
    assert_eq!(words(&none[0]), "broken");
    assert_eq!(words(&none[2]), "CRF  quality");
}

#[test]
fn the_media_panel_counts_the_rest() {
    let inputs = vec!["a.mp4".to_string(), "b.mp4".to_string()];
    let lines = info_lines(&inputs, None);
    assert_eq!(words(&lines[1]), "  a.mp4");
    assert_eq!(
        words(&lines[4]),
        "+ 1 more file(s) — same settings apply to all"
    );
}

#[test]
fn cards_stand_in_for_screens() {
    let (title, body) = card(&ffkit::app::Screen::FileBrowser, "Trim");
    assert_eq!(title, "File Browser — M2");
    assert!(body.contains("“Trim”"), "{body}");
    assert_eq!(startup_text(11), "⠙ Detecting FFmpeg…");
}
