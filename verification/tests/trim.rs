use ffkit::ffmpeg::probe::parse_rational;
use ffkit::key::{KeyCode, KeyEvent, SHIFT};
use ffkit::ops::fields::ClipRange;
use ffkit::time::Duration;
use ffkit::ui::images::{base64_encode, BlockCell, ImageBackend};
use ffkit::ui::layout::Rect;
use ffkit::ui::line::Piece;
use ffkit::ui::screens::trim::{
    on_key, Thumb, TrimAction, TrimState, TrimZone, MIN_CLIP_LEN, NO_CLIPS, NO_ROOM,
};
use ffkit::ui::screens::trim_view::{
    clear_payload, header_line, middle_lines, positioned_payloads, ruler_line, sample_every,
    strip_count, strip_rows, tick_row, track_spans, StripRows,
};
use ffkit::ui::theme::Color;

fn secs(n: u64) -> Duration {
    Duration::from_secs(n)
}

fn clip(start: u64, end: u64) -> ClipRange {
    ClipRange {
        start: secs(start),
        end: secs(end),
    }
}

fn state_with_clips(clips: Vec<(u64, u64)>) -> TrimState {
    let mut state = TrimState::new(
        "in.mp4".to_string(),
        Some(secs(252)),
        parse_rational("30/1"),
        Vec::new(),
    );
    state.clips = clips.into_iter().map(|(start, end)| clip(start, end)).collect();
    state
}

fn words(line: &[Piece]) -> String {
    line.iter().map(|p| p.text.as_str()).collect()
}

#[test]
fn new_clip_fills_the_first_free_gap() {
    let mut state = state_with_clips(vec![(0, 10)]);
    assert!(state.new_clip());
    // Gap is [10, 252]: centered on half the gap.
    assert_eq!(state.clips.len(), 2);
    assert_eq!(state.clips[1].start, secs(10));
    assert_eq!(state.clips[1].end, secs(131));
    assert_eq!(state.handle, 2);
}

#[test]
fn new_clip_fails_when_full() {
    let mut state = state_with_clips(vec![(0, 252)]);
    assert!(!state.new_clip());
}

#[test]
fn handles_clamp_against_neighbors_and_bounds() {
    // Start handle stops at the previous clip's end.
    let mut state = state_with_clips(vec![(10, 40), (50, 80)]);
    state.handle = 2;
    state.move_handle(secs(100), false);
    assert_eq!(state.clips[1].start, secs(40));
    // End handle stops at the next clip's start.
    let mut state = state_with_clips(vec![(10, 40), (50, 80)]);
    state.handle = 1;
    state.move_handle(secs(100), true);
    assert_eq!(state.clips[0].end, secs(50));
    // First start never goes negative.
    let mut state = state_with_clips(vec![(10, 40), (50, 80)]);
    state.handle = 0;
    state.move_handle(secs(100), false);
    assert_eq!(state.clips[0].start, secs(0));
}

#[test]
fn minimum_length_holds_on_shrink() {
    let mut state = state_with_clips(vec![(10, 40)]);
    state.handle = 0;
    state.move_handle(secs(100), true);
    assert_eq!(state.clips[0].len().nanos, MIN_CLIP_LEN);
}

#[test]
fn ruler_and_ticks_degrade_without_duration() {
    assert_eq!(ruler_line(40, None), "—:—");
    assert_eq!(tick_row(10, 3).chars().count(), 10);
}

#[test]
fn track_marks_kept_ranges_and_focus() {
    let clips = vec![clip(0, 50)];
    let spans = track_spans(10, Some(secs(100)), &clips, 0, true);
    let text: String = words(&spans);
    assert!(text.contains('█'), "focused handle renders solid: {text}");
    assert!(text.contains('▓'), "kept range renders filled: {text}");
    assert!(text.contains('░'), "outside renders empty: {text}");
    assert_eq!(text, "█▓▓▓▓░░░░░");
}

#[test]
fn a_removed_clip_undoes_a_new_one() {
    let mut state = state_with_clips(vec![(0, 10), (20, 30)]);
    let before = state.clips.clone();
    assert!(state.new_clip());
    assert!(state.remove_clip());
    assert_eq!(state.clips, before);
}

#[test]
fn steps_follow_duration_and_frame_rate() {
    let mut state = state_with_clips(vec![]);
    assert_eq!(state.coarse_step().nanos, 2_520_000_000);
    assert_eq!(state.fine_step().nanos, 33_333_333);
    state.duration = None;
    state.fps = None;
    assert_eq!(state.coarse_step(), secs(1));
    assert_eq!(state.fine_step().nanos, 500_000_000);
}

#[test]
fn keys_move_clips() {
    let mut state = state_with_clips(vec![(10, 40)]);
    assert_eq!(
        on_key(&mut state, KeyEvent::plain(KeyCode::Char('l'))),
        TrimAction::Changed
    );
    assert_eq!(state.clips[0].start.nanos, 12_520_000_000);
    on_key(
        &mut state,
        KeyEvent {
            code: KeyCode::Left,
            modifiers: SHIFT,
        },
    );
    assert_eq!(state.clips[0].start.nanos, 12_520_000_000 - 33_333_333);
    on_key(&mut state, KeyEvent::plain(KeyCode::Tab));
    assert_eq!(state.handle, 1);
    on_key(&mut state, KeyEvent::plain(KeyCode::Tab));
    assert_eq!(state.handle, 0);
    assert_eq!(
        on_key(&mut state, KeyEvent::plain(KeyCode::Char('d'))),
        TrimAction::Changed
    );
    assert_eq!(
        on_key(&mut state, KeyEvent::plain(KeyCode::Char('d'))),
        TrimAction::Status(NO_CLIPS.to_string())
    );
    state.clips = vec![clip(0, 252)];
    assert_eq!(
        on_key(&mut state, KeyEvent::plain(KeyCode::Char('n'))),
        TrimAction::Status(NO_ROOM.to_string())
    );
    on_key(&mut state, KeyEvent::plain(KeyCode::Char('f')));
    assert_eq!(state.zone, TrimZone::Fields);
    assert_eq!(
        on_key(&mut state, KeyEvent::plain(KeyCode::Enter)),
        TrimAction::Run
    );
}

#[test]
fn a_new_track_keeps_everything() {
    let state = TrimState::new("in.mp4".to_string(), Some(secs(252)), None, Vec::new());
    assert_eq!(state.clips, vec![clip(0, 252)]);
    assert_eq!(state.total_kept(), secs(252));
    assert_eq!(
        words(&header_line(&state)),
        "Trim — in.mp4 · 4:12 · 1 clip(s), 4:12 kept"
    );
    assert_eq!(
        words(&middle_lines(&state)[0]),
        "▸ 1. 0:00–4:12 (4:12 kept)"
    );
}

#[test]
fn the_strip_fits_its_width() {
    assert_eq!(strip_count(80, 20), 6);
    assert_eq!(strip_count(5, 20), 1);
    assert_eq!(strip_count(80, 0), 1);
    assert_eq!(sample_every(10, 4), vec![0, 2, 5, 7]);
    assert!(sample_every(0, 4).is_empty());
}

#[test]
fn rulers_spread_their_labels() {
    assert_eq!(ruler_line(20, Some(secs(252))), "0:00    2:06    4:12");
    assert_eq!(tick_row(9, 3), "│···│···│");
}

#[test]
fn images_are_placed_and_cleared() {
    let inner = Rect {
        x: 1,
        y: 4,
        width: 30,
        height: 2,
    };
    let placed = positioned_payloads(&vec!["A".to_string(), "B".to_string()], 2, inner);
    assert_eq!(placed, vec!["\x1b[5;2HA".to_string(), "\x1b[5;15HB".to_string()]);
    assert_eq!(
        clear_payload(Rect {
            x: 1,
            y: 4,
            width: 3,
            height: 2
        }),
        "\x1b[5;2H   \x1b[6;2H   "
    );
}

#[test]
fn the_filmstrip_takes_what_the_terminal_shows() {
    let frames = || {
        vec![
            Thumb {
                path: "a.jpg".to_string(),
                bytes: Some(b"foo".to_vec()),
            },
            Thumb {
                path: "b.jpg".to_string(),
                bytes: None,
            },
        ]
    };
    let mut state = state_with_clips(vec![(0, 10)]);
    state.strip_pending = true;
    state.set_filmstrip(frames(), ImageBackend::ITerm2);
    assert!(!state.strip_pending && state.strip_dirty);
    assert_eq!(state.filmstrip.len(), 2);
    assert_eq!(state.strip_payloads.len(), 1, "unreadable files are left out");
    assert!(state.strip_payloads[0].contains(&base64_encode(b"foo")));
    assert!(state.strip_blocks.is_empty());
    let pane = Rect {
        x: 0,
        y: 3,
        width: 80,
        height: 4,
    };
    assert_eq!(state.take_images(ImageBackend::ITerm2, pane).len(), 1);
    assert!(state.take_images(ImageBackend::ITerm2, pane).is_empty());

    state.set_filmstrip(frames(), ImageBackend::Blocks);
    assert_eq!(state.strip_blocks.len(), 2);
    match strip_rows(&state, ImageBackend::Blocks, 80) {
        StripRows::Cells(rows) => {
            assert_eq!(rows.len(), 3);
            assert_eq!(rows[0].len(), 25);
            assert_eq!(rows[0][12], BlockCell::Gap);
            assert_eq!(rows[0][0], BlockCell::Filled(Color::Reset));
        }
        other => panic!("{other:?}"),
    }
}
