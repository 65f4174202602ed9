use ffkit::ffmpeg::builder::CommandSpec;
use ffkit::ffmpeg::progress::{ProgressUpdate, SpeedSmoother};
use ffkit::ffmpeg::runner::JobResult;
use ffkit::key::{KeyCode, KeyEvent};
use ffkit::ops::{find_by_id, InputKind};
use ffkit::queue::job::{Job, JobStatus, NewJob};
use ffkit::queue::QueueState;
use ffkit::time::Duration;
use ffkit::ui::line::{Piece, Tone};
use ffkit::ui::screens::missing_ffmpeg::body_lines as missing_lines;
use ffkit::ui::screens::missing_ffmpeg::MissingState;
use ffkit::ui::screens::operation_picker::{about_lines, accepts_label};
use ffkit::ui::screens::queue::{body_lines, NO_JOBS};
use ffkit::ui::screens::running::{
    delete_lines, footer, heading, on_key, overwrite_lines, panel_lines, stats_line, RunAction,
    RunPhase, RunState,
};
use ffkit::ui::widgets::progress_bar::indeterminate_line;

fn secs(n: u64) -> Duration {
    Duration::from_secs(n)
}

fn words(line: &[Piece]) -> String {
    line.iter().map(|p| p.text.as_str()).collect()
}

fn all_words(lines: &[Vec<Piece>]) -> Vec<String> {
    lines.iter().map(|l| words(l)).collect()
}

fn command() -> CommandSpec {
    let mut spec = CommandSpec::new("ffmpeg");
    spec.arg("-i");
    spec.arg("in.mp4");
    spec.arg("out.mp4");
    spec
}

fn started() -> RunState {
    RunState::starting(
        "Convert".to_string(),
        command(),
        "out.mp4".to_string(),
        Some(secs(100)),
        Some(2048),
        secs(5),
    )
}

fn progress() -> ProgressUpdate {
    ProgressUpdate {
        frame: Some(240),
        fps: Some(24_000_000),
        bitrate_kbps: Some(1_500_400_000),
        total_size_bytes: Some(4096),
        out_time: Some(secs(25)),
        dup_frames: Some(0),
        drop_frames: Some(3),
        speed: Some(2_500_000),
        stream_q: Vec::new(),
        finished: false,
    }
}

fn ended(success: bool, cancelled: bool, stderr: Vec<&str>) -> JobResult {
    JobResult {
        success,
        cancelled,
        exit_code: Some(if success { 0 } else { 1 }),
        stderr: stderr.into_iter().map(|s| s.to_string()).collect(),
        wall_time: secs(10),
    }
}

#[test]
fn a_run_shows_its_figures() {
    let mut run = started();
    assert_eq!(words(&heading(&run)), "Convert — running  out.mp4");
    assert_eq!(words(&stats_line(&run, secs(0))), "elapsed 0:00");
    run.apply_progress(&progress());
    assert_eq!(
        words(&stats_line(&run, secs(10))),
        "elapsed 0:10 · ETA 0:30 · 2.50x · 4 KB · frame 240 (drop 3) · 1500 kbits/s"
    );
    assert_eq!(run.eta(), Some(secs(30)));
}

#[test]
fn a_run_says_how_it_ended() {
    let mut run = started();
    run.apply_finished(ended(true, false, vec![]), true, secs(15));
    assert_eq!(run.phase, RunPhase::Done);
    assert!(run.succeeded());
    assert_eq!(words(&heading(&run)), "Convert — done ✓  out.mp4");
    let panel = all_words(&panel_lines(&run, secs(10), Some(1024)));
    assert_eq!(panel[2], "Finished in 0:10 (2 KB → 1 KB)");

    let mut run = started();
    run.apply_finished(ended(false, true, vec![]), false, secs(15));
    assert_eq!(words(&heading(&run)), "Convert — cancelled  out.mp4");

    let mut run = started();
    run.apply_finished(ended(false, false, vec!["who knows"]), true, secs(15));
    assert_eq!(run.phase, RunPhase::ConfirmDelete);
    assert!(!run.succeeded());
    assert_eq!(words(&heading(&run)), "Convert — partial file  out.mp4");
    run.phase = RunPhase::Done;
    assert_eq!(words(&heading(&run)), "Convert — failed  out.mp4");
    let panel = all_words(&panel_lines(&run, secs(10), None));
    assert_eq!(
        panel[2],
        "Failed with unrecognized output — the raw log below is the full story."
    );
}

#[test]
fn the_log_of_a_job_that_is_over_still_opens() {
    let mut run = started();
    run.apply_finished(ended(false, false, vec!["who knows"]), false, secs(15));
    assert_eq!(run.phase, RunPhase::Done);
    run.log_scroll = 4;
    assert_eq!(on_key(&mut run, KeyEvent::plain(KeyCode::Char('l'))), RunAction::Nothing);
    assert!(run.log_expanded);
    assert_eq!(run.log_scroll, 0);
    assert_eq!(run.phase, RunPhase::Done);
    on_key(&mut run, KeyEvent::plain(KeyCode::Char('l')));
    assert!(!run.log_expanded);
    assert_eq!(on_key(&mut run, KeyEvent::plain(KeyCode::Esc)), RunAction::Back);
}

#[test]
fn a_run_that_is_stopping_says_so() {
    let mut run = started();
    run.phase = RunPhase::Cancelling;
    assert_eq!(words(&heading(&run)), "Convert — cancelling…  out.mp4");
    let panel = panel_lines(&run, secs(1), None);
    assert_eq!(words(&panel[2]), "Sent SIGTERM — ffmpeg is flushing a playable file…");
    assert_eq!(panel[2][0].tone, Tone::Warning);
    assert_eq!(
        footer(RunPhase::Cancelling),
        "Terminating (SIGTERM)… second Ctrl+C force-kills · l log"
    );
}

#[test]
fn questions_name_the_file() {
    assert_eq!(words(&overwrite_lines("out.mp4")[0]), "out.mp4 already exists.");
    assert_eq!(words(&delete_lines("out.mp4")[0]), "Partial output remains at out.mp4.");
    assert_eq!(footer(RunPhase::ConfirmOverwrite), "Output exists — y overwrite · n back");
    assert_eq!(footer(RunPhase::ConfirmDelete), "Delete the partial file? y delete · n keep");
}

#[test]
fn speeds_are_smoothed_over_the_last_samples() {
    let mut smoother = SpeedSmoother::new(2);
    assert_eq!(smoother.smoothed(), None);
    smoother.push(Some(1_000_000));
    smoother.push(Some(2_000_000));
    assert_eq!(smoother.smoothed(), Some(1_500_000));
    smoother.push(Some(4_000_000));
    assert_eq!(smoother.smoothed(), Some(3_000_000));
}

#[test]
fn the_queue_lists_its_jobs() {
    let mut queue = QueueState::new();
    assert_eq!(all_words(&body_lines(&queue, None)), vec![NO_JOBS.to_string()]);
    let mut jobs = Vec::new();
    for name in ["a", "b", "c", "d"] {
        let id = queue.take_id();
        jobs.push(Job::pending(NewJob {
            id,
            op_id: "convert".to_string(),
            op_name: "Convert".to_string(),
            input: format!("{name}.mov"),
            output: format!("{name}.mp4"),
            spec: command(),
            total_duration: None,
            input_size: None,
        }));
    }
    jobs[1].status = JobStatus::Done;
    jobs[2].status = JobStatus::Failed("no space".to_string());
    jobs[3].status = JobStatus::Cancelled;
    queue.enqueue(jobs);
    queue.selected = 1;
    let lines = body_lines(&queue, Some(&"hello".to_string()));
    assert!(words(&lines[0]).starts_with("  ○ Convert: a.mov → a.mp4  "));
    assert!(words(&lines[1]).starts_with("▸ ✓ Convert: b.mov → b.mp4  "));
    assert!(words(&lines[2]).starts_with("  ✗ Convert: c.mov → c.mp4  "));
    assert!(words(&lines[3]).starts_with("  ■ Convert: d.mov → d.mp4  "));
    assert_eq!(words(&lines[5]), "hello");
    queue.overwrite_conflicts = vec!["x".to_string(), "y".to_string(), "z".to_string(), "w".to_string()];
    queue.summary = Some("all done".to_string());
    let lines = all_words(&body_lines(&queue, None));
    assert_eq!(lines[5], "4 output(s) already exist: x, y, z");
    assert_eq!(lines[6], "y runs the batch and overwrites · Esc goes back");
    assert_eq!(lines[8], "all done");
}

#[test]
fn an_operation_says_what_it_takes() {
    assert_eq!(accepts_label(InputKind::Video), "video files");
    assert_eq!(accepts_label(InputKind::Audio), "audio files");
    assert_eq!(accepts_label(InputKind::AudioOrVideo), "audio or video files");
    assert_eq!(accepts_label(InputKind::Image), "image files");
    assert_eq!(accepts_label(InputKind::Multiple), "multiple files");
    let meta = find_by_id("concat").expect("concat exists");
    let about = all_words(&about_lines(&meta));
    assert_eq!(about[0], meta.name);
    assert_eq!(about[2], meta.description);
    assert!(about[4].starts_with("Accepts: "));
    assert_eq!(about[6], "Enter: choose · q: quit");
}

#[test]
fn without_ffmpeg_the_screen_says_how_to_install_it() {
    let mut state = MissingState {
        input: tui_input::Input::new(String::new()),
        checking: false,
        error: Some("no such file".to_string()),
        pending_path: None,
    };
    let lines = all_words(&missing_lines(&state));
    assert_eq!(lines[0], "Install it for your platform:");
    assert_eq!(lines[2], "  Debian/Ubuntu   sudo apt install ffmpeg");
    assert_eq!(lines[lines.len() - 1], "no such file");
    state.checking = true;
    let lines = all_words(&missing_lines(&state));
    assert_eq!(lines[lines.len() - 1], "Checking that binary…");
}

#[test]
fn work_of_unknown_length_shows_a_spinner() {
    assert!(words(&indeterminate_line(0)).starts_with("⠋"));
    assert!(words(&indeterminate_line(10)).starts_with("⠋"));
    assert!(words(&indeterminate_line(1)).starts_with("⠙"));
}
