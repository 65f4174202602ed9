use ffkit::app::batch::{split_suffix, Survey};
use ffkit::app::jobs::{BUSY, NO_COMMAND};
use ffkit::app::keys::WORKING;
use ffkit::app::messages::{probe_error_message, SUCCESS_PAUSE};
use ffkit::app::{App, BatchItem, CopyFor, Effect, Facts, ProbeState, SaveFor, Screen};
use ffkit::background::BackgroundMsg;
use ffkit::config::settings::Settings;
use ffkit::ffmpeg::builder::CommandSpec;
use ffkit::ffmpeg::capabilities::CapabilityReport;
use ffkit::ffmpeg::probe::{ProbeError, ProbeResult};
use ffkit::ffmpeg::runner::JobResult;
use ffkit::key::{KeyCode, KeyEvent, CONTROL};
use ffkit::ops::fields::FieldKind;
use ffkit::ops::{operation_for, operations};
use ffkit::queue::job::JobStatus;
use ffkit::time::Duration;
use ffkit::ui::layout::{too_small, too_small_message, Rect};
use ffkit::ui::screens::file_browser::{DirEntry, PathKind};
use ffkit::ui::screens::parameter_form::{FormFacts, ParamForm};
use ffkit::ui::screens::running::{RunPhase, RunState};

fn key(code: KeyCode) -> KeyEvent {
    KeyEvent::plain(code)
}

fn facts(now: Duration) -> Facts<'static> {
    Facts {
        now,
        start_dir: "/home/me",
        home: Some("/home/me"),
        temp_dir: "/tmp",
        date: "2026-01-02",
        output_size: None,
    }
}

fn press(app: &mut App, code: KeyCode) -> Vec<Effect> {
    app.on_key(key(code), &facts(Duration::zero()))
}

fn test_app() -> App {
    App::new(Settings::default(), "/home/me".to_string())
}

fn report(found: bool, usable: bool) -> CapabilityReport {
    let mut r = CapabilityReport::missing();
    r.found = found;
    r.usable = usable;
    r
}

fn compress_form(inputs: &[String]) -> ParamForm {
    let op = operation_for("compress").expect("compress exists");
    ParamForm::new(
        &op,
        FormFacts {
            inputs,
            probe: None,
            input_probes: Vec::new(),
            caps: None,
            temp_dir: "/tmp",
            now: Duration::zero(),
        },
    )
}

fn done_run(success: bool, secs: u64, finished_at: Option<Duration>) -> RunState {
    let mut run = RunState::starting(
        "Convert".to_string(),
        CommandSpec::new("ffmpeg"),
        "out.mp4".to_string(),
        None,
        None,
        Duration::zero(),
    );
    run.phase = RunPhase::Done;
    run.result = Some(JobResult {
        success,
        cancelled: false,
        exit_code: Some(i32::from(!success)),
        stderr: Vec::new(),
        wall_time: Duration::from_secs(secs),
    });
    run.finished_at = finished_at;
    run
}

/// Surveys a planned batch: the outputs named exist.
fn surveyed(app: &mut App, effects: Vec<Effect>, existing: &[&str]) -> Vec<Effect> {
    assert_eq!(effects.len(), 1, "{effects:?}");
    match effects.into_iter().next() {
        Some(Effect::SurveyBatch(items)) => {
            let seen: Vec<Survey> = items
                .iter()
                .map(|item: &BatchItem| Survey {
                    exists: existing.contains(&item.output.as_str()),
                    size: None,
                })
                .collect();
            app.begin_batch(&items, &seen)
        }
        other => panic!("no batch was planned: {other:?}"),
    }
}

#[test]
fn starts_at_startup_then_picker_on_ready_report() {
    let mut app = test_app();
    assert_eq!(app.screen, Screen::Startup);
    app.handle_msg(
        BackgroundMsg::CapabilitiesReady(report(true, true)),
        Duration::zero(),
        false,
    );
    assert_eq!(app.screen, Screen::OperationPicker);
}

#[test]
fn missing_binary_routes_to_install_screen() {
    let mut app = test_app();
    app.handle_msg(
        BackgroundMsg::CapabilitiesReady(CapabilityReport::missing()),
        Duration::zero(),
        false,
    );
    assert_eq!(app.screen, Screen::MissingFfmpeg);
    assert_eq!(app.missing.error, None);
}

#[test]
fn an_unusable_binary_is_reported() {
    let mut app = test_app();
    app.handle_msg(
        BackgroundMsg::CapabilitiesReady(report(true, false)),
        Duration::zero(),
        false,
    );
    assert_eq!(app.screen, Screen::MissingFfmpeg);
    assert!(app.missing.error.is_some_and(|e| e.contains("did not respond")));
}

#[test]
fn warnings_reach_the_status_line() {
    let mut app = test_app();
    let mut r = report(true, true);
    r.warnings = vec!["one.".to_string(), "two.".to_string()];
    app.handle_msg(BackgroundMsg::CapabilitiesReady(r), Duration::zero(), false);
    assert_eq!(app.status_message.as_deref(), Some("one. two."));
}

#[test]
fn selection_wraps_around_both_ends() {
    let mut app = test_app();
    app.screen = Screen::OperationPicker;
    press(&mut app, KeyCode::Up);
    assert_eq!(app.selected_operation, operations().len() - 1);
    press(&mut app, KeyCode::Down);
    assert_eq!(app.selected_operation, 0);
}

#[test]
fn vim_keys_navigate_like_arrows() {
    let mut app = test_app();
    app.screen = Screen::OperationPicker;
    press(&mut app, KeyCode::Char('j'));
    assert_eq!(app.selected_operation, 1);
    press(&mut app, KeyCode::Char('k'));
    assert_eq!(app.selected_operation, 0);
}

#[test]
fn enter_advances_and_esc_goes_back() {
    let mut app = test_app();
    app.screen = Screen::OperationPicker;
    let effects = press(&mut app, KeyCode::Enter);
    assert_eq!(app.screen, Screen::FileBrowser);
    match &effects[..] {
        [Effect::Open { dir, others }] => {
            assert_eq!(dir, "/home/me");
            assert_eq!(others, &vec!["/home/me".to_string(), "/".to_string()]);
        }
        other => panic!("{other:?}"),
    }
    press(&mut app, KeyCode::Esc);
    assert_eq!(app.screen, Screen::OperationPicker);
}

#[test]
fn q_quits_from_any_screen() {
    let mut app = test_app();
    app.screen = Screen::Queue {
        return_to: Box::new(Screen::OperationPicker),
    };
    press(&mut app, KeyCode::Char('q'));
    assert!(app.should_quit);
}

#[test]
fn q_waits_while_the_queue_runs() {
    let mut app = test_app();
    app.screen = Screen::OperationPicker;
    app.queue.running = true;
    press(&mut app, KeyCode::Char('q'));
    assert!(!app.should_quit);
    assert_eq!(app.status_message.as_deref(), Some(WORKING));
}

#[test]
fn probe_results_land_in_cache() {
    let mut app = test_app();
    let path = "/tmp/clip.mp4".to_string();
    app.handle_msg(
        BackgroundMsg::ProbeReady {
            path: path.clone(),
            result: Err(ProbeError::BinaryNotFound),
        },
        Duration::zero(),
        false,
    );
    assert!(matches!(app.probes.get(&path), Some(ProbeState::Failed(_))));
}

#[test]
fn probe_failures_are_told_in_plain_language() {
    assert_eq!(
        probe_error_message(&ProbeError::BinaryNotFound),
        "ffprobe is missing"
    );
    assert_eq!(
        probe_error_message(&ProbeError::Timeout(15, "a".to_string())),
        "timed out after 15s"
    );
    assert_eq!(
        probe_error_message(&ProbeError::Failed {
            path: "a".to_string(),
            message: String::new()
        }),
        "this file appears corrupt or isn't media FFmpeg recognizes"
    );
    assert_eq!(
        probe_error_message(&ProbeError::Failed {
            path: "a".to_string(),
            message: "boom".to_string()
        }),
        "boom"
    );
    assert_eq!(
        probe_error_message(&ProbeError::Parse {
            path: "a".to_string(),
            message: "eof".to_string()
        }),
        "unparseable probe output: eof"
    );
}

#[test]
fn a_path_is_probed_once() {
    let mut app = test_app();
    assert_eq!(app.ensure_probe("a.mp4").len(), 1);
    assert_eq!(app.ensure_probe("a.mp4").len(), 0);
    assert!(matches!(app.probes.get("a.mp4"), Some(ProbeState::Pending)));
}

#[test]
fn tiny_terminal_shows_too_small_message() {
    let area = Rect {
        x: 0,
        y: 0,
        width: 40,
        height: 10,
    };
    assert!(too_small(area));
    let content = too_small_message(area);
    assert!(
        content.contains("Terminal too small"),
        "expected size warning, got: {content}"
    );
}

#[test]
fn batch_flow_enqueues_one_job_per_input() {
    let mut app = test_app();
    // Compress form over two inputs, no probes (defaults apply).
    app.form_inputs = vec!["a.mp4".to_string(), "b.mp4".to_string()];
    app.form = Some(compress_form(&["a.mp4".to_string(), "b.mp4".to_string()]));
    let planned = app.start_batch_flow("2026-01-02", "/tmp");
    let effects = surveyed(&mut app, planned, &[]);

    assert_eq!(app.queue.jobs.len(), 2);
    let outputs: Vec<String> = app
        .queue
        .jobs
        .iter()
        .map(|job| job.output.clone())
        .collect();
    assert!(
        outputs.contains(&"a_compressed.mp4".to_string()),
        "{outputs:?}"
    );
    assert!(
        outputs.contains(&"b_compressed.mp4".to_string()),
        "{outputs:?}"
    );
    assert!(matches!(app.screen, Screen::Queue { .. }));
    // One job runs at a time unless the settings say otherwise.
    assert_eq!(effects.len(), 1);
    assert!(app.queue.running);
    assert_eq!(app.queue.jobs[0].status, JobStatus::Running);
    assert_eq!(app.queue.jobs[1].status, JobStatus::Pending);
}

#[test]
fn split_suffix_reuses_builder_naming() {
    let (suffix, ext) = split_suffix("/v/holiday_compressed.mp4", "/v/holiday.mp4");
    assert_eq!((suffix.as_str(), ext.as_str()), ("compressed", "mp4"));
    let (suffix, ext) = split_suffix("clip_anim.gif", "clip.mp4");
    assert_eq!((suffix.as_str(), ext.as_str()), ("anim", "gif"));
}

#[test]
fn split_suffix_falls_back_to_the_input() {
    let (suffix, ext) = split_suffix("other", "clip.mkv");
    assert_eq!((suffix.as_str(), ext.as_str()), ("", "mkv"));
    let (suffix, ext) = split_suffix("clip-_-x", "clip");
    assert_eq!((suffix.as_str(), ext.as_str()), ("x", "mp4"));
}

#[test]
fn success_auto_returns_after_pause() {
    let mut app = test_app();
    app.run = Some(done_run(true, 3, Some(Duration::zero())));
    app.screen = Screen::Running;

    app.on_tick(
        Duration {
            nanos: SUCCESS_PAUSE,
        },
        Some(2048),
    );
    assert_eq!(app.screen, Screen::OperationPicker);
    assert!(
        app.status_message
            .as_ref()
            .is_some_and(|s| s.contains("out.mp4")),
        "summary must name the output, got {:?}",
        app.status_message
    );
    assert_eq!(
        app.status_message.as_deref(),
        Some("Done in 3.0s → out.mp4 (2 KB)")
    );
}

#[test]
fn fresh_success_and_failure_do_not_auto_return() {
    for success in [true, false] {
        let mut app = test_app();
        let now = Duration::from_secs(100);
        let finished = if success { Some(now) } else { None };
        app.run = Some(done_run(success, 1, finished));
        app.screen = Screen::Running;
        app.on_tick(now, None);
        assert_eq!(app.screen, Screen::Running, "success={success}");
    }
}

#[test]
fn any_key_dismisses_success_pause_early() {
    let mut app = test_app();
    app.run = Some(done_run(true, 1, Some(Duration::zero())));
    app.screen = Screen::Running;

    press(&mut app, KeyCode::Char('x'));
    assert_eq!(app.screen, Screen::OperationPicker);
    assert_eq!(app.status_message.as_deref(), Some("Done in 1.0s → out.mp4"));
}

#[test]
fn copy_and_log_keys_keep_the_success_screen() {
    let mut app = test_app();
    app.run = Some(done_run(true, 1, Some(Duration::zero())));
    app.screen = Screen::Running;

    let effects = press(&mut app, KeyCode::Char('c'));
    assert!(matches!(
        &effects[..],
        [Effect::Copy {
            what: CopyFor::Report,
            ..
        }]
    ));
    press(&mut app, KeyCode::Char('l'));
    assert_eq!(app.screen, Screen::Running);
    assert!(app.run.as_ref().is_some_and(|run| run.log_expanded));
}

#[test]
fn help_gives_the_screen_back() {
    let mut app = test_app();
    app.screen = Screen::Queue {
        return_to: Box::new(Screen::ParameterForm),
    };
    press(&mut app, KeyCode::Char('?'));
    assert!(matches!(app.screen, Screen::Help { .. }));
    press(&mut app, KeyCode::Char('z'));
    assert_eq!(
        app.screen,
        Screen::Queue {
            return_to: Box::new(Screen::ParameterForm)
        }
    );
    press(&mut app, KeyCode::Esc);
    assert_eq!(app.screen, Screen::ParameterForm);
}

#[test]
fn one_job_asks_before_it_overwrites() {
    let mut app = test_app();
    app.form_inputs = vec!["a.mp4".to_string()];
    app.form = Some(compress_form(&["a.mp4".to_string()]));
    app.screen = Screen::ParameterForm;
    let effects = app.start_single_flow();
    match &effects[..] {
        [Effect::LookSingle { output, input }] => {
            assert_eq!(output, "input_compressed.mp4");
            assert_eq!(input.as_deref(), Some("a.mp4"));
        }
        other => panic!("{other:?}"),
    }
    let effects = app.begin_single(true, Some(10), Duration::from_secs(1));
    assert!(effects.is_empty());
    assert_eq!(app.screen, Screen::Running);
    assert!(app
        .run
        .as_ref()
        .is_some_and(|run| run.phase == RunPhase::ConfirmOverwrite));
    // Enter confirms, and the job starts under the next id.
    let effects = press(&mut app, KeyCode::Enter);
    match &effects[..] {
        [Effect::Start { id, output, dir, .. }] => {
            assert_eq!(*id, 1);
            assert_eq!(output, "input_compressed.mp4");
            assert_eq!(dir, &None);
        }
        other => panic!("{other:?}"),
    }
    assert_eq!(app.queue.next_id, 2);
    // While it runs no other work starts.
    assert!(app.start_single_flow().is_empty());
    assert_eq!(app.status_message.as_deref(), Some(BUSY));
}

#[test]
fn one_job_starts_when_its_output_is_new() {
    let mut app = test_app();
    app.form_inputs = vec!["a.mp4".to_string()];
    app.form = Some(compress_form(&["a.mp4".to_string()]));
    let effects = app.begin_single(false, Some(10), Duration::from_secs(1));
    assert_eq!(effects.len(), 1);
    let run = app.run.as_ref().expect("a job runs");
    assert_eq!(run.op_name, "Compress video");
    assert_eq!(run.input_size, Some(10));
    assert_eq!(run.phase, RunPhase::Active);
}

#[test]
fn a_form_without_a_command_runs_nothing() {
    let mut app = test_app();
    let mut form = compress_form(&["a.mp4".to_string()]);
    form.preview = None;
    app.form = Some(form);
    assert!(app.start_single_flow().is_empty());
    assert_eq!(app.status_message.as_deref(), Some(NO_COMMAND));
}

#[test]
fn ctrl_c_cancels_then_kills_then_quits() {
    let mut app = test_app();
    app.form_inputs = vec!["a.mp4".to_string()];
    app.form = Some(compress_form(&["a.mp4".to_string()]));
    app.begin_single(false, None, Duration::zero());
    let interrupt = KeyEvent {
        code: KeyCode::Char('c'),
        modifiers: CONTROL,
    };
    app.handle_msg(
        BackgroundMsg::JobStarted {
            job_id: 1,
            pid: Some(77),
        },
        Duration::zero(),
        false,
    );
    let effects = app.on_key(interrupt, &facts(Duration::zero()));
    assert!(matches!(&effects[..], [Effect::Cancel(1)]), "{effects:?}");
    let effects = app.on_key(interrupt, &facts(Duration::zero()));
    assert!(matches!(&effects[..], [Effect::Kill(77)]), "{effects:?}");
    assert!(!app.should_quit);
    app.handle_msg(
        BackgroundMsg::JobFinished {
            job_id: 1,
            result: JobResult {
                success: false,
                cancelled: true,
                exit_code: None,
                stderr: Vec::new(),
                wall_time: Duration::zero(),
            },
        },
        Duration::zero(),
        true,
    );
    // The partial file is asked about, and deleted on `y`.
    assert!(app
        .run
        .as_ref()
        .is_some_and(|run| run.phase == RunPhase::ConfirmDelete));
    let effects = press(&mut app, KeyCode::Char('y'));
    assert!(matches!(&effects[..], [Effect::Delete(path)] if path == "input_compressed.mp4"));
    app.on_deleted(Err("busy".to_string()));
    assert_eq!(
        app.status_message.as_deref(),
        Some("Could not delete partial file: busy")
    );
    app.on_key(interrupt, &facts(Duration::zero()));
    assert!(app.should_quit);
}

#[test]
fn a_batch_with_existing_outputs_waits_for_a_yes() {
    let mut app = test_app();
    app.form_inputs = vec!["a.mp4".to_string(), "b.mp4".to_string()];
    app.form = Some(compress_form(&["a.mp4".to_string(), "b.mp4".to_string()]));
    let planned = app.start_batch_flow("2026-01-02", "/tmp");
    let effects = surveyed(&mut app, planned, &["b_compressed.mp4"]);
    assert!(effects.is_empty());
    assert!(!app.queue.running);
    assert_eq!(
        app.queue.overwrite_conflicts,
        vec!["b_compressed.mp4".to_string()]
    );
    let effects = press(&mut app, KeyCode::Char('y'));
    assert_eq!(effects.len(), 1);
    assert!(app.queue.running);
    assert!(app.queue.overwrite_conflicts.is_empty());
}

#[test]
fn a_failure_halts_nothing_and_the_queue_sums_up() {
    let mut app = test_app();
    app.form_inputs = vec!["a.mp4".to_string(), "b.mp4".to_string()];
    app.form = Some(compress_form(&["a.mp4".to_string(), "b.mp4".to_string()]));
    app.settings.general.batch_template = "{parent}/out/{stem}.{ext}".to_string();
    let planned = app.start_batch_flow("2026-01-02", "/tmp");
    let effects = surveyed(&mut app, planned, &[]);
    match &effects[..] {
        [Effect::Start { id, dir, .. }] => {
            assert_eq!(*id, 1);
            assert_eq!(dir.as_deref(), Some("out"));
        }
        other => panic!("{other:?}"),
    }
    let effects = app.on_start_failed(1, "denied".to_string());
    assert_eq!(
        app.queue.jobs[0].status,
        JobStatus::Failed("cannot create output dir: denied".to_string())
    );
    assert!(matches!(&effects[..], [Effect::Start { id: 2, .. }]));
    let effects = app.handle_msg(
        BackgroundMsg::JobFinished {
            job_id: 2,
            result: JobResult {
                success: true,
                cancelled: false,
                exit_code: Some(0),
                stderr: Vec::new(),
                wall_time: Duration::zero(),
            },
        },
        Duration::zero(),
        false,
    );
    assert!(effects.is_empty());
    assert!(!app.queue.running);
    assert_eq!(
        app.status_message.as_deref(),
        Some("Queue done: 1 ok, 1 failed, 0 cancelled")
    );
}

#[test]
fn cancelling_the_queue_cancels_what_waits() {
    let mut app = test_app();
    app.form_inputs = vec!["a.mp4".to_string(), "b.mp4".to_string()];
    app.form = Some(compress_form(&["a.mp4".to_string(), "b.mp4".to_string()]));
    let planned = app.start_batch_flow("2026-01-02", "/tmp");
    surveyed(&mut app, planned, &[]);
    let effects = app.on_key(
        KeyEvent {
            code: KeyCode::Char('c'),
            modifiers: CONTROL,
        },
        &facts(Duration::zero()),
    );
    assert!(matches!(&effects[..], [Effect::CancelAll]));
    assert_eq!(app.queue.jobs[0].status, JobStatus::Running);
    assert_eq!(app.queue.jobs[1].status, JobStatus::Cancelled);
}

#[test]
fn a_batch_is_all_or_nothing() {
    let mut app = test_app();
    app.form_inputs = vec!["a.mp4".to_string(), "b.mp4".to_string()];
    let mut form = compress_form(&["a.mp4".to_string(), "b.mp4".to_string()]);
    form.op_id = "trim".to_string();
    app.form = Some(form);
    assert!(app.start_batch_flow("2026-01-02", "/tmp").is_empty());
    assert!(app.queue.jobs.is_empty());
    let status = app.status_message.unwrap_or_default();
    assert!(status.starts_with("a.mp4: "), "{status}");
    assert!(status.ends_with(" — nothing was enqueued"), "{status}");
}

#[test]
fn the_custom_path_is_kept_and_saved() {
    let mut app = test_app();
    app.screen = Screen::MissingFfmpeg;
    for c in "/opt/ff".chars() {
        press(&mut app, KeyCode::Char(c));
    }
    let effects = press(&mut app, KeyCode::Enter);
    match &effects[..] {
        [Effect::CheckPath { ffmpeg, ffprobe }] => {
            assert_eq!(ffmpeg, "/opt/ff");
            assert_eq!(ffprobe, &None);
        }
        other => panic!("{other:?}"),
    }
    let effects = app.handle_msg(
        BackgroundMsg::CustomPathChecked(report(true, true)),
        Duration::zero(),
        false,
    );
    assert!(matches!(&effects[..], [Effect::Save(SaveFor::CustomPath)]));
    assert_eq!(app.settings.general.ffmpeg_path.as_deref(), Some("/opt/ff"));
    assert_eq!(app.screen, Screen::OperationPicker);
    app.on_saved(SaveFor::CustomPath, Err("read-only".to_string()));
    assert_eq!(
        app.status_message.as_deref(),
        Some("Custom path works but could not be saved: read-only")
    );
}

#[test]
fn a_path_that_is_no_ffmpeg_is_refused() {
    let mut app = test_app();
    app.screen = Screen::MissingFfmpeg;
    app.missing.checking = true;
    app.missing.pending_path = Some("/bin/true".to_string());
    app.handle_msg(
        BackgroundMsg::CustomPathChecked(report(true, false)),
        Duration::zero(),
        false,
    );
    assert_eq!(app.screen, Screen::MissingFfmpeg);
    assert!(!app.missing.checking);
    assert_eq!(app.missing.pending_path, None);
    assert!(app.missing.error.is_some());
}

#[test]
fn choosing_a_file_opens_its_form() {
    let mut app = test_app();
    app.screen = Screen::OperationPicker;
    press(&mut app, KeyCode::Down);
    press(&mut app, KeyCode::Enter);
    let effects = app.on_opened(
        Ok(vec![DirEntry::new(
            "/home/me/clip.mp4".to_string(),
            "clip.mp4".to_string(),
            false,
            Some(5),
        )]),
        Vec::new(),
    );
    // The highlighted file is probed.
    assert!(matches!(&effects[..], [Effect::Probe { path, .. }] if path == "/home/me/clip.mp4"));
    let effects = press(&mut app, KeyCode::Enter);
    assert!(effects.is_empty(), "it is being probed: {effects:?}");
    assert_eq!(app.screen, Screen::ParameterForm);
    let form = app.form.as_ref().expect("the form is open");
    assert_eq!(form.op_id, "compress");
    assert!(form.preview.is_some());
    // The command can be copied.
    let effects = press(&mut app, KeyCode::Char('c'));
    match &effects[..] {
        [Effect::Copy { text, what }] => {
            assert!(text.starts_with("ffmpeg -hide_banner"), "{text}");
            assert_eq!(*what, CopyFor::Command);
        }
        other => panic!("{other:?}"),
    }
    app.on_copied(CopyFor::Command, Ok(()));
    assert_eq!(
        app.status_message.as_deref(),
        Some("Command copied to clipboard.")
    );
}

#[test]
fn the_output_directory_of_the_settings_is_used() {
    let mut app = test_app();
    app.selected_operation = 1;
    app.settings.general.default_output_dir = "/out".to_string();
    app.form_inputs = vec!["/in/clip.mp4".to_string()];
    app.open_form(Duration::zero(), "/tmp");
    let form = app.form.as_ref().expect("the form is open");
    let output = form.preview.as_ref().and_then(|spec| spec.output_path());
    assert_eq!(output.as_deref(), Some("/out/input_compressed.mp4"));
}

#[test]
fn unreadable_directories_fall_back() {
    let mut app = test_app();
    app.screen = Screen::OperationPicker;
    press(&mut app, KeyCode::Enter);
    let effects = app.on_opened(Err("denied".to_string()), vec!["/x".to_string(), "/".to_string()]);
    match &effects[..] {
        [Effect::Open { dir, others }] => {
            assert_eq!(dir, "/x");
            assert_eq!(others, &vec!["/".to_string()]);
        }
        other => panic!("{other:?}"),
    }
    let effects = app.on_opened(Err("denied".to_string()), Vec::new());
    assert!(effects.is_empty());
    assert_eq!(app.browser.last_error.as_deref(), Some("denied"));
}

#[test]
fn a_typed_path_is_looked_at() {
    let mut app = test_app();
    app.screen = Screen::OperationPicker;
    press(&mut app, KeyCode::Enter);
    press(&mut app, KeyCode::Char('/'));
    // The typing goes on behind the directory shown.
    for c in "/v.mp4".chars() {
        press(&mut app, KeyCode::Char(c));
    }
    let effects = press(&mut app, KeyCode::Enter);
    let target = match &effects[..] {
        [Effect::Look(path)] => path.clone(),
        other => panic!("{other:?}"),
    };
    assert_eq!(target, "/home/me/v.mp4");
    let effects = app.on_found(target, PathKind::File, Duration::zero(), "/tmp");
    assert!(matches!(&effects[0], Effect::List(dir) if dir == "/home/me"), "{effects:?}");
    assert!(matches!(&effects[1], Effect::Probe { path, .. } if path == "/home/me/v.mp4"));
    assert_eq!(app.screen, Screen::ParameterForm);
}

#[test]
fn presets_are_saved_and_chosen() {
    let mut app = test_app();
    app.form_inputs = vec!["a.mp4".to_string()];
    app.form = Some(compress_form(&["a.mp4".to_string()]));
    app.screen = Screen::ParameterForm;
    press(&mut app, KeyCode::Char('s'));
    assert!(app.save_prompt.is_some());
    for c in "Mine".chars() {
        press(&mut app, KeyCode::Char(c));
    }
    let effects = press(&mut app, KeyCode::Enter);
    assert!(matches!(&effects[..], [Effect::Save(SaveFor::Preset(name))] if name == "Mine"));
    assert_eq!(app.settings.presets.len(), 1);
    app.on_saved(SaveFor::Preset("Mine".to_string()), Ok(()));
    assert_eq!(app.status_message.as_deref(), Some("Preset 'Mine' saved."));

    app.screen = Screen::OperationPicker;
    press(&mut app, KeyCode::Char('p'));
    assert!(app.preset_popup.is_some());
    // The saved one comes last.
    for _ in 0..50 {
        press(&mut app, KeyCode::Down);
    }
    press(&mut app, KeyCode::Enter);
    assert!(app.preset_popup.is_none());
    assert_eq!(app.screen, Screen::FileBrowser);
    assert_eq!(
        app.pending_preset.as_ref().map(|p| p.name.as_str()),
        Some("Mine")
    );
    assert_eq!(app.selected_operation, 1);
}

#[test]
fn a_preset_needs_a_name() {
    let mut app = test_app();
    app.form = Some(compress_form(&["a.mp4".to_string()]));
    app.screen = Screen::ParameterForm;
    press(&mut app, KeyCode::Char('s'));
    press(&mut app, KeyCode::Enter);
    assert_eq!(app.status_message.as_deref(), Some("Preset needs a name."));
    assert!(app.settings.presets.is_empty());
}

#[test]
fn a_probe_of_the_input_feeds_the_job() {
    let mut app = test_app();
    let probe = ProbeResult {
        path: "a.mp4".to_string(),
        duration: Some(Duration::from_secs(60)),
        size_bytes: Some(1234),
        bit_rate_bps: None,
        format_name: None,
        streams: Vec::new(),
    };
    app.form_inputs = vec!["a.mp4".to_string()];
    app.handle_msg(
        BackgroundMsg::ProbeReady {
            path: "a.mp4".to_string(),
            result: Ok(probe),
        },
        Duration::zero(),
        false,
    );
    app.form = Some(compress_form(&["a.mp4".to_string()]));
    let effects = app.start_single_flow();
    assert!(matches!(&effects[..], [Effect::LookSingle { input: None, .. }]));
    app.begin_single(false, Some(9), Duration::zero());
    let run = app.run.as_ref().expect("a job runs");
    assert_eq!(run.total_duration, Some(Duration::from_secs(60)));
    assert_eq!(run.input_size, Some(1234));
}

/// A form whose output field holds the given text.
fn form_with_output(text: &str) -> ParamForm {
    let inputs = ["a.mp4".to_string()];
    let mut form = compress_form(&inputs);
    for field in &mut form.fields {
        if field.id == "output" {
            field.kind = FieldKind::Text {
                value: tui_input::Input::new(text.to_string()),
            };
        }
    }
    let op = operation_for("compress").expect("compress exists");
    form.rebuild(
        &op,
        FormFacts {
            inputs: &inputs,
            probe: None,
            input_probes: Vec::new(),
            caps: None,
            temp_dir: "/tmp",
            now: Duration::zero(),
        },
    );
    form
}

#[test]
fn the_file_looked_at_is_the_one_that_is_written() {
    for (typed, written) in [
        ("myclip", "myclip.mp4"),
        ("", "a_compressed.mp4"),
        ("b.mkv", "b.mkv"),
    ] {
        let mut app = test_app();
        app.form_inputs = vec!["a.mp4".to_string()];
        app.form = Some(form_with_output(typed));
        app.screen = Screen::ParameterForm;
        match &app.start_single_flow()[..] {
            [Effect::LookSingle { output, .. }] => assert_eq!(output, written),
            other => panic!("{other:?}"),
        }
        let effects = app.begin_single(true, Some(1), Duration::zero());
        assert!(effects.is_empty());
        let run = app.run.as_ref().expect("a run");
        assert_eq!(run.phase, RunPhase::ConfirmOverwrite);
        assert_eq!(run.output, written);
        assert_eq!(run.spec.output_path().as_deref(), Some(written));
    }
}

#[test]
fn a_template_without_an_extension_is_looked_at_with_one() {
    let mut app = test_app();
    app.settings.general.batch_template = "{stem}_small".to_string();
    let inputs = ["a.mp4".to_string(), "b.mp4".to_string()];
    app.form_inputs = inputs.to_vec();
    app.form = Some(compress_form(&inputs));
    app.screen = Screen::ParameterForm;
    match &app.start_batch_flow("2026-01-02", "/tmp")[..] {
        [Effect::SurveyBatch(items)] => {
            let outputs: Vec<&str> = items.iter().map(|item| item.output.as_str()).collect();
            assert_eq!(outputs, vec!["a_small.mp4", "b_small.mp4"]);
        }
        other => panic!("{other:?}"),
    }
}
