use syrinx::audio::mixer::SourceHealth;
use syrinx::audio::source::{Source, SourceKind, SourceTarget};
use syrinx::client::cli;
use syrinx::client::config::Config;
use syrinx::client::daemon::{
    already_running, decoded, report_hotkey, tray_state, written, Action, DaemonOptions,
    DaemonRuntime, Metering, Published, Started,
};
use syrinx::client::hotkey::{self, Report};
use syrinx::client::ipc::{
    ask_daemon, daemon_state, is_stale_socket, reply, route, socket_path, undecodable,
    DaemonState, Forwarded, Request, Response, Routing,
};
use syrinx::client::mode::{OutputMode, SourceMode};
use syrinx::client::preview::{
    watched, Opening, Preview, Waiting, BANDS, VIEWER_TIMEOUT, WAIT_FOR_OPEN,
};
use syrinx::client::save::{timestamp, turn_texts, Format};
use syrinx::client::segment::Segment;
use syrinx::client::session::{SessionState, Status};
use syrinx::client::tray::TrayCommand;
use syrinx::platform::Platform;

const TODAY: &str = "2026-08-21_14-53-07";
const T0: u64 = 50_000_000_000;

fn seg(at: i64, text: &str, speaker: Option<u32>, source: Option<&str>) -> Segment {
    Segment {
        at: at * 1_000_000_000,
        text: text.into(),
        source: source.map(Into::into),
        speaker,
        seq: None,
    }
}

fn config() -> Config {
    Config {
        url: "ws://127.0.0.1:8770/v1/stream".into(),
        token: "t".into(),
        source_key: None,
        mode: OutputMode::Transcribe,
        diarize: true,
        inject: Default::default(),
        stream_to: None,
        format: Format::Plain,
        hotkey: None,
        waybar_signal: 8,
    }
}

fn options() -> DaemonOptions {
    DaemonOptions {
        config: config(),
        mode: OutputMode::Transcribe,
        source_keys: Vec::new(),
        source_mode: Default::default(),
        save_each: false,
        format: Format::Plain,
        gui_command: None,
        here: Platform::Linux,
    }
}

fn daemon_holding(last: SessionState) -> DaemonRuntime {
    let mut d = DaemonRuntime::begin(options(), 0);
    d.last = last;
    d
}

fn conversation() -> SessionState {
    SessionState {
        transcript: "we ship Thursday no we don't".into(),
        segments: vec![
            seg(0, "we ship Thursday", Some(1), None),
            seg(2, "no we don't", Some(2), None),
        ],
        ..Default::default()
    }
}

/// One tick of the daemon while nothing runs.
fn tick(d: &mut DaemonRuntime, p: &mut Published) {
    if d.text_moved(&[]) {
        d.refresh_text(&[], 0);
    }
    let snap = d.live_snapshot(&[], &None);
    d.publish_into(p, snap);
}

fn device(n: &str) -> Source {
    Source {
        target: SourceTarget::CpalDevice {
            name: n.to_string(),
            loopback: false,
        },
        name: n.to_string(),
        kind: SourceKind::Microphone,
        detail: None,
        stable_name: None,
        sink_description: None,
    }
}

#[test]
fn saving_writes_the_labels_the_window_is_showing() {
    let path = "/tmp/labels.txt".to_string();
    let d = daemon_holding(conversation());
    for format in Format::ALL {
        let (written, text) = d.save(&[], format, &Some(path.clone()), "/out", TODAY).unwrap();
        assert_eq!(written, path);
        assert!(
            text.contains("Speaker 1: we ship Thursday"),
            "{format:?} lost the first label:\n{text}"
        );
        assert!(
            text.contains("Speaker 2: no we don't"),
            "{format:?} lost the second label:\n{text}"
        );
    }
}

#[test]
fn an_unlabelled_transcript_still_saves_as_it_always_did() {
    let d = daemon_holding(SessionState {
        transcript: "just me talking".into(),
        segments: vec![seg(0, "just me talking", None, None)],
        ..Default::default()
    });
    let (_, body) = d
        .save(&[], Format::Plain, &Some("/tmp/u.txt".into()), "/out", TODAY)
        .unwrap();
    assert_eq!(body, "just me talking\n");
}

#[test]
fn a_save_without_a_path_is_named_by_the_moment() {
    let d = daemon_holding(conversation());
    let (path, _) = d.save(&[], Format::Plain, &None, "/out", TODAY).unwrap();
    assert_eq!(path, "/out/2026-08-21_14-53-07.txt");
    assert!(daemon_holding(SessionState::default())
        .save(&[], Format::Plain, &None, "/out", TODAY)
        .is_err());
}

#[test]
fn an_unchanged_transcript_is_not_sent_again() {
    let mut d = daemon_holding(conversation());
    let mut published = Published::default();
    tick(&mut d, &mut published);
    let rev = published.live.revision;
    assert_ne!(rev, 0, "a live daemon must report a real revision");

    let fresh = published.state_since(None);
    assert_eq!(fresh.transcript, "we ship Thursday no we don't");
    assert_eq!(fresh.turns.len(), 2);

    let repeat = published.state_since(Some(rev));
    assert!(repeat.transcript.is_empty(), "the text travelled twice");
    assert!(repeat.turns.is_empty(), "the turns travelled twice");
    assert_eq!(repeat.revision, rev);
    assert_eq!(repeat.status, fresh.status);

    assert!(!published.state_since(Some(rev - 1)).transcript.is_empty());
}

#[test]
fn a_zero_revision_is_never_read_as_unchanged() {
    let published = Published {
        live: DaemonState::default(),
        transcript: "words".into(),
        turns: Vec::new(),
    };
    assert_eq!(published.live.revision, 0);
    assert_eq!(published.state_since(Some(0)).transcript, "words");
}

#[test]
fn the_revision_holds_still_while_the_transcript_does() {
    let mut d = daemon_holding(conversation());
    let mut p = Published::default();
    tick(&mut d, &mut p);
    let first = p.live.revision;
    for _ in 0..10 {
        tick(&mut d, &mut p);
        assert_eq!(p.live.revision, first);
    }
    assert_eq!(p.transcript, "we ship Thursday no we don't");
}

#[test]
fn clearing_the_transcript_moves_the_revision_on() {
    let mut d = daemon_holding(conversation());
    let mut p = Published::default();
    tick(&mut d, &mut p);
    let before = p.live.revision;
    d.clear(&[]);
    tick(&mut d, &mut p);
    assert!(p.live.revision > before, "{before} -> {}", p.live.revision);
    assert!(p.transcript.is_empty());
    assert!(p.turns.is_empty());
}

#[test]
fn turns_are_published_ready_to_render() {
    let mut d = daemon_holding(conversation());
    let mut p = Published::default();
    tick(&mut d, &mut p);
    assert_eq!(
        p.turns,
        vec![
            (Some(1), "we ship Thursday".to_string()),
            (Some(2), "no we don't".to_string()),
        ]
    );
    assert_eq!(p.turns, turn_texts(&d.last.segments));
}

#[test]
fn an_unlabelled_transcript_publishes_no_turns_at_all() {
    let mut d = daemon_holding(SessionState {
        transcript: "just me talking".into(),
        segments: vec![seg(0, "just me talking", None, None)],
        ..Default::default()
    });
    let mut p = Published::default();
    tick(&mut d, &mut p);
    assert_eq!(p.transcript, "just me talking");
    assert!(
        p.turns.is_empty(),
        "nothing is labelled, so there is nothing to lay out in turns"
    );
}

/// Ask for a stream file, and give the config text the request has written.
fn set_stream_file(d: &mut DaemonRuntime, path: Option<&str>) -> String {
    let request = Request::SetStreamFile {
        path: path.map(Into::into),
    };
    let (response, action) = d.on_request(request, &[], T0, "/out", TODAY);
    assert_eq!(response, Some(Response::Done));
    assert!(matches!(action, Action::SaveConfig), "not persisted");
    d.opts.config.save(&None)
}

#[test]
fn a_chosen_stream_file_is_applied_and_written_down() {
    let mut d = daemon_holding(SessionState::default());
    let mut p = Published::default();

    let written = set_stream_file(&mut d, Some("/tmp/notes.txt"));
    tick(&mut d, &mut p);

    assert_eq!(d.opts.config.stream_to.as_deref(), Some("/tmp/notes.txt"));
    assert_eq!(
        p.live.stream_to.as_deref(),
        Some("/tmp/notes.txt"),
        "a window has to see what it just asked for"
    );
    assert!(written.contains("/tmp/notes.txt"), "not persisted:\n{written}");
}

#[test]
fn stopping_the_stream_takes_the_setting_away_for_good() {
    let mut d = daemon_holding(SessionState::default());
    let mut p = Published::default();

    set_stream_file(&mut d, Some("/tmp/notes.txt"));
    let written = set_stream_file(&mut d, None);
    tick(&mut d, &mut p);

    assert_eq!(d.opts.config.stream_to, None);
    assert_eq!(p.live.stream_to, None);
    assert!(!written.contains("/tmp/notes.txt"), "still there:\n{written}");
}

#[test]
fn a_generated_stream_name_from_another_day_is_refreshed_before_a_session() {
    let mut d = daemon_holding(SessionState::default());
    d.opts.config.stream_to = Some("/tmp/2026-08-20_09-14-03.txt".into());

    assert!(d.refresh_stream_name_now(), "not persisted");

    let now = d.opts.config.stream_to.clone().expect("still streaming");
    assert!(now.starts_with("/tmp/"), "the folder was chosen: {now}");
    assert!(now.contains(&timestamp()[..10]), "not today's date: {now}");
    let written = d.opts.config.save(&None);
    assert!(written.contains(&now), "not persisted:\n{written}");
}

#[test]
fn two_sessions_on_one_day_still_meet_in_one_file() {
    let mut d = daemon_holding(SessionState::default());
    d.opts.config.stream_to = Some("/tmp/2026-08-20_09-14-03.txt".into());

    d.refresh_stream_name(TODAY);
    let first = d.opts.config.stream_to.clone().unwrap();
    assert!(!d.refresh_stream_name("2026-08-21_18-00-00"));

    assert_eq!(d.opts.config.stream_to.as_deref(), Some(first.as_str()));
}

#[test]
fn a_stream_file_the_user_named_is_never_renamed() {
    let mut d = daemon_holding(SessionState::default());
    d.opts.config.stream_to = Some("~/transcripts/notes.txt".into());

    assert!(
        !d.refresh_stream_name(TODAY),
        "the config was rewritten for nothing"
    );

    assert_eq!(
        d.opts.config.stream_to.as_deref(),
        Some("~/transcripts/notes.txt")
    );
}

#[test]
fn a_viewer_is_told_what_the_next_session_would_ask_for() {
    let d = daemon_holding(SessionState::default());
    let snap = d.live_snapshot(&[], &None);
    assert!(snap.diarize_configured);
    assert!(!snap.diarize);
    assert!(!snap.diarize_requested);
}

#[test]
fn a_restarted_daemon_never_repeats_a_revision() {
    let mut a = DaemonRuntime::begin(options(), 100);
    let mut b = DaemonRuntime::begin(options(), 101);
    let (mut p, mut q) = (Published::default(), Published::default());
    tick(&mut a, &mut p);
    tick(&mut b, &mut q);
    assert_ne!(p.live.revision, q.live.revision);
    assert_eq!(p.live.revision, (100 << 32) + 1);
}

fn listening() -> SessionState {
    SessionState {
        status: Status::Listening,
        ..Default::default()
    }
}

fn ready(s: Started) -> syrinx::client::daemon::Plan {
    match s {
        Started::Ready(p) => p,
        Started::Failed(e) => panic!("{e}"),
        Started::Ignored => panic!("a session is running"),
    }
}

#[test]
fn starting_needs_a_source_and_nothing_running() {
    let mut d = DaemonRuntime::begin(options(), 1);
    let home = Some("/home/me".to_string());
    let some = Ok(vec![device("Yeti")]);
    assert!(matches!(d.start(&[listening()], &some, &home, TODAY), Started::Ignored));
    match d.start(&[], &Err("no audio".into()), &home, TODAY) {
        Started::Failed(e) => assert_eq!(e, "listing sources: no audio"),
        _ => panic!("nothing could be listed"),
    }
    match d.start(&[], &Ok(Vec::new()), &home, TODAY) {
        Started::Failed(e) => {
            assert_eq!(e, "choosing a source: no capturable audio sources found")
        }
        _ => panic!("there is no source"),
    }
    let plan = ready(d.start(&[], &some, &home, TODAY));
    assert_eq!(plan.sessions.len(), 1);
    assert_eq!(plan.sessions[0].sources[0].name, "Yeti");
    assert_eq!(plan.sessions[0].url, "ws://127.0.0.1:8770/v1/stream");
    assert!(plan.missing.is_empty());
    assert!(!plan.save_config);
}

#[test]
fn combined_sources_share_a_session_and_separate_ones_do_not() {
    let available = Ok(vec![device("Yeti"), device("Webcam")]);
    let mut opts = options();
    opts.mode = OutputMode::Both;
    opts.config.stream_to = Some("/tmp/notes.txt".into());
    if let Ok(v) = &available {
        let v: &Vec<Source> = v;
        opts.source_keys = v.iter().map(|s| s.stable_key()).collect();
    }
    opts.source_keys.push("gone".into());

    let mut d = DaemonRuntime::begin(opts, 1);
    d.opts.source_mode = SourceMode::Combined;
    let plan = ready(d.start(&[], &available, &None, TODAY));
    assert_eq!(plan.sessions.len(), 1);
    assert_eq!(plan.sessions[0].sources.len(), 2);
    assert_eq!(plan.sessions[0].mode, OutputMode::Both);
    assert_eq!(plan.missing, ["gone"]);

    d.opts.source_mode = SourceMode::Separate;
    let plan = ready(d.start(&[], &available, &None, TODAY));
    assert_eq!(plan.sessions.len(), 2);
    assert!(plan.sessions[0].mode.types_at_cursor());
    assert!(
        !plan.sessions[1].mode.types_at_cursor(),
        "two sources typing at one cursor would interleave"
    );
    let paths: Vec<&str> = plan
        .sessions
        .iter()
        .map(|s| s.stream.as_ref().unwrap().0.as_str())
        .collect();
    assert_eq!(paths, ["/tmp/notes-yeti.txt", "/tmp/notes-webcam.txt"]);
}

#[test]
fn a_request_changes_what_it_names_and_answers() {
    let mut d = daemon_holding(conversation());
    let ask = |d: &mut DaemonRuntime, r: Request| d.on_request(r, &[], T0, "/out", TODAY);

    let (r, a) = ask(&mut d, Request::SetMode { mode: OutputMode::Both });
    assert_eq!(r, Some(Response::Done));
    assert!(matches!(a, Action::Nothing | Action::SaveConfig));
    assert_eq!(d.opts.mode, OutputMode::Both);

    let (_, a) = ask(&mut d, Request::Start);
    assert!(matches!(a, Action::Start));
    let (_, a) = ask(&mut d, Request::Toggle);
    assert!(matches!(a, Action::Start));
    let (_, a) = d.on_request(Request::Toggle, &[listening()], T0, "/out", TODAY);
    assert!(matches!(a, Action::Stop));

    let (_, a) = ask(
        &mut d,
        Request::Save {
            format: Format::Plain,
            path: Some("/tmp/x.txt".into()),
        },
    );
    match a {
        Action::Write(files) => {
            assert_eq!(files.len(), 1);
            assert_eq!(files[0].0, "/tmp/x.txt");
            assert!(files[0].1.contains("Speaker 1: we ship Thursday"));
        }
        _ => panic!("a save writes a file"),
    }

    let (_, a) = ask(&mut d, Request::TranscribeFile { path: "/a.mp3".into() });
    assert!(matches!(a, Action::Decode(p) if p == "/a.mp3"));

    let (r, _) = d.on_request(
        Request::TranscribeFile { path: "/a.mp3".into() },
        &[listening()],
        T0,
        "/out",
        TODAY,
    );
    assert!(matches!(r, Some(Response::Error { .. })), "a session is running");

    let (r, a) = ask(&mut d, Request::Quit);
    assert_eq!(r, Some(Response::Done));
    assert!(matches!(a, Action::Quit));
}

#[test]
fn the_tray_asks_for_the_same_things() {
    let mut d = daemon_holding(SessionState::default());
    assert!(matches!(d.on_tray(TrayCommand::Start, &[]), Action::Start));
    assert!(matches!(d.on_tray(TrayCommand::Stop, &[listening()]), Action::Stop));
    assert!(matches!(d.on_tray(TrayCommand::Toggle, &[]), Action::Start));
    assert!(matches!(
        d.on_tray(TrayCommand::SetMode(OutputMode::Type), &[]),
        Action::Nothing
    ));
    assert_eq!(d.opts.mode, OutputMode::Type);
    assert!(matches!(d.on_tray(TrayCommand::ShowWindow, &[]), Action::OpenViewer(_)));
    assert!(matches!(d.on_tray(TrayCommand::Quit, &[]), Action::Quit));
}

#[test]
fn the_words_survive_the_session_that_heard_them() {
    let mut d = daemon_holding(SessionState::default());
    d.opts.save_each = true;
    let done = SessionState {
        status: Status::Idle,
        ..conversation()
    };
    assert!(d.reap_finished_session(&[listening()], "/out", TODAY).is_none());
    let f = d
        .reap_finished_session(&[done], "/out", TODAY)
        .expect("the session has ended");
    let (path, body) = f.save.unwrap().unwrap();
    assert_eq!(path, "/out/2026-08-21_14-53-07.txt");
    assert!(body.contains("we ship Thursday"));
    assert_eq!(d.last.transcript, "we ship Thursday no we don't");
    let mut p = Published::default();
    tick(&mut d, &mut p);
    assert_eq!(p.transcript, "we ship Thursday no we don't");
}

#[test]
fn a_file_is_transcribed_in_the_background() {
    let mut d = daemon_holding(SessionState::default());
    d.file_started();
    d.file_progress(0.5f32.to_bits());
    assert!(!d.reap_file_job());
    let snap = d.live_snapshot(&[], &None);
    assert_eq!(snap.status, Status::Transcribing);
    assert_eq!(f32::from_bits(snap.progress), 0.5);
    d.file_done(Ok("spoken words".into()));
    assert!(d.reap_file_job());
    let mut p = Published::default();
    tick(&mut d, &mut p);
    assert_eq!(p.transcript, "spoken words");

    d.file_started();
    d.file_done(Err("bad header".into()));
    assert!(d.reap_file_job());
    assert_eq!(d.last.error.as_deref(), Some("bad header"));
}

#[test]
fn the_daemon_says_how_its_work_ended() {
    assert_eq!(
        written(Ok(vec!["/a.txt".into()])),
        Response::Saved { path: "/a.txt".into() }
    );
    assert!(matches!(written(Err("disk full".into())), Response::Error { .. }));
    assert_eq!(decoded(Ok(())), Response::Done);
    assert!(matches!(decoded(Err("no such file".into())), Response::Error { .. }));
    assert!(already_running("/run/syrinx.sock").contains("/run/syrinx.sock"));
}

#[test]
fn a_hotkey_is_reported_as_what_became_of_it() {
    let key = Some(hotkey::parse("ctrl+alt+d").unwrap());
    assert_eq!(report_hotkey(&None, None, Platform::Windows, false), Report::Unset);
    assert_ne!(
        report_hotkey(&key, None, Platform::Windows, false),
        report_hotkey(&key, Some("taken".into()), Platform::Windows, false)
    );
}

#[test]
fn metering_follows_the_first_source_while_someone_watches() {
    let mut d = daemon_holding(SessionState::default());
    d.opts.source_keys = vec!["cam".into()];
    assert!(matches!(d.update_preview(&[], T0, &None), Metering::Stop));
    d.on_request(Request::GetState { since: None }, &[], T0, "/out", TODAY);
    match d.update_preview(&[], T0, &None) {
        Metering::Point(k) => assert_eq!(k.as_deref(), Some("cam")),
        _ => panic!("a viewer is watching"),
    }
    assert!(matches!(
        d.update_preview(&[], T0, &Some("cam".into())),
        Metering::Keep
    ));
    assert!(matches!(
        d.update_preview(&[listening()], T0, &Some("cam".into())),
        Metering::Stop
    ));
    assert!(watched(Some(T0), T0 + VIEWER_TIMEOUT - 1));
    assert!(!watched(Some(T0), T0 + VIEWER_TIMEOUT));
}

#[test]
fn the_tray_shows_the_state_of_the_daemon() {
    let s = DaemonState {
        status: Status::Listening,
        mode: OutputMode::Both,
        last_fragment: "hello".into(),
        ..Default::default()
    };
    let t = tray_state(&s);
    assert_eq!((t.status, t.mode), (Status::Listening, OutputMode::Both));
    assert_eq!(t.last_fragment, "hello");
}

// ---- meters ----------------------------------------------------------------------

#[test]
fn starting_a_preview_does_not_wait_for_the_device() {
    let preview = Preview::start(&device("no such device exists anywhere"), T0);
    assert_eq!(*preview.opening(), Opening::Pending);
}

#[test]
fn a_device_that_will_not_open_says_so_rather_than_reading_zero() {
    let mut preview = Preview::start(&device("no such device exists anywhere"), T0);
    preview.opened(Err(
        "no device called `no such device exists anywhere`".to_string(),
    ));
    let e = match preview.wait_until_open(0) {
        Waiting::Failed(e) => e,
        _ => panic!("a device that does not exist must not report success"),
    };
    assert!(e.contains("no such device exists anywhere"), "got: {e:#}");
    assert!(matches!(preview.opening(), Opening::Failed(_)));
}

#[test]
fn an_open_that_takes_too_long_is_given_up() {
    let mut preview = Preview::start(&device("Yeti"), T0);
    assert!(matches!(preview.wait_until_open(0), Waiting::Again));
    assert!(matches!(
        preview.wait_until_open(WAIT_FOR_OPEN),
        Waiting::Failed(e) if e == "the audio device did not open within 15s"
    ));
    preview.opened(Ok(()));
    assert!(matches!(preview.wait_until_open(WAIT_FOR_OPEN), Waiting::Ready));
}

#[test]
fn a_meter_shows_what_it_last_heard() {
    let mut p = Preview::start(&device("Yeti"), T0);
    p.opened(Ok(()));
    assert_eq!(p.levels(), vec![0; BANDS]);
    let levels = vec![0.5f32.to_bits(); BANDS];
    p.heard(T0 + 1, levels.clone(), 0.25f32.to_bits());
    assert_eq!(p.levels(), levels);
    assert_eq!(f32::from_bits(p.rms()), 0.25);
    assert!(!p.silent(T0 + 1));
    assert!(p.silent(T0 + 1 + 60_000_000_000));
    assert_eq!(p.label, "Yeti");
}

// ---- asking the daemon --------------------------------------------------------------

#[test]
fn the_socket_lives_in_the_runtime_directory() {
    let runtime = Some("/run/user/1000".to_string());
    assert!(socket_path(&runtime, Platform::Linux).ends_with("syrinx.sock"));
    assert_eq!(socket_path(&runtime, Platform::Linux), "/run/user/1000/syrinx.sock");
}

#[test]
fn only_a_socket_nobody_answers_is_stale() {
    assert!(is_stale_socket(true, false, Platform::Linux));
    assert!(!is_stale_socket(true, true, Platform::Linux));
    assert!(!is_stale_socket(false, false, Platform::Linux));
    assert!(!is_stale_socket(true, false, Platform::Windows));
}

#[test]
fn a_poll_is_answered_without_the_loop() {
    assert!(matches!(
        route("{}", Ok(Request::GetState { since: Some(3) })),
        Routing::Poll { since: Some(3) }
    ));
    assert!(matches!(route("{}", Ok(Request::Stop)), Routing::Forward(Request::Stop)));
    assert!(matches!(route("  ", Err("eof".into())), Routing::Ignore));
    assert!(matches!(route("x", Err("eof".into())), Routing::Refuse(_)));
}

#[test]
fn a_request_that_goes_nowhere_is_answered_with_an_error() {
    assert_eq!(reply(Forwarded::Answered(Response::Done)), Response::Done);
    assert!(matches!(reply(Forwarded::ShuttingDown), Response::Error { .. }));
    assert!(matches!(reply(Forwarded::TimedOut), Response::Error { .. }));
    assert!(matches!(undecodable("eof"), Response::Error { message } if message.contains("eof")));
}

#[test]
fn an_error_from_the_daemon_is_an_error_here() {
    assert!(ask_daemon(&Response::Done).is_ok());
    assert!(ask_daemon(&Response::Error { message: "no".into() }).is_err());
    assert!(daemon_state(Some(Response::State(DaemonState::default()))).is_some());
    assert!(daemon_state(Some(Response::Done)).is_none());
    assert!(daemon_state(None).is_none());
}

#[test]
fn a_session_is_shown_as_it_stands() {
    let row = SourceHealth {
        label: "Yeti".into(),
        rms: 0.42f32.to_bits(),
        silent: false,
        dropped: 4_800,
        error: None,
    };
    let s = SessionState {
        sources: vec![row],
        ..conversation()
    };
    let d = DaemonState::from_session(&s, OutputMode::Both, Some("cam".into()));
    assert!(d.transcript.is_empty(), "the words are published apart");
    assert_eq!(d.sources, s.sources);
    assert_eq!(d.mode, OutputMode::Both);
    assert_eq!(d.source_key.as_deref(), Some("cam"));
    assert_eq!(d.clone(), d);
}

// ---- the command line -----------------------------------------------------------------

#[test]
fn every_flag_value_maps_to_its_format() {
    assert_eq!(Format::from(cli::FormatArg::Plain), Format::Plain);
    assert_eq!(Format::from(cli::FormatArg::Timestamped), Format::Timestamped);
    assert_eq!(Format::from(cli::FormatArg::Labelled), Format::Labelled);
}

#[test]
fn a_flag_beats_the_config_file() {
    let mut cfg = config();
    cfg.format = Format::Labelled;
    cfg.mode = OutputMode::Both;
    cfg.source_key = Some("cam".into());
    assert_eq!(cli::resolve_format(None, &cfg), Format::Labelled);
    assert_eq!(
        cli::resolve_format(Some(cli::FormatArg::Plain), &cfg),
        Format::Plain
    );
    assert_eq!(cli::resolve_mode(None, &cfg), OutputMode::Both);
    assert_eq!(
        cli::resolve_mode(Some(cli::ModeArg::Type), &cfg),
        OutputMode::Type
    );
    assert_eq!(cli::resolve_source(&None, &cfg).as_deref(), Some("cam"));
    assert_eq!(
        cli::resolve_source(&Some("mic".into()), &cfg).as_deref(),
        Some("mic")
    );
}

#[test]
fn a_running_session_is_signalled_before_the_daemon_is_asked() {
    assert!(matches!(cli::who_to_ask(Some(7), true), cli::Step::Signal(7)));
    assert!(matches!(cli::who_to_ask(None, true), cli::Step::AskDaemon));
    assert!(matches!(cli::who_to_ask(None, false), cli::Step::Idle));
    assert!(cli::may_start(None).is_ok());
    assert!(cli::may_start(Some(7)).unwrap_err().contains('7'));
}

#[test]
fn a_run_in_one_terminal_types_once() {
    let run = cli::RunOptions {
        mode: OutputMode::Both,
        separate: true,
        stream: Some("/tmp/notes.txt".into()),
        format: Format::Plain,
    };
    let plan = cli::plan_run(&config(), &run, vec![device("Yeti"), device("Webcam")], &None, Platform::Linux);
    assert_eq!(plan.len(), 2);
    assert!(plan[0].mode.types_at_cursor());
    assert!(!plan[1].mode.types_at_cursor());
}

#[test]
fn every_session_of_a_run_appends_to_the_same_file() {
    let run = cli::RunOptions {
        mode: OutputMode::Transcribe,
        separate: true,
        stream: Some("/tmp/notes.txt".into()),
        format: Format::Plain,
    };
    let two = vec![device("Yeti"), device("Webcam")];
    let plan = cli::plan_run(&config(), &run, two, &None, Platform::Linux);
    assert_eq!(plan[0].label.as_deref(), Some("Yeti"));
    assert_eq!(plan[1].label.as_deref(), Some("Webcam"));
    for session in &plan {
        assert_eq!(session.stream, Some(("/tmp/notes.txt".into(), Format::Plain)));
    }
    let mut cfg = config();
    cfg.stream_to = Some("~/talk.txt".into());
    let asked = cli::RunOptions {
        stream: None,
        ..run
    };
    let home = Some("/home/me".to_string());
    let plan = cli::plan_run(&cfg, &asked, vec![device("Yeti")], &home, Platform::Linux);
    assert_eq!(plan[0].stream, Some(("/home/me/talk.txt".into(), Format::Plain)));
}

fn cfg_with(format: Format) -> Config {
    let mut c = config();
    c.format = format;
    c
}

#[test]
fn the_config_decides_when_no_flag_is_given() {
    let cfg = cfg_with(Format::Timestamped);
    assert_eq!(cli::resolve_format(None, &cfg), Format::Timestamped);
}

#[test]
fn the_flag_wins_over_the_config() {
    let cfg = cfg_with(Format::Timestamped);
    assert_eq!(
        cli::resolve_format(Some(cli::FormatArg::Labelled), &cfg),
        Format::Labelled
    );
}

#[test]
fn asking_for_plain_is_not_the_same_as_saying_nothing() {
    let cfg = cfg_with(Format::Labelled);
    assert_eq!(
        cli::resolve_format(Some(cli::FormatArg::Plain), &cfg),
        Format::Plain
    );
    assert_eq!(cli::resolve_format(None, &cfg), Format::Labelled);
}

#[test]
fn the_end_of_a_run_prints_and_saves_what_was_asked_for() {
    let save = cli::SaveOptions {
        to: Some("/tmp/out.txt".into()),
        to_default: false,
        split: false,
    };
    let end = cli::ending(
        &conversation(),
        OutputMode::Transcribe,
        &save,
        Format::Plain,
        "/out",
        TODAY,
        Platform::Linux,
    );
    assert!(end.outcome.is_ok());
    assert_eq!(end.files.len(), 1);
    assert_eq!(end.files[0].0, "/tmp/out.txt");

    let nothing = cli::ending(
        &SessionState::default(),
        OutputMode::Transcribe,
        &save,
        Format::Plain,
        "/out",
        TODAY,
        Platform::Linux,
    );
    assert!(nothing.files.is_empty());
    assert!(nothing.outcome.is_err(), "a save that wrote nothing must say so");
}

#[test]
fn merging_for_the_terminal_keeps_every_word() {
    let other = SessionState {
        segments: vec![seg(1, " (yes)", None, Some("System"))],
        ..Default::default()
    };
    let merged = cli::merge_cli_states(&[conversation(), other]);
    let texts: Vec<&str> = merged.segments.iter().map(|s| s.text.as_str()).collect();
    assert_eq!(texts, ["we ship Thursday", " (yes)", "no we don't"]);
}

#[test]
fn a_failure_of_the_second_source_fails_the_run() {
    let failed = SessionState {
        error: Some("the server hung up".into()),
        ..Default::default()
    };
    let merged = cli::merge_cli_states(&[conversation(), failed]);
    assert_eq!(merged.error.as_deref(), Some("the server hung up"));
    let save = cli::SaveOptions {
        to: None,
        to_default: false,
        split: false,
    };
    let end = cli::ending(
        &merged,
        OutputMode::Transcribe,
        &save,
        Format::Plain,
        "/out",
        TODAY,
        Platform::Linux,
    );
    assert!(end.print.is_some(), "what was recorded is still printed");
    assert_eq!(end.outcome.unwrap_err(), "the server hung up");
}

#[test]
fn sources_are_listed_with_their_keys() {
    let lines = cli::source_lines(&[device("Yeti")]);
    assert_eq!(lines.len(), 2, "a heading, then the source");
    assert!(lines[1].contains("Yeti") && lines[1].ends_with(&device("Yeti").stable_key()));
    let picked = cli::chosen_sources(
        &vec![device("Webcam").stable_key()],
        &[device("Yeti"), device("Webcam")],
        &None,
    );
    assert_eq!(picked.unwrap()[0].name, "Webcam");
}

#[test]
fn the_window_is_looked_for_beside_the_program() {
    let beside = Some("/opt/bin/syrinx-gui".to_string());
    assert_eq!(cli::gui_command(&beside, true), "/opt/bin/syrinx-gui");
    assert_eq!(cli::gui_command(&beside, false), "syrinx-gui");
    assert_eq!(cli::gui_command(&None, false), "syrinx-gui");
}

#[test]
fn the_status_line_tells_a_run_from_a_daemon() {
    assert_eq!(cli::status_line(None, &None), "idle");
    assert_eq!(cli::status_line(Some(7), &None), "running (pid 7)");
    let listening = Some(DaemonState {
        status: Status::Listening,
        mode: OutputMode::Both,
        ..Default::default()
    });
    assert_eq!(
        cli::status_line(None, &listening),
        "listening (daemon, mode both)"
    );
    assert_eq!(cli::status_line(Some(7), &listening), "running (pid 7)");
}
