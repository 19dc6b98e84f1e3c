use syrinx::audio::cpal_backend::list_sources;
use syrinx::audio::source::{SourceKind, SourceTarget};
use syrinx::client::session::FirstFrame;
use syrinx::parakeet::source::{parse_sources, resolve, Source};
use syrinx::parakeet::typer;
use syrinx::parakeet::window::{self, Picker, Row, SessionState, Status};
use syrinx::platform::Platform;
use syrinx::proto::{ClientMessage, ErrorCode, Mode, ServerMessage};

const SAMPLE: &str = r#"[
      {"id": 63, "type": "PipeWire:Interface:Node", "info": {"props": {
        "media.class": "Audio/Source",
        "node.name": "alsa_output.usb-Blue.analog-stereo.monitor",
        "node.description": "Monitor of Blue Microphones"}}},
      {"id": 43, "type": "PipeWire:Interface:Node", "info": {"props": {
        "media.class": "Audio/Source/Virtual",
        "node.name": "rnnoise_source",
        "node.description": "Yeti (RNNoise)"}}},
      {"id": 105, "type": "PipeWire:Interface:Node", "info": {"props": {
        "media.class": "Stream/Output/Audio",
        "node.name": "Firefox",
        "application.name": "Firefox"}}},
      {"id": 999, "type": "PipeWire:Interface:Node", "info": {"props": {
        "media.class": "Audio/Sink",
        "node.name": "some-speaker"}}},
      {"id": 111, "type": "PipeWire:Interface:Port", "info": {"props": {}}}
    ]"#;

#[test]
fn source_finds_microphones_monitors_and_applications() {
    let s = parse_sources(SAMPLE).unwrap();
    assert!(s.iter().any(|x| x.kind == SourceKind::Microphone));
    assert!(s.iter().any(|x| x.kind == SourceKind::Monitor));
    assert!(s.iter().any(|x| x.kind == SourceKind::Application));
}

#[test]
fn source_sinks_are_included_as_monitors_not_ignored() {
    let s = parse_sources(SAMPLE).unwrap();
    let sink = s.iter().find(|x| x.id == 999).expect("sink should appear");
    assert_eq!(sink.kind, SourceKind::Monitor);
}

#[test]
fn source_non_node_objects_are_ignored() {
    let s = parse_sources(SAMPLE).unwrap();
    assert!(!s.iter().any(|x| x.id == 111));
}

#[test]
fn source_monitors_are_classified_by_node_name_not_media_class() {
    let s = parse_sources(SAMPLE).unwrap();
    let mon = s.iter().find(|x| x.id == 63).unwrap();
    assert_eq!(mon.kind, SourceKind::Monitor);
}

#[test]
fn source_virtual_sources_are_treated_as_microphones() {
    let s = parse_sources(SAMPLE).unwrap();
    let rn = s.iter().find(|x| x.id == 43).unwrap();
    assert_eq!(rn.kind, SourceKind::Microphone);
    assert_eq!(rn.name, "Yeti (RNNoise)");
}

#[test]
fn source_applications_use_their_application_name() {
    let s = parse_sources(SAMPLE).unwrap();
    let ff = s.iter().find(|x| x.id == 105).unwrap();
    assert_eq!(ff.name, "Firefox");
}

#[test]
fn devices_get_a_stable_key_but_applications_key_on_name() {
    let s = parse_sources(SAMPLE).unwrap();
    let rn = s.iter().find(|x| x.id == 43).unwrap();
    assert_eq!(rn.stable_key(), "rnnoise_source");
    let ff = s.iter().find(|x| x.id == 105).unwrap();
    assert_eq!(ff.stable_key(), "app:Firefox");
}

#[test]
fn a_remembered_source_resolves_to_a_new_node_id() {
    let moved: Vec<Source> = parse_sources(SAMPLE)
        .unwrap()
        .into_iter()
        .map(|mut x| {
            x.id += 1000;
            x
        })
        .collect();
    let found = resolve(&moved, "app:Firefox").unwrap();
    assert_eq!(found.id, 1105);
}

#[test]
fn an_unknown_key_resolves_to_nothing() {
    let s = parse_sources(SAMPLE).unwrap();
    assert!(resolve(&s, "app:Spotify").is_none());
}

#[test]
fn source_sinks_are_offered_as_system_audio_monitors() {
    let json = r#"[{"id": 64, "type": "PipeWire:Interface:Node", "info": {"props": {
            "media.class": "Audio/Sink",
            "node.name": "alsa_output.pci-0000_0c_00.4.analog-stereo",
            "node.description": "Starship Analog Stereo"}}}]"#;
    let s = parse_sources(json).unwrap();
    assert_eq!(s.len(), 1);
    assert_eq!(s[0].kind, SourceKind::Monitor);
    assert_eq!(s[0].name, "Monitor of Starship Analog Stereo");
}

#[test]
fn source_two_streams_from_one_app_are_distinguishable() {
    let json = r#"[
          {"id": 105, "type": "PipeWire:Interface:Node", "info": {"props": {
            "media.class": "Stream/Output/Audio", "application.name": "Firefox",
            "media.name": "Some Video - YouTube"}}},
          {"id": 100, "type": "PipeWire:Interface:Node", "info": {"props": {
            "media.class": "Stream/Output/Audio", "application.name": "Firefox",
            "media.name": "Another Page"}}}]"#;
    let s = parse_sources(json).unwrap();
    assert_eq!(s.len(), 2);
    assert_ne!(s[0].display(), s[1].display());
    assert_ne!(s[0].stable_key(), s[1].stable_key());
    assert!(s.iter().any(|x| x.display().contains("YouTube")));
}

#[test]
fn long_stream_titles_are_truncated_for_display() {
    let long = "x".repeat(200);
    let src = Source {
        id: 1,
        name: "Firefox".into(),
        kind: SourceKind::Application,
        node_name: None,
        detail: Some(long),
    };
    assert!(src.display().chars().count() < 70, "got {}", src.display());
}

#[test]
fn source_malformed_json_is_an_error_not_a_panic() {
    assert!(parse_sources("not json").is_err());
}

#[test]
fn source_nodes_missing_props_are_skipped() {
    let json = r#"[{"id": 1, "type": "PipeWire:Interface:Node"}]"#;
    assert!(parse_sources(json).unwrap().is_empty());
}

// ---- devices --------------------------------------------------------------------

fn devices() -> (Vec<Option<String>>, Vec<Option<String>>) {
    (
        vec![Some("Webcam".into()), None],
        vec![Some("Headphones".into()), Some("Speakers".into())],
    )
}

#[test]
fn enumeration_does_not_error_on_this_machine() {
    let (inputs, outputs) = devices();
    assert_eq!(list_sources(&inputs, &outputs).len(), 3);
}

#[test]
fn every_source_has_a_stable_key() {
    let (inputs, outputs) = devices();
    for s in list_sources(&inputs, &outputs) {
        assert!(!s.stable_key().is_empty(), "empty key for {}", s.name);
    }
}

#[test]
fn outputs_are_offered_as_monitors_and_inputs_as_microphones() {
    let (inputs, outputs) = devices();
    for s in list_sources(&inputs, &outputs) {
        match &s.target {
            SourceTarget::CpalDevice { loopback: true, .. } => {
                assert_eq!(s.kind, SourceKind::Monitor)
            }
            SourceTarget::CpalDevice {
                loopback: false, ..
            } => assert_eq!(s.kind, SourceKind::Microphone),
            other => panic!("a device listing produced another target: {other:?}"),
        }
    }
}

// ---- the typer ------------------------------------------------------------------

fn commit(text: &str) -> ServerMessage {
    ServerMessage::TranscriptCommit {
        seq: 1,
        text: text.into(),
        speaker: None,
    }
}

#[test]
fn the_typer_types_commits_and_nothing_else() {
    assert_eq!(typer::on_message(&commit("hi ")), typer::Step::Type("hi ".into()));
    let closed = ServerMessage::SessionClosed { reason: "done".into() };
    assert_eq!(typer::on_message(&closed), typer::Step::End);
    let revise = ServerMessage::TranscriptRevise {
        seq: 1,
        retract_n: 2,
        text: "x".into(),
    };
    assert_eq!(typer::on_message(&revise), typer::Step::Unexpected);
    assert!(matches!(
        typer::hello(),
        ClientMessage::SessionStart { mode: Mode::Live, .. }
    ));
}

#[test]
fn the_typer_leaves_text_that_looks_like_a_flag_alone() {
    assert_eq!(typer::type_text("-x").unwrap(), ["--", "-x"]);
    assert!(typer::type_text("").is_none());
}

#[test]
fn the_typer_needs_its_tool() {
    assert!(typer::preflight(&typer::Found::Runs).is_ok());
    assert!(typer::preflight(&typer::Found::Missing).is_err());
    assert!(typer::preflight(&typer::Found::Failed("denied".into())).is_err());
}

#[test]
fn the_typer_runs_once() {
    assert!(typer::may_start(None).is_ok());
    assert!(typer::may_start(Some(7)).is_err());
    assert_ne!(typer::status_line(None), typer::status_line(Some(7)));
    assert_eq!(typer::config_path(&Some("/x.toml".into()), "/base", Platform::Linux), "/x.toml");
    assert!(typer::config_path(&None, "/base", Platform::Linux).starts_with("/base/"));
}

// ---- the window ----------------------------------------------------------------

#[test]
fn status_labels_are_distinct() {
    let all = [
        window::Status::Idle,
        window::Status::Connecting,
        window::Status::Listening,
        window::Status::Stopping,
    ];
    let mut labels: Vec<&str> = all.iter().map(|s| s.label()).collect();
    labels.sort_unstable();
    let before = labels.len();
    labels.dedup();
    assert_eq!(labels.len(), before);
}

#[test]
fn the_window_follows_its_session() {
    let mut s = SessionState::connecting();
    let ready = ServerMessage::SessionReady {
        model: "nemotron".into(),
        chunk_ms: 560,
        diarize: false,
    };
    s.handshake(&FirstFrame::Message(ready), "ws://h").unwrap();
    assert_eq!(s.status, Status::Listening);
    assert!(window::model_line(&s).unwrap().contains("nemotron"));

    let after = s.on_message(&commit("hello "));
    assert!(after.redraw && !after.end);
    assert_eq!(s.transcript, "hello ");

    let revise = ServerMessage::TranscriptRevise {
        seq: 1,
        retract_n: 3,
        text: "p".into(),
    };
    s.on_message(&revise);
    assert_eq!(s.transcript, "help");

    s.stopping();
    assert_eq!(s.status, Status::Stopping);
    let error = ServerMessage::Error {
        code: ErrorCode::Internal,
        message: "boom".into(),
        retryable: false,
    };
    assert!(s.on_message(&error).end);
    assert_eq!(s.error.as_deref(), Some("boom"));
    assert!(matches!(
        window::hello(),
        ClientMessage::SessionStart { mode: Mode::Transcript, .. }
    ));
}

#[test]
fn a_refused_session_says_why() {
    let mut s = SessionState::connecting();
    assert!(s.handshake(&FirstFrame::Closed, "").is_err());
    s.set_error("no".into());
    assert_eq!(s.error.as_deref(), Some("no"));
}

fn picker() -> Picker {
    Picker {
        sources: Vec::new(),
        selected: None,
        list_error: None,
    }
}

#[test]
fn the_picker_keeps_the_source_it_had() {
    let mut p = picker();
    p.refresh_sources(parse_sources(SAMPLE), &Some("app:Firefox".into()));
    assert_eq!(p.selected.as_ref().unwrap().name, "Firefox");
    assert!(p.list_error.is_none());
    p.refresh_sources(parse_sources(SAMPLE), &None);
    assert_eq!(p.selected.as_ref().unwrap().name, "Firefox");
    p.refresh_sources(Err("no pw-dump".into()), &None);
    assert!(p.list_error.unwrap().contains("no pw-dump"));
}

#[test]
fn the_picker_groups_its_rows_by_kind() {
    let mut p = picker();
    p.refresh_sources(parse_sources(SAMPLE), &Some("rnnoise_source".into()));
    let rows = window::rows(&p.sources, &p.selected);
    let headings = rows.iter().filter(|r| matches!(r, Row::Heading(_))).count();
    assert_eq!(headings, 3);
    let chosen: Vec<&Row> = rows
        .iter()
        .filter(|r| matches!(r, Row::Item { chosen: true, .. }))
        .collect();
    assert_eq!(chosen.len(), 1);
    assert!(window::picker_label(&p.selected).contains("Yeti (RNNoise)"));
}

#[test]
fn the_window_shortens_an_address() {
    assert_eq!(window::short_url("ws://192.168.1.10:8770/v1/stream"), "192.168.1.10:8770");
    assert_ne!(
        window::status_mark(Status::Listening).1,
        window::status_mark(Status::Idle).1
    );
    assert_eq!(window::config_path("/base", Platform::Linux), window::config_candidates("/base", Platform::Linux)[0]);
    assert!(window::no_config("/base", Platform::Linux).contains("/base"));
}
