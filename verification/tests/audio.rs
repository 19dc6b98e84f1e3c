use syrinx::audio::capture::{
    after_try, convertible, link_error, native_16k_config, opened, record_args, start, Capture,
    LinkNext, LinkTry, Opened, RateRange, SampleFormat,
};
use syrinx::audio::link::{
    capture_node_by_name, find_capture_node, input_ports_of, link_all, output_ports_of,
    parse_ports, unique_capture_name, Port, RawInfo, RawObject,
};
use syrinx::audio::pipewire::{default_sink_name, list_sources as pipewire_sources, parse_sources};
use syrinx::audio::source::{short_labels, Source, SourceKind, SourceTarget};
use syrinx::audio::{
    caught, choose_source, cpal_backend, list_sources, panic_message, resolve, Listing,
};
use syrinx::platform::Platform;

fn app(name: &str, detail: Option<&str>) -> Source {
    Source {
        target: SourceTarget::PipeWireNode(1),
        name: name.into(),
        kind: SourceKind::Application,
        detail: detail.map(str::to_string),
        stable_name: None,
        sink_description: None,
    }
}

fn monitor(name: &str, stable: &str) -> Source {
    Source {
        target: SourceTarget::PipeWireNode(1),
        name: name.into(),
        kind: SourceKind::Monitor,
        detail: None,
        stable_name: Some(stable.into()),
        sink_description: None,
    }
}

fn mic(name: &str) -> Source {
    Source {
        target: SourceTarget::PipeWireNode(1),
        name: name.into(),
        kind: SourceKind::Microphone,
        detail: None,
        stable_name: None,
        sink_description: None,
    }
}

fn src(name: &str, kind: SourceKind, key: &str) -> Source {
    Source {
        target: SourceTarget::PipeWireNode(1),
        name: name.into(),
        kind,
        detail: None,
        stable_name: Some(key.into()),
        sink_description: None,
    }
}

// ---- what a source is called ----------------------------------------------

#[test]
fn a_device_keys_on_its_stable_name_not_its_id() {
    let s = Source {
        target: SourceTarget::PipeWireNode(43),
        name: "Yeti (RNNoise)".into(),
        kind: SourceKind::Microphone,
        detail: None,
        stable_name: Some("rnnoise_source".into()),
        sink_description: None,
    };
    assert_eq!(s.stable_key(), "rnnoise_source");
}

#[test]
fn two_streams_of_one_app_get_different_keys() {
    assert_ne!(
        app("Firefox", Some("Tab A")).stable_key(),
        app("Firefox", Some("Tab B")).stable_key()
    );
}

#[test]
fn an_app_without_detail_still_has_a_key() {
    assert_eq!(app("Spotify", None).stable_key(), "app:Spotify");
}

#[test]
fn display_includes_detail_when_present() {
    assert_eq!(app("Firefox", Some("Video")).display(), "Firefox — Video");
    assert_eq!(app("Firefox", None).display(), "Firefox");
}

#[test]
fn long_titles_are_truncated_for_display() {
    let s = app("Firefox", Some(&"x".repeat(200)));
    assert!(s.display().chars().count() < 70, "got {}", s.display());
}

#[test]
fn source_truncation_counts_characters_not_bytes() {
    let s = app("Firefox", Some(&"日本語のタイトル".repeat(20)));
    let _ = s.display();
    assert_eq!(s.display().chars().count(), "Firefox — ".chars().count() + 48);
}

#[test]
fn a_monitor_is_labelled_by_what_it_is_not_which_device() {
    let s = Source {
        target: SourceTarget::PipeWireNode(1),
        name: "Everything playing on Starship/Matisse HD Audio Controller Analog Stereo                    (default output)"
            .into(),
        kind: SourceKind::Monitor,
        detail: None,
        stable_name: None,
        sink_description: None,
    };
    assert_eq!(s.short_label(), "System audio");
}

#[test]
fn an_application_is_labelled_by_name_not_by_what_it_is_playing() {
    let s = app("Firefox", Some("Some Very Long Video Title - YouTube"));
    assert_eq!(s.short_label(), "Firefox");
}

#[test]
fn a_microphone_label_drops_the_input_suffix_and_is_bounded() {
    let s = mic("Blue Microphones Analog Stereo (input)");
    assert!(!s.short_label().contains("(input)"));
    assert!(s.short_label().chars().count() <= 24);
}

#[test]
fn two_monitors_are_never_given_one_name() {
    let names = short_labels(&[
        monitor("Speakers", "alsa_output.pci-0000_00.analog"),
        monitor("Headset", "alsa_output.usb-headset.analog"),
    ]);
    assert_eq!(names, ["System audio", "System audio 2"]);
}

#[test]
fn a_lone_monitor_keeps_the_name_it_always_had() {
    let names = short_labels(&[monitor("Speakers", "alsa_output.pci")]);
    assert_eq!(names, ["System audio"]);
}

#[test]
fn microphones_truncated_to_the_same_name_are_still_told_apart() {
    let names = short_labels(&[
        mic("Blue Microphones Yeti Stereo A"),
        mic("Blue Microphones Yeti Stereo B"),
    ]);
    assert_ne!(names[0], names[1]);
}

#[test]
fn three_of_a_kind_get_three_names() {
    let names = short_labels(&[monitor("A", "a"), monitor("B", "b"), monitor("C", "c")]);
    assert_eq!(names, ["System audio", "System audio 2", "System audio 3"]);
}

#[test]
fn a_name_someone_already_has_is_skipped() {
    // "System audio 2" is taken by an application, so the second monitor has
    // to go on to 3.
    let names = short_labels(&[
        monitor("A", "a"),
        app("System audio 2", None),
        monitor("B", "b"),
    ]);
    assert_eq!(names, ["System audio", "System audio 2", "System audio 3"]);
}

#[test]
fn kinds_sort_microphones_before_monitors_before_applications() {
    let mut k = [
        SourceKind::Application,
        SourceKind::Monitor,
        SourceKind::Microphone,
    ];
    k.sort();
    assert_eq!(
        k,
        [
            SourceKind::Microphone,
            SourceKind::Monitor,
            SourceKind::Application
        ]
    );
}

#[test]
fn kinds_are_called_what_a_picker_shows() {
    assert_eq!(SourceKind::Microphone.label(), "Microphone");
    assert_eq!(SourceKind::Monitor.label(), "System audio");
    assert_eq!(SourceKind::Application.label(), "Application");
}

// ---- choosing ---------------------------------------------------------------

#[test]
fn a_remembered_source_wins() {
    let list = vec![
        src("Yeti (RNNoise)", SourceKind::Microphone, "rnnoise_source"),
        src("Webcam", SourceKind::Microphone, "cam"),
    ];
    assert_eq!(choose_source(&list, Some("cam")).unwrap().name, "Webcam");
}

#[test]
fn a_stale_remembered_key_falls_back_instead_of_failing() {
    let list = vec![src("Webcam", SourceKind::Microphone, "cam")];
    assert_eq!(choose_source(&list, Some("gone")).unwrap().name, "Webcam");
}

#[test]
fn a_denoised_microphone_is_preferred_over_the_raw_device() {
    let list = vec![
        src("Blue Microphones", SourceKind::Microphone, "alsa_input.blue"),
        src("Yeti (RNNoise)", SourceKind::Microphone, "rnnoise_source"),
    ];
    assert_eq!(
        choose_source(&list, None).unwrap().name,
        "Yeti (RNNoise)",
        "should prefer the denoised input over the same raw hardware"
    );
}

#[test]
fn system_audio_is_never_chosen_by_default() {
    let list = vec![
        src("Monitor of Speakers", SourceKind::Monitor, "mon"),
        src("Webcam", SourceKind::Microphone, "cam"),
    ];
    assert_eq!(choose_source(&list, None).unwrap().kind, SourceKind::Microphone);
}

#[test]
fn with_only_monitors_available_one_is_still_usable() {
    let list = vec![src("Monitor of Speakers", SourceKind::Monitor, "mon")];
    assert_eq!(choose_source(&list, None).unwrap().kind, SourceKind::Monitor);
}

#[test]
fn an_empty_source_list_is_an_error() {
    assert!(choose_source(&[], None).is_err());
    assert_eq!(
        choose_source(&[], None).unwrap_err(),
        "no capturable audio sources found"
    );
}

#[test]
fn a_key_resolves_to_the_source_that_has_it() {
    let list = vec![
        src("Webcam", SourceKind::Microphone, "cam"),
        src("Yeti", SourceKind::Microphone, "yeti"),
    ];
    assert_eq!(resolve(&list, "yeti").unwrap().name, "Yeti");
    assert!(resolve(&list, "gone").is_none());
}

// ---- devices ----------------------------------------------------------------

fn inputs() -> Vec<Option<String>> {
    vec![Some("Yeti".into()), None, Some("Webcam".into())]
}

fn outputs() -> Vec<Option<String>> {
    vec![Some("Speakers".into())]
}

#[test]
fn cpal_backend_enumeration_does_not_error_on_this_machine() {
    let none: Vec<Option<String>> = Vec::new();
    assert!(cpal_backend::list_sources(&none, &none).is_empty());
    let r = list_sources(&Listing::Devices { inputs: inputs(), outputs: outputs() });
    assert!(r.is_ok(), "listing failed: {:?}", r.err());
    assert_eq!(r.unwrap().len(), 3);
}

#[test]
fn cpal_backend_every_source_has_a_stable_key() {
    for s in cpal_backend::list_sources(&inputs(), &outputs()) {
        assert!(!s.stable_key().is_empty(), "empty key for {}", s.name);
    }
}

#[test]
fn cpal_backend_outputs_are_offered_as_monitors_and_inputs_as_microphones() {
    for s in cpal_backend::list_sources(&inputs(), &outputs()) {
        match &s.target {
            SourceTarget::CpalDevice { loopback: true, .. } => {
                assert_eq!(s.kind, SourceKind::Monitor)
            }
            SourceTarget::CpalDevice { loopback: false, .. } => {
                assert_eq!(s.kind, SourceKind::Microphone)
            }
            other => panic!("cpal backend produced a non-cpal target: {other:?}"),
        }
    }
}

#[test]
fn cpal_backend_a_missing_device_is_an_error_not_a_panic() {
    assert!(cpal_backend::find_device(&inputs(), "no such device exists anywhere").is_err());
    assert_eq!(cpal_backend::find_device(&inputs(), "Webcam"), Ok(2));
}

#[test]
fn an_endpoint_that_panics_while_being_described_is_skipped_not_fatal() {
    let got: Option<String> = cpal_backend::without_panicking(Err(caught(
        "a deliberately broken endpoint",
        &panic_message(Some("could not open property store"), None),
    )));
    assert_eq!(got, None, "a panicking endpoint must drop out of the list");
}

#[test]
fn a_panicking_query_becomes_an_error_carrying_what_it_said() {
    let said = "could not get endpoint data_flow".to_string();
    let text = caught("querying the device", &panic_message(None, Some(&said)));
    assert!(text.contains("querying the device"), "{text}");
    assert!(text.contains("could not get endpoint data_flow"), "{text}");
}

#[test]
fn a_panic_that_says_nothing_is_still_reported() {
    assert_eq!(panic_message(None, None), "no message");
}

#[test]
fn an_endpoint_that_answers_is_passed_straight_through() {
    assert_eq!(
        cpal_backend::without_panicking(Ok(Some("Yeti".to_string()))),
        Some("Yeti".to_string())
    );
    assert_eq!(cpal_backend::without_panicking(Ok(None::<String>)), None);
}

// ---- the graph ---------------------------------------------------------------

fn find(sources: &[Source], id: u32) -> &Source {
    sources
        .iter()
        .find(|s| s.target == SourceTarget::PipeWireNode(id))
        .unwrap_or_else(|| panic!("no source for node {id}"))
}

const SAMPLE: &str = r#"[
  {"id": 63, "type": "PipeWire:Interface:Node", "info": {"props": {
    "media.class": "Audio/Source",
    "node.name": "alsa_output.usb-Blue.analog-stereo.monitor",
    "node.description": "Monitor of Blue Microphones"}}},
  {"id": 43, "type": "PipeWire:Interface:Node", "info": {"props": {
    "media.class": "Audio/Source/Virtual",
    "node.name": "rnnoise_source",
    "node.description": "Yeti (RNNoise)"}}},
  {"id": 105, "type": "PipeWire:Interface:Node", "info": {"props": {
    "media.class": "Stream/Output/Audio",
    "node.name": "Firefox",
    "application.name": "Firefox"}}},
  {"id": 999, "type": "PipeWire:Interface:Node", "info": {"props": {
    "media.class": "Audio/Sink",
    "node.name": "some-speaker"}}},
  {"id": 111, "type": "PipeWire:Interface:Port", "info": {"props": {}}}
]"#;

#[test]
fn pipewire_finds_microphones_monitors_and_applications() {
    let s = parse_sources(SAMPLE).unwrap();
    assert!(s.iter().any(|x| x.kind == SourceKind::Microphone));
    assert!(s.iter().any(|x| x.kind == SourceKind::Monitor));
    assert!(s.iter().any(|x| x.kind == SourceKind::Application));
}

#[test]
fn pipewire_sinks_are_included_as_monitors_not_ignored() {
    let s = parse_sources(SAMPLE).unwrap();
    let sink = find(&s, 999);
    assert_eq!(sink.kind, SourceKind::Monitor);
}

#[test]
fn pipewire_non_node_objects_are_ignored() {
    let s = parse_sources(SAMPLE).unwrap();
    assert!(!s.iter().any(|x| x.target == SourceTarget::PipeWireNode(111)));
}

#[test]
fn pipewire_monitors_are_classified_by_node_name_not_media_class() {
    let s = parse_sources(SAMPLE).unwrap();
    let mon = find(&s, 63);
    assert_eq!(mon.kind, SourceKind::Monitor);
}

#[test]
fn pipewire_virtual_sources_are_treated_as_microphones() {
    let s = parse_sources(SAMPLE).unwrap();
    let rn = find(&s, 43);
    assert_eq!(rn.kind, SourceKind::Microphone);
    assert_eq!(rn.name, "Yeti (RNNoise)");
}

#[test]
fn pipewire_applications_use_their_application_name() {
    let s = parse_sources(SAMPLE).unwrap();
    let ff = find(&s, 105);
    assert_eq!(ff.name, "Firefox");
}

#[test]
fn pipewire_sinks_are_offered_as_system_audio_monitors() {
    let json = r#"[{"id": 64, "type": "PipeWire:Interface:Node", "info": {"props": {
        "media.class": "Audio/Sink",
        "node.name": "alsa_output.pci-0000_0c_00.4.analog-stereo",
        "node.description": "Starship Analog Stereo"}}}]"#;
    let s = parse_sources(json).unwrap();
    assert_eq!(s.len(), 1);
    assert_eq!(s[0].kind, SourceKind::Monitor);
    assert_eq!(s[0].name, "Everything playing on Starship Analog Stereo");
}

#[test]
fn pipewire_two_streams_from_one_app_are_distinguishable() {
    let json = r#"[
      {"id": 105, "type": "PipeWire:Interface:Node", "info": {"props": {
        "media.class": "Stream/Output/Audio", "application.name": "Firefox",
        "media.name": "Some Video - YouTube"}}},
      {"id": 100, "type": "PipeWire:Interface:Node", "info": {"props": {
        "media.class": "Stream/Output/Audio", "application.name": "Firefox",
        "media.name": "Another Page"}}}]"#;
    let s = parse_sources(json).unwrap();
    assert_eq!(s.len(), 2);
    assert_ne!(s[0].display(), s[1].display());
    assert_ne!(s[0].stable_key(), s[1].stable_key());
    assert!(s.iter().any(|x| x.display().contains("YouTube")));
}

#[test]
fn pipewire_malformed_json_is_an_error_not_a_panic() {
    assert!(parse_sources("not json").is_err());
    assert!(parse_sources("not json").unwrap_err().starts_with("parsing pw-dump output: "));
}

#[test]
fn pipewire_nodes_missing_props_are_skipped() {
    let json = r#"[{"id": 1, "type": "PipeWire:Interface:Node"}]"#;
    assert!(parse_sources(json).unwrap().is_empty());
}

#[test]
fn sources_come_in_picker_order_whatever_their_case() {
    let json = r#"[
      {"id": 3, "type": "PipeWire:Interface:Node", "info": {"props": {
        "media.class": "Audio/Source", "node.name": "z", "node.description": "Zebra"}}},
      {"id": 2, "type": "PipeWire:Interface:Node", "info": {"props": {
        "media.class": "Audio/Source", "node.name": "a", "node.description": "ärger"}}},
      {"id": 1, "type": "PipeWire:Interface:Node", "info": {"props": {
        "media.class": "Audio/Source", "node.name": "b", "node.description": "apple"}}},
      {"id": 4, "type": "PipeWire:Interface:Node", "info": {"props": {
        "media.class": "Audio/Source", "node.name": "c", "node.description": "ÄRGER"}}}
    ]"#;
    let s = parse_sources(json).unwrap();
    let names: Vec<&str> = s.iter().map(|x| x.name.as_str()).collect();
    assert_eq!(names, ["apple", "Zebra", "ärger", "ÄRGER"]);
}

#[test]
fn an_input_sharing_an_outputs_name_says_it_is_the_input() {
    let json = r#"[
      {"id": 1, "type": "PipeWire:Interface:Node", "info": {"props": {
        "media.class": "Audio/Source", "node.name": "in", "node.description": "Card"}}},
      {"id": 2, "type": "PipeWire:Interface:Node", "info": {"props": {
        "media.class": "Audio/Sink", "node.name": "out", "node.description": "Card"}}}
    ]"#;
    let s = parse_sources(json).unwrap();
    assert_eq!(find(&s, 1).name, "Card (input)");
    assert_eq!(find(&s, 2).name, "Everything playing on Card");
}

#[test]
fn the_default_output_is_marked() {
    let name = default_sink_name(" some-speaker\n");
    assert_eq!(name.as_deref(), Some("some-speaker"));
    assert_eq!(default_sink_name("  \n"), None);
    let s = pipewire_sources(SAMPLE, &name).unwrap();
    assert_eq!(
        find(&s, 999).name,
        "Everything playing on some-speaker (default output)"
    );
    let unmarked = pipewire_sources(SAMPLE, &None).unwrap();
    assert_eq!(find(&unmarked, 999).name, "Everything playing on some-speaker");
    let listed = list_sources(&Listing::PipeWire {
        dump: SAMPLE.to_string(),
        default_sink: name,
    })
    .unwrap();
    assert_eq!(listed, s);
}

// ---- links ------------------------------------------------------------------

const PORTS: &str = r#"[
  {"id": 124, "type": "PipeWire:Interface:Port", "info": {"props": {
    "node.id": 123, "port.direction": "out", "port.name": "output_FR"}}},
  {"id": 122, "type": "PipeWire:Interface:Port", "info": {"props": {
    "node.id": 123, "port.direction": "out", "port.name": "output_FL"}}},
  {"id": 114, "type": "PipeWire:Interface:Port", "info": {"props": {
    "node.id": 110, "port.direction": "in", "port.name": "input_MONO"}}},
  {"id": 99, "type": "PipeWire:Interface:Node", "info": {"props": {}}}
]"#;

fn objects(dump: &str) -> Result<Vec<RawObject>, String> {
    let values: Vec<serde_json::Value> = serde_json::from_str(dump).map_err(|e| e.to_string())?;
    values
        .iter()
        .map(|o| {
            let id = o.get("id").and_then(|v| v.as_u64()).ok_or("missing field `id`")?;
            let kind = o.get("type").and_then(|v| v.as_str()).ok_or("missing field `type`")?;
            Ok(RawObject {
                id: u32::try_from(id).map_err(|e| e.to_string())?,
                kind: kind.to_string(),
                info: o.get("info").map(|i| RawInfo {
                    props: i.get("props").cloned(),
                }),
            })
        })
        .collect()
}

#[test]
fn a_dump_that_cannot_be_read_says_why() {
    assert_eq!(
        parse_ports(Err("missing field `id`".into())),
        Err("parsing pw-dump output: missing field `id`".into())
    );
    let bare = RawObject {
        id: 7,
        kind: "PipeWire:Interface:Port".into(),
        info: None,
    };
    assert_eq!(parse_ports(Ok(vec![bare])), Ok(vec![]));
}

#[test]
fn parses_ports_and_ignores_other_objects() {
    let p = parse_ports(objects(PORTS)).unwrap();
    assert_eq!(p.len(), 3);
    assert!(!p.iter().any(|x| x.id == 99));
}

#[test]
fn output_ports_come_back_in_channel_order() {
    let p = parse_ports(objects(PORTS)).unwrap();
    let outs = output_ports_of(&p, 123);
    assert_eq!(outs.len(), 2);
    assert_eq!(outs[0].name, "output_FL");
    assert_eq!(outs[1].name, "output_FR");
}

#[test]
fn input_ports_are_found_for_the_capture_node() {
    let p = parse_ports(objects(PORTS)).unwrap();
    assert_eq!(input_ports_of(&p, 110).len(), 1);
}

#[test]
fn a_node_with_no_ports_yields_nothing() {
    let p = parse_ports(objects(PORTS)).unwrap();
    assert!(output_ports_of(&p, 4242).is_empty());
}

#[test]
fn a_capture_node_is_matched_by_its_unique_name() {
    let json = r#"[
      {"id": 200, "type": "PipeWire:Interface:Node", "info": {"props": {
        "media.class": "Stream/Input/Audio", "node.name": "syrinx-capture-1-0"}}},
      {"id": 201, "type": "PipeWire:Interface:Node", "info": {"props": {
        "media.class": "Stream/Input/Audio", "node.name": "syrinx-capture-2-0"}}}
    ]"#;
    let objs: Vec<serde_json::Value> = serde_json::from_str(json).unwrap();
    assert_eq!(find_capture_node(&objs, "syrinx-capture-2-0"), Some(201));
    assert_eq!(find_capture_node(&objs, "syrinx-capture-9-9"), None);
    assert_eq!(capture_node_by_name(json, "syrinx-capture-2-0"), Ok(Some(201)));
    assert!(capture_node_by_name("nonsense", "x").is_err());
}

#[test]
fn playback_streams_are_not_mistaken_for_captures() {
    let objs: Vec<serde_json::Value> = serde_json::from_str(
        r#"[{"id": 300, "type": "PipeWire:Interface:Node", "info": {"props": {
            "media.class": "Stream/Output/Audio", "node.name": "syrinx-capture-1-0"}}}]"#,
    )
    .unwrap();
    assert_eq!(find_capture_node(&objs, "syrinx-capture-1-0"), None);
}

#[test]
fn capture_names_are_unique_within_a_process() {
    assert_ne!(unique_capture_name(77, 0), unique_capture_name(77, 1));
    assert_eq!(unique_capture_name(1, 0), "syrinx-capture-1-0");
}

#[test]
fn link_malformed_json_is_an_error_not_a_panic() {
    assert!(parse_ports(objects("nonsense")).is_err());
}

#[test]
fn every_channel_is_linked_into_the_capture() {
    let p = parse_ports(objects(PORTS)).unwrap();
    assert_eq!(link_all(&p, 123, 110).unwrap(), vec![(122, 114), (124, 114)]);
    assert!(link_all(&p, 4242, 110).is_err());
    assert!(link_all(&p, 123, 4242).is_err());
}

#[test]
fn a_mono_source_feeds_both_sides_of_a_stereo_capture() {
    let port = |id: u32, node_id: u32, direction: &str, name: &str| Port {
        id,
        node_id,
        direction: direction.into(),
        name: name.into(),
    };
    let ports = [
        port(1, 10, "out", "output_MONO"),
        port(3, 20, "in", "input_FR"),
        port(2, 20, "in", "input_FL"),
    ];
    assert_eq!(link_all(&ports, 10, 20).unwrap(), vec![(1, 2), (1, 3)]);
}

// ---- capturing ----------------------------------------------------------------

#[test]
fn a_microphone_is_recorded_and_anything_else_is_linked() {
    let on = |kind: SourceKind| Source {
        target: SourceTarget::PipeWireNode(7),
        name: "x".into(),
        kind,
        detail: None,
        stable_name: None,
        sink_description: None,
    };
    assert!(matches!(
        start(&on(SourceKind::Microphone), Platform::Linux),
        Ok(Capture::PipeWire { node: 7 })
    ));
    assert!(matches!(
        start(&on(SourceKind::Monitor), Platform::Linux),
        Ok(Capture::Linked { node: 7 })
    ));
    assert!(start(&on(SourceKind::Microphone), Platform::Windows).is_err());
}

#[test]
fn recording_asks_for_what_the_model_wants() {
    assert_eq!(
        record_args(Some(7)),
        ["--target", "7", "--rate", "16000", "--channels", "1", "--format", "s16", "-"]
    );
    assert_eq!(record_args(None)[1], "0");
}

#[test]
fn a_link_is_tried_until_the_node_appears_and_no_longer() {
    assert_eq!(after_try(1, LinkTry::NotThere), LinkNext::Look);
    assert_eq!(after_try(40, LinkTry::NotThere), LinkNext::GiveUp);
    assert_eq!(after_try(3, LinkTry::Linked), LinkNext::Record);
    assert_eq!(after_try(3, LinkTry::Refused), LinkNext::GiveUp);
    assert_eq!(
        link_error(9),
        "could not link application node 9 into the capture stream"
    );
}

#[test]
fn a_format_that_cannot_be_converted_is_named() {
    assert!(convertible(&SampleFormat::I16).is_ok());
    assert_eq!(
        convertible(&SampleFormat::Other("F64".into())).unwrap_err(),
        "this device captures in F64, which syrinx cannot convert"
    );
}

#[test]
fn a_native_rate_is_preferred_in_the_best_format() {
    let range = |low: u32, high: u32, format: SampleFormat| RateRange { min: low, max: high, format };
    let ranges = vec![
        range(44_100, 48_000, SampleFormat::F32),
        range(8_000, 48_000, SampleFormat::U8),
        range(8_000, 48_000, SampleFormat::F32),
        range(16_000, 16_000, SampleFormat::I16),
    ];
    assert_eq!(native_16k_config(&ranges), Some(2));
    assert_eq!(native_16k_config(&vec![range(44_100, 48_000, SampleFormat::F32)]), None);
    assert_eq!(
        native_16k_config(&vec![range(8_000, 48_000, SampleFormat::Other("F64".into()))]),
        None
    );
}

#[test]
fn a_stream_that_cannot_be_built_reports_the_error_rather_than_ok() {
    let e = opened(&Opened::Failed("Device does not support input".into()))
        .expect_err("a stream that never built must not report success");
    assert!(
        e.contains("does not support input"),
        "the real error has to survive: {e}"
    );
}

#[test]
fn a_backend_that_panics_reaches_the_caller_as_an_error_with_its_message() {
    let why = caught(
        "opening the audio device",
        &panic_message(Some("could not query IMMDevice interface for IMMEndpoint"), None),
    );
    let e = opened(&Opened::Failed(why)).expect_err("a backend that panicked must not report success");
    assert!(
        e.contains("could not query IMMDevice interface"),
        "got: {e}"
    );
}

#[test]
fn a_device_that_never_opens_is_given_up_on() {
    assert_eq!(
        opened(&Opened::TimedOut).unwrap_err(),
        "the audio device did not open within 10s"
    );
    assert_eq!(
        opened(&Opened::Disconnected).unwrap_err(),
        "the audio thread stopped before the stream started"
    );
    assert!(opened(&Opened::Started).is_ok());
}
