use syrinx::client::bulk;
use syrinx::client::hotkey::{code_for, is_standalone, parse, supported_here, Report};
use syrinx::client::icon::{icon_rgba, ICON};
use syrinx::client::inject::{
    paste, preflight, type_text, AutoChoice, Method, PasteStep, Probe, Typing,
};
use syrinx::client::mode::{OutputMode, SourceMode};
use syrinx::client::session::Status;
use syrinx::client::state::{
    default_pid_path, parse_pid, pid_text, refresh_waybar, running_pid, signal_stop,
    stop_request_path, typer_pid_path, StopBy,
};
use syrinx::client::tray::{
    fixed_menu, icon_name, menu, mode_command, tooltip, MenuEntry, TrayCommand, TrayState,
};
use syrinx::client::windows_input::{delivered, type_keys, Key};
use syrinx::platform::Platform;
use syrinx::proto::{
    decode_pcm, encode_pcm, Encoding, ErrorCode, Mode, PcmReader, ServerMessage, ClientMessage,
};
use syrinx::text::truncate;

// ---- modes ------------------------------------------------------------------

#[test]
fn any_mode_that_types_must_use_the_append_only_wire_mode() {
    for m in OutputMode::ALL {
        if m.types_at_cursor() {
            assert_eq!(m.wire_mode(), Mode::Live, "{m:?} types but is not Live");
        }
    }
}

#[test]
fn transcribe_only_may_accept_revisions() {
    assert_eq!(OutputMode::Transcribe.wire_mode(), Mode::Transcript);
}

#[test]
fn both_keeps_a_transcript_and_types() {
    assert!(OutputMode::Both.types_at_cursor());
    assert!(OutputMode::Both.keeps_transcript());
}

#[test]
fn type_mode_does_not_accumulate() {
    assert!(!OutputMode::Type.keeps_transcript());
}

#[test]
fn mode_labels_are_distinct() {
    let mut l: Vec<&str> = OutputMode::ALL.iter().map(|m| m.label()).collect();
    l.sort_unstable();
    let n = l.len();
    l.dedup();
    assert_eq!(l.len(), n);
}

#[test]
fn typing_at_the_cursor_is_the_default() {
    assert_eq!(OutputMode::default(), OutputMode::Type);
    assert_eq!(SourceMode::default(), SourceMode::Combined);
}

// ---- typing -------------------------------------------------------------------

#[test]
fn the_default_is_the_same_setting_on_every_platform() {
    assert_eq!(Method::default(), Method::Auto);
}

#[test]
fn auto_resolves_to_something_that_works_here() {
    for here in [Platform::Linux, Platform::Windows] {
        let r = Method::Auto.resolve(&mut AutoChoice::new(), here, false);
        assert_ne!(r, Method::Auto, "resolve must produce a concrete method");
        assert!(r.supported_here(here), "{r:?} cannot work on this platform");
    }
}

#[test]
fn auto_picks_a_linux_method() {
    let r = Method::Auto.resolve(&mut AutoChoice::new(), Platform::Linux, false);
    assert!(
        matches!(r, Method::Wtype | Method::Ydotool),
        "auto chose {r:?} on Linux"
    );
    assert!(r.supported_here(Platform::Linux));
    assert_eq!(Method::Auto.resolve(&mut AutoChoice::new(), Platform::Linux, true), Method::Ydotool);
    assert_eq!(Method::Auto.resolve(&mut AutoChoice::new(), Platform::Linux, false), Method::Wtype);
}

#[test]
fn auto_is_stable_within_a_process() {
    let mut choice = AutoChoice::new();
    assert!(choice.asks(Platform::Linux), "the first answer takes a look");
    let first = Method::Auto.resolve(&mut choice, Platform::Linux, true);
    assert_eq!(first, Method::Auto.resolve(&mut choice, Platform::Linux, true));
    // ydotoold went away: what was settled stays.
    assert!(!choice.asks(Platform::Linux));
    assert_eq!(first, Method::Auto.resolve(&mut choice, Platform::Linux, false));
    assert_eq!(first, Method::Ydotool);
}

#[test]
fn an_explicit_method_settles_nothing() {
    let mut choice = AutoChoice::new();
    Method::Wtype.resolve(&mut choice, Platform::Linux, true);
    type_text("", Method::Auto, &mut choice, Platform::Linux, true);
    assert_eq!(choice.settled, None);
    assert_eq!(Method::Auto.resolve(&mut choice, Platform::Linux, false), Method::Wtype);
    assert!(!AutoChoice::new().asks(Platform::Windows));
}

#[test]
fn inject_config_names_match_what_serde_accepts() {
    for m in Method::ALL {
        let quoted = format!("\"{}\"", m.name());
        let read: String = serde_json::from_str(&quoted).unwrap();
        assert_eq!(
            Method::named(&read).unwrap(),
            m,
            "name() disagrees with serde for {m:?}"
        );
    }
    assert_eq!(Method::named("Wtype"), None);
    assert_eq!(Method::named(""), None);
}

#[test]
fn mode_names_are_read_back() {
    for m in OutputMode::ALL {
        assert_eq!(OutputMode::named(m.name()), Some(m));
    }
    assert_eq!(OutputMode::named("typing"), None);
}

#[test]
fn auto_is_sendinput_on_windows() {
    assert_eq!(Method::Auto.resolve(&mut AutoChoice::new(), Platform::Windows, false), Method::SendInput);
}

#[test]
fn an_explicit_choice_is_never_second_guessed() {
    for m in Method::ALL.iter().filter(|m| **m != Method::Auto) {
        assert_eq!(m.resolve(&mut AutoChoice::new(), Platform::Linux, true), *m);
        assert_eq!(m.resolve(&mut AutoChoice::new(), Platform::Windows, false), *m);
    }
}

#[test]
fn every_method_names_a_distinct_binary() {
    let mut b: Vec<&str> = Method::ALL.iter().filter_map(|m| m.binary()).collect();
    b.sort_unstable();
    let n = b.len();
    b.dedup();
    assert_eq!(b.len(), n);
}

#[test]
fn the_default_can_always_be_used() {
    for here in [Platform::Linux, Platform::Windows, Platform::Other] {
        assert!(Method::default().supported_here(here));
    }
}

#[test]
fn every_platform_has_at_least_one_usable_method() {
    for here in [Platform::Linux, Platform::Windows, Platform::Other] {
        assert!(Method::ALL.iter().any(|m| m.supported_here(here)));
    }
}

#[test]
fn inject_labels_are_distinct() {
    let mut l: Vec<&str> = Method::ALL.iter().map(|m| m.label()).collect();
    l.sort_unstable();
    let n = l.len();
    l.dedup();
    assert_eq!(l.len(), n);
}

#[test]
fn typing_nothing_is_a_no_op_for_every_method() {
    for m in Method::ALL {
        assert!(matches!(
            type_text("", m, &mut AutoChoice::new(), Platform::Linux, false),
            Typing::Nothing
        ));
    }
}

#[test]
fn text_that_starts_with_a_dash_is_not_a_flag() {
    match type_text("-x", Method::Wtype, &mut AutoChoice::new(), Platform::Linux, false) {
        Typing::Run { program, args } => {
            assert_eq!(program, "wtype");
            assert_eq!(args, ["--", "-x"]);
        }
        _ => panic!("wtype is a command"),
    }
    match type_text("hi", Method::Auto, &mut AutoChoice::new(), Platform::Linux, true) {
        Typing::Run { program, args } => {
            assert_eq!(program, "ydotool");
            assert_eq!(args, ["type", "--key-delay", "0", "--", "hi"]);
        }
        _ => panic!("ydotool is a command"),
    }
    assert!(matches!(
        type_text("hi", Method::Paste, &mut AutoChoice::new(), Platform::Linux, false),
        Typing::Paste
    ));
    assert!(matches!(
        type_text("hi", Method::SendInput, &mut AutoChoice::new(), Platform::Linux, false),
        Typing::Refused(_)
    ));
    match type_text("a", Method::SendInput, &mut AutoChoice::new(), Platform::Windows, false) {
        Typing::Keys(k) => assert_eq!(k.len(), 2),
        _ => panic!("SendInput sends keys"),
    }
}

#[test]
fn the_clipboard_is_put_back_only_when_it_held_something() {
    assert_eq!(
        paste(true),
        [PasteStep::Copy, PasteStep::Press, PasteStep::Wait(120), PasteStep::Restore]
    );
    assert_eq!(paste(false), [PasteStep::Copy, PasteStep::Press]);
}

#[test]
fn a_method_that_cannot_work_is_refused_before_a_session() {
    let check = |m: Method, here: Platform, ydotoold: bool, running: bool, probe: &Probe| {
        preflight(m, &mut AutoChoice::new(), here, ydotoold, running, probe)
    };
    assert!(check(Method::Wtype, Platform::Linux, false, false, &Probe::Found).is_ok());
    assert!(check(Method::Wtype, Platform::Linux, false, false, &Probe::Missing).is_err());
    assert!(check(Method::SendInput, Platform::Linux, false, false, &Probe::Found).is_err());
    assert!(check(Method::Wtype, Platform::Windows, false, false, &Probe::Found).is_err());
    assert!(check(Method::Ydotool, Platform::Linux, false, false, &Probe::Found).is_err());
    assert!(check(Method::Ydotool, Platform::Linux, true, true, &Probe::Found).is_ok());
    // A daemon that went away since `auto` was settled on it.
    assert!(check(Method::Auto, Platform::Linux, true, false, &Probe::Found).is_err());
}

fn encode(text: &str) -> Vec<u16> {
    type_keys(text)
        .into_iter()
        .filter_map(|k| match k {
            Key::Unit { unit, up: false } => Some(unit),
            Key::Enter { up: false } => Some(b'\n' as u16),
            _ => None,
        })
        .collect()
}

#[test]
fn typing_nothing_sends_nothing() {
    assert!(type_keys("").is_empty());
    assert!(delivered(0, 0).is_ok());
}

#[test]
fn astral_characters_become_surrogate_pairs() {
    assert_eq!(encode("\u{1F600}").len(), 2);
    assert_eq!(encode("\u{1F600}"), "\u{1F600}".encode_utf16().collect::<Vec<u16>>());
}

#[test]
fn crlf_presses_enter_once() {
    assert_eq!(
        encode("a\r\nb"),
        vec![b'a' as u16, b'\n' as u16, b'b' as u16]
    );
}

#[test]
fn every_press_is_released() {
    let k = type_keys("a\n");
    assert_eq!(
        k,
        [
            Key::Unit { unit: 97, up: false },
            Key::Unit { unit: 97, up: true },
            Key::Enter { up: false },
            Key::Enter { up: true },
        ]
    );
}

#[test]
fn keys_that_were_not_delivered_are_an_error() {
    assert_eq!(
        delivered(2, 4).unwrap_err(),
        "SendInput delivered 2 of 4 events. If the focused window is running as administrator, syrinx must be too."
    );
}

// ---- hotkeys ------------------------------------------------------------------

#[test]
fn a_plain_combination_parses() {
    let h = parse("ctrl+alt+d").unwrap();
    assert!(h.mods.ctrl && h.mods.alt);
    assert!(!h.mods.shift && !h.mods.meta);
    assert_eq!(h.code, "KeyD");
}

#[test]
fn spelling_and_spacing_are_forgiving() {
    for s in ["CTRL+ALT+D", "Ctrl + Alt + D", "  ctrl+alt+d  "] {
        assert_eq!(parse(s).unwrap().code, "KeyD", "failed on {s:?}");
    }
}

#[test]
fn a_hotkey_may_be_spelled_in_any_order() {
    let h = parse("ctrl+alt+d").unwrap();
    for s in ["alt+ctrl+d", "d+ctrl+alt", " D + Alt+CTRL"] {
        let other = parse(s).unwrap();
        assert_eq!((other.mods, &other.code), (h.mods, &h.code), "failed on {s:?}");
    }
    for s in ["d+e+ctrl", "e+ctrl+d", "ctrl++d", "+ctrl+d"] {
        assert!(parse(s).is_err(), "accepted {s:?}");
    }
}

#[test]
fn every_name_for_the_super_key_works() {
    for s in ["super+n", "win+n", "cmd+n", "meta+n"] {
        assert!(parse(s).unwrap().mods.meta, "failed on {s:?}");
    }
}

#[test]
fn function_keys_need_no_modifier() {
    let h = parse("f9").unwrap();
    assert_eq!(h.code, "F9");
    assert!(!h.mods.any());
}

#[test]
fn a_bare_letter_is_refused() {
    let e = parse("d").unwrap_err().to_string();
    assert!(e.contains("no modifier"), "got: {e}");
}

#[test]
fn modifiers_alone_are_refused() {
    let e = parse("ctrl+alt").unwrap_err().to_string();
    assert!(e.contains("needs a key"), "got: {e}");
}

#[test]
fn two_ordinary_keys_are_refused() {
    let e = parse("ctrl+a+b").unwrap_err().to_string();
    assert!(e.contains("more than one"), "got: {e}");
}

#[test]
fn an_unknown_key_names_itself() {
    let e = parse("ctrl+alt+wibble").unwrap_err().to_string();
    assert!(e.contains("wibble"), "got: {e}");
}

#[test]
fn empty_and_malformed_specs_are_refused() {
    assert!(parse("").is_err());
    assert!(parse("   ").is_err());
    assert!(parse("ctrl+").is_err());
    assert!(parse("+d").is_err());
}

#[test]
fn named_keys_map_to_w3c_codes() {
    assert_eq!(parse("ctrl+space").unwrap().code, "Space");
    assert_eq!(parse("ctrl+enter").unwrap().code, "Enter");
    assert_eq!(parse("ctrl+pgup").unwrap().code, "PageUp");
    assert_eq!(parse("ctrl+7").unwrap().code, "Digit7");
}

#[test]
fn the_original_spelling_is_kept_for_messages() {
    assert_eq!(parse("Ctrl+Alt+D").unwrap().spelled, "Ctrl+Alt+D");
}

#[test]
fn f24_is_the_last_function_key() {
    assert_eq!(parse("f24").unwrap().code, "F24");
    assert!(parse("f25").is_err());
}

#[test]
fn codes_stand_for_keys() {
    assert_eq!(code_for("d").as_deref(), Some("KeyD"));
    assert_eq!(code_for("wibble"), None);
    assert!(is_standalone("F9"));
    assert!(!is_standalone("KeyD"));
}

#[test]
fn a_hotkey_works_where_a_process_may_claim_one() {
    assert!(supported_here(Platform::Windows, false).is_none());
    assert!(supported_here(Platform::Linux, false).is_none());
    assert!(supported_here(Platform::Linux, true).unwrap().contains("Wayland"));
    assert!(supported_here(Platform::Other, false).is_some());
    assert_eq!(Report::default(), Report::Unset);
}

// ---- the tray -------------------------------------------------------------------

#[test]
fn long_fragments_are_truncated_for_the_menu() {
    assert!(truncate(&"x".repeat(100), 40).chars().count() <= 40);
}

#[test]
fn short_fragments_are_left_alone() {
    assert_eq!(truncate("hello", 40), "hello");
}

#[test]
fn identical_state_is_recognised_so_the_tray_is_not_spammed() {
    let a = TrayState::default();
    assert!(a.same_as(&TrayState::default()));
}

#[test]
fn a_changed_status_is_not_treated_as_identical() {
    let a = TrayState::default();
    let b = TrayState {
        status: Status::Listening,
        ..Default::default()
    };
    assert!(!a.same_as(&b));
    assert!(!a.looks_like(&b));
}

#[test]
fn tray_truncation_counts_characters_not_bytes() {
    let _ = truncate(&"日本語".repeat(40), 10);
    assert_eq!(truncate(&"日本語".repeat(40), 10).chars().count(), 10);
}

#[test]
fn the_tooltip_says_what_is_happening() {
    let listening = TrayState {
        status: Status::Listening,
        mode: OutputMode::Both,
        last_fragment: String::new(),
    };
    assert_eq!(
        tooltip(&listening),
        format!("Syrinx — listening ({})", OutputMode::Both.label())
    );
    assert_eq!(tooltip(&TrayState::default()), "Syrinx — idle");
    assert_ne!(icon_name(Status::Listening), icon_name(Status::Idle));
}

#[test]
fn the_menu_starts_when_idle_and_stops_when_not() {
    let texts = |s: &TrayState| -> Vec<String> {
        menu(s)
            .iter()
            .filter_map(|e| match e {
                MenuEntry::Item { label, .. } => Some(label.clone()),
                _ => None,
            })
            .collect()
    };
    let idle = TrayState::default();
    let live = TrayState {
        status: Status::Listening,
        mode: OutputMode::Type,
        last_fragment: "x".repeat(100),
    };
    assert!(texts(&idle).iter().any(|l| l.contains("Start")));
    assert!(!texts(&live).iter().any(|l| l.contains("Start")));
    assert!(texts(&live).iter().any(|l| l.contains("Stop")));
    for e in menu(&idle) {
        if let MenuEntry::Modes { items, .. } = e {
            assert_eq!(items.len(), 3);
            assert_eq!(items.iter().filter(|i| i.checked).count(), 1);
            for i in &items {
                assert!(matches!(mode_command(i), TrayCommand::SetMode(_)));
            }
        }
    }
}

#[test]
fn a_menu_that_never_changes_offers_every_command() {
    let items = fixed_menu();
    let commands: Vec<TrayCommand> = items.into_iter().flatten().map(|(_, c)| c).collect();
    assert_eq!(
        commands,
        [
            TrayCommand::Toggle,
            TrayCommand::SetMode(OutputMode::Transcribe),
            TrayCommand::SetMode(OutputMode::Type),
            TrayCommand::SetMode(OutputMode::Both),
            TrayCommand::ShowWindow,
            TrayCommand::Quit,
        ]
    );
}

const ALL: [Status; 5] = [
    Status::Idle,
    Status::Listening,
    Status::Connecting,
    Status::Stopping,
    Status::Transcribing,
];

#[test]
fn every_icon_has_exactly_the_pixels_its_dimensions_promise() {
    for s in ALL {
        assert_eq!(icon_rgba(s).len(), (ICON * ICON * 4) as usize, "{s:?}");
    }
}

#[test]
fn listening_is_visibly_different_from_idle() {
    assert_ne!(icon_rgba(Status::Idle), icon_rgba(Status::Listening));
}

#[test]
fn the_icon_is_a_disc_not_a_square() {
    let px = icon_rgba(Status::Listening);
    let at = |x: u32, y: u32| px[((y * ICON + x) * 4 + 3) as usize];
    assert_eq!(at(0, 0), 0, "the corner should be transparent");
    assert_eq!(at(ICON - 1, ICON - 1), 0, "the corner should be transparent");
    assert_eq!(at(ICON / 2, ICON / 2), 255, "the centre should be opaque");
}

#[test]
fn the_edge_of_the_disc_is_feathered() {
    let px = icon_rgba(Status::Idle);
    let centre = (ICON as f32 - 1.0) / 2.0;
    let radius = ICON as f32 / 2.0 - 1.0;
    for y in 0..ICON {
        for x in 0..ICON {
            let dx = x as f32 - centre;
            let dy = y as f32 - centre;
            let d = (dx * dx + dy * dy).sqrt();
            let a = ((radius - d).clamp(0.0, 1.0) * 255.0) as u8;
            assert_eq!(px[((y * ICON + x) * 4 + 3) as usize], a, "at {x},{y}");
        }
    }
    assert_eq!(&px[..3], &[150, 150, 158]);
}

// ---- the PID file ---------------------------------------------------------------

#[test]
fn state_missing_pid_file_reads_as_not_running() {
    assert_eq!(running_pid(None, false), None);
}

#[test]
fn state_our_own_pid_reads_as_running() {
    let me = 12345;
    assert_eq!(running_pid(parse_pid(&pid_text(me)), true), Some(me));
}

#[test]
fn state_stale_pid_file_reads_as_not_running() {
    assert_eq!(running_pid(parse_pid(&pid_text(4_194_303)), false), None);
}

#[test]
fn state_garbage_pid_file_reads_as_not_running() {
    assert_eq!(parse_pid("not-a-number"), None);
    assert_eq!(parse_pid("12 34"), None);
    assert_eq!(parse_pid("99999999999"), None);
    assert_eq!(parse_pid(" -7\n"), Some(-7));
    assert_eq!(parse_pid("-2147483648"), Some(i32::MIN));
    assert_eq!(parse_pid("-"), None);
}

#[test]
fn state_empty_pid_file_reads_as_not_running() {
    assert_eq!(parse_pid(""), None);
}

#[test]
fn the_pid_file_lives_in_the_runtime_directory() {
    let runtime = Some("/run/user/1000".to_string());
    assert_eq!(
        default_pid_path(&runtime, "/tmp", Platform::Linux),
        "/run/user/1000/syrinx.pid"
    );
    assert_eq!(
        typer_pid_path(&None, "/tmp", Platform::Linux),
        "/tmp/parakeet.pid"
    );
}

#[test]
fn stopping_signals_or_leaves_a_request() {
    assert!(matches!(
        signal_stop(7, "/run/syrinx.pid", Platform::Linux),
        StopBy::Signal(7)
    ));
    match signal_stop(7, "/run/syrinx.pid", Platform::Windows) {
        StopBy::Request(p) => assert_eq!(p, "/run/syrinx.stop"),
        _ => panic!("Windows has no SIGTERM"),
    }
    assert_eq!(stop_request_path("/run/syrinx.pid", Platform::Linux), "/run/syrinx.stop");
}

#[test]
fn waybar_is_signalled_by_its_exact_name() {
    assert_eq!(
        refresh_waybar(8, Platform::Linux).unwrap(),
        ["-RTMIN+8", "-x", "waybar"]
    );
    assert!(refresh_waybar(8, Platform::Windows).is_none());
}

// ---- files ------------------------------------------------------------------------

#[test]
fn a_missing_file_is_a_clear_error() {
    let e = bulk::decode("/nonexistent/audio.mp3", &bulk::Decoding::NoSuchFile).unwrap_err();
    assert!(e.to_string().contains("no such file"), "got {e}");
}

#[test]
fn a_missing_ffmpeg_says_to_install_it() {
    let e = bulk::ffmpeg_spawn_error(true, "entity not found");
    assert!(e.contains("not on PATH"), "got {e:#}");
}

#[test]
fn an_unreachable_ffmpeg_does_not_say_to_install_it() {
    let text = bulk::ffmpeg_spawn_error(false, "permission denied");
    assert!(!text.contains("Install it"), "got {text}");
    assert!(text.contains("shim or symlink"), "got {text}");
}

#[test]
fn decoding_reports_what_went_wrong() {
    let decode = |o: bulk::Decoding| bulk::decode("a.mp3", &o);
    assert!(decode(bulk::Decoding::Decoded(1)).is_ok());
    assert!(decode(bulk::Decoding::Decoded(0)).is_err());
    assert!(decode(bulk::Decoding::Refused("bad header".into()))
        .unwrap_err()
        .contains("bad header"));
    assert!(decode(bulk::Decoding::NotStarted { not_found: true, why: String::new() })
        .unwrap_err()
        .contains("not on PATH"));
}

#[test]
fn ffmpeg_is_asked_for_what_the_model_wants() {
    let args = bulk::ffmpeg_args("a.mp3");
    assert_eq!(args[3], "a.mp3");
    assert!(args.contains(&"16000".to_string()));
    assert_eq!(args.last().unwrap(), "-");
}

#[test]
fn a_file_is_sent_in_whole_chunks_and_padded() {
    assert_eq!(bulk::frames(0), 0);
    assert_eq!(bulk::frames(bulk::CHUNK), 1);
    assert_eq!(bulk::frames(bulk::CHUNK + 1), 2);
    let samples: Vec<u32> = (0..bulk::CHUNK as u32 + 2).collect();
    let second = bulk::frame(&samples, 1);
    assert_eq!(second.len(), bulk::CHUNK);
    assert_eq!(second[0], bulk::CHUNK as u32);
    assert_eq!(second[1], bulk::CHUNK as u32 + 1);
    assert_eq!(second[2], 0);
    assert_eq!(bulk::progress(samples.len(), 1).1, samples.len());
}

#[test]
fn a_files_text_is_its_commits_joined_and_trimmed() {
    let commit = ServerMessage::TranscriptCommit {
        seq: 1,
        text: " hello ".into(),
        speaker: None,
    };
    assert_eq!(bulk::on_message(&commit), (Some(" hello ".into()), false));
    let closed = ServerMessage::SessionClosed { reason: "done".into() };
    assert_eq!(bulk::on_message(&closed), (None, true));
    assert_eq!(
        bulk::transcribe(&vec![" hello ".to_string(), "world ".to_string()]),
        "hello world"
    );
    assert!(matches!(
        bulk::hello(),
        ClientMessage::SessionStart { mode: Mode::Transcript, encoding: Encoding::PcmS16le, .. }
    ));
    let refused = ServerMessage::Error {
        code: ErrorCode::Capacity,
        message: "full".into(),
        retryable: true,
    };
    assert!(bulk::on_message(&refused).1);
}

// ---- PCM ---------------------------------------------------------------------------

#[test]
fn samples_survive_the_wire() {
    let samples = [0i16, 1, -1, 255, 256, -256, i16::MAX, i16::MIN];
    let bytes = encode_pcm(&samples);
    let expected: Vec<u8> = samples.iter().flat_map(|s| s.to_le_bytes()).collect();
    assert_eq!(bytes, expected);
    assert_eq!(decode_pcm(&bytes), samples);
}

#[test]
fn a_trailing_odd_byte_is_dropped() {
    assert_eq!(decode_pcm(&[0x00, 0x00, 0x11]).len(), 1);
    assert!(decode_pcm(&[]).is_empty());
}

#[test]
fn a_sample_split_over_two_reads_is_put_together() {
    let mut r = PcmReader::new();
    assert!(r.feed(&[0x34]).is_empty());
    assert_eq!(r.feed(&[0x12, 0x78]), [0x1234]);
    assert_eq!(r.feed(&[0x56]), [0x5678]);
}
