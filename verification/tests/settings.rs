use syrinx::client::config::{
    check_url, comment_wrap, config_base, default_url, expand_tilde, template, Config,
    ConfigPlaces, Loaded, ReadOutcome, Written,
};
use syrinx::client::inject::Method;
use syrinx::client::mode::OutputMode;
use syrinx::client::save::Format;
use syrinx::platform::Platform;
use syrinx::server::config as server;

fn table(text: &str) -> toml::Table {
    toml::from_str(text).unwrap_or_else(|e| panic!("does not parse: {e}\n---\n{text}"))
}

fn text_of(t: &toml::Table, key: &str) -> Option<String> {
    t.get(key).map(|v| v.as_str().expect("a string").to_string())
}

/// A config file, read.
fn read(text: &str) -> Config {
    let t = table(text);
    let named = |name: &str| text_of(&t, name);
    Config::from_written(Written {
        url: named("url").or(named("server")),
        token: named("token").expect("a token"),
        source_key: named("source_key"),
        mode: named("mode")
            .map(|n| *OutputMode::ALL.iter().find(|m| m.name() == n).expect("a mode")),
        diarize: t.get("diarize").map(|v| v.as_bool().expect("a flag")),
        inject: named("inject")
            .map(|n| Method::named(&n).expect("a method")),
        stream_to: named("stream_to"),
        format: named("format")
            .map(|n| Format::named(&n).expect("a format")),
        hotkey: named("hotkey"),
        waybar_signal: t
            .get("waybar_signal")
            .map(|v| v.as_integer().expect("a number") as u8),
    })
}

/// A load that finds `text` at the path asked for.
fn load(path: &str, text: &str) -> Result<Config, String> {
    let found = vec![ReadOutcome::Found(read(text))];
    match Config::load(&Some(path.to_string()), "/base", Platform::Linux, &found) {
        Loaded::Ready { config, .. } => Ok(config),
        Loaded::Refused(e) => Err(e),
        Loaded::FirstRun { message, .. } => Err(message),
    }
}

#[test]
fn a_minimal_config_applies_defaults() {
    let c = read(r#"token = "abc""#);
    assert_eq!(c.url, "ws://127.0.0.1:8770/v1/stream");
    assert_eq!(c.mode, OutputMode::Type);
    assert_eq!(c.waybar_signal, 8);
}

#[test]
fn the_address_is_used_exactly_as_written() {
    for written in [
        "ws://192.168.1.10:8770/v1/stream",
        "wss://dictate.example.com/v1/stream",
        "ws://localhost:9000/some/other/path",
        "wss://edge.example.com:8443/asr",
    ] {
        let c = read(&format!("token = \"t\"\nurl = \"{written}\""));
        assert_eq!(c.url, written, "the address was rewritten");
    }
}

#[test]
fn server_is_accepted_as_a_name_for_the_same_setting() {
    let c = read("token = \"t\"\nserver = \"wss://dictate.example.com/v1/stream\"");
    assert_eq!(c.url, "wss://dictate.example.com/v1/stream");
}

#[test]
fn an_address_without_a_scheme_is_refused_not_repaired() {
    let e = check_url("192.168.1.10").unwrap_err();
    assert!(e.contains("ws://"), "got: {e}");
    assert!(e.contains("192.168.1.10"), "should quote what was written: {e}");
}

#[test]
fn an_empty_or_hostless_address_is_refused() {
    assert!(check_url("").is_err());
    assert!(check_url("   ").is_err());
    assert!(check_url("ws://").is_err());
    assert!(check_url("ws:///v1/stream").is_err());
}

#[test]
fn a_well_formed_address_passes() {
    for u in [
        "ws://h:1/v1/stream",
        "wss://h/v1/stream",
        "ws://[::1]:8770/v1/stream",
        "  ws://h:1/v1/stream  ",
    ] {
        assert!(check_url(u).is_ok(), "{u} should be accepted");
    }
}

#[test]
fn a_bad_address_names_the_file_it_came_from() {
    let path = "/tmp/badurl/config.toml";
    let text = load(path, "token = \"t\"\nurl = \"192.168.1.10\"\n").unwrap_err();
    assert!(text.contains(path), "got: {text}");
}

#[test]
fn generated_comments_fit_in_a_terminal() {
    for line in template().lines() {
        assert!(line.len() <= 100, "line too long ({}): {line}", line.len());
    }
}

#[test]
fn wrapped_comments_reflow_a_whole_paragraph() {
    let text = "one two three four five six seven eight nine ten\n\
                eleven twelve thirteen fourteen fifteen sixteen";
    for line in comment_wrap(text).lines() {
        let words = line.trim_start_matches("# ").split_whitespace().count();
        assert!(words > 1, "orphaned line: {line:?}");
    }
}

#[test]
fn wrapped_comments_keep_examples_copyable() {
    let out = comment_wrap("some prose here\n    bindsym $mod+n exec syrinx toggle");
    assert!(
        out.contains("#    bindsym $mod+n exec syrinx toggle"),
        "the example was reflowed: {out}"
    );
}

#[test]
fn the_generated_template_is_a_config_syrinx_can_read() {
    let text = template().replace("token = \"\"", "token = \"t\"");
    let c = read(&text);
    assert_eq!(c.url, default_url());
    assert_eq!(c.mode, OutputMode::default());
    assert_eq!(c.inject, Method::default());
}

#[test]
fn the_template_documents_every_value_there_is() {
    let text = template();
    for m in OutputMode::ALL {
        assert!(
            text.contains(&format!("\"{}\"", m.name())),
            "mode {} is undocumented:\n{text}",
            m.name()
        );
    }
    for m in Method::ALL {
        assert!(
            text.contains(&format!("\"{}\"", m.name())),
            "inject {} is undocumented:\n{text}",
            m.name()
        );
    }
}

#[test]
fn the_template_is_the_same_on_every_platform() {
    let text = template();
    assert!(text.contains("waybar_signal"), "a setting was hidden");
    assert!(
        text.contains("inject = \"auto\""),
        "the default must not name a platform: {text}"
    );
    for m in Method::ALL {
        assert!(text.contains(m.name()), "{} was hidden", m.name());
    }
    assert!(text.contains("Wayland"), "the portability note is missing");
}

#[test]
fn the_canonical_path_is_tried_before_the_legacy_ones() {
    let base = config_base(
        &ConfigPlaces {
            xdg: None,
            appdata: None,
            profile: None,
            home: Some("/home/me".into()),
        },
        Platform::Linux,
    );
    assert_eq!(base, "/home/me/.config");
    assert_eq!(
        Config::default_path(&base, Platform::Linux),
        "/home/me/.config/syrinx/config.toml",
        "the canonical path moved"
    );
    let tried = Config::candidates(&None, &base, Platform::Linux);
    assert_eq!(tried[0], Config::default_path(&base, Platform::Linux));
    assert!(tried.len() > 1, "a config from before the rename is still found");
    assert_eq!(Config::candidates(&Some("/x.toml".into()), &base, Platform::Linux), ["/x.toml"]);
}

#[test]
fn a_leading_tilde_becomes_the_home_directory() {
    let home = Some("/home/me".to_string());
    assert_eq!(expand_tilde("~/notes.txt", &home, Platform::Linux), "/home/me/notes.txt");
    assert_eq!(expand_tilde("~", &home, Platform::Linux), "/home/me");
}

#[test]
fn a_path_without_a_tilde_is_untouched() {
    let home = Some("/home/me".to_string());
    assert_eq!(expand_tilde("/tmp/a.txt", &home, Platform::Linux), "/tmp/a.txt");
    assert_eq!(expand_tilde("/tmp/~x", &home, Platform::Linux), "/tmp/~x");
}

#[test]
fn a_first_run_writes_a_config_and_says_where() {
    let home = "/base/syrinx/config.toml";
    let n = Config::candidates(&None, "/base", Platform::Linux).len();
    let nowhere = (0..n).map(|_| ReadOutcome::Missing).collect();
    match Config::load(&None, "/base", Platform::Linux, &nowhere) {
        Loaded::FirstRun { path, message } => {
            assert_eq!(path, home);
            assert!(message.contains("token"), "got: {message}");
            assert!(message.contains(home), "got: {message}");
        }
        _ => panic!("no config exists anywhere"),
    }
    // The template alone is no config yet: its token is empty.
    let text = load(home, &template()).unwrap_err();
    assert!(text.contains("token"), "got: {text}");
    assert!(text.contains(home), "got: {text}");
}

#[test]
fn an_explicit_path_is_the_only_one_tried() {
    let missing = vec![ReadOutcome::Missing];
    match Config::load(&Some("/x.toml".into()), "/base", Platform::Linux, &missing) {
        Loaded::Refused(e) => assert!(e.starts_with("no config at "), "got: {e}"),
        _ => panic!("there is no config at all"),
    }
    let broken = vec![ReadOutcome::Invalid("expected a value".into())];
    match Config::load(&Some("/x.toml".into()), "/base", Platform::Linux, &broken) {
        Loaded::Refused(e) => {
            assert!(e.contains("/x.toml") && e.contains("expected a value"), "got: {e}");
            assert!(e.contains("A complete config looks like this"), "got: {e}");
        }
        _ => panic!("a broken config is refused"),
    }
    let unreadable = vec![ReadOutcome::Failed("permission denied".into())];
    match Config::load(&Some("/x.toml".into()), "/base", Platform::Linux, &unreadable) {
        Loaded::Refused(e) => assert_eq!(e, "reading /x.toml: permission denied"),
        _ => panic!("an unreadable config is refused"),
    }
}

#[test]
fn every_setting_survives_a_save_and_reload() {
    let original = Config {
        url: "ws://laptop.lan:9001/v1/stream".into(),
        token: "a-token".into(),
        source_key: Some("some-source".into()),
        stream_to: Some("~/notes.txt".into()),
        format: Format::Labelled,
        mode: OutputMode::Both,
        diarize: true,
        inject: Method::Paste,
        hotkey: Some("ctrl+alt+k".into()),
        waybar_signal: 3,
    };
    let saved = original.save(&Some(template()));
    let reloaded = load("/c.toml", &saved).unwrap();
    assert_eq!(reloaded, original, "a setting was lost by save/load");
}

#[test]
fn clearing_an_optional_setting_removes_it() {
    let text = "token = \"t\"\nstream_to = \"/tmp/x.txt\"\nhotkey = \"ctrl+alt+d\"\n";
    let mut c = load("/c.toml", text).unwrap();
    assert!(c.stream_to.is_some() && c.hotkey.is_some());
    c.stream_to = None;
    c.hotkey = None;
    let saved = c.save(&Some(text.to_string()));

    let reloaded = load("/c.toml", &saved).unwrap();
    assert_eq!(reloaded.stream_to, None);
    assert_eq!(reloaded.hotkey, None);
}

#[test]
fn saving_keeps_the_documentation_in_the_file() {
    let mut c = read(&template().replace("token = \"\"", "token = \"t\""));
    c.source_key = Some("some_source".into());
    let after = c.save(&Some(template()));

    assert!(after.contains('#'), "comments were lost:\n{after}");
    assert!(after.contains("What to do with the text"), "lost the mode docs");
    assert!(after.contains("some_source"), "the new value was not saved");

    let reloaded = load("/c.toml", &after).unwrap();
    assert_eq!(reloaded.source_key.as_deref(), Some("some_source"));
}

#[test]
fn saving_keeps_what_is_not_a_setting() {
    let c = read("token = \"t\"");
    let after = c.save(&Some("extra = 1 # mine\ntoken = \"old\"\n\n[table]\nx = 2\n".into()));
    let t = table(&after);
    assert_eq!(t.get("extra").and_then(|v| v.as_integer()), Some(1));
    assert_eq!(text_of(&t, "token").as_deref(), Some("t"));
    assert!(t.get("table").is_some());
    assert!(after.contains("# mine"));
}

#[test]
fn comments_around_settings_survive_a_save() {
    let mut c = read("token = \"t\"");
    c.hotkey = None;
    let before = "# mine\r\ntoken = \"old\" # behind\r\n\r\n# typing\ninject = \"wtype\"\n\
                  # gone\nhotkey = \"f9\"\nlong = \"\"\"a\r\nb\"\"\"\n\n# the end";
    let after = c.save(&Some(before.into()));
    assert!(after.starts_with("# mine\ntoken = \"t\""), "got:\n{after}");
    assert!(after.contains("\n\n# typing\ninject = \"auto\""), "got:\n{after}");
    assert!(after.ends_with("\n# the end"), "got:\n{after}");
    assert!(!after.contains("hotkey"));
    assert_eq!(text_of(&table(&after), "long"), text_of(&table(before), "long"));
}

#[test]
fn saving_keeps_the_name_the_address_goes_by() {
    let mut c = read("token = \"t\"\nserver = \"ws://h:1/v1/stream\"");
    c.url = "ws://other:1/v1/stream".into();
    let after = c.save(&Some("token = \"t\"\nserver = \"ws://h:1/v1/stream\"\n".into()));
    let t = table(&after);
    assert_eq!(text_of(&t, "server").as_deref(), Some("ws://other:1/v1/stream"));
    assert!(t.get("url").is_none());
}

#[test]
fn a_file_that_is_no_toml_is_written_from_the_template() {
    let c = read("token = \"t\"");
    let after = c.save(&Some("not = = toml".into()));
    assert!(after.contains("What to do with the text"));
    assert_eq!(read(&after), c);
    assert_eq!(read(&c.save(&None)), c);
}

#[test]
fn an_empty_token_names_the_file_to_edit() {
    let path = "/tmp/emptytok/config.toml";
    let text = load(path, "token = \"\"\n").unwrap_err();
    assert!(text.contains("token"), "got: {text}");
    assert!(text.contains(path), "got: {text}");
}

#[test]
fn the_injection_method_parses_from_config() {
    let c = read("token = \"a\"\ninject = \"ydotool\"");
    assert_eq!(c.inject, Method::Ydotool);
}

#[test]
fn mode_parses_from_config() {
    let c = read("token = \"a\"\nmode = \"type\"");
    assert_eq!(c.mode, OutputMode::Type);
}

#[test]
fn diarize_defaults_to_false() {
    let c = read(r#"token = "abc""#);
    assert!(!c.diarize);
}

#[test]
fn diarize_true_parses() {
    let c = read("token = \"a\"\ndiarize = true");
    assert!(c.diarize);
}

#[test]
fn the_template_documents_diarize() {
    let text = template();
    assert!(text.contains("diarize = false"), "got:\n{text}");
    assert!(
        text.contains("speaker labels"),
        "the diarize comment is missing:\n{text}"
    );
}

#[test]
fn config_round_trips_through_toml() {
    let c = Config {
        url: "ws://h:1/v1/stream".into(),
        stream_to: Some("~/notes.txt".into()),
        format: Format::Timestamped,
        token: "t".into(),
        hotkey: Some("ctrl+alt+d".into()),
        source_key: Some("rnnoise_source".into()),
        mode: OutputMode::Both,
        diarize: true,
        inject: Default::default(),
        waybar_signal: 3,
    };
    let back = read(&c.save(&Some(String::new())));
    assert_eq!(back.source_key, c.source_key);
    assert_eq!(back.mode, c.mode);
    assert_eq!(back.waybar_signal, c.waybar_signal);
}

#[test]
fn a_stream_path_may_start_at_home() {
    let mut c = read("token = \"t\"");
    let home = Some("/home/me".to_string());
    assert_eq!(c.stream_path(&home, Platform::Linux), None);
    c.stream_to = Some("~/notes.txt".into());
    assert_eq!(c.stream_path(&home, Platform::Linux).as_deref(), Some("/home/me/notes.txt"));
}

#[test]
fn a_config_in_its_place_is_canonical_however_it_is_written() {
    let canonical = |path: &str, base: &str, here: Platform| {
        let found = vec![ReadOutcome::Found(read("token = \"t\""))];
        match Config::load(&Some(path.to_string()), base, here, &found) {
            Loaded::Ready { canonical, .. } => canonical,
            _ => panic!("the config is valid"),
        }
    };
    for same in [
        "/base/syrinx/config.toml",
        "/base//syrinx/config.toml",
        "/base/./syrinx/config.toml",
        "/base/syrinx/config.toml/",
    ] {
        assert!(canonical(same, "/base", Platform::Linux), "{same}");
    }
    for other in [
        "base/syrinx/config.toml",
        "/base/syrinx/../syrinx/config.toml",
        "/base/parakeet/config.toml",
        "/base/Syrinx/config.toml",
    ] {
        assert!(!canonical(other, "/base", Platform::Linux), "{other}");
    }
    let base = r"C:\Users\me\AppData\Roaming";
    assert!(canonical(r"c:/Users/me/AppData/Roaming/syrinx/config.toml", base, Platform::Windows));
    assert!(!canonical(r"D:\Users\me\AppData\Roaming\syrinx\config.toml", base, Platform::Windows));
}

#[test]
fn a_place_on_windows_is_written_with_backslashes() {
    let base = config_base(
        &ConfigPlaces {
            xdg: None,
            appdata: None,
            profile: Some(r"C:\Users\me".into()),
            home: None,
        },
        Platform::Windows,
    );
    assert_eq!(base, r"C:\Users\me\AppData\Roaming");
    let home = Some(r"C:\Users\me".to_string());
    assert_eq!(expand_tilde(r"~\notes.txt", &home, Platform::Windows), r"C:\Users\me\notes.txt");
}

// ---- the server's ----------------------------------------------------------------

fn server_config(text: &str) -> Result<server::Config, String> {
    let t = table(text);
    let number = |name: &str| t.get(name).map(|v| v.as_integer().expect("a number"));
    server::Config::from_written(server::Written {
        bind: text_of(&t, "bind"),
        token: text_of(&t, "token"),
        model_dir: text_of(&t, "model_dir"),
        idle_unload_secs: number("idle_unload_secs").map(|n| n as u64),
        vram_floor_mib: number("vram_floor_mib").map(|n| n as u64),
        max_sessions: number("max_sessions").map(|n| n as usize),
    })
}

#[test]
fn minimal_config_applies_defaults() {
    let c = server_config(
        r#"
            token = "abc"
            model_dir = "/models"
        "#,
    )
    .unwrap();
    assert_eq!(c.bind, "0.0.0.0:8770");
    assert_eq!(c.idle_unload_secs, 600);
    assert_eq!(c.vram_floor_mib, 1536);
    assert_eq!(c.max_sessions, 4);
}

#[test]
fn missing_token_is_a_hard_error() {
    assert!(server_config(r#"model_dir = "/models""#).is_err());
    assert!(server_config(r#"token = "abc""#).is_err());
}

#[test]
fn values_override_defaults() {
    let c = server_config(
        r#"
            token = "abc"
            model_dir = "/models"
            max_sessions = 9
            vram_floor_mib = 2048
        "#,
    )
    .unwrap();
    assert_eq!(c.max_sessions, 9);
    assert_eq!(c.vram_floor_mib, 2048);
}

#[test]
fn the_servers_config_file_has_a_default_name() {
    assert_eq!(server::config_file(&Some("/etc/p.toml".into())), "/etc/p.toml");
    assert_eq!(server::config_file(&None), "config.toml");
}
