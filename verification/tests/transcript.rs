use syrinx::client::save;
use syrinx::client::save::{
    by_source, default_dir, filename_for, filename_now, path_for_source, render, restamped, save_default,
    save_per_source, save_rendered, slug, stamp, timestamp, turn_texts, turns, Format,
};
use syrinx::client::segment::Segment;
use syrinx::client::session::{
    apply_relabel, bearer, fail, finished, handshake, hello, merge_states, on_message, ready,
    requested, slide, stopping, stream_failed, FirstFrame, SessionState, Status, METER_WINDOW,
};
use syrinx::client::mode::OutputMode;
use syrinx::client::stream::StreamWriter;
use syrinx::paths;
use syrinx::platform::Platform;
use syrinx::proto::{ClientMessage, Encoding, ErrorCode, Mode, ServerMessage, SAMPLE_RATE};

fn ns(at: f64) -> i64 {
    (at * 1_000_000_000.0).round() as i64
}

fn seg(at: f64, text: &str) -> Segment {
    Segment {
        seq: None,
        at: ns(at),
        text: text.into(),
        source: None,
        speaker: None,
    }
}

fn seg_src(at: f64, text: &str, src: &str) -> Segment {
    Segment {
        source: Some(src.into()),
        ..seg(at, text)
    }
}

fn seg_spk(at: f64, text: &str, speaker: Option<u32>) -> Segment {
    Segment {
        speaker,
        ..seg(at, text)
    }
}

// ---- names and times ------------------------------------------------------------

#[test]
fn a_timestamp_is_the_local_date_and_time() {
    let s = timestamp();
    assert_eq!(s.len(), 19, "got {s:?}");
    let bytes = s.as_bytes();
    for i in [4, 7] {
        assert_eq!(bytes[i], b'-', "expected a date separator at {i} in {s:?}");
    }
    assert_eq!(bytes[10], b'_', "expected date and time to be split in {s:?}");
    for i in [13, 16] {
        assert_eq!(bytes[i], b'-', "expected a time separator at {i} in {s:?}");
    }
    for (i, c) in s.chars().enumerate() {
        if ![4, 7, 10, 13, 16].contains(&i) {
            assert!(c.is_ascii_digit(), "{c:?} at {i} is not a digit in {s:?}");
        }
    }
}

#[test]
fn a_timestamp_never_falls_back_to_an_epoch_count() {
    assert!(!timestamp().contains("epoch"), "{}", timestamp());
}

#[test]
fn a_timestamp_is_always_produced() {
    assert!(!timestamp().is_empty());
}

#[test]
fn a_generated_filename_is_legal_on_windows() {
    for name in [filename_for(&timestamp()), filename_now()] {
        for bad in ['<', '>', ':', '"', '/', '\\', '|', '?', '*'] {
            assert!(!name.contains(bad), "{name:?} contains {bad:?}");
        }
    }
}

#[test]
fn timestamps_sort_the_same_way_as_time() {
    let mut names = ["2026-08-21_09-00-00", "2026-01-02_23-59-59", "2026-08-21_10-00-00"];
    names.sort_unstable();
    assert_eq!(
        names,
        ["2026-01-02_23-59-59", "2026-08-21_09-00-00", "2026-08-21_10-00-00"]
    );
}

#[test]
fn a_filename_is_the_timestamp_and_nothing_else() {
    assert_eq!(filename_for("2026-08-21_14-53-07"), "2026-08-21_14-53-07.txt");
}

#[test]
fn filenames_sort_chronologically_and_avoid_colons() {
    let a = filename_for("2026-08-21_09-00-00");
    let b = filename_for("2026-08-21_10-00-00");
    assert!(a < b, "names must sort by time");
    assert!(!a.contains(':'));
    assert!(a.ends_with(".txt"));
}

#[test]
fn timestamps_omit_hours_until_they_matter() {
    assert_eq!(stamp(ns(0.0)), "[00:00]");
    assert_eq!(stamp(ns(65.0)), "[01:05]");
    assert_eq!(stamp(ns(3661.0)), "[01:01:01]");
}

#[test]
fn a_negative_time_does_not_underflow() {
    assert_eq!(stamp(ns(-5.0)), "[00:00]");
}

#[test]
fn a_timestamp_drops_the_fraction() {
    assert_eq!(stamp(59_999_999_999), "[00:59]");
    assert_eq!(stamp(3_599_999_999_999), "[59:59]");
    assert_eq!(stamp(360_000_000_000_000), "[100:00:00]");
}

#[test]
fn only_a_generated_name_from_another_day_is_renamed() {
    let now = "2026-08-21_14-53-07";
    assert_eq!(
        restamped("/tmp/2026-08-20_09-14-03.txt", now, Platform::Linux),
        "/tmp/2026-08-21_14-53-07.txt"
    );
    assert_eq!(
        restamped("/tmp/2026-08-21_09-14-03.txt", now, Platform::Linux),
        "/tmp/2026-08-21_09-14-03.txt"
    );
    assert_eq!(restamped("~/notes.txt", now, Platform::Linux), "~/notes.txt");
    assert_eq!(restamped("/tmp/2026-08-20.txt", now, Platform::Linux), "/tmp/2026-08-20.txt");
}

#[test]
fn transcripts_go_to_documents_where_there_is_one() {
    let home = Some("/home/me".to_string());
    assert_eq!(default_dir(&None, &home, true, Platform::Linux), "/home/me/Documents/syrinx");
    assert_eq!(
        default_dir(&Some("/data/docs".to_string()), &home, false, Platform::Linux),
        "/data/docs/syrinx"
    );
}

// ---- what a file holds ------------------------------------------------------------

#[test]
fn writes_the_transcript_with_a_trailing_newline() {
    assert_eq!(save::write("hello world").unwrap(), "hello world\n");
}

#[test]
fn refuses_to_write_an_empty_transcript() {
    assert!(save::write("").is_err());
    assert!(save::write("   \n\t ").is_err());
}

#[test]
fn surrounding_whitespace_is_trimmed() {
    assert_eq!(save::write("  spoken words  \n\n").unwrap(), "spoken words\n");
}

#[test]
fn a_default_save_is_named_by_the_moment() {
    let (path, body) = save_default("words", "/out", "2026-08-21_14-53-07", Platform::Linux).unwrap();
    assert_eq!(path, "/out/2026-08-21_14-53-07.txt");
    assert_eq!(body, "words\n");
    assert!(save_default(" ", "/out", "2026-08-21_14-53-07", Platform::Linux).is_err());
}

// ---- layouts --------------------------------------------------------------------------

#[test]
fn labelled_format_names_the_source_on_each_line() {
    let segs = [seg_src(0.0, "hello", "Mic"), seg_src(5.0, "hi", "System")];
    let out = render(&segs, "", Format::Labelled);
    assert_eq!(out, "[00:00] [Mic] hello\n[00:05] [System] hi");
}

#[test]
fn labelled_format_omits_empty_brackets_for_a_single_source() {
    let segs = [seg(1.0, "hello")];
    assert_eq!(render(&segs, "", Format::Labelled), "[00:01] hello");
}

#[test]
fn segments_group_by_source_in_first_appearance_order() {
    let segs = [
        seg_src(0.0, "a", "System"),
        seg_src(1.0, "b", "Mic"),
        seg_src(2.0, "c", "System"),
    ];
    let groups = by_source(&segs);
    assert_eq!(groups.len(), 2);
    assert_eq!(groups[0].0, "System", "first heard should come first");
    assert_eq!(groups[0].1.len(), 2);
    assert_eq!(groups[1].0, "Mic");
}

#[test]
fn a_source_gets_its_own_file_beside_the_one_asked_for() {
    let p = path_for_source("/tmp/meeting.txt", "Yeti (RNNoise)", Platform::Linux);
    assert_eq!(p, "/tmp/meeting-yeti-rnnoise.txt");
}

#[test]
fn a_streamed_split_lands_where_a_saved_split_would() {
    let base = "/tmp/split-agree/meeting.txt";
    let segs = [
        seg_src(0.0, "hello", "Mic"),
        seg_src(1.0, "hi", "System audio"),
    ];
    let saved: Vec<String> = save_per_source(base, &segs, Format::Plain, Platform::Linux)
        .unwrap()
        .into_iter()
        .map(|(p, _)| p)
        .collect();
    let streamed: Vec<String> = ["Mic", "System audio"]
        .iter()
        .map(|s| path_for_source(base, s, Platform::Linux))
        .collect();
    assert_eq!(saved, streamed);
}

#[test]
fn a_split_with_nothing_in_it_is_refused() {
    assert!(save_per_source("/tmp/m.txt", &[], Format::Plain, Platform::Linux).is_err());
}

#[test]
fn a_path_without_an_extension_still_splits() {
    assert_eq!(path_for_source("notes", "Mic", Platform::Linux), "notes-mic.txt");
}

#[test]
fn source_names_become_safe_filenames() {
    assert_eq!(slug("Yeti (RNNoise)"), "yeti-rnnoise");
    assert_eq!(slug("Firefox — YouTube"), "firefox-youtube");
    assert!(!slug("a/b\\c").contains('/'));
}

#[test]
fn a_very_long_source_name_is_truncated() {
    assert!(slug(&"x".repeat(200)).len() <= 40);
}

#[test]
fn plain_format_joins_segments_into_prose() {
    let segs = [seg(0.5, "hello "), seg(1.5, "world")];
    assert_eq!(render(&segs, "", Format::Plain), "hello world");
}

#[test]
fn timestamped_format_prefixes_each_fragment() {
    let segs = [seg(0.0, "hello "), seg(65.0, "world")];
    assert_eq!(
        render(&segs, "", Format::Timestamped),
        "[00:00] hello\n[01:05] world"
    );
}

#[test]
fn plain_falls_back_to_the_flat_transcript() {
    assert_eq!(render(&[], " some text ", Format::Plain), "some text");
}

#[test]
fn empty_segments_are_skipped_in_timestamped_output() {
    let segs = [seg(0.0, "real "), seg(1.0, "   "), seg(2.0, "text")];
    assert_eq!(render(&segs, "", Format::Timestamped).lines().count(), 2);
}

#[test]
fn turns_group_labelled_runs_and_attach_unlabelled_fragments() {
    let segs = [
        seg_spk(0.0, "we ship Thursday", Some(1)),
        seg_spk(0.6, " right", None),
        seg_spk(1.0, "no we don't", Some(2)),
    ];
    let t = turns(&segs);
    assert_eq!(t.len(), 2);
    assert_eq!(t[0].0, Some(1));
    assert_eq!(t[0].1.len(), 2, "the unlabelled fragment attaches");
    assert_eq!(t[1].0, Some(2));
    assert_eq!(t[1].1.len(), 1);
}

#[test]
fn turns_without_any_label_is_a_single_turn() {
    let segs = [seg(0.0, "a"), seg(1.0, "b")];
    let t = turns(&segs);
    assert_eq!(t.len(), 1);
    assert_eq!(t[0].0, None);
    assert_eq!(t[0].1.len(), 2);
}

#[test]
fn two_sources_numbered_the_same_are_two_turns() {
    let mut mic = seg_spk(0.0, "we ship Thursday", Some(1));
    mic.source = Some("Mic".into());
    let mut system = seg_spk(0.6, "no we don't", Some(1));
    system.source = Some("System audio".into());

    let segs = [mic, system];
    let t = turns(&segs);
    assert_eq!(t.len(), 2, "a source change ends the turn");
    assert_eq!(t[0].1.len(), 1);
    assert_eq!(t[1].1.len(), 1);
}

#[test]
fn a_new_source_does_not_inherit_the_previous_one_s_numbering() {
    let mut mic = seg_spk(0.0, "we ship Thursday", Some(1));
    mic.source = Some("Mic".into());
    let mut system_first = seg_spk(0.6, "hmm", None);
    system_first.source = Some("System audio".into());
    let mut system_then = seg_spk(1.0, "no we don't", Some(1));
    system_then.source = Some("System audio".into());

    let segs = [mic, system_first, system_then];
    let t = turns(&segs);
    assert_eq!(t.len(), 3);
    assert_eq!(t[1].0, None, "the new source's opening fragment");
    assert_eq!(t[2].0, Some(1), "its own Speaker 1, freshly announced");
}

#[test]
fn plain_keeps_two_sources_apart_even_sharing_a_number() {
    let mut mic = seg_spk(0.0, "we ship Thursday", Some(1));
    mic.source = Some("Mic".into());
    let mut system = seg_spk(0.6, "no we don't", Some(1));
    system.source = Some("System audio".into());
    assert_eq!(
        render(&[mic, system], "", Format::Plain),
        "Speaker 1: we ship Thursday\nSpeaker 1: no we don't"
    );
}

#[test]
fn turn_texts_concatenates_each_turns_segments() {
    let segs = [
        seg_spk(0.0, "we ship Thursday", Some(1)),
        seg_spk(0.6, " right", None),
        seg_spk(1.0, "no we don't", Some(2)),
    ];
    assert_eq!(
        turn_texts(&segs),
        vec![
            (Some(1), "we ship Thursday right".to_string()),
            (Some(2), "no we don't".to_string()),
        ]
    );
}

#[test]
fn turn_texts_leaves_an_unlabelled_leading_turn_alone() {
    let segs = [seg_spk(0.0, "hello ", None), seg_spk(0.6, "there", Some(1))];
    assert_eq!(
        turn_texts(&segs),
        vec![
            (None, "hello ".to_string()),
            (Some(1), "there".to_string()),
        ]
    );
}

#[test]
fn turn_texts_without_any_label_is_one_turn() {
    let segs = [seg(0.0, "a"), seg(1.0, "b")];
    assert_eq!(turn_texts(&segs), vec![(None, "ab".to_string())]);
}

#[test]
fn a_speaker_change_breaks_the_line_and_names_the_speaker() {
    let segs = [
        seg_spk(0.0, "we ship Thursday", Some(1)),
        seg_spk(0.6, "no we don't", Some(2)),
    ];
    assert_eq!(
        render(&segs, "", Format::Timestamped),
        "[00:00] Speaker 1: we ship Thursday\n[00:00] Speaker 2: no we don't"
    );
}

#[test]
fn an_unlabelled_fragment_stays_on_the_current_turn() {
    let segs = [
        seg_spk(0.0, "so the plan", Some(1)),
        seg_spk(0.6, " is simple", None),
    ];
    assert_eq!(
        render(&segs, "", Format::Timestamped),
        "[00:00] Speaker 1: so the plan is simple"
    );
}

#[test]
fn plain_gains_prefixes_only_when_labels_exist() {
    let unlabelled = [seg_spk(0.0, "hello ", None), seg_spk(0.6, "world", None)];
    assert_eq!(render(&unlabelled, "", Format::Plain), "hello world");

    let labelled = [
        seg_spk(0.0, "hello", Some(1)),
        seg_spk(0.6, "hi there", Some(2)),
    ];
    assert_eq!(
        render(&labelled, "", Format::Plain),
        "Speaker 1: hello\nSpeaker 2: hi there"
    );
}

#[test]
fn labelled_keeps_the_source_and_adds_the_speaker() {
    let mut s = seg_spk(0.0, "hello", Some(2));
    s.source = Some("System audio".into());
    assert_eq!(
        render(&[s], "", Format::Labelled),
        "[00:00] [System audio] Speaker 2: hello"
    );
}

#[test]
fn unlabelled_close_segments_still_get_their_own_stamped_line() {
    let segs = [seg(0.0, "hello "), seg(0.6, "world")];
    assert_eq!(
        render(&segs, "", Format::Timestamped),
        "[00:00] hello\n[00:00] world"
    );
}

#[test]
fn plain_does_not_break_a_turn_on_a_silence_gap() {
    let segs = [
        seg_spk(0.0, "hello ", Some(1)),
        seg_spk(65.0, "world", Some(1)),
    ];
    assert_eq!(render(&segs, "", Format::Plain), "Speaker 1: hello world");
}

#[test]
fn a_silence_gap_within_a_turn_repeats_the_speaker() {
    let segs = [
        seg_spk(0.0, "hello", Some(1)),
        seg_spk(65.0, "still there", Some(1)),
    ];
    assert_eq!(
        render(&segs, "", Format::Timestamped),
        "[00:00] Speaker 1: hello\n[01:05] Speaker 1: still there"
    );
}

#[test]
fn labelled_repeats_the_speaker_after_a_gap_as_well() {
    let mut first = seg_spk(0.0, "hello", Some(1));
    first.source = Some("Yeti".into());
    let mut then = seg_spk(65.0, "still there", Some(1));
    then.source = Some("Yeti".into());
    assert_eq!(
        render(&[first, then], "", Format::Labelled),
        "[00:00] [Yeti] Speaker 1: hello\n[01:05] [Yeti] Speaker 1: still there"
    );
}

#[test]
fn a_line_reopened_by_an_unlabelled_fragment_names_the_turn_anyway() {
    let segs = [
        seg_spk(0.0, "hello", Some(1)),
        seg_spk(65.0, "still there", None),
    ];
    assert_eq!(
        render(&segs, "", Format::Timestamped),
        "[00:00] Speaker 1: hello\n[01:05] Speaker 1: still there"
    );
}

#[test]
fn lines_before_any_speaker_is_known_stay_unattributed() {
    let segs = [
        seg_spk(0.0, "hello", None),
        seg_spk(65.0, "we ship Thursday", Some(1)),
    ];
    assert_eq!(
        render(&segs, "", Format::Timestamped),
        "[00:00] hello\n[01:05] Speaker 1: we ship Thursday"
    );
}

fn streamed(segs: &[Segment], format: Format) -> String {
    let mut w = StreamWriter::open("notes.txt", format, false, false);
    segs.iter().map(|s| w.append(s)).collect()
}

#[test]
fn a_pause_mid_turn_is_attributed_the_same_way_saved_and_streamed() {
    let segs = [
        seg_spk(0.0, "hello", None),
        seg_spk(65.0, "we ship Thursday", Some(1)),
        seg_spk(130.0, "or Friday", Some(1)),
        seg_spk(200.0, " probably", None),
    ];
    let saved = render(&segs, "", Format::Timestamped);
    assert_eq!(
        saved,
        "[00:00] hello\n[01:05] Speaker 1: we ship Thursday\n\
         [02:10] Speaker 1: or Friday\n[03:20] Speaker 1: probably"
    );
    assert_eq!(saved, streamed(&segs, Format::Timestamped));
}

#[test]
fn a_merged_lines_trailing_whitespace_matches_between_save_and_stream() {
    let segs = [
        seg_spk(0.0, "hello ", Some(1)),
        seg_spk(0.6, "world  ", Some(1)),
    ];
    let saved = render(&segs, "", Format::Timestamped);
    assert_eq!(saved, streamed(&segs, Format::Timestamped));
}

#[test]
fn formats_are_told_apart_by_name() {
    let names: Vec<&str> = Format::ALL.iter().map(|f| f.name()).collect();
    assert_eq!(names, ["plain", "timestamped", "labelled"]);
    assert_eq!(Format::default(), Format::Plain);
}

// ---- streaming ---------------------------------------------------------------------

#[test]
fn text_is_on_disk_before_the_session_ends() {
    let mut file = String::new();
    let mut w = StreamWriter::open("notes.txt", Format::Plain, false, false);
    file.push_str(&w.append(&seg(0.0, "hello ")));
    assert_eq!(file, "hello ");
    file.push_str(&w.append(&seg(1.0, "world")));
    assert_eq!(file, "hello world");
}

#[test]
fn a_second_session_continues_the_file() {
    let mut out = String::new();
    let mut w = StreamWriter::open("notes.txt", Format::Plain, false, false);
    out.push_str(&w.append(&seg(0.0, "first session")));
    let mut w = StreamWriter::open("notes.txt", Format::Plain, true, false);
    out.push_str(&w.append(&seg(0.0, "second session")));
    assert!(out.starts_with("first session"), "got {out:?}");
    assert!(out.contains("second session"), "got {out:?}");
}

#[test]
fn resuming_does_not_run_two_sessions_into_one_word() {
    let mut out = String::new();
    let mut w = StreamWriter::open("notes.txt", Format::Plain, false, false);
    out.push_str(&w.append(&seg(0.0, "alpha")));
    let mut w = StreamWriter::open("notes.txt", Format::Plain, true, false);
    out.push_str(&w.append(&seg(0.0, "beta")));
    assert_eq!(out, "alpha\nbeta");
}

#[test]
fn a_pause_starts_a_new_stamped_line() {
    let segs = [seg(0.0, "one"), seg(65.0, "two")];
    assert_eq!(streamed(&segs, Format::Timestamped), "[00:00] one\n[01:05] two");
}

#[test]
fn continuous_speech_stays_on_one_line() {
    let segs = [
        seg(0.0, "The quick brown fox j"),
        seg(0.6, "umps over the"),
        seg(1.2, " lazy dog"),
    ];
    assert_eq!(
        streamed(&segs, Format::Timestamped),
        "[00:00] The quick brown fox jumps over the lazy dog"
    );
}

#[test]
fn a_new_speaker_starts_a_line_even_without_a_pause() {
    let segs = [seg_src(0.0, "hello", "Yeti"), seg_src(0.3, "goodbye", "System")];
    assert_eq!(
        streamed(&segs, Format::Labelled),
        "[00:00] [Yeti] hello\n[00:00] [System] goodbye"
    );
}

#[test]
fn a_source_nobody_can_see_does_not_break_a_streamed_line() {
    let segs = [seg_src(0.0, "hello", "Yeti"), seg_src(0.6, " goodbye", "System")];
    assert_eq!(streamed(&segs, Format::Timestamped), "[00:00] hello goodbye");

    let mut named = [seg_src(0.0, "hello", "Yeti"), seg_src(0.6, "goodbye", "System")];
    named[0].speaker = Some(1);
    assert_eq!(
        streamed(&named, Format::Timestamped),
        "[00:00] Speaker 1: hello\n[00:00] goodbye"
    );
}

#[test]
fn every_fragment_reaches_disk_immediately_even_mid_line() {
    let mut file = String::new();
    let mut w = StreamWriter::open("notes.txt", Format::Timestamped, false, false);
    file.push_str(&w.append(&seg(0.0, "first half")));
    assert_eq!(file, "[00:00] first half");
    file.push_str(&w.append(&seg(0.5, " second half")));
    assert_eq!(file, "[00:00] first half second half");
}

#[test]
fn labelled_output_names_the_source() {
    assert_eq!(
        streamed(&[seg_src(0.0, "hello", "Yeti")], Format::Labelled),
        "[00:00] [Yeti] hello"
    );
}

#[test]
fn silence_writes_nothing() {
    assert_eq!(streamed(&[seg(0.0, "   "), seg(1.0, "")], Format::Timestamped), "");
}

#[test]
fn the_first_stamped_line_has_no_leading_blank() {
    let out = streamed(&[seg(0.0, "one")], Format::Timestamped);
    assert!(!out.starts_with('\n'), "leading blank line: {out:?}");
}

#[test]
fn resuming_a_stamped_file_starts_a_new_line() {
    let mut out = String::new();
    let mut w = StreamWriter::open("notes.txt", Format::Timestamped, false, false);
    out.push_str(&w.append(&seg(0.0, "one")));
    let mut w = StreamWriter::open("notes.txt", Format::Timestamped, true, false);
    out.push_str(&w.append(&seg(0.0, "two")));
    assert_eq!(out, "[00:00] one\n[00:00] two");
}

#[test]
fn a_file_that_ends_with_a_newline_gets_no_second_one() {
    let mut w = StreamWriter::open("notes.txt", Format::Timestamped, true, true);
    assert_eq!(w.append(&seg(0.0, "two")), "[00:00] two");
}

// ---- sessions ------------------------------------------------------------------------

#[test]
fn session_status_labels_are_distinct() {
    let all = [
        Status::Idle,
        Status::Connecting,
        Status::Listening,
        Status::Stopping,
    ];
    let mut l: Vec<&str> = all.iter().map(|s| s.label()).collect();
    l.sort_unstable();
    let n = l.len();
    l.dedup();
    assert_eq!(l.len(), n);
}

#[test]
fn a_merge_reports_an_error_from_any_session() {
    let failed = SessionState {
        error: Some("connecting to the server: refused".into()),
        ..Default::default()
    };
    let merged = merge_states(&[SessionState::default(), failed]);
    assert_eq!(
        merged.error.as_deref(),
        Some("connecting to the server: refused")
    );
}

fn committed(speakers: &[Option<u32>]) -> Vec<Segment> {
    speakers
        .iter()
        .enumerate()
        .map(|(i, speaker)| Segment {
            at: ns(i as f64),
            text: format!("fragment {i} "),
            source: None,
            speaker: *speaker,
            seq: Some(i as u64 + 1),
        })
        .collect()
}

#[test]
fn a_relabel_names_the_segments_in_its_range_and_no_others() {
    let mut segs = committed(&[None, None, None, Some(2)]);
    assert!(apply_relabel(&mut segs, 1, 2, 1));
    assert_eq!(
        segs.iter().map(|s| s.speaker).collect::<Vec<_>>(),
        vec![Some(1), Some(1), None, Some(2)]
    );
}

#[test]
fn a_relabel_changes_attribution_and_never_a_character_of_text() {
    let before = committed(&[None, None]);
    let mut after = before.clone();
    apply_relabel(&mut after, 1, 2, 3);
    for (a, b) in before.iter().zip(&after) {
        assert_eq!(a.text, b.text);
        assert_eq!(a.at, b.at);
        assert_eq!(a.source, b.source);
        assert_eq!(a.seq, b.seq);
    }
}

#[test]
fn a_relabel_for_seqs_this_client_never_saw_moves_nothing() {
    let mut segs = committed(&[None, None]);
    assert!(!apply_relabel(&mut segs, 90, 99, 1));
    assert!(segs.iter().all(|s| s.speaker.is_none()));
}

#[test]
fn a_relabel_that_agrees_with_what_is_there_reports_no_change() {
    let mut segs = committed(&[Some(1), Some(1)]);
    assert!(!apply_relabel(&mut segs, 1, 2, 1));
}

#[test]
fn a_segment_with_no_seq_is_never_relabelled() {
    let mut segs = committed(&[None, None]);
    segs[0].seq = None;
    assert!(apply_relabel(&mut segs, 0, 99, 1));
    assert_eq!(
        segs.iter().map(|s| s.speaker).collect::<Vec<_>>(),
        vec![None, Some(1)]
    );
}

#[test]
fn a_relabel_reaches_the_saved_transcript() {
    let mut segs = committed(&[None, None]);
    segs[1].at = ns(0.5);
    assert_eq!(
        render(&segs, "", Format::Plain),
        "fragment 0 fragment 1"
    );
    apply_relabel(&mut segs, 1, 2, 1);
    assert_eq!(
        render(&segs, "", Format::Plain),
        "Speaker 1: fragment 0 fragment 1"
    );
}

#[test]
fn only_idle_is_inactive() {
    assert!(!Status::Idle.is_active());
    assert!(Status::Connecting.is_active());
    assert!(Status::Listening.is_active());
    assert!(Status::Stopping.is_active());
}

#[test]
fn merging_sessions_keeps_every_speaker() {
    let mk = |at: f64, text: &str, speaker: u32, source: &str| Segment {
        speaker: Some(speaker),
        ..seg_src(at, text, source)
    };
    let merged = merge_states(&[
        SessionState {
            segments: vec![mk(0.0, "mic one", 1, "Mic"), mk(4.0, "mic two", 2, "Mic")],
            ..Default::default()
        },
        SessionState {
            segments: vec![mk(2.0, "system", 1, "System")],
            ..Default::default()
        },
    ]);

    let got: Vec<(&str, Option<u32>)> = merged
        .segments
        .iter()
        .map(|s| (s.text.as_str(), s.speaker))
        .collect();
    assert_eq!(
        got,
        [("mic one", Some(1)), ("system", Some(1)), ("mic two", Some(2))],
        "the merge must interleave by time and carry every speaker"
    );
}

#[test]
fn a_merged_save_carries_the_prefixes_too() {
    let mk = |at: f64, text: &str, source: &str| Segment {
        speaker: Some(1),
        ..seg_src(at, text, source)
    };
    let merged = merge_states(&[
        SessionState {
            segments: vec![mk(0.0, "we ship Thursday", "Mic")],
            ..Default::default()
        },
        SessionState {
            segments: vec![mk(2.0, "no we don't", "System")],
            ..Default::default()
        },
    ]);
    let text = save_rendered(&merged.segments, &merged.transcript, Format::Labelled).unwrap();
    assert!(text.contains("[Mic] Speaker 1: we ship Thursday"), "{text}");
    assert!(text.contains("[System] Speaker 1: no we don't"), "{text}");
}

#[test]
fn a_live_state_carries_everything_except_the_transcript() {
    let full = SessionState {
        status: Status::Listening,
        transcript: "words".into(),
        segments: vec![seg_spk(0.0, "words", Some(1))],
        last_fragment: "words".into(),
        model: Some("nemotron".into()),
        chunk_ms: Some(560),
        diarize: true,
        diarize_requested: true,
        error: Some("boom".into()),
        stream_error: Some("disk full".into()),
        sources: Vec::new(),
        levels: vec![0.5f32.to_bits(); 10],
        rms: 0.25f32.to_bits(),
        changes: 7,
    };
    let live = full.live();
    assert!(live.transcript.is_empty() && live.segments.is_empty());
    assert_eq!(
        (live.status, live.model.clone(), live.chunk_ms, live.changes),
        (full.status, full.model.clone(), full.chunk_ms, full.changes)
    );
    assert_eq!(
        (live.diarize, live.diarize_requested, live.rms),
        (full.diarize, full.diarize_requested, full.rms)
    );
    assert_eq!((live.error, live.levels), (full.error, full.levels));
    assert_eq!(live.stream_error, full.stream_error);
    assert_eq!(live.last_fragment, full.last_fragment);
}

#[test]
fn a_session_says_what_it_wants_first() {
    match hello(OutputMode::Transcribe, true) {
        ClientMessage::SessionStart {
            mode,
            sample_rate,
            encoding,
            diarize,
            ..
        } => {
            assert_eq!(mode, Mode::Transcript);
            assert_eq!(sample_rate, SAMPLE_RATE);
            assert_eq!(encoding, Encoding::PcmS16le);
            assert!(diarize);
        }
        _ => panic!("a session starts with session.start"),
    }
    match hello(OutputMode::Type, true) {
        ClientMessage::SessionStart { mode, diarize, .. } => {
            assert_eq!(mode, Mode::Live);
            assert!(!diarize, "text that is typed cannot be relabelled");
        }
        _ => panic!("a session starts with session.start"),
    }
    assert_eq!(bearer("t"), "Bearer t");
}

fn ready_message() -> ServerMessage {
    ServerMessage::SessionReady {
        model: "nemotron".into(),
        chunk_ms: 560,
        diarize: true,
    }
}

#[test]
fn the_first_frame_decides_whether_a_session_begins() {
    let url = "ws://h:1/v1/stream";
    assert!(ready(&FirstFrame::Message(ready_message()), url).is_ok());
    assert!(ready(&FirstFrame::Closed, url).is_err());
    assert!(ready(&FirstFrame::NotText, url).is_err());
    assert!(ready(&FirstFrame::Failed("reset".into()), url).unwrap_err().contains("reset"));
    assert!(ready(&FirstFrame::Undecodable("eof".into()), url).is_err());
    let refused = ServerMessage::Error {
        code: ErrorCode::Capacity,
        message: "all sessions in use".into(),
        retryable: true,
    };
    assert!(ready(&FirstFrame::Message(refused), url)
        .unwrap_err()
        .contains("all sessions in use"));
    let odd = ServerMessage::SessionClosed { reason: "x".into() };
    assert!(ready(&FirstFrame::Message(odd), url).is_err());
}

#[test]
fn a_session_listens_once_the_server_is_ready() {
    let mut s = SessionState::connecting();
    assert_eq!(s.status, Status::Connecting);
    requested(&mut s, OutputMode::Transcribe, true);
    assert!(s.diarize_requested);
    handshake(&mut s, &FirstFrame::Message(ready_message()), "ws://h").unwrap();
    assert_eq!(s.status, Status::Listening);
    assert_eq!(s.model.as_deref(), Some("nemotron"));
    assert_eq!(s.chunk_ms, Some(560));
    assert!(s.diarize);
    stopping(&mut s);
    assert_eq!(s.status, Status::Stopping);
    finished(&mut s);
    assert_eq!(s.status, Status::Idle);
    fail(&mut s, "boom".into());
    assert_eq!(s.error.as_deref(), Some("boom"));
    stream_failed(&mut s, "disk full".into());
    assert_eq!(s.stream_error.as_deref(), Some("disk full"));
}

fn commit(seq: u64, text: &str) -> ServerMessage {
    ServerMessage::TranscriptCommit {
        seq,
        text: text.into(),
        speaker: None,
    }
}

#[test]
fn a_commit_is_typed_kept_and_streamed_as_the_mode_asks() {
    let mut s = SessionState::connecting();
    let e = on_message(&mut s, &commit(1, "hello "), OutputMode::Both, &None, ns(1.0));
    assert_eq!(e.typing.as_deref(), Some("hello "));
    assert_eq!(e.append.unwrap().text, "hello ");
    assert!(!e.end);
    assert_eq!(s.transcript, "hello ");
    assert_eq!(s.segments.len(), 1);
    assert_eq!(s.segments[0].seq, Some(1));
    assert_eq!(s.last_fragment, "hello ");

    let mut s = SessionState::connecting();
    let e = on_message(&mut s, &commit(1, "hello "), OutputMode::Transcribe, &None, 0);
    assert!(e.typing.is_none());

    let mut s = SessionState::connecting();
    let e = on_message(&mut s, &commit(1, "hello "), OutputMode::Type, &None, 0);
    assert!(e.typing.is_some());
    assert!(s.transcript.is_empty(), "type mode does not accumulate");
}

#[test]
fn a_closed_session_ends_and_an_error_is_kept() {
    let mut s = SessionState::connecting();
    let closed = ServerMessage::SessionClosed { reason: "done".into() };
    assert!(on_message(&mut s, &closed, OutputMode::Both, &None, 0).end);
    let error = ServerMessage::Error {
        code: ErrorCode::Internal,
        message: "boom".into(),
        retryable: false,
    };
    assert!(on_message(&mut s, &error, OutputMode::Both, &None, 0).end);
    assert!(s.error.unwrap().contains("boom"));
}

#[test]
fn the_meter_window_keeps_the_newest_samples() {
    let window: Vec<u32> = (0..METER_WINDOW as u32).collect();
    let next = slide(&window, &[7, 8]);
    assert_eq!(next.len(), METER_WINDOW);
    assert_eq!(next[0], 2);
    assert_eq!(&next[METER_WINDOW - 2..], &[7, 8]);
    assert_eq!(slide(&vec![1], &[2, 3]), [1, 2, 3]);
}

#[test]
fn save_config_names_match_what_serde_accepts() {
    for f in Format::ALL {
        let quoted = format!("\"{}\"", f.name());
        let read: String = serde_json::from_str(&quoted).unwrap();
        assert_eq!(Format::named(&read).unwrap(), f);
    }
    assert_eq!(Format::named("prose"), None);
}

#[test]
fn a_path_on_windows_splits_at_either_separator() {
    let here = Platform::Windows;
    assert_eq!(
        path_for_source(r"C:\notes\meeting.txt", "Yeti", here),
        r"C:\notes\meeting-yeti.txt"
    );
    assert_eq!(path_for_source("C:/notes/meeting.txt", "Yeti", here), r"C:/notes\meeting-yeti.txt");
    assert_eq!(path_for_source("C:meeting.txt", "Yeti", here), "C:meeting-yeti.txt");
    assert_eq!(
        restamped(r"D:\talks\2026-08-20_09-14-03.txt", "2026-08-21_14-53-07", here),
        r"D:\talks\2026-08-21_14-53-07.txt"
    );
    // Elsewhere a backslash is a character like any other.
    assert_eq!(
        path_for_source(r"a\b.txt", "Yeti", Platform::Linux),
        r"a\b-yeti.txt"
    );
    let (path, _) = save_default("words", r"C:\out", "2026-08-21_14-53-07", here).unwrap();
    assert_eq!(path, r"C:\out\2026-08-21_14-53-07.txt");
}

#[test]
fn paths_are_taken_apart_as_the_platform_reads_them() {
    let linux = Platform::Linux;
    let windows = Platform::Windows;
    assert_eq!(paths::file_name("/a/b.txt/", linux).as_deref(), Some("b.txt"));
    assert_eq!(paths::file_name("/a/..", linux), None);
    assert_eq!(paths::file_name(r"C:\a\b.txt", windows).as_deref(), Some("b.txt"));
    assert_eq!(paths::file_name("C:", windows), None);
    assert_eq!(paths::file_name(r"\\server\share", windows), None);
    assert_eq!(paths::file_name(r"\\server\share\x", windows).as_deref(), Some("x"));
    assert_eq!(paths::parent("/a/./b", linux).as_deref(), Some("/a"));
    assert_eq!(paths::parent("/", linux), None);
    assert_eq!(paths::parent("", linux), None);
    assert_eq!(paths::parent("b", linux).as_deref(), Some(""));
    assert_eq!(paths::parent(r"C:\a", windows).as_deref(), Some(r"C:\"));
    assert_eq!(paths::parent(r"C:\", windows), None);
    assert_eq!(paths::parent("C:a", windows).as_deref(), Some("C:"));
    assert_eq!(paths::join("/a", "/b", linux), "/b");
    assert_eq!(paths::join(r"C:\a", r"\b", windows), r"C:\b");
    assert_eq!(paths::join(r"C:\a", r"D:b", windows), "D:b");
    assert_eq!(paths::join("C:", "b", windows), "C:b");
    assert_eq!(paths::join(r"\\server\share", "b", windows), r"\\server\share\b");
    assert_eq!(paths::with_extension(r"C:\run\x.pid", "stop", windows), r"C:\run\x.stop");
    assert_eq!(paths::with_extension("/", "stop", linux), "/");
}

#[test]
fn two_spellings_of_a_path_are_one() {
    let linux = Platform::Linux;
    let windows = Platform::Windows;
    assert!(paths::same_path("/a//b/", "/a/./b", linux));
    assert!(!paths::same_path("a/b", "./a/b", linux));
    assert!(!paths::same_path("a", "/a", linux));
    assert!(!paths::same_path(r"a\b", "a/b", linux));
    assert!(paths::same_path(r"a\b", "a/b", windows));
    assert!(paths::same_path(r"c:\a", "C:/a", windows));
    assert!(!paths::same_path(r"C:\a", "C:a", windows));
    assert!(paths::same_path(r"\\server\share", "//server/share/", windows));
    assert!(!paths::same_path(r"\\server\share", r"\\Server\share", windows));
}
