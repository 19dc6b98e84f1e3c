use std::cell::Cell;
use syrinx::proto::{Mode, ServerMessage};
use syrinx::server::asr::{chunk_ms, AsrBackend, AsrStream, CHUNK_SAMPLES};
use syrinx::server::gpu::{drain, median, verify_gpu, Timing, FLUSH_CHUNKS, GPU_SANITY_THRESHOLD};
use syrinx::server::lifecycle::{
    parse_unsigned, FixedVramProbe, LoadError, ModelHandle, NvidiaSmiProbe, VramGuard, VramProbe,
    NVIDIA_SMI_ARGS,
};
use syrinx::server::mock::MockBackend;
use syrinx::server::session::Session;

fn quiet(n: usize) -> Vec<u32> {
    vec![0.0f32.to_bits(); n]
}

// ---- sessions ------------------------------------------------------------------

fn drive(mode: Mode, chunks: usize) -> Vec<ServerMessage> {
    let backend = MockBackend::new(&["alpha", "beta", "gamma"]);
    let mut s = Session::new(mode, &backend, "sid-1".into());
    let mut out = Vec::new();
    for _ in 0..chunks {
        out.extend(s.push_audio(&quiet(8960)).unwrap());
    }
    out.extend(s.finish().unwrap());
    out
}

#[test]
fn live_mode_never_emits_provisional_or_revise() {
    for m in drive(Mode::Live, 3) {
        match m {
            ServerMessage::TranscriptProvisional { .. } | ServerMessage::TranscriptRevise { .. } => {
                panic!("live mode emitted a revision message: {m:?}")
            }
            _ => {}
        }
    }
}

#[test]
fn live_mode_commits_are_sequential_from_one() {
    let seqs: Vec<u64> = drive(Mode::Live, 3)
        .into_iter()
        .filter_map(|m| match m {
            ServerMessage::TranscriptCommit { seq, .. } => Some(seq),
            _ => None,
        })
        .collect();
    assert_eq!(seqs, vec![1, 2, 3]);
}

#[test]
fn transcript_mode_still_commits_text() {
    let committed: String = drive(Mode::Transcript, 3)
        .into_iter()
        .filter_map(|m| match m {
            ServerMessage::TranscriptCommit { text, .. } => Some(text),
            _ => None,
        })
        .collect();
    assert!(committed.contains("alpha"), "got: {committed}");
}

#[test]
fn audio_shorter_than_a_chunk_emits_nothing_until_finish() {
    let backend = MockBackend::new(&["alpha"]);
    let mut s = Session::new(Mode::Live, &backend, "sid".into());

    assert!(s.push_audio(&quiet(100)).unwrap().is_empty());
    assert_eq!(s.finish().unwrap().len(), 1, "finish must flush the tail");
}

#[test]
fn one_oversized_push_emits_several_chunks() {
    let backend = MockBackend::new(&["a", "b", "c"]);
    let mut s = Session::new(Mode::Live, &backend, "sid".into());
    assert_eq!(s.push_audio(&quiet(8960 * 3)).unwrap().len(), 3);
}

#[test]
fn finish_on_an_empty_session_emits_nothing() {
    let backend = MockBackend::new(&["alpha"]);
    let mut s = Session::new(Mode::Live, &backend, "sid".into());
    assert!(s.finish().unwrap().is_empty());
}

#[test]
fn how_audio_is_cut_into_frames_makes_no_difference() {
    let backend = MockBackend::new(&["a", "b", "c"]).with_chunk_samples(10);
    let mut whole = Session::new(Mode::Live, &backend, "sid".into());
    let mut cut = Session::new(Mode::Live, &backend, "sid".into());
    let all = whole.push_audio(&quiet(25)).unwrap();
    let mut parts = cut.push_audio(&quiet(3)).unwrap();
    parts.extend(cut.push_audio(&quiet(22)).unwrap());
    assert_eq!(all, parts);
    assert_eq!(all.len(), 2);
    assert_eq!(whole.finish().unwrap(), cut.finish().unwrap());
}

// ---- the scripted backend ---------------------------------------------------------

#[test]
fn mock_emits_one_word_per_chunk() {
    let b = MockBackend::new(&["hello", "world"]);
    let mut s = b.stream();
    assert_eq!(s.push(&quiet(8960)).unwrap(), "hello ");
    assert_eq!(s.push(&quiet(8960)).unwrap(), "world ");
}

#[test]
fn mock_returns_empty_when_script_exhausted() {
    let b = MockBackend::new(&["only"]);
    let mut s = b.stream();
    let _ = s.push(&quiet(8960)).unwrap();
    assert_eq!(s.push(&quiet(8960)).unwrap(), "");
}

#[test]
fn streams_from_one_backend_are_independent() {
    let b = MockBackend::new(&["alpha", "beta"]);
    let (mut a, mut c) = (b.stream(), b.stream());
    assert_eq!(a.push(&quiet(8960)).unwrap(), "alpha ");
    assert_eq!(c.push(&quiet(8960)).unwrap(), "alpha ");
}

#[test]
fn chunk_ms_derives_from_sample_count() {
    assert_eq!(MockBackend::new(&[]).chunk_ms(), 560);
    assert_eq!(chunk_ms(&MockBackend::new(&[]).with_chunk_samples(16_000)), 1000);
    assert_eq!(CHUNK_SAMPLES, 8960);
}

// ---- the graphics card ---------------------------------------------------------------

#[test]
fn the_median_is_the_middle_of_the_sorted_times() {
    let t = |v: &[u64]| v.iter().map(|n| Timing(*n)).collect::<Vec<_>>();
    assert_eq!(median(t(&[9, 1, 5])), Timing(5));
    assert_eq!(median(t(&[4, 1, 3, 2])), Timing(3));
}

#[test]
fn inference_at_processor_speed_is_refused() {
    assert!(verify_gpu(Timing(GPU_SANITY_THRESHOLD)).is_ok());
    let tie = verify_gpu(Timing(90_500_000)).unwrap_err();
    assert!(tie.contains("took 90ms"), "got: {tie}");
    let odd_tie = verify_gpu(Timing(91_500_000)).unwrap_err();
    assert!(odd_tie.contains("took 92ms"), "got: {odd_tie}");
    let e = verify_gpu(Timing(450_000_000)).unwrap_err();
    assert!(e.contains("450ms per 8960"), "got: {e}");
}

#[test]
fn draining_feeds_silence() {
    let words: Vec<String> = (0..FLUSH_CHUNKS + 1).map(|i| format!("w{i}")).collect();
    let refs: Vec<&str> = words.iter().map(|w| w.as_str()).collect();
    let mut s = MockBackend::new(&refs).stream();
    assert_eq!(drain(&mut s).unwrap(), "w0 w1 w2 ");
}

// ---- the model's lifetime ----------------------------------------------------------

type Handle = ModelHandle<MockBackend, FixedVramProbe>;

const SECOND: u64 = 1_000_000_000;

fn handle_with(free: Option<u64>, model_mib: u64, idle: u64) -> Handle {
    ModelHandle::new(VramGuard::new(1536), FixedVramProbe(free), model_mib, idle, 0)
}

fn load(n: &Cell<usize>) -> Result<MockBackend, String> {
    n.set(n.get() + 1);
    Ok(MockBackend::new(&["x"]))
}

#[test]
fn refuses_to_load_when_free_vram_below_floor() {
    let g = VramGuard::new(1536);
    assert!(!g.can_load(3400, 2000));
}

#[test]
fn allows_load_with_headroom_above_floor() {
    let g = VramGuard::new(1536);
    assert!(g.can_load(3400, 6000));
}

#[test]
fn boundary_is_exclusive_not_inclusive() {
    let g = VramGuard::new(1536);
    assert!(!g.can_load(3400, 3400 + 1536));
    assert!(g.can_load(3400, 3400 + 1536 + 1));
}

#[test]
fn a_zero_floor_still_requires_room_for_the_model_itself() {
    let g = VramGuard::new(0);
    assert!(!g.can_load(3400, 3400));
    assert!(g.can_load(3400, 3401));
}

#[test]
fn model_is_not_loaded_until_first_use() {
    let n = Cell::new(0);
    let mut h = handle_with(Some(8000), 3400, 600 * SECOND);
    assert!(!h.is_loaded());
    assert_eq!(n.get(), 0, "must not load eagerly");

    assert!(h.get_or_load(|| load(&n), SECOND).is_ok());
    assert!(h.is_loaded());
    assert_eq!(n.get(), 1);
}

#[test]
fn repeated_use_loads_only_once() {
    let n = Cell::new(0);
    let mut h = handle_with(Some(8000), 3400, 600 * SECOND);
    for i in 1..4 {
        assert!(h.get_or_load(|| load(&n), i * SECOND).is_ok());
    }
    assert_eq!(n.get(), 1, "must reuse the loaded model");
}

#[test]
fn refuses_when_a_neighbour_is_using_the_gpu() {
    let n = Cell::new(0);
    let mut h = handle_with(Some(4000), 3400, 600 * SECOND);
    let err = match h.get_or_load(|| load(&n), SECOND) {
        Ok(_) => panic!("expected a refusal when VRAM is short"),
        Err(e) => e,
    };
    assert!(err.message().contains("refusing to load"), "got: {}", err.message());
    assert!(err.is_retryable(), "VRAM pressure is transient, so retryable");
    assert_eq!(n.get(), 0, "must not have attempted a load");
}

#[test]
fn a_broken_loader_is_reported_as_permanent_not_retryable() {
    let mut h = handle_with(Some(8000), 3400, 600 * SECOND);
    match h.get_or_load(|| Err("model directory not found".to_string()), SECOND) {
        Ok(_) => panic!("expected the load to fail"),
        Err(e) => {
            assert!(!e.is_retryable(), "a broken loader is permanent");
            assert!(e.message().contains("model directory not found"));
            assert!(matches!(e, LoadError::Failed(_)));
        }
    }
    assert!(!h.is_loaded());
}

#[test]
fn no_gpu_skips_the_vram_check_entirely() {
    let n = Cell::new(0);
    let mut h = handle_with(None, 3400, 600 * SECOND);
    assert!(h.get_or_load(|| load(&n), SECOND).is_ok());
    assert_eq!(n.get(), 1);
}

#[test]
fn idle_model_is_unloaded_and_reloaded_on_next_use() {
    let n = Cell::new(0);
    let mut h = handle_with(Some(8000), 3400, 0);
    assert!(h.get_or_load(|| load(&n), SECOND).is_ok());
    assert!(h.is_loaded());

    assert!(h.unload_if_idle(SECOND), "should have unloaded");
    assert!(!h.is_loaded(), "server must hold zero VRAM when idle");

    assert!(h.get_or_load(|| load(&n), 2 * SECOND).is_ok());
    assert_eq!(n.get(), 2, "reload after unload");
}

#[test]
fn a_model_still_within_its_idle_window_is_kept() {
    let n = Cell::new(0);
    let mut h = handle_with(Some(8000), 3400, 600 * SECOND);
    assert!(h.get_or_load(|| load(&n), SECOND).is_ok());
    assert!(!h.unload_if_idle(2 * SECOND), "keep-warm window must prevent thrash");
    assert!(h.is_loaded());
}

#[test]
fn unloading_when_nothing_is_loaded_is_a_no_op() {
    let mut h = handle_with(Some(8000), 3400, 0);
    assert!(!h.unload_if_idle(SECOND));
}

#[test]
fn the_driver_is_read_for_what_it_printed() {
    let free = |s: &str| {
        NvidiaSmiProbe {
            printed: Some(s.to_string()),
        }
        .free_mib()
    };
    assert_eq!(free("7423\n"), Some(7423));
    assert_eq!(free(" 7423 \n9000\n"), Some(7423));
    assert_eq!(free("N/A\n"), None);
    assert_eq!(free(""), None);
    assert_eq!(NvidiaSmiProbe { printed: None }.free_mib(), None);
    assert_eq!(parse_unsigned("18446744073709551615"), Some(u64::MAX));
    assert_eq!(parse_unsigned("18446744073709551616"), None);
    assert_eq!(parse_unsigned("+5"), Some(5));
    assert_eq!(parse_unsigned("-5"), None);
    assert!(NVIDIA_SMI_ARGS[0].contains("memory.free"));
}
