use syrinx::audio::mixer::{
    MixedCapture, Rate, SourceQueue, FRAME, MAX_QUEUED, SECOND, STARVE_AFTER, TRIM_LOG_EVERY,
};
use syrinx::audio::source::{Source, SourceKind, SourceTarget};

const T0: u64 = 100_000_000_000;

fn bits(v: f32, n: usize) -> Vec<u32> {
    vec![v.to_bits(); n]
}

fn device(n: &str) -> Source {
    Source {
        target: SourceTarget::CpalDevice {
            name: n.to_string(),
            loopback: false,
        },
        name: n.to_string(),
        kind: SourceKind::Microphone,
        detail: None,
        stable_name: None,
        sink_description: None,
    }
}

#[test]
fn a_fast_source_is_trimmed_rather_than_allowed_to_drift() {
    let mut q = SourceQueue::new("fast".into(), T0);
    for round in 0..10 {
        q.push(&bits(round as f32, MAX_QUEUED / 2), T0);
    }
    assert!(q.dropped() > 0, "nothing was trimmed");
    assert_eq!(q.dropped() as usize, MAX_QUEUED / 2 * 10 - MAX_QUEUED);
    // What is kept is the newest, oldest first.
    let (frame, taken) = q.take_frame();
    assert_eq!(taken, FRAME);
    assert_eq!(f32::from_bits(frame[0]), 8.0);
    let mut last = frame;
    let mut kept = taken;
    loop {
        let (f, n) = q.take_frame();
        if n == 0 {
            break;
        }
        kept += n;
        last = f;
    }
    assert_eq!(kept, MAX_QUEUED, "the queue grew without bound");
    assert_eq!(f32::from_bits(last[FRAME - 1]), 9.0);
}

#[test]
fn a_source_keeping_up_is_never_trimmed() {
    let mut q = SourceQueue::new("steady".into(), T0);
    for _ in 0..20 {
        assert_eq!(q.push(&bits(0.25, FRAME), T0), 0);
        q.take_frame();
    }
    assert_eq!(q.dropped(), 0);
}

#[test]
fn a_repeated_trim_is_logged_at_most_once_per_interval() {
    let mut rate = Rate::new(5 * SECOND);
    let t0 = T0;
    assert!(rate.allow(t0), "the first one has to be said");
    assert!(!rate.allow(t0 + 20_000_000));
    assert!(!rate.allow(t0 + 4 * SECOND));
    assert!(rate.allow(t0 + 5 * SECOND));
    assert!(!rate.allow(t0 + 6 * SECOND));
    assert_eq!(TRIM_LOG_EVERY, 5 * SECOND);
}

#[test]
fn a_source_is_reported_silent_only_after_the_threshold() {
    let mut q = SourceQueue::new("mic".into(), T0);
    assert!(!q.silent_at(T0), "a source is given time to say something");
    assert!(!q.silent_at(T0 + STARVE_AFTER - 1));
    let now = T0 + STARVE_AFTER + SECOND;
    assert!(q.silent_at(now));

    q.push(&bits(0.0, 16), now);
    assert!(!q.silent_at(now));
}

#[test]
fn an_empty_chunk_says_nothing() {
    let mut q = SourceQueue::new("mic".into(), T0);
    let now = T0 + STARVE_AFTER;
    assert_eq!(q.push(&[], now), 0);
    assert!(q.silent_at(now));
}

#[test]
fn a_partial_frame_is_padded_rather_than_shortening_the_mix() {
    let mut q = SourceQueue::new("partial".into(), T0);
    q.push(&bits(1.0, 10), T0);
    let (frame, taken) = q.take_frame();
    assert_eq!(frame.len(), FRAME);
    assert_eq!(taken, 10);
    assert_eq!(f32::from_bits(frame[9]), 1.0);
    assert_eq!(f32::from_bits(frame[10]), 0.0);
}

#[test]
fn a_source_with_nothing_to_give_contributes_a_frame_of_silence() {
    let mut q = SourceQueue::new("idle".into(), T0);
    let (frame, taken) = q.take_frame();
    assert_eq!(frame.len(), FRAME);
    assert_eq!(taken, 0);
    assert!(frame.iter().all(|s| f32::from_bits(*s) == 0.0));
    assert_eq!(f32::from_bits(q.health(T0).rms), 0.0);
}

#[test]
fn an_idle_source_neither_stops_the_mix_nor_joins_the_divisor_once_starved() {
    let sources = [device("A"), device("B")];
    let mut mix = MixedCapture::start(&sources, &vec![None, None], T0).unwrap();
    mix.queues[0].push(&bits(1.0, FRAME), T0);
    let t = mix.tick(T0);
    assert_eq!(t.frames.len(), 2);
    assert_eq!(t.frames[0].len(), FRAME);
    assert_eq!(f32::from_bits(t.frames[0][0]), 1.0);
    assert_eq!(t.live, 2, "a source that may yet speak still counts");
    assert!(!t.spent);

    let later = T0 + STARVE_AFTER;
    mix.queues[0].push(&bits(1.0, FRAME), later);
    assert_eq!(mix.tick(later).live, 1);
}

#[test]
fn the_mix_ends_once_its_sources_have_given_everything() {
    let sources = [device("A"), device("B")];
    let mut mix = MixedCapture::start(&sources, &vec![None, None], T0).unwrap();
    mix.queues[0].push(&bits(0.5, FRAME), T0);
    mix.queues[0].finish();
    mix.queues[1].finish();
    let t = mix.tick(T0);
    assert!(!t.spent, "the last frame of audio has to leave the mix");
    assert_eq!(t.taken, vec![FRAME, 0]);
    assert!(mix.tick(T0).spent);
}

#[test]
fn a_source_that_would_not_open_keeps_its_row_and_costs_nothing() {
    let sources = [device("Yeti"), device("System audio")];
    let mut mix = MixedCapture::start(
        &sources,
        &vec![None, Some("Device does not support input".to_string())],
        T0,
    )
    .unwrap();
    mix.queues[0].push(&bits(1.0, FRAME), T0);
    let t = mix.tick(T0);
    assert_eq!(t.live, 1);
    mix.queues[0].heard(0.75f32.to_bits());

    let rows = mix.health().read(T0);
    assert_eq!(rows.len(), 2, "the source that failed lost its row");
    assert_eq!(rows[0].label, "Yeti");
    assert_eq!(f32::from_bits(rows[0].rms), 0.75);
    assert!(!rows[0].silent);
    assert_eq!(rows[1].label, "System audio");
    assert_eq!(
        rows[1].error.as_deref(),
        Some("Device does not support input"),
        "the reason has to reach the window, not only the log"
    );
    assert!(rows[1].silent);
}

#[test]
fn a_mix_whose_every_source_failed_is_an_error() {
    let sources = [device("no such device one"), device("no such device two")];
    let text = match MixedCapture::start(
        &sources,
        &vec![Some("gone".to_string()), Some("also gone".to_string())],
        T0,
    ) {
        Ok(_) => panic!("a mix with nothing behind it must not report success"),
        Err(e) => e,
    };
    assert_eq!(
        text,
        "no selected source would open (no such device one: gone; no such device two: also gone)"
    );
}

#[test]
fn a_mix_of_no_sources_is_an_error() {
    let none: [Source; 0] = [];
    assert_eq!(MixedCapture::start(&none, &Vec::new(), T0).err().unwrap(), "no sources to combine");
}

#[test]
fn a_trimmed_source_says_so() {
    let mut q = SourceQueue::new("fast".into(), T0);
    assert_eq!(q.push(&bits(0.1, MAX_QUEUED + 5), T0), 5);
    assert!(q.trim_notice().contains("trimming fast's queue: 5 samples dropped so far"));
}
