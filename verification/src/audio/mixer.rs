//! Combining several capture sources into one stream.
//!
//! Emission is driven by the clock, not by what the sources have in common.
//! Every tick a frame goes out whatever arrived, and a source short of a full
//! frame contributes silence for the remainder.
//!
//! Gain is 1/N over the sources that are *live*, not over every source
//! selected. A source that has delivered nothing for [`STARVE_AFTER`] is left
//! out of the divisor, so a microphone beside an output with nothing playing
//! reaches the server at full amplitude instead of half.
//!
//! Samples and levels are `f32` values held by their bit patterns, and moments
//! are nanoseconds on one steady clock: nothing here does arithmetic on a
//! sample, it only decides where each one goes.

use crate::audio::source::Source;
use crate::text::{self, joined, opt_view, texts};
use vstd::prelude::*;

verus! {

/// Nanoseconds per second.
pub const SECOND: u64 = 1_000_000_000;

/// How often the mix emits, in nanoseconds: every 20 ms.
pub const TICK: u64 = 20_000_000;

/// Samples emitted per tick: 20 ms at 16 kHz.
pub const FRAME: usize = 320;

/// How much audio a source may buffer before its oldest is dropped: 200 ms.
///
/// A backlog is latency the listener pays for on every word, so the bound is
/// kept short enough that the mix stays near the present.
pub const MAX_QUEUED: usize = 3200;

/// How long a source may contribute nothing before it is reported as silent.
pub const STARVE_AFTER: u64 = 5_000_000_000;

/// How often one source may report that it is being trimmed.
pub const TRIM_LOG_EVERY: u64 = 5_000_000_000;

/// A sample of silence, and the level of it.
pub const SILENCE: u32 = 0;

/// What one source is contributing to the mix.
///
/// The wording is *silent*, not *failed*: an output with nothing playing
/// delivers no packets at all, and that is correct behaviour rather than an
/// error.
#[derive(Debug, PartialEq, Eq)]
pub struct SourceHealth {
    /// `Source::short_label`, so a meter row can name itself.
    pub label: String,
    /// Level of what this source contributed last tick.
    pub rms: u32,
    /// Nothing has arrived from this source for [`STARVE_AFTER`], or nothing
    /// ever will because it did not open.
    pub silent: bool,
    /// Samples trimmed from this source's queue since the session began.
    pub dropped: u64,
    /// Why this source contributes nothing, when its device would not open.
    pub error: Option<String>,
}

impl Clone for SourceHealth {
    fn clone(&self) -> (r: SourceHealth)
        ensures
            r == *self,
    {
        SourceHealth {
            label: self.label.clone(),
            rms: self.rms,
            silent: self.silent,
            dropped: self.dropped,
            error: self.error.clone(),
        }
    }
}

/// How long ago `earlier` was, and no time at all when it is still to come.
pub open spec fn since(now: u64, earlier: u64) -> int {
    if now >= earlier {
        now - earlier
    } else {
        0
    }
}

/// Lets a repeated message through at most once per interval.
///
/// A source that runs fast is trimmed on every callback, which is dozens of
/// times a second; logging each one would bury everything else.
pub struct Rate {
    every: u64,
    last: Option<u64>,
}

impl Rate {
    pub closed spec fn interval(self) -> u64 {
        self.every
    }

    /// When a message was last let through.
    pub closed spec fn latest(self) -> Option<u64> {
        self.last
    }

    pub fn new(every: u64) -> (r: Rate)
        ensures
            r.interval() == every,
            r.latest() is None,
    {
        Rate { every, last: None }
    }

    /// Whether a message may go out at `now`.
    pub fn allow(&mut self, now: u64) -> (r: bool)
        ensures
            final(self).interval() == old(self).interval(),
            r == (match old(self).latest() {
                Some(t) => since(now, t) >= old(self).interval(),
                None => true,
            }),
            final(self).latest() == (if r {
                Some(now)
            } else {
                old(self).latest()
            }),
    {
        let held: bool = match self.last {
            Some(t) => now.saturating_sub(t) < self.every,
            None => false,
        };
        if held {
            false
        } else {
            self.last = Some(now);
            true
        }
    }
}

/// One source's buffered audio, and what the mixer knows about it.
pub struct SourceQueue {
    label: String,
    samples: Vec<u32>,
    last_data: u64,
    rms: u32,
    dropped: u64,
    finished: bool,
    error: Option<String>,
}

/// A source's queue, as plain values.
pub struct QueueView {
    pub label: Seq<char>,
    /// What is waiting to be emitted, oldest first.
    pub samples: Seq<u32>,
    /// When something last arrived. Starts at creation, so a source is given
    /// [`STARVE_AFTER`] to say anything before it is called silent.
    pub last_data: u64,
    /// Level of the last frame taken from this source.
    pub rms: u32,
    /// Samples discarded because this queue overflowed.
    pub dropped: u64,
    /// The capture behind this queue has ended and will send nothing more.
    pub finished: bool,
    /// Why there is no capture behind this queue at all.
    pub error: Option<Seq<char>>,
}

impl View for SourceQueue {
    type V = QueueView;

    closed spec fn view(&self) -> QueueView {
        QueueView {
            label: self.label@,
            samples: self.samples@,
            last_data: self.last_data,
            rms: self.rms,
            dropped: self.dropped,
            finished: self.finished,
            error: opt_view(self.error),
        }
    }
}

/// How many of `n` queued samples are too many.
pub open spec fn excess(n: int) -> int {
    if n > MAX_QUEUED {
        n - MAX_QUEUED
    } else {
        0
    }
}

/// How many of `n` queued samples go into one frame.
pub open spec fn taken(n: int) -> int {
    if n < FRAME {
        n
    } else {
        FRAME as int
    }
}

/// One frame: what a queue has to give, then silence.
pub open spec fn frame_of(samples: Seq<u32>) -> Seq<u32> {
    Seq::new(
        FRAME as nat,
        |i: int|
            if i < taken(samples.len() as int) {
                samples[i]
            } else {
                SILENCE
            },
    )
}

impl QueueView {
    /// Never more than 200 ms behind the present.
    pub open spec fn wf(self) -> bool {
        self.samples.len() <= MAX_QUEUED
    }

    pub open spec fn fresh(label: Seq<char>, now: u64) -> QueueView {
        QueueView {
            label,
            samples: Seq::empty(),
            last_data: now,
            rms: SILENCE,
            dropped: 0,
            finished: false,
            error: None,
        }
    }

    /// Nothing has arrived for [`STARVE_AFTER`], or nothing ever will.
    pub open spec fn is_silent(self, now: u64) -> bool {
        self.error is Some || since(now, self.last_data) >= STARVE_AFTER
    }

    /// Nothing left to emit and nothing more coming.
    pub open spec fn is_spent(self) -> bool {
        self.finished && self.samples.len() == 0
    }

    /// The queue after `chunk` has arrived.
    pub open spec fn pushed(self, chunk: Seq<u32>, now: u64) -> QueueView {
        if chunk.len() == 0 {
            self
        } else {
            let all = self.samples + chunk;
            let x = excess(all.len() as int);
            QueueView {
                samples: all.skip(x),
                last_data: now,
                dropped: (self.dropped + x) as u64,
                ..self
            }
        }
    }

    /// The queue after one frame has been taken from it.
    pub open spec fn after_frame(self) -> QueueView {
        let n = taken(self.samples.len() as int);
        QueueView {
            samples: self.samples.skip(n),
            rms: if n == 0 {
                SILENCE
            } else {
                self.rms
            },
            ..self
        }
    }
}

impl SourceQueue {
    pub fn new(label: String, now: u64) -> (r: SourceQueue)
        ensures
            r@ == QueueView::fresh(label@, now),
    {
        SourceQueue {
            label,
            samples: Vec::new(),
            last_data: now,
            rms: SILENCE,
            dropped: 0,
            finished: false,
            error: None,
        }
    }

    /// A queue for a source whose device would not open.
    ///
    /// It holds a place in the row order and carries the reason, so a window
    /// can name the source that is missing.
    pub fn failed(label: String, why: String, now: u64) -> (r: SourceQueue)
        ensures
            r@ == (QueueView {
                finished: true,
                error: Some(why@),
                ..QueueView::fresh(label@, now)
            }),
    {
        SourceQueue {
            label,
            samples: Vec::new(),
            last_data: now,
            rms: SILENCE,
            dropped: 0,
            finished: true,
            error: Some(why),
        }
    }

    /// Take a chunk from the capture, returning how much had to be discarded.
    ///
    /// The oldest audio goes: the mix stays near the present.
    pub fn push(&mut self, chunk: &[u32], now: u64) -> (r: usize)
        requires
            old(self)@.wf(),
            old(self)@.dropped + chunk@.len() <= u64::MAX,
            MAX_QUEUED + chunk@.len() <= usize::MAX,
        ensures
            final(self)@.wf(),
            final(self)@ == old(self)@.pushed(chunk@, now),
            r == (if chunk@.len() == 0 {
                0
            } else {
                excess((old(self)@.samples.len() + chunk@.len()) as int)
            }),
    {
        if chunk.len() == 0 {
            return 0;
        }
        self.last_data = now;
        let ghost before = self.samples@;
        let mut i: usize = 0;
        let ghost was = *self;
        while i < chunk.len()
            invariant
                i <= chunk@.len(),
                before.len() <= MAX_QUEUED,
                MAX_QUEUED + chunk@.len() <= usize::MAX,
                self.samples@ == before + chunk@.take(i as int),
                *self == (SourceQueue { samples: self.samples, ..was }),
            decreases chunk@.len() - i,
        {
            self.samples.push(chunk[i]);
            assert(before + chunk@.take(i + 1) == (before + chunk@.take(i as int)).push(
                chunk@[i as int],
            ));
            i += 1;
        }
        assert(chunk@.take(chunk@.len() as int) == chunk@);
        let ghost all = before + chunk@;
        let n: usize = self.samples.len();
        let over: usize = if n > MAX_QUEUED {
            n - MAX_QUEUED
        } else {
            0
        };
        if over > 0 {
            self.samples = tail(&self.samples, over);
            self.dropped = self.dropped + over as u64;
        } else {
            assert(all.skip(0) == all);
        }
        over
    }

    /// One frame's worth of this source: what it has, padded with silence, and
    /// how much of it was audio.
    ///
    /// A frame with no audio in it puts the level to silence; the level of any
    /// other is measured and recorded with [`heard`](Self::heard).
    pub fn take_frame(&mut self) -> (r: (Vec<u32>, usize))
        requires
            old(self)@.wf(),
        ensures
            final(self)@.wf(),
            final(self)@ == old(self)@.after_frame(),
            r.0@ == frame_of(old(self)@.samples),
            r.1 == taken(old(self)@.samples.len() as int),
    {
        let len: usize = self.samples.len();
        let n: usize = if len < FRAME {
            len
        } else {
            FRAME
        };
        let mut frame: Vec<u32> = Vec::new();
        let mut i: usize = 0;
        let ghost all = self.samples@;
        while i < FRAME
            invariant
                i <= FRAME,
                n == taken(all.len() as int),
                all == self.samples@,
                frame@ == frame_of(all).take(i as int),
            decreases FRAME - i,
        {
            let v: u32 = if i < n {
                self.samples[i]
            } else {
                SILENCE
            };
            frame.push(v);
            assert(frame_of(all).take(i + 1) == frame_of(all).take(i as int).push(v));
            i += 1;
        }
        assert(frame_of(all).take(FRAME as int) == frame_of(all));
        if n == 0 {
            self.rms = SILENCE;
            assert(all.skip(0) == all);
        } else {
            self.samples = tail(&self.samples, n);
        }
        (frame, n)
    }

    /// Record the level of the frame last taken.
    pub fn heard(&mut self, level: u32)
        ensures
            final(self)@ == (QueueView { rms: level, ..old(self)@ }),
    {
        self.rms = level;
    }

    /// Record that the capture behind this queue has ended.
    pub fn finish(&mut self)
        ensures
            final(self)@ == (QueueView { finished: true, ..old(self)@ }),
    {
        self.finished = true;
    }

    /// Nothing has arrived for [`STARVE_AFTER`], or nothing ever will.
    ///
    /// Also the mix's test for whether this source counts towards the gain
    /// divisor, which is why a source that never opened answers true at once.
    pub fn silent_at(&self, now: u64) -> (r: bool)
        ensures
            r == self@.is_silent(now),
    {
        self.error.is_some() || now.saturating_sub(self.last_data) >= STARVE_AFTER
    }

    /// Nothing left to emit and nothing more coming.
    pub fn spent(&self) -> (r: bool)
        ensures
            r == self@.is_spent(),
    {
        self.finished && self.samples.len() == 0
    }

    /// This source as a meter row.
    pub fn health(&self, now: u64) -> (r: SourceHealth)
        ensures
            health_row(r) == health_of(self@, now),
    {
        SourceHealth {
            label: self.label.clone(),
            rms: self.rms,
            silent: self.silent_at(now),
            dropped: self.dropped,
            error: self.error.clone(),
        }
    }

    /// How many samples have been discarded so far.
    pub fn dropped(&self) -> (r: u64)
        ensures
            r == self@.dropped,
    {
        self.dropped
    }

    /// What to log when this queue overflows.
    pub fn trim_notice(&self) -> (r: String)
        ensures
            r@ == "trimming "@ + self@.label + "'s queue: "@ + text::decimal(self@.dropped as nat)
                + " samples dropped so far. Either this source is running ahead of the mix or the mix is running late; both overflow a queue that holds 3200 samples."@,
    {
        let mut s = "trimming ".to_owned();
        s.append(self.label.as_str());
        s.append("'s queue: ");
        let n = text::decimal_text(self.dropped);
        s.append(n.as_str());
        s.append(
            " samples dropped so far. Either this source is running ahead of the mix or the mix is running late; both overflow a queue that holds 3200 samples.",
        );
        s
    }
}

fn tail(v: &Vec<u32>, from: usize) -> (r: Vec<u32>)
    requires
        from <= v@.len(),
    ensures
        r@ == v@.skip(from as int),
{
    let mut out: Vec<u32> = Vec::new();
    let mut i: usize = from;
    while i < v.len()
        invariant
            from <= i <= v@.len(),
            out@ == v@.subrange(from as int, i as int),
        decreases v@.len() - i,
    {
        out.push(v[i]);
        assert(v@.subrange(from as int, i + 1) == v@.subrange(from as int, i as int).push(
            v@[i as int],
        ));
        i += 1;
    }
    assert(v@.subrange(from as int, v@.len() as int) == v@.skip(from as int));
    out
}

/// A meter row, as plain values.
pub struct HealthView {
    pub label: Seq<char>,
    pub rms: u32,
    pub silent: bool,
    pub dropped: u64,
    pub error: Option<Seq<char>>,
}

pub open spec fn health_row(h: SourceHealth) -> HealthView {
    HealthView {
        label: h.label@,
        rms: h.rms,
        silent: h.silent,
        dropped: h.dropped,
        error: opt_view(h.error),
    }
}

pub open spec fn health_rows(v: Seq<SourceHealth>) -> Seq<HealthView> {
    v.map_values(|h: SourceHealth| health_row(h))
}

pub open spec fn health_of(q: QueueView, now: u64) -> HealthView {
    HealthView {
        label: q.label,
        rms: q.rms,
        silent: q.is_silent(now),
        dropped: q.dropped,
        error: q.error,
    }
}

pub open spec fn queue_views(v: Seq<SourceQueue>) -> Seq<QueueView> {
    v.map_values(|q: SourceQueue| q@)
}

pub open spec fn all_wf(v: Seq<QueueView>) -> bool {
    forall|i: int| 0 <= i < v.len() ==> (#[trigger] v[i]).wf()
}

fn rows(queues: &Vec<SourceQueue>, now: u64) -> (r: Vec<SourceHealth>)
    ensures
        health_rows(r@) == queue_views(queues@).map_values(|q: QueueView| health_of(q, now)),
{
    let mut out: Vec<SourceHealth> = Vec::new();
    let mut i: usize = 0;
    while i < queues.len()
        invariant
            i <= queues@.len(),
            out@.len() == i,
            forall|j: int|
                0 <= j < i ==> health_row(#[trigger] out@[j]) == health_of(queues@[j]@, now),
        decreases queues@.len() - i,
    {
        let h = queues[i].health(now);
        out.push(h);
        i += 1;
    }
    assert(health_rows(out@) =~= queue_views(queues@).map_values(
        |q: QueueView| health_of(q, now),
    ));
    out
}

/// How many of `queues` are carrying audio.
pub open spec fn live_count(queues: Seq<QueueView>, now: u64) -> nat
    decreases queues.len(),
{
    if queues.len() == 0 {
        0
    } else {
        live_count(queues.drop_last(), now) + if queues.last().is_silent(now) {
            0nat
        } else {
            1nat
        }
    }
}

pub open spec fn all_spent(queues: Seq<QueueView>) -> bool {
    forall|i: int| 0 <= i < queues.len() ==> (#[trigger] queues[i]).is_spent()
}

/// What one tick of the mix takes from its sources.
pub struct Tick {
    /// One frame per source.
    pub frames: Vec<Vec<u32>>,
    /// How much of each frame is audio rather than padding.
    pub taken: Vec<usize>,
    /// How many sources count towards the gain divisor.
    pub live: usize,
    /// Every source had already given everything it ever will: the mix ends
    /// here, and this tick's frames are padding alone.
    pub spent: bool,
}

fn take_frames(queues: &mut Vec<SourceQueue>, now: u64) -> (r: Tick)
    requires
        all_wf(queue_views(old(queues)@)),
    ensures
        all_wf(queue_views(final(queues)@)),
        queue_views(final(queues)@) == queue_views(old(queues)@).map_values(
            |q: QueueView| q.after_frame(),
        ),
        r.frames@.len() == old(queues)@.len(),
        r.taken@.len() == old(queues)@.len(),
        forall|i: int|
            0 <= i < old(queues)@.len() ==> (#[trigger] r.frames@[i])@ == frame_of(
                queue_views(old(queues)@)[i].samples,
            ),
        forall|i: int|
            0 <= i < old(queues)@.len() ==> (#[trigger] r.taken@[i]) == taken(
                queue_views(old(queues)@)[i].samples.len() as int,
            ),
        r.live == live_count(queue_views(old(queues)@), now),
        r.spent == all_spent(queue_views(old(queues)@)),
{
    let ghost before = queue_views(queues@);
    let mut frames: Vec<Vec<u32>> = Vec::new();
    let mut amounts: Vec<usize> = Vec::new();
    let mut live: usize = 0;
    let mut spent: bool = true;
    let mut i: usize = 0;
    while i < queues.len()
        invariant
            i <= queues@.len() == before.len(),
            all_wf(before),
            frames@.len() == i,
            amounts@.len() == i,
            live <= i,
            live == live_count(before.take(i as int), now),
            spent == (forall|j: int| 0 <= j < i ==> (#[trigger] before[j]).is_spent()),
            forall|j: int| 0 <= j < i ==> (#[trigger] queues@[j])@ == before[j].after_frame(),
            forall|j: int| i <= j < before.len() ==> (#[trigger] queues@[j])@ == before[j],
            forall|j: int| 0 <= j < i ==> (#[trigger] frames@[j])@ == frame_of(before[j].samples),
            forall|j: int|
                0 <= j < i ==> (#[trigger] amounts@[j]) == taken(before[j].samples.len() as int),
        decreases queues@.len() - i,
    {
        assert(before.take(i + 1).drop_last() == before.take(i as int));
        assert(queues@[i as int]@ == before[i as int]);
        spent = spent && queues[i].spent();
        if !queues[i].silent_at(now) {
            live += 1;
        }
        let (frame, n) = queues[i].take_frame();
        frames.push(frame);
        amounts.push(n);
        i += 1;
    }
    assert(before.take(before.len() as int) == before);
    assert(queue_views(queues@) =~= before.map_values(|q: QueueView| q.after_frame()));
    assert forall|j: int| 0 <= j < queues@.len() implies (#[trigger] queue_views(
        queues@,
    )[j]).wf() by {
        assert(before[j].wf());
    }
    Tick { frames, taken: amounts, live, spent }
}

/// What became of opening one selected source: nothing, or why it failed.
pub open spec fn opened_queue(s: Source, outcome: Option<Seq<char>>, now: u64) -> QueueView {
    match outcome {
        None => QueueView::fresh(s.short(), now),
        Some(why) => QueueView {
            finished: true,
            error: Some(why),
            ..QueueView::fresh(s.short(), now)
        },
    }
}

/// The failures among `outcomes`, each under the name its source is shown by.
pub open spec fn failures_of(sources: Seq<Source>, outcomes: Seq<Option<String>>) -> Seq<Seq<char>>
    decreases sources.len(),
{
    if sources.len() == 0 || sources.len() != outcomes.len() {
        Seq::empty()
    } else {
        let rest = failures_of(sources.drop_last(), outcomes.drop_last());
        let s = sources.last();
        match opt_view(outcomes.last()) {
            Some(why) => rest.push(
                crate::audio::source::display_of(
                    s.name@,
                    crate::audio::source::shown_detail(s.detail),
                ) + ": "@ + why,
            ),
            None => rest,
        }
    }
}

fn open_queues(sources: &[Source], outcomes: &Vec<Option<String>>, now: u64) -> (r: Result<
    Vec<SourceQueue>,
    String,
>)
    requires
        sources@.len() == outcomes@.len(),
    ensures
        match r {
            Ok(v) => {
                &&& exists|i: int| 0 <= i < outcomes@.len() && (#[trigger] outcomes@[i]) is None
                &&& queue_views(v@) == Seq::new(
                    sources@.len(),
                    |i: int| opened_queue(sources@[i], opt_view(outcomes@[i]), now),
                )
                &&& all_wf(queue_views(v@))
            },
            Err(e) => {
                &&& forall|i: int| 0 <= i < outcomes@.len() ==> (#[trigger] outcomes@[i]) is Some
                &&& e@ == (if sources@.len() == 0 {
                    "no sources to combine"@
                } else {
                    "no selected source would open ("@ + joined(
                        failures_of(sources@, outcomes@),
                        "; "@,
                    ) + ")"@
                })
            },
        },
{
    if sources.len() == 0 {
        return Err("no sources to combine".to_owned());
    }
    let mut queues: Vec<SourceQueue> = Vec::new();
    let mut failures: Vec<String> = Vec::new();
    let mut any: bool = false;
    let mut i: usize = 0;
    assert(texts(failures@) == failures_of(sources@.take(0), outcomes@.take(0)));
    while i < sources.len()
        invariant
            i <= sources@.len() == outcomes@.len(),
            queues@.len() == i,
            any == (exists|j: int| 0 <= j < i && (#[trigger] outcomes@[j]) is None),
            texts(failures@) == failures_of(sources@.take(i as int), outcomes@.take(i as int)),
            forall|j: int|
                0 <= j < i ==> (#[trigger] queues@[j])@ == opened_queue(
                    sources@[j],
                    opt_view(outcomes@[j]),
                    now,
                ),
        decreases sources@.len() - i,
    {
        assert(sources@.take(i + 1).drop_last() == sources@.take(i as int));
        assert(outcomes@.take(i + 1).drop_last() == outcomes@.take(i as int));
        let ghost was = failures@;
        let label = sources[i].short_label();
        match &outcomes[i] {
            None => {
                any = true;
                assert(outcomes@[i as int] is None);
                queues.push(SourceQueue::new(label, now));
            },
            Some(why) => {
                let mut line = sources[i].display();
                line.append(": ");
                line.append(why.as_str());
                let ghost l = line@;
                failures.push(line);
                assert(texts(failures@) == texts(was).push(l));
                queues.push(SourceQueue::failed(label, why.clone(), now));
            },
        }
        i += 1;
    }
    assert(sources@.take(i as int) == sources@);
    assert(outcomes@.take(i as int) == outcomes@);
    if !any {
        let list = text::join(&failures, "; ");
        let mut e = "no selected source would open (".to_owned();
        e.append(list.as_str());
        e.append(")");
        return Err(e);
    }
    let ghost want = Seq::new(
        sources@.len(),
        |i: int| opened_queue(sources@[i], opt_view(outcomes@[i]), now),
    );
    assert(queue_views(queues@) =~= want);
    assert forall|j: int| 0 <= j < queues@.len() implies (#[trigger] queue_views(
        queues@,
    )[j]).wf() by {
        assert(want[j].wf());
    }
    Ok(queues)
}

/// The sources of a mix, each with its queue, in the order they were selected.
pub struct MixedCapture {
    pub queues: Vec<SourceQueue>,
}

/// How each source of a mix is doing.
pub struct Health<'a>(pub &'a Vec<SourceQueue>);

impl<'a> Health<'a> {
    /// What each source is contributing, in the order they were selected.
    pub fn read(&self, now: u64) -> (r: Vec<SourceHealth>)
        ensures
            health_rows(r@) == queue_views(self.0@).map_values(
                |q: QueueView| health_of(q, now),
            ),
    {
        rows(self.0, now)
    }
}

impl MixedCapture {
    /// Start a mix of every source that opened.
    ///
    /// A device that refuses to open costs its own row and nothing else: failing
    /// the whole session for it would take away the working microphone beside
    /// it. Every source failing is still an error: there is nothing to record.
    pub fn start(sources: &[Source], outcomes: &Vec<Option<String>>, now: u64) -> (r: Result<
        MixedCapture,
        String,
    >)
        requires
            sources@.len() == outcomes@.len(),
        ensures
            match r {
                Ok(m) => {
                    &&& exists|i: int|
                        0 <= i < outcomes@.len() && (#[trigger] outcomes@[i]) is None
                    &&& queue_views(m.queues@) == Seq::new(
                        sources@.len(),
                        |i: int| opened_queue(sources@[i], opt_view(outcomes@[i]), now),
                    )
                    &&& all_wf(queue_views(m.queues@))
                },
                Err(e) => {
                    &&& forall|i: int|
                        0 <= i < outcomes@.len() ==> (#[trigger] outcomes@[i]) is Some
                    &&& e@ == (if sources@.len() == 0 {
                        "no sources to combine"@
                    } else {
                        "no selected source would open ("@ + joined(
                            failures_of(sources@, outcomes@),
                            "; "@,
                        ) + ")"@
                    })
                },
            },
    {
        match open_queues(sources, outcomes, now) {
            Ok(queues) => Ok(MixedCapture { queues }),
            Err(e) => Err(e),
        }
    }

    pub fn health(&self) -> (r: Health<'_>)
        ensures
            *r.0 == self.queues,
    {
        Health(&self.queues)
    }

    /// Take one frame from every source.
    pub fn tick(&mut self, now: u64) -> (r: Tick)
        requires
            all_wf(queue_views(old(self).queues@)),
        ensures
            all_wf(queue_views(final(self).queues@)),
            queue_views(final(self).queues@) == queue_views(old(self).queues@).map_values(
                |q: QueueView| q.after_frame(),
            ),
            r.frames@.len() == old(self).queues@.len(),
            r.taken@.len() == old(self).queues@.len(),
            forall|i: int|
                0 <= i < old(self).queues@.len() ==> (#[trigger] r.frames@[i])@ == frame_of(
                    queue_views(old(self).queues@)[i].samples,
                ),
            forall|i: int|
                0 <= i < old(self).queues@.len() ==> (#[trigger] r.taken@[i]) == taken(
                    queue_views(old(self).queues@)[i].samples.len() as int,
                ),
            r.live == live_count(queue_views(old(self).queues@), now),
            r.spent == all_spent(queue_views(old(self).queues@)),
    {
        take_frames(&mut self.queues, now)
    }
}

/// No sample is lost but those counted as dropped, and none is reordered: what
/// was queued and what arrived is what was discarded followed by what is kept.
pub proof fn lemma_push_keeps_the_newest(q: QueueView, chunk: Seq<u32>, now: u64)
    requires
        q.wf(),
        q.dropped + chunk.len() <= u64::MAX,
    ensures
        ({
            let after = q.pushed(chunk, now);
            let x = after.dropped - q.dropped;
            &&& after.wf()
            &&& 0 <= x
            &&& q.samples + chunk == (q.samples + chunk).take(x) + after.samples
            &&& x > 0 ==> after.samples.len() == MAX_QUEUED
        }),
{
    let after = q.pushed(chunk, now);
    let all = q.samples + chunk;
    if chunk.len() == 0 {
        assert(all == all.take(0) + after.samples);
    } else {
        let x = excess(all.len() as int);
        assert(all == all.take(x) + all.skip(x));
    }
}

/// Audio leaves a queue in the order it arrived: the audio in a frame followed
/// by what is left is what was there.
pub proof fn lemma_frame_takes_the_oldest(q: QueueView)
    ensures
        frame_of(q.samples).len() == FRAME,
        frame_of(q.samples).take(taken(q.samples.len() as int)) + q.after_frame().samples
            == q.samples,
{
    let n = taken(q.samples.len() as int);
    assert(frame_of(q.samples).take(n) + q.samples.skip(n) =~= q.samples);
}

/// A mix only ends once every source has nothing more to say, so ending it
/// loses nothing.
pub proof fn lemma_spent_mix_is_empty(queues: Seq<QueueView>, i: int)
    requires
        all_spent(queues),
        0 <= i < queues.len(),
    ensures
        taken(queues[i].samples.len() as int) == 0,
        frame_of(queues[i].samples) == Seq::new(FRAME as nat, |k: int| SILENCE),
{
    assert(queues[i].is_spent());
    assert(frame_of(queues[i].samples) =~= Seq::new(FRAME as nat, |k: int| SILENCE));
}

/// A source whose device would not open never counts towards the gain.
pub proof fn lemma_failed_source_is_silent(s: Source, why: Seq<char>, now: u64, later: u64)
    ensures
        opened_queue(s, Some(why), now).is_silent(later),
        opened_queue(s, Some(why), now).is_spent(),
{
}

/// The gain divisor of a tick is how many sources are live: those that opened
/// and from which something came less than [`STARVE_AFTER`] ago. Where among
/// the others they were selected makes no difference.
pub proof fn lemma_the_divisor_counts_the_live(queues: Seq<QueueView>, now: u64)
    ensures
        live_count(queues, now) == queues.filter(
            |q: QueueView| q.error is None && now < q.last_data + STARVE_AFTER,
        ).len(),
    decreases queues.len(),
{
    let live = |q: QueueView| q.error is None && now < q.last_data + STARVE_AFTER;
    reveal(Seq::filter);
    if queues.len() > 0 {
        lemma_the_divisor_counts_the_live(queues.drop_last(), now);
    }
}

/// Sources count one by one: the divisor of two lists of sources together is
/// that of the one and that of the other.
pub proof fn lemma_live_sources_add_up(a: Seq<QueueView>, b: Seq<QueueView>, now: u64)
    ensures
        live_count(a + b, now) == live_count(a, now) + live_count(b, now),
    decreases b.len(),
{
    if b.len() == 0 {
        assert(a + b =~= a);
    } else {
        assert((a + b).drop_last() =~= a + b.drop_last());
        lemma_live_sources_add_up(a, b.drop_last(), now);
    }
}

/// One more source, wherever in the list, costs the others some of their level
/// only while it carries audio: a silent one adds nothing to the divisor.
pub proof fn lemma_a_silent_source_costs_the_others_nothing(
    queues: Seq<QueueView>,
    i: int,
    q: QueueView,
    now: u64,
)
    requires
        0 <= i <= queues.len(),
    ensures
        live_count(queues.insert(i, q), now) == live_count(queues, now) + if q.error is None && now
            < q.last_data + STARVE_AFTER {
            1nat
        } else {
            0nat
        },
{
    let a = queues.take(i);
    let b = queues.skip(i);
    assert(queues =~= a + b);
    assert(queues.insert(i, q) =~= a.push(q) + b);
    lemma_live_sources_add_up(a, b, now);
    lemma_live_sources_add_up(a.push(q), b, now);
    assert(a.push(q).drop_last() =~= a);
}

/// A source is live from the moment something arrives of it until
/// [`STARVE_AFTER`] later, and a chunk with nothing in it is no sign of life.
pub proof fn lemma_audio_keeps_a_source_live(q: QueueView, chunk: Seq<u32>, now: u64, later: u64)
    requires
        q.wf(),
        q.error is None,
    ensures
        chunk.len() > 0 ==> (q.pushed(chunk, now).is_silent(later) <==> later >= now
            + STARVE_AFTER),
        chunk.len() == 0 ==> q.pushed(chunk, now) == q,
        q.after_frame().is_silent(later) == q.is_silent(later),
        QueueView::fresh(q.label, now).is_silent(later) <==> later >= now + STARVE_AFTER,
{
}

/// What arrives ends the queue: its newest samples are the newest that came, as
/// far as the queue holds any, and nothing else about the source changes.
pub proof fn lemma_a_push_ends_the_queue(q: QueueView, chunk: Seq<u32>, now: u64)
    requires
        q.wf(),
        q.dropped + chunk.len() <= u64::MAX,
    ensures
        ({
            let after = q.pushed(chunk, now);
            let n = q.samples.len() + chunk.len();
            &&& after.samples.len() == if n < MAX_QUEUED {
                n
            } else {
                MAX_QUEUED as nat
            }
            &&& after.dropped - q.dropped + after.samples.len() == n
            &&& forall|i: int|
                1 <= i <= chunk.len() && i <= after.samples.len() ==> #[trigger] after.samples[
                after.samples.len() - i] == chunk[chunk.len() - i]
            &&& after.label == q.label && after.error == q.error && after.finished == q.finished
                && after.rms == q.rms
        }),
{
}

/// A frame is the oldest audio of a queue, as much as fills it, and zeroes where
/// there is no more; what it took is gone from the queue.
pub proof fn lemma_a_frame_is_audio_and_zeroes(q: QueueView, i: int)
    requires
        0 <= i < FRAME,
    ensures
        frame_of(q.samples)[i] == (if i < q.samples.len() {
            q.samples[i]
        } else {
            0
        }),
        q.after_frame().samples.len() == (if q.samples.len() < FRAME {
            0
        } else {
            q.samples.len() - FRAME
        }),
        taken(q.samples.len() as int) == q.samples.len() - q.after_frame().samples.len(),
        q.samples.len() == 0 ==> q.after_frame().rms == 0,
        q.samples.len() > 0 ==> q.after_frame().rms == q.rms,
        q.after_frame().last_data == q.last_data && q.after_frame().dropped == q.dropped
            && q.after_frame().error == q.error && q.after_frame().finished == q.finished
            && q.after_frame().label == q.label,
{
}

/// A tick of the clock is a frame of audio, and a queue holds ten of them.
pub proof fn lemma_a_tick_is_a_frame()
    ensures
        FRAME * SECOND == TICK * crate::proto::SAMPLE_RATE,
        MAX_QUEUED == 10 * FRAME,
        STARVE_AFTER == 5 * SECOND,
        TRIM_LOG_EVERY == 5 * SECOND,
{
}

/// A meter row says of its source what is so: its name, its level, what was
/// trimmed, why it did not open, and whether it is left out of the divisor.
pub proof fn lemma_a_row_is_of_its_source(q: QueueView, now: u64)
    ensures
        health_of(q, now).label == q.label,
        health_of(q, now).rms == q.rms,
        health_of(q, now).dropped == q.dropped,
        health_of(q, now).error == q.error,
        !health_of(q, now).silent <==> live_count(seq![q], now) == 1,
        q.error is Some ==> health_of(q, now).silent,
{
    lemma_the_divisor_counts_the_live(seq![q], now);
    assert(seq![q].drop_last() =~= Seq::empty());
    reveal_with_fuel(live_count, 2);
}

/// A source that opened starts with nothing and owes nothing; one that did not
/// starts out of the mix and carries the reason. Both have the source's name.
pub proof fn lemma_a_source_starts_as_it_opened(s: Source, why: Seq<char>, now: u64)
    ensures
        ({
            let up = opened_queue(s, None, now);
            let down = opened_queue(s, Some(why), now);
            &&& up.label == s.short() && down.label == s.short()
            &&& up.samples.len() == 0 && down.samples.len() == 0
            &&& up.dropped == 0 && down.dropped == 0
            &&& up.error is None && down.error == Some(why)
            &&& !up.is_spent() && !up.is_silent(now)
            &&& down.is_spent() && live_count(seq![down], now) == 0
        }),
{
    reveal_with_fuel(live_count, 2);
}

/// Every source that would not open is named, in order, and no other.
pub proof fn lemma_every_failure_is_named(sources: Seq<Source>, outcomes: Seq<Option<String>>)
    requires
        sources.len() == outcomes.len(),
    ensures
        failures_of(sources, outcomes).len() == outcomes.filter(|o: Option<String>| o is Some).len(),
        forall|i: int|
            0 <= i < sources.len() && (#[trigger] outcomes[i]) is Some ==> exists|k: int|
                0 <= k < failures_of(sources, outcomes).len() && text::ends(
                    #[trigger] failures_of(sources, outcomes)[k],
                    ": "@ + outcomes[i]->0@,
                ) && text::begins(failures_of(sources, outcomes)[k], sources[i].name@),
    decreases sources.len(),
{
    reveal(Seq::filter);
    let all = failures_of(sources, outcomes);
    if sources.len() > 0 {
        let s = sources.drop_last();
        let o = outcomes.drop_last();
        lemma_every_failure_is_named(s, o);
        let before = failures_of(s, o);
        assert forall|i: int| 0 <= i < sources.len() && (#[trigger] outcomes[i]) is Some implies exists|
            k: int,
        |
            0 <= k < all.len() && text::ends(#[trigger] all[k], ": "@ + outcomes[i]->0@)
                && text::begins(all[k], sources[i].name@) by {
            if i < s.len() {
                assert(o[i] == outcomes[i] && s[i] == sources[i]);
                let k = choose|k: int|
                    0 <= k < before.len() && text::ends(
                        #[trigger] before[k],
                        ": "@ + o[i]->0@,
                    ) && text::begins(before[k], s[i].name@);
                assert(all[k] == before[k]);
            } else {
                let k = all.len() - 1;
                let d = crate::audio::source::display_of(
                    sources[i].name@,
                    crate::audio::source::shown_detail(sources[i].detail),
                );
                let why = outcomes[i]->0@;
                assert(all[k] == d + ": "@ + why);
                assert(all[k].skip(all[k].len() - (": "@ + why).len()) =~= ": "@ + why);
                let n = sources[i].name@.len() as int;
                assert(d.take(n) =~= sources[i].name@);
                assert(all[k].take(n) =~= d.take(n));
                assert(text::begins(all[k], sources[i].name@));
                assert(text::ends(all[k], ": "@ + outcomes[i]->0@));
            }
        }
    }
}

/// No time has passed since a moment that is still to come.
pub proof fn lemma_time_since(now: u64, earlier: u64)
    ensures
        now >= earlier ==> since(now, earlier) == now - earlier,
        now <= earlier ==> since(now, earlier) == 0,
{
}

} // verus!
