//! The dictation session: what it tells a front-end, and what each message from
//! the server does to it.

use crate::audio::mixer::{health_rows, HealthView, SourceHealth};
use crate::audio::source::Source;
use crate::client::inject::Method;
use crate::client::mode::OutputMode;
use crate::client::save::{render, rendered, Format};
use crate::client::segment::{copy_segments, segment_views, Segment, SegmentView};
use crate::order::{first_where, lemma_first_where_at, lemma_sorted_map, sort, sorted};
use crate::proto::{ClientMessage, Encoding, ErrorCode, Mode, ServerMessage, SAMPLE_RATE};
use crate::text::{self, opt_view};
use vstd::prelude::*;

verus! {

#[derive(Debug, Clone, Copy, PartialEq, Eq, Structural)]
pub enum Status {
    Idle,
    Connecting,
    Listening,
    Stopping,
    /// Working through an audio file rather than a live source.
    Transcribing,
}

impl Default for Status {
    fn default() -> (r: Status)
        ensures
            r == Status::Idle,
    {
        Status::Idle
    }
}

impl Status {
    pub open spec fn label_of(self) -> Seq<char> {
        match self {
            Status::Idle => "Idle"@,
            Status::Connecting => "Connecting…"@,
            Status::Listening => "LISTENING"@,
            Status::Stopping => "Stopping…"@,
            Status::Transcribing => "TRANSCRIBING FILE"@,
        }
    }

    pub fn label(self) -> (r: &'static str)
        ensures
            r@ == self.label_of(),
    {
        match self {
            Status::Idle => "Idle",
            Status::Connecting => "Connecting…",
            Status::Listening => "LISTENING",
            Status::Stopping => "Stopping…",
            Status::Transcribing => "TRANSCRIBING FILE",
        }
    }

    pub open spec fn active(self) -> bool {
        self != Status::Idle
    }

    pub fn is_active(self) -> (r: bool)
        ensures
            r == self.active(),
    {
        !matches!(self, Status::Idle)
    }
}

// ---------------------------------------------------------------------------
// Relabelling
// ---------------------------------------------------------------------------

/// Whether a segment's commit is among `from..=to`.
pub open spec fn in_range(s: SegmentView, from: u64, to: u64) -> bool {
    s.seq matches Some(q) && from <= q <= to
}

/// A segment after `from..=to` has been given a speaker.
pub open spec fn relabelled(s: SegmentView, from: u64, to: u64, speaker: u32) -> SegmentView {
    if in_range(s, from, to) {
        SegmentView { speaker: Some(speaker), ..s }
    } else {
        s
    }
}

pub open spec fn all_relabelled(
    s: Seq<SegmentView>,
    from: u64,
    to: u64,
    speaker: u32,
) -> Seq<SegmentView> {
    s.map_values(|x: SegmentView| relabelled(x, from, to, speaker))
}

/// Give `from_seq..=to_seq` a speaker, reporting whether anything moved.
///
/// A voice needs several agreeing windows before the server can name it, so a
/// turn's opening sentences are committed before anyone can be named for them;
/// this is where the name catches up. It changes attribution and never text,
/// which is what makes it safe to apply to a buffer somebody is reading.
pub fn apply_relabel(segments: &mut Vec<Segment>, from_seq: u64, to_seq: u64, speaker: u32) -> (r:
    bool)
    ensures
        segment_views(final(segments)@) == all_relabelled(
            segment_views(old(segments)@),
            from_seq,
            to_seq,
            speaker,
        ),
        r == (segment_views(final(segments)@) != segment_views(old(segments)@)),
{
    let ghost all = segment_views(segments@);
    let ghost want = all_relabelled(all, from_seq, to_seq, speaker);
    let mut moved: bool = false;
    let mut i: usize = 0;
    while i < segments.len()
        invariant
            i <= segments@.len() == all.len(),
            want == all_relabelled(all, from_seq, to_seq, speaker),
            forall|j: int| 0 <= j < i ==> (#[trigger] segments@[j])@ == want[j],
            forall|j: int| i <= j < all.len() ==> (#[trigger] segments@[j])@ == all[j],
            moved == (exists|j: int| 0 <= j < i && (#[trigger] want[j]) != all[j]),
        decreases segments@.len() - i,
    {
        assert(segments@[i as int]@ == all[i as int]);
        let ghost want_i = want[i as int];
        let hit: bool = match segments[i].seq {
            Some(q) => from_seq <= q && q <= to_seq,
            None => false,
        };
        if hit && segments[i].speaker != Some(speaker) {
            let mut s = segments[i].clone();
            s.speaker = Some(speaker);
            segments.set(i, s);
            moved = true;
            assert(want[i as int].speaker != all[i as int].speaker);
        }
        i += 1;
    }
    assert(segment_views(segments@) =~= want);
    proof {
        if moved {
            let j = choose|j: int| 0 <= j < i && (#[trigger] want[j]) != all[j];
            assert(segment_views(segments@)[j] != all[j]);
        } else {
            assert(want =~= all);
        }
    }
    moved
}

/// Relabelling changes who said a thing and never what was said, when, or by
/// which source.
pub proof fn lemma_relabel_keeps_the_words(
    s: Seq<SegmentView>,
    from: u64,
    to: u64,
    speaker: u32,
    i: int,
)
    requires
        0 <= i < s.len(),
    ensures
        all_relabelled(s, from, to, speaker).len() == s.len(),
        all_relabelled(s, from, to, speaker)[i] == (SegmentView {
            speaker: all_relabelled(s, from, to, speaker)[i].speaker,
            ..s[i]
        }),
        !in_range(s[i], from, to) ==> all_relabelled(s, from, to, speaker)[i] == s[i],
{
}

/// Relabelling twice is relabelling once: the second time, nothing moves.
pub proof fn lemma_relabel_once(s: Seq<SegmentView>, from: u64, to: u64, speaker: u32)
    ensures
        all_relabelled(all_relabelled(s, from, to, speaker), from, to, speaker) == all_relabelled(
            s,
            from,
            to,
            speaker,
        ),
{
    assert(all_relabelled(all_relabelled(s, from, to, speaker), from, to, speaker)
        =~= all_relabelled(s, from, to, speaker));
}

// ---------------------------------------------------------------------------
// State
// ---------------------------------------------------------------------------

/// Everything a front-end needs to render.
#[derive(Debug, PartialEq, Eq)]
pub struct SessionState {
    pub status: Status,
    /// Accumulated text. Empty in [`OutputMode::Type`], which keeps none.
    pub transcript: String,
    /// The same text, split by arrival with timings.
    pub segments: Vec<Segment>,
    /// Most recent fragment, so a UI can show it is alive.
    pub last_fragment: String,
    pub model: Option<String>,
    pub chunk_ms: Option<u32>,
    /// What the handshake actually granted -- the client may have asked and
    /// still not received.
    pub diarize: bool,
    /// What `session.start` actually asked for.
    pub diarize_requested: bool,
    pub error: Option<String>,
    /// A fragment that never reached the transcript file. Separate from
    /// `error` because it does not stop the session.
    pub stream_error: Option<String>,
    /// One row per source being captured.
    pub sources: Vec<SourceHealth>,
    /// Live spectrum of the audio being sent, as `f32` bit patterns.
    pub levels: Vec<u32>,
    /// Overall level of the same.
    pub rms: u32,
    /// How many times `transcript` and `segments` have moved.
    ///
    /// A count rather than a length: a revision retracts and re-pushes, so both
    /// the segment count and the character count can come out the same on
    /// either side of a real change.
    pub changes: u64,
}

/// A session's state, as plain values.
#[verifier::ext_equal]
pub struct StateView {
    pub status: Status,
    pub transcript: Seq<char>,
    pub segments: Seq<SegmentView>,
    pub last_fragment: Seq<char>,
    pub model: Option<Seq<char>>,
    pub chunk_ms: Option<u32>,
    pub diarize: bool,
    pub diarize_requested: bool,
    pub error: Option<Seq<char>>,
    pub stream_error: Option<Seq<char>>,
    pub sources: Seq<HealthView>,
    pub levels: Seq<u32>,
    pub rms: u32,
    pub changes: u64,
}

impl View for SessionState {
    type V = StateView;

    open spec fn view(&self) -> StateView {
        StateView {
            status: self.status,
            transcript: self.transcript@,
            segments: segment_views(self.segments@),
            last_fragment: self.last_fragment@,
            model: opt_view(self.model),
            chunk_ms: self.chunk_ms,
            diarize: self.diarize,
            diarize_requested: self.diarize_requested,
            error: opt_view(self.error),
            stream_error: opt_view(self.stream_error),
            sources: health_rows(self.sources@),
            levels: self.levels@,
            rms: self.rms,
            changes: self.changes,
        }
    }
}

pub open spec fn state_views(v: Seq<SessionState>) -> Seq<StateView> {
    v.map_values(|s: SessionState| s@)
}

impl StateView {
    /// A session that has not begun.
    pub open spec fn blank() -> StateView {
        StateView {
            status: Status::Idle,
            transcript: Seq::empty(),
            segments: Seq::empty(),
            last_fragment: Seq::empty(),
            model: None,
            chunk_ms: None,
            diarize: false,
            diarize_requested: false,
            error: None,
            stream_error: None,
            sources: Seq::empty(),
            levels: Seq::empty(),
            rms: 0,
            changes: 0,
        }
    }

    /// The same state with the transcript left out.
    pub open spec fn without_text(self) -> StateView {
        StateView { transcript: Seq::empty(), segments: Seq::empty(), ..self }
    }
}

impl Default for SessionState {
    fn default() -> (r: SessionState)
        ensures
            r@ == StateView::blank(),
    {
        let s = SessionState {
            status: Status::Idle,
            transcript: String::new(),
            segments: Vec::new(),
            last_fragment: String::new(),
            model: None,
            chunk_ms: None,
            diarize: false,
            diarize_requested: false,
            error: None,
            stream_error: None,
            sources: Vec::new(),
            levels: Vec::new(),
            rms: 0,
            changes: 0,
        };
        assert(s@ =~= StateView::blank());
        s
    }
}

/// A copy of a list of meter rows.
pub fn copy_rows(v: &Vec<SourceHealth>) -> (r: Vec<SourceHealth>)
    ensures
        r@ == v@,
{
    let mut out: Vec<SourceHealth> = Vec::new();
    let mut i: usize = 0;
    while i < v.len()
        invariant
            i <= v@.len(),
            out@ == v@.take(i as int),
        decreases v@.len() - i,
    {
        out.push(v[i].clone());
        assert(v@.take(i + 1) == v@.take(i as int).push(v@[i as int]));
        i += 1;
    }
    assert(v@.take(i as int) == v@);
    out
}

/// A copy of a list of levels.
pub fn copy_levels(v: &Vec<u32>) -> (r: Vec<u32>)
    ensures
        r@ == v@,
{
    let mut out: Vec<u32> = Vec::new();
    let mut i: usize = 0;
    while i < v.len()
        invariant
            i <= v@.len(),
            out@ == v@.take(i as int),
        decreases v@.len() - i,
    {
        out.push(v[i]);
        assert(v@.take(i + 1) == v@.take(i as int).push(v@[i as int]));
        i += 1;
    }
    assert(v@.take(i as int) == v@);
    out
}

impl Clone for SessionState {
    fn clone(&self) -> (r: SessionState)
        ensures
            r@ == self@,
    {
        SessionState {
            status: self.status,
            transcript: self.transcript.clone(),
            segments: copy_segments(&self.segments),
            last_fragment: self.last_fragment.clone(),
            model: self.model.clone(),
            chunk_ms: self.chunk_ms,
            diarize: self.diarize,
            diarize_requested: self.diarize_requested,
            error: self.error.clone(),
            stream_error: self.stream_error.clone(),
            sources: copy_rows(&self.sources),
            levels: copy_levels(&self.levels),
            rms: self.rms,
            changes: self.changes,
        }
    }
}

impl SessionState {
    /// The same state with the transcript left out.
    ///
    /// Cloning the whole thing costs a string per segment, which after two
    /// hours of meeting is far too much to pay forty times a second for a
    /// status line and a level meter. `changes` comes through, so a caller can
    /// tell whether the transcript it left behind has moved.
    pub fn live(&self) -> (r: SessionState)
        ensures
            r@ == self@.without_text(),
    {
        let s = SessionState {
            status: self.status,
            transcript: String::new(),
            segments: Vec::new(),
            last_fragment: self.last_fragment.clone(),
            model: self.model.clone(),
            chunk_ms: self.chunk_ms,
            diarize: self.diarize,
            diarize_requested: self.diarize_requested,
            error: self.error.clone(),
            stream_error: self.stream_error.clone(),
            sources: copy_rows(&self.sources),
            levels: copy_levels(&self.levels),
            rms: self.rms,
            changes: self.changes,
        };
        assert(s@ =~= self@.without_text());
        s
    }

    /// A session that has just been asked for.
    pub fn connecting() -> (r: SessionState)
        ensures
            r@ == (StateView { status: Status::Connecting, ..StateView::blank() }),
    {
        let mut s = SessionState::default();
        s.status = Status::Connecting;
        s
    }
}

// ---------------------------------------------------------------------------
// Several sessions at once
// ---------------------------------------------------------------------------

/// The segments of several sessions, one session after another.
pub open spec fn all_segments(states: Seq<StateView>) -> Seq<SegmentView>
    decreases states.len(),
{
    if states.len() == 0 {
        Seq::empty()
    } else {
        all_segments(states.drop_last()) + states.last().segments
    }
}

/// The meter rows of several sessions, one session after another.
pub open spec fn all_rows(states: Seq<StateView>) -> Seq<HealthView>
    decreases states.len(),
{
    if states.len() == 0 {
        Seq::empty()
    } else {
        all_rows(states.drop_last()) + states.last().sources
    }
}

/// Several concurrent sessions as one.
///
/// Every field is folded across all of them rather than taken from the first:
/// a second source whose session failed has to be reported, or a run comes back
/// successful having recorded half of what was asked for.
pub open spec fn merged(states: Seq<StateView>) -> StateView {
    if states.len() == 1 {
        states[0]
    } else {
        let segments = sorted(all_segments(states));
        StateView {
            status: match first_where(states, |s: StateView| s.status.active()) {
                Some(s) => s.status,
                None => Status::Idle,
            },
            transcript: rendered(segments, ""@, Format::Labelled),
            segments,
            last_fragment: match first_where(states, |s: StateView| s.last_fragment.len() > 0) {
                Some(s) => s.last_fragment,
                None => Seq::empty(),
            },
            model: match first_where(states, |s: StateView| s.model is Some) {
                Some(s) => s.model,
                None => None,
            },
            chunk_ms: match first_where(states, |s: StateView| s.chunk_ms is Some) {
                Some(s) => s.chunk_ms,
                None => None,
            },
            diarize: first_where(states, |s: StateView| s.diarize) is Some,
            diarize_requested: first_where(states, |s: StateView| s.diarize_requested) is Some,
            error: match first_where(states, |s: StateView| s.error is Some) {
                Some(s) => s.error,
                None => None,
            },
            stream_error: match first_where(states, |s: StateView| s.stream_error is Some) {
                Some(s) => s.stream_error,
                None => None,
            },
            sources: all_rows(states),
            levels: if states.len() > 0 {
                states[0].levels
            } else {
                Seq::empty()
            },
            rms: if states.len() > 0 {
                states[0].rms
            } else {
                0
            },
            changes: 0,
        }
    }
}

fn first_active(states: &[SessionState]) -> (r: Status)
    ensures
        r == (match first_where(state_views(states@), |s: StateView| s.status.active()) {
            Some(s) => s.status,
            None => Status::Idle,
        }),
{
    let ghost all = state_views(states@);
    let ghost p = |s: StateView| s.status.active();
    let mut i: usize = 0;
    while i < states.len()
        invariant
            i <= states@.len(),
            all == state_views(states@),
            p == (|s: StateView| s.status.active()),
            forall|j: int| 0 <= j < i ==> !p(#[trigger] all[j]),
        decreases states@.len() - i,
    {
        assert(all[i as int] == states@[i as int]@);
        if states[i].status.is_active() {
            proof {
                lemma_first_where_at(all, p, i as int);
            }
            return states[i].status;
        }
        i += 1;
    }
    proof {
        lemma_first_where_at(all, p, i as int);
    }
    Status::Idle
}

fn first_fragment(states: &[SessionState]) -> (r: String)
    ensures
        r@ == (match first_where(state_views(states@), |s: StateView| s.last_fragment.len() > 0) {
            Some(s) => s.last_fragment,
            None => Seq::<char>::empty(),
        }),
{
    let ghost all = state_views(states@);
    let ghost p = |s: StateView| s.last_fragment.len() > 0;
    let mut i: usize = 0;
    while i < states.len()
        invariant
            i <= states@.len(),
            all == state_views(states@),
            p == (|s: StateView| s.last_fragment.len() > 0),
            forall|j: int| 0 <= j < i ==> !p(#[trigger] all[j]),
        decreases states@.len() - i,
    {
        assert(all[i as int] == states@[i as int]@);
        if text::chars_of(states[i].last_fragment.as_str()).len() > 0 {
            proof {
                lemma_first_where_at(all, p, i as int);
            }
            return states[i].last_fragment.clone();
        }
        i += 1;
    }
    proof {
        lemma_first_where_at(all, p, i as int);
    }
    String::new()
}

fn first_model(states: &[SessionState]) -> (r: Option<String>)
    ensures
        opt_view(r) == (match first_where(state_views(states@), |s: StateView| s.model is Some) {
            Some(s) => s.model,
            None => None,
        }),
{
    let ghost all = state_views(states@);
    let ghost p = |s: StateView| s.model is Some;
    let mut i: usize = 0;
    while i < states.len()
        invariant
            i <= states@.len(),
            all == state_views(states@),
            p == (|s: StateView| s.model is Some),
            forall|j: int| 0 <= j < i ==> !p(#[trigger] all[j]),
        decreases states@.len() - i,
    {
        assert(all[i as int] == states@[i as int]@);
        if states[i].model.is_some() {
            proof {
                lemma_first_where_at(all, p, i as int);
            }
            return states[i].model.clone();
        }
        i += 1;
    }
    proof {
        lemma_first_where_at(all, p, i as int);
    }
    None
}

fn first_chunk_ms(states: &[SessionState]) -> (r: Option<u32>)
    ensures
        r == (match first_where(state_views(states@), |s: StateView| s.chunk_ms is Some) {
            Some(s) => s.chunk_ms,
            None => None,
        }),
{
    let ghost all = state_views(states@);
    let ghost p = |s: StateView| s.chunk_ms is Some;
    let mut i: usize = 0;
    while i < states.len()
        invariant
            i <= states@.len(),
            all == state_views(states@),
            p == (|s: StateView| s.chunk_ms is Some),
            forall|j: int| 0 <= j < i ==> !p(#[trigger] all[j]),
        decreases states@.len() - i,
    {
        assert(all[i as int] == states@[i as int]@);
        if states[i].chunk_ms.is_some() {
            proof {
                lemma_first_where_at(all, p, i as int);
            }
            return states[i].chunk_ms;
        }
        i += 1;
    }
    proof {
        lemma_first_where_at(all, p, i as int);
    }
    None
}

fn any_diarize(states: &[SessionState]) -> (r: bool)
    ensures
        r == (first_where(state_views(states@), |s: StateView| s.diarize) is Some),
{
    let ghost all = state_views(states@);
    let ghost p = |s: StateView| s.diarize;
    let mut i: usize = 0;
    while i < states.len()
        invariant
            i <= states@.len(),
            all == state_views(states@),
            p == (|s: StateView| s.diarize),
            forall|j: int| 0 <= j < i ==> !p(#[trigger] all[j]),
        decreases states@.len() - i,
    {
        assert(all[i as int] == states@[i as int]@);
        if states[i].diarize {
            proof {
                lemma_first_where_at(all, p, i as int);
            }
            return true;
        }
        i += 1;
    }
    proof {
        lemma_first_where_at(all, p, i as int);
    }
    false
}

fn any_requested(states: &[SessionState]) -> (r: bool)
    ensures
        r == (first_where(state_views(states@), |s: StateView| s.diarize_requested) is Some),
{
    let ghost all = state_views(states@);
    let ghost p = |s: StateView| s.diarize_requested;
    let mut i: usize = 0;
    while i < states.len()
        invariant
            i <= states@.len(),
            all == state_views(states@),
            p == (|s: StateView| s.diarize_requested),
            forall|j: int| 0 <= j < i ==> !p(#[trigger] all[j]),
        decreases states@.len() - i,
    {
        assert(all[i as int] == states@[i as int]@);
        if states[i].diarize_requested {
            proof {
                lemma_first_where_at(all, p, i as int);
            }
            return true;
        }
        i += 1;
    }
    proof {
        lemma_first_where_at(all, p, i as int);
    }
    false
}

fn first_error(states: &[SessionState]) -> (r: Option<String>)
    ensures
        opt_view(r) == (match first_where(state_views(states@), |s: StateView| s.error is Some) {
            Some(s) => s.error,
            None => None,
        }),
{
    let ghost all = state_views(states@);
    let ghost p = |s: StateView| s.error is Some;
    let mut i: usize = 0;
    while i < states.len()
        invariant
            i <= states@.len(),
            all == state_views(states@),
            p == (|s: StateView| s.error is Some),
            forall|j: int| 0 <= j < i ==> !p(#[trigger] all[j]),
        decreases states@.len() - i,
    {
        assert(all[i as int] == states@[i as int]@);
        if states[i].error.is_some() {
            proof {
                lemma_first_where_at(all, p, i as int);
            }
            return states[i].error.clone();
        }
        i += 1;
    }
    proof {
        lemma_first_where_at(all, p, i as int);
    }
    None
}

fn first_stream_error(states: &[SessionState]) -> (r: Option<String>)
    ensures
        opt_view(r) == (match first_where(
            state_views(states@),
            |s: StateView| s.stream_error is Some,
        ) {
            Some(s) => s.stream_error,
            None => None,
        }),
{
    let ghost all = state_views(states@);
    let ghost p = |s: StateView| s.stream_error is Some;
    let mut i: usize = 0;
    while i < states.len()
        invariant
            i <= states@.len(),
            all == state_views(states@),
            p == (|s: StateView| s.stream_error is Some),
            forall|j: int| 0 <= j < i ==> !p(#[trigger] all[j]),
        decreases states@.len() - i,
    {
        assert(all[i as int] == states@[i as int]@);
        if states[i].stream_error.is_some() {
            proof {
                lemma_first_where_at(all, p, i as int);
            }
            return states[i].stream_error.clone();
        }
        i += 1;
    }
    proof {
        lemma_first_where_at(all, p, i as int);
    }
    None
}

pub fn gather_segments(states: &[SessionState]) -> (r: Vec<Segment>)
    ensures
        segment_views(r@) == all_segments(state_views(states@)),
{
    let ghost all = state_views(states@);
    let mut out: Vec<Segment> = Vec::new();
    let mut i: usize = 0;
    assert(segment_views(out@) == all_segments(all.take(0)));
    while i < states.len()
        invariant
            i <= states@.len(),
            all == state_views(states@),
            segment_views(out@) == all_segments(all.take(i as int)),
        decreases states@.len() - i,
    {
        assert(all.take(i + 1).drop_last() == all.take(i as int));
        assert(all.take(i + 1).last() == states@[i as int]@);
        let ghost was = out@;
        let mut more = copy_segments(&states[i].segments);
        let ghost m = more@;
        out.append(&mut more);
        assert(segment_views(out@) == segment_views(was) + segment_views(m));
        i += 1;
    }
    assert(all.take(i as int) == all);
    out
}

fn gather_rows(states: &[SessionState]) -> (r: Vec<SourceHealth>)
    ensures
        health_rows(r@) == all_rows(state_views(states@)),
{
    let ghost all = state_views(states@);
    let mut out: Vec<SourceHealth> = Vec::new();
    let mut i: usize = 0;
    assert(health_rows(out@) == all_rows(all.take(0)));
    while i < states.len()
        invariant
            i <= states@.len(),
            all == state_views(states@),
            health_rows(out@) == all_rows(all.take(i as int)),
        decreases states@.len() - i,
    {
        assert(all.take(i + 1).drop_last() == all.take(i as int));
        assert(all.take(i + 1).last() == states@[i as int]@);
        let ghost was = out@;
        let mut more = copy_rows(&states[i].sources);
        let ghost m = more@;
        out.append(&mut more);
        assert(health_rows(out@) == health_rows(was) + health_rows(m));
        i += 1;
    }
    assert(all.take(i as int) == all);
    out
}

/// Fold several concurrent sessions into one view.
///
/// Segments carry their own timings, so ordering them by time reconstructs what
/// was actually said in what order across sources. The flat transcript follows
/// that same order, so what is read back is a conversation rather than one
/// speaker and then the other.
pub fn merge_states(states: &[SessionState]) -> (r: SessionState)
    ensures
        r@ == merged(state_views(states@)),
{
    let ghost all = state_views(states@);
    if states.len() == 1 {
        assert(all[0] == states@[0]@);
        return states[0].clone();
    }
    let gathered = gather_segments(states);
    proof {
        lemma_sorted_map(gathered@, |s: Segment| s@);
    }
    let segments = sort(gathered);
    let transcript = render(segments.as_slice(), "", Format::Labelled);
    let levels = if states.len() > 0 {
        copy_levels(&states[0].levels)
    } else {
        Vec::new()
    };
    let rms: u32 = if states.len() > 0 {
        states[0].rms
    } else {
        0
    };
    assert(states@.len() > 0 ==> all[0] == states@[0]@);
    let out = SessionState {
        status: first_active(states),
        transcript,
        segments,
        last_fragment: first_fragment(states),
        model: first_model(states),
        chunk_ms: first_chunk_ms(states),
        diarize: any_diarize(states),
        diarize_requested: any_requested(states),
        error: first_error(states),
        stream_error: first_stream_error(states),
        sources: gather_rows(states),
        levels,
        rms,
        changes: 0,
    };
    assert(out@ =~= merged(all));
    out
}

/// Merging loses nobody's words and puts them in the order they were said;
/// words said at one moment keep the order of their sessions.
pub proof fn lemma_merge_keeps_every_segment(states: Seq<StateView>, y: SegmentView)
    requires
        states.len() != 1,
    ensures
        merged(states).segments.to_multiset() == all_segments(states).to_multiset(),
        crate::order::is_sorted(merged(states).segments),
        merged(states).segments.filter(|x: SegmentView| crate::order::level(x, y)) == all_segments(
            states,
        ).filter(|x: SegmentView| crate::order::level(x, y)),
{
    crate::order::lemma_sorted(all_segments(states));
    crate::order::lemma_sorted_stable(all_segments(states), y);
}

/// A failure in any session is a failure of the whole, and the whole is active
/// for as long as any part of it is.
pub proof fn lemma_merge_reports_every_failure(states: Seq<StateView>)
    ensures
        merged(states).error is Some <==> exists|i: int|
            0 <= i < states.len() && (#[trigger] states[i]).error is Some,
        merged(states).status.active() <==> exists|i: int|
            0 <= i < states.len() && (#[trigger] states[i]).status.active(),
{
    crate::order::lemma_first_where(states, |s: StateView| s.error is Some);
    crate::order::lemma_first_where(states, |s: StateView| s.status.active());
}

// ---------------------------------------------------------------------------
// One session
// ---------------------------------------------------------------------------

/// Parameters for a run.
#[derive(Debug, PartialEq, Eq)]
pub struct SessionOptions {
    pub url: String,
    pub token: String,
    /// Sources to capture. More than one is mixed into a single stream; for
    /// independent streams the caller runs a session per source.
    pub sources: Vec<Source>,
    pub mode: OutputMode,
    /// Ask the server for anonymous speaker labels.
    pub diarize: bool,
    /// Label applied to this session's segments, for separate mode.
    pub label: Option<String>,
    /// How text is typed at the cursor.
    pub inject: Method,
    /// Append each committed fragment to this file as it arrives.
    pub stream: Option<(String, Format)>,
}

/// The parameters of a run, as plain values.
#[verifier::ext_equal]
pub struct OptionsView {
    pub url: Seq<char>,
    pub token: Seq<char>,
    pub sources: Seq<Source>,
    pub mode: OutputMode,
    pub diarize: bool,
    pub label: Option<Seq<char>>,
    pub inject: Method,
    pub stream: Option<(Seq<char>, Format)>,
}

impl View for SessionOptions {
    type V = OptionsView;

    open spec fn view(&self) -> OptionsView {
        OptionsView {
            url: self.url@,
            token: self.token@,
            sources: self.sources@,
            mode: self.mode,
            diarize: self.diarize,
            label: opt_view(self.label),
            inject: self.inject,
            stream: match self.stream {
                Some((path, format)) => Some((path@, format)),
                None => None,
            },
        }
    }
}

pub open spec fn options_views(v: Seq<SessionOptions>) -> Seq<OptionsView> {
    v.map_values(|o: SessionOptions| o@)
}

/// Whether a session asks for speaker labels: only a session that types
/// nothing may.
pub open spec fn asks_for_speakers(mode: OutputMode, diarize: bool) -> bool {
    diarize && mode.wire() == Mode::Transcript
}

/// A mode that types never asks for speaker labels, where a prefix would land
/// in the middle of whatever is being worked on; transcribing asks exactly when
/// labels are wanted.
pub proof fn lemma_typing_modes_never_ask(mode: OutputMode, diarize: bool)
    ensures
        mode.types() ==> !asks_for_speakers(mode, diarize),
        asks_for_speakers(OutputMode::Transcribe, diarize) == diarize,
{
}

/// The value of the header a session authenticates with.
pub fn bearer(token: &str) -> (r: String)
    ensures
        r@ == "Bearer "@ + token@,
{
    let mut s = "Bearer ".to_owned();
    s.append(token);
    s
}

/// The message that opens a session.
pub fn hello(mode: OutputMode, diarize: bool) -> (r: ClientMessage)
    ensures
        r == (ClientMessage::SessionStart {
            mode: mode.wire(),
            sample_rate: SAMPLE_RATE,
            encoding: Encoding::PcmS16le,
            language: None,
            vocabulary: None,
            diarize: asks_for_speakers(mode, diarize),
        }),
{
    ClientMessage::SessionStart {
        mode: mode.wire_mode(),
        sample_rate: SAMPLE_RATE,
        encoding: Encoding::PcmS16le,
        language: None,
        vocabulary: None,
        diarize: diarize && mode.wire_mode() == Mode::Transcript,
    }
}

/// Note in `state` what the session is about to ask for.
pub fn requested(state: &mut SessionState, mode: OutputMode, diarize: bool)
    ensures
        final(state)@ == (StateView {
            diarize_requested: asks_for_speakers(mode, diarize),
            ..old(state)@
        }),
{
    state.diarize_requested = diarize && mode.wire_mode() == Mode::Transcript;
}

/// The first thing heard from the server after [`hello`].
pub enum FirstFrame {
    Message(ServerMessage),
    /// A text frame that is no message, and why.
    Undecodable(String),
    /// A frame that is not text.
    NotText,
    /// The connection failed, and why.
    Failed(String),
    /// The connection closed.
    Closed,
}

pub open spec fn code_name(c: ErrorCode) -> Seq<char> {
    match c {
        ErrorCode::Unauthorized => "Unauthorized"@,
        ErrorCode::Capacity => "Capacity"@,
        ErrorCode::BadRequest => "BadRequest"@,
        ErrorCode::Internal => "Internal"@,
    }
}

fn code_text(c: ErrorCode) -> (r: &'static str)
    ensures
        r@ == code_name(c),
{
    match c {
        ErrorCode::Unauthorized => "Unauthorized",
        ErrorCode::Capacity => "Capacity",
        ErrorCode::BadRequest => "BadRequest",
        ErrorCode::Internal => "Internal",
    }
}

/// Why a first frame ends a session, if it does; `shown` is how a frame of the
/// wrong kind is described.
pub open spec fn refusal(f: FirstFrame, shown: Seq<char>) -> Option<Seq<char>> {
    match f {
        FirstFrame::Message(ServerMessage::SessionReady { .. }) => None,
        FirstFrame::Message(ServerMessage::Error { code, message, .. }) => Some(
            "server refused the session ("@ + code_name(code) + "): "@ + message@,
        ),
        FirstFrame::Message(_) => Some("expected session.ready, got "@ + shown),
        FirstFrame::Undecodable(why) => Some(why@),
        FirstFrame::NotText => Some("expected a text frame, got "@ + shown),
        FirstFrame::Failed(why) => Some("reading session.ready: "@ + why@),
        FirstFrame::Closed => Some("server closed the connection before session.ready"@),
    }
}

fn refuse(a: &str, b: &str) -> (r: String)
    ensures
        r@ == a@ + b@,
{
    let mut s = a.to_owned();
    s.append(b);
    s
}

/// Whether the first frame lets a session run, and why not.
pub fn ready(frame: &FirstFrame, shown: &str) -> (r: Result<(), String>)
    ensures
        match r {
            Ok(_) => refusal(*frame, shown@) is None,
            Err(e) => refusal(*frame, shown@) == Some(e@),
        },
{
    match frame {
        FirstFrame::Message(m) => match m {
            ServerMessage::SessionReady { .. } => Ok(()),
            ServerMessage::Error { code, message, .. } => {
                let mut e = "server refused the session (".to_owned();
                e.append(code_text(*code));
                e.append("): ");
                e.append(message.as_str());
                Err(e)
            },
            _ => Err(refuse("expected session.ready, got ", shown)),
        },
        FirstFrame::Undecodable(why) => Err(why.clone()),
        FirstFrame::NotText => Err(refuse("expected a text frame, got ", shown)),
        FirstFrame::Failed(why) => Err(refuse("reading session.ready: ", why.as_str())),
        FirstFrame::Closed => Err("server closed the connection before session.ready".to_owned()),
    }
}

/// Take the first frame: a server that is ready starts the session, and
/// anything else leaves it as it was and says why it cannot run.
pub fn handshake(state: &mut SessionState, frame: &FirstFrame, shown: &str) -> (r: Result<
    (),
    String,
>)
    ensures
        match r {
            Ok(_) => refusal(*frame, shown@) is None,
            Err(e) => refusal(*frame, shown@) == Some(e@),
        },
        final(state)@ == (match *frame {
            FirstFrame::Message(ServerMessage::SessionReady { model, chunk_ms, diarize }) => (
            StateView {
                status: Status::Listening,
                model: Some(model@),
                chunk_ms: Some(chunk_ms),
                diarize,
                ..old(state)@
            }),
            _ => old(state)@,
        }),
{
    if let FirstFrame::Message(ServerMessage::SessionReady { model, chunk_ms, diarize }) = frame {
        state.status = Status::Listening;
        state.model = Some(model.clone());
        state.chunk_ms = Some(*chunk_ms);
        state.diarize = *diarize;
    }
    ready(frame, shown)
}

/// The segments left when the last `n` characters are retracted: whole segments
/// go from the end until that many characters have gone.
pub open spec fn retracted(s: Seq<SegmentView>, n: int) -> Seq<SegmentView>
    decreases s.len(),
{
    if n <= 0 || s.len() == 0 {
        s
    } else {
        retracted(s.drop_last(), n - s.last().text.len())
    }
}

/// The text left when the last `n` characters are retracted.
pub open spec fn shortened(s: Seq<char>, n: int) -> Seq<char> {
    s.take(if n < s.len() {
        s.len() - n
    } else {
        0
    })
}

/// What a session does with a message, besides changing its state.
pub struct Effects {
    /// Type this at the cursor.
    pub typing: Option<String>,
    /// Append this to the transcript file.
    pub append: Option<Segment>,
    /// Tell the front-end that the state moved.
    pub notify: bool,
    /// The session is over.
    pub end: bool,
}

pub struct EffectsView {
    pub typing: Option<Seq<char>>,
    pub append: Option<SegmentView>,
    pub notify: bool,
    pub end: bool,
}

impl View for Effects {
    type V = EffectsView;

    open spec fn view(&self) -> EffectsView {
        EffectsView {
            typing: opt_view(self.typing),
            append: match self.append {
                Some(s) => Some(s@),
                None => None,
            },
            notify: self.notify,
            end: self.end,
        }
    }
}

/// The segment a fragment becomes.
pub open spec fn fragment(
    seq: Option<u64>,
    text: Seq<char>,
    speaker: Option<u32>,
    label: Option<Seq<char>>,
    at: i64,
) -> SegmentView {
    SegmentView { at, text, source: label, speaker, seq }
}

/// A state after a fragment has arrived.
pub open spec fn with_fragment(s: StateView, mode: OutputMode, f: SegmentView) -> StateView {
    if mode.keeps() {
        StateView {
            transcript: s.transcript + f.text,
            segments: s.segments.push(f),
            changes: (s.changes + 1) as u64,
            last_fragment: f.text,
            ..s
        }
    } else {
        StateView { last_fragment: f.text, ..s }
    }
}

/// A state after a message.
pub open spec fn state_after(
    s: StateView,
    m: ServerMessage,
    mode: OutputMode,
    label: Option<Seq<char>>,
    at: i64,
) -> StateView {
    match m {
        ServerMessage::TranscriptCommit { seq, text, speaker } => with_fragment(
            s,
            mode,
            fragment(Some(seq), text@, speaker, label, at),
        ),
        ServerMessage::TranscriptProvisional { seq, text, speaker } => with_fragment(
            s,
            mode,
            fragment(Some(seq), text@, speaker, label, at),
        ),
        ServerMessage::TranscriptRevise { retract_n, text, .. } => StateView {
            transcript: shortened(s.transcript, retract_n as int) + text@,
            segments: retracted(s.segments, retract_n as int).push(
                fragment(None, text@, None, label, at),
            ),
            changes: (s.changes + 1) as u64,
            ..s
        },
        ServerMessage::TranscriptRelabel { from_seq, to_seq, speaker } => {
            let after = all_relabelled(s.segments, from_seq, to_seq, speaker);
            if after == s.segments {
                s
            } else {
                StateView { segments: after, changes: (s.changes + 1) as u64, ..s }
            }
        },
        ServerMessage::Error { message, .. } => StateView { error: Some(message@), ..s },
        _ => s,
    }
}

/// What a message makes a session do.
pub open spec fn effects_of(
    s: StateView,
    m: ServerMessage,
    mode: OutputMode,
    label: Option<Seq<char>>,
    at: i64,
) -> EffectsView {
    match m {
        ServerMessage::TranscriptCommit { seq, text, speaker } => EffectsView {
            typing: if mode.types() {
                Some(text@)
            } else {
                None
            },
            append: Some(fragment(Some(seq), text@, speaker, label, at)),
            notify: true,
            end: false,
        },
        ServerMessage::TranscriptProvisional { seq, text, speaker } => EffectsView {
            typing: if mode.types() {
                Some(text@)
            } else {
                None
            },
            append: None,
            notify: true,
            end: false,
        },
        ServerMessage::TranscriptRevise { .. } => EffectsView {
            typing: None,
            append: None,
            notify: true,
            end: false,
        },
        ServerMessage::TranscriptRelabel { from_seq, to_seq, speaker } => EffectsView {
            typing: None,
            append: None,
            notify: all_relabelled(s.segments, from_seq, to_seq, speaker) != s.segments,
            end: false,
        },
        ServerMessage::SessionClosed { .. } => EffectsView {
            typing: None,
            append: None,
            notify: false,
            end: true,
        },
        ServerMessage::Error { .. } => EffectsView {
            typing: None,
            append: None,
            notify: true,
            end: true,
        },
        ServerMessage::SessionReady { .. } => EffectsView {
            typing: None,
            append: None,
            notify: false,
            end: false,
        },
    }
}

fn keep_fragment(state: &mut SessionState, mode: OutputMode, seg: &Segment)
    requires
        old(state)@.changes < u64::MAX,
    ensures
        final(state)@ == with_fragment(old(state)@, mode, seg@),
{
    if mode.keeps_transcript() {
        let ghost was = state.segments@;
        state.transcript.append(seg.text.as_str());
        state.segments.push(seg.clone());
        assert(segment_views(state.segments@) == segment_views(was).push(seg@));
        state.changes = state.changes + 1;
    }
    state.last_fragment = seg.text.clone();
    assert(state@ =~= with_fragment(old(state)@, mode, seg@));
}

fn retract(segments: &mut Vec<Segment>, n: usize)
    ensures
        segment_views(final(segments)@) == retracted(segment_views(old(segments)@), n as int),
{
    let ghost all = segment_views(segments@);
    let mut left: usize = n;
    while left > 0 && segments.len() > 0
        invariant
            retracted(all, n as int) == retracted(segment_views(segments@), left as int),
        decreases segments@.len(),
    {
        let ghost before = segments@;
        let ghost was = segment_views(before);
        match segments.pop() {
            Some(seg) => {
                assert(was.drop_last() == segment_views(segments@));
                assert(was.last() == seg@);
                let k: usize = text::chars_of(seg.text.as_str()).len();
                assert(retracted(was, left as int) == retracted(
                    segment_views(segments@),
                    left - k,
                ));
                left = if k < left {
                    left - k
                } else {
                    0
                };
            },
            None => {},
        }
    }
}

/// Take one message from the server.
///
/// `at` is how long the session has run, in nanoseconds, and `label` the name
/// its segments carry.
pub fn on_message(
    state: &mut SessionState,
    message: &ServerMessage,
    mode: OutputMode,
    label: &Option<String>,
    at: i64,
) -> (r: Effects)
    requires
        old(state)@.changes < u64::MAX,
    ensures
        final(state)@ == state_after(old(state)@, *message, mode, opt_view(*label), at),
        r@ == effects_of(old(state)@, *message, mode, opt_view(*label), at),
{
    match message {
        ServerMessage::TranscriptCommit { seq, text, speaker } => {
            let seg = Segment {
                at,
                text: text.clone(),
                source: label.clone(),
                speaker: *speaker,
                seq: Some(*seq),
            };
            keep_fragment(state, mode, &seg);
            let typing = if mode.types_at_cursor() {
                Some(text.clone())
            } else {
                None
            };
            Effects { typing, append: Some(seg), notify: true, end: false }
        },
        ServerMessage::TranscriptProvisional { seq, text, speaker } => {
            let seg = Segment {
                at,
                text: text.clone(),
                source: label.clone(),
                speaker: *speaker,
                seq: Some(*seq),
            };
            keep_fragment(state, mode, &seg);
            let typing = if mode.types_at_cursor() {
                Some(text.clone())
            } else {
                None
            };
            Effects { typing, append: None, notify: true, end: false }
        },
        ServerMessage::TranscriptRevise { retract_n, text, .. } => {
            let v = text::chars_of(state.transcript.as_str());
            let keep: usize = if *retract_n < v.len() {
                v.len() - *retract_n
            } else {
                0
            };
            assert(v@.subrange(0, keep as int) == v@.take(keep as int));
            let mut t = text::string_from(&v, 0, keep);
            t.append(text.as_str());
            state.transcript = t;
            retract(&mut state.segments, *retract_n);
            let ghost was = state.segments@;
            let seg = Segment {
                at,
                text: text.clone(),
                source: label.clone(),
                speaker: None,
                seq: None,
            };
            let ghost g = seg@;
            state.segments.push(seg);
            assert(segment_views(state.segments@) == segment_views(was).push(g));
            state.changes = state.changes + 1;
            assert(state@ =~= state_after(old(state)@, *message, mode, opt_view(*label), at));
            Effects { typing: None, append: None, notify: true, end: false }
        },
        ServerMessage::TranscriptRelabel { from_seq, to_seq, speaker } => {
            let moved: bool = apply_relabel(&mut state.segments, *from_seq, *to_seq, *speaker);
            if moved {
                state.changes = state.changes + 1;
            }
            assert(state@ =~= state_after(old(state)@, *message, mode, opt_view(*label), at));
            Effects { typing: None, append: None, notify: moved, end: false }
        },
        ServerMessage::SessionClosed { .. } => Effects {
            typing: None,
            append: None,
            notify: false,
            end: true,
        },
        ServerMessage::Error { message, .. } => {
            state.error = Some(message.clone());
            Effects { typing: None, append: None, notify: true, end: true }
        },
        ServerMessage::SessionReady { .. } => Effects {
            typing: None,
            append: None,
            notify: false,
            end: false,
        },
    }
}

/// A session that types never takes back what it typed: in such a session the
/// only thing ever typed is the text of a commit or of provisional text, and a
/// revision types nothing.
pub proof fn lemma_typing_only_appends(
    s: StateView,
    m: ServerMessage,
    mode: OutputMode,
    label: Option<Seq<char>>,
    at: i64,
)
    ensures
        effects_of(s, m, mode, label, at).typing is Some ==> mode.types() && (
        m is TranscriptCommit || m is TranscriptProvisional),
        !mode.types() ==> effects_of(s, m, mode, label, at).typing is None,
{
}

/// Only committed text reaches the transcript file, with the words, the time
/// and the label it was committed under.
pub proof fn lemma_only_commits_are_written(
    s: StateView,
    m: ServerMessage,
    mode: OutputMode,
    label: Option<Seq<char>>,
    at: i64,
)
    ensures
        effects_of(s, m, mode, label, at).append is Some <==> m is TranscriptCommit,
{
}

/// A mode that keeps no transcript accumulates none, whatever is committed.
pub proof fn lemma_typing_mode_accumulates_nothing(
    s: StateView,
    m: ServerMessage,
    label: Option<Seq<char>>,
    at: i64,
)
    requires
        m is TranscriptCommit || m is TranscriptProvisional,
    ensures
        state_after(s, m, OutputMode::Type, label, at).transcript == s.transcript,
        state_after(s, m, OutputMode::Type, label, at).segments == s.segments,
        state_after(s, m, OutputMode::Type, label, at).changes == s.changes,
{
}

/// Whenever the transcript or its segments move, the count of changes does too.
pub proof fn lemma_changes_are_counted(
    s: StateView,
    m: ServerMessage,
    mode: OutputMode,
    label: Option<Seq<char>>,
    at: i64,
)
    requires
        s.changes < u64::MAX,
    ensures
        ({
            let t = state_after(s, m, mode, label, at);
            &&& (t.transcript != s.transcript || t.segments != s.segments) ==> t.changes
                == s.changes + 1
            &&& t.changes == s.changes || t.changes == s.changes + 1
        }),
{
}

/// Record that a fragment could not be written to the transcript file. The
/// session goes on.
pub fn stream_failed(state: &mut SessionState, why: String)
    ensures
        final(state)@ == (StateView { stream_error: Some(why@), ..old(state)@ }),
{
    state.stream_error = Some(why);
}

/// The audio has ended; the last words are still to come.
pub fn stopping(state: &mut SessionState)
    ensures
        final(state)@ == (StateView { status: Status::Stopping, ..old(state)@ }),
{
    state.status = Status::Stopping;
}

/// The session is over.
pub fn finished(state: &mut SessionState)
    ensures
        final(state)@ == (StateView { status: Status::Idle, ..old(state)@ }),
{
    state.status = Status::Idle;
}

/// The session is over, and went wrong.
pub fn fail(state: &mut SessionState, msg: String)
    ensures
        final(state)@ == (StateView {
            status: Status::Idle,
            error: Some(msg@),
            ..old(state)@
        }),
{
    state.error = Some(msg);
    state.status = Status::Idle;
}

/// How many samples the live spectrum is measured over.
pub const METER_WINDOW: usize = 4096;

/// The newest samples of a window and a chunk.
pub open spec fn newest(window: Seq<u32>, chunk: Seq<u32>) -> Seq<u32> {
    let all = window + chunk;
    all.skip(if all.len() > METER_WINDOW {
        all.len() - METER_WINDOW
    } else {
        0
    })
}

/// The window a spectrum is measured over, after one more chunk of audio.
pub fn slide(window: &Vec<u32>, chunk: &[u32]) -> (r: Vec<u32>)
    requires
        window@.len() + chunk@.len() <= usize::MAX,
    ensures
        r@ == newest(window@, chunk@),
        r@.len() <= METER_WINDOW,
{
    let ghost all = window@ + chunk@;
    let total: usize = window.len() + chunk.len();
    let from: usize = if total > METER_WINDOW {
        total - METER_WINDOW
    } else {
        0
    };
    let mut out: Vec<u32> = Vec::new();
    let mut i: usize = from;
    while i < total
        invariant
            from <= i <= total == all.len(),
            all == window@ + chunk@,
            total == window@.len() + chunk@.len(),
            out@ == all.subrange(from as int, i as int),
        decreases total - i,
    {
        let v: u32 = if i < window.len() {
            window[i]
        } else {
            chunk[i - window.len()]
        };
        out.push(v);
        assert(all.subrange(from as int, i + 1) == all.subrange(from as int, i as int).push(v));
        i += 1;
    }
    assert(all.subrange(from as int, total as int) == all.skip(from as int));
    out
}

/// What was committed is kept as it came: in a mode that keeps a transcript the
/// newest segment has the words, the speaker and the number of the message, the
/// label of the session and the time it arrived; the words end the transcript;
/// and nothing that was there before moves. What a commit appends to the file is
/// that same segment, whatever the mode.
pub proof fn lemma_a_fragment_is_kept_as_it_came(
    s: StateView,
    m: ServerMessage,
    mode: OutputMode,
    label: Option<Seq<char>>,
    at: i64,
)
    requires
        s.changes < u64::MAX,
        m is TranscriptCommit || m is TranscriptProvisional,
    ensures
        ({
            let t = state_after(s, m, mode, label, at);
            let e = effects_of(s, m, mode, label, at);
            let (seq, text, speaker) = match m {
                ServerMessage::TranscriptCommit { seq, text, speaker } => (seq, text@, speaker),
                ServerMessage::TranscriptProvisional { seq, text, speaker } => (
                    seq,
                    text@,
                    speaker,
                ),
                _ => (0, Seq::empty(), None),
            };
            &&& mode != OutputMode::Type ==> {
                let newest = t.segments.last();
                &&& t.segments.len() == s.segments.len() + 1
                &&& t.segments.drop_last() == s.segments
                &&& newest.text == text
                &&& newest.speaker == speaker
                &&& newest.seq == Some(seq)
                &&& newest.source == label
                &&& newest.at == at
                &&& t.transcript == s.transcript + text
                &&& t.changes == s.changes + 1
                &&& m is TranscriptCommit ==> e.append == Some(newest)
            }
            &&& t.last_fragment == text
            &&& m is TranscriptCommit ==> {
                &&& e.append is Some
                &&& e.append->0.text == text && e.append->0.speaker == speaker
                &&& e.append->0.seq == Some(seq) && e.append->0.source == label
                &&& e.append->0.at == at
            }
            &&& e.typing == if mode == OutputMode::Transcribe {
                None
            } else {
                Some(text)
            }
            &&& e.notify && !e.end
            &&& t.status == s.status && t.error == s.error && t.stream_error == s.stream_error
                && t.model == s.model && t.chunk_ms == s.chunk_ms && t.diarize == s.diarize
                && t.diarize_requested == s.diarize_requested && t.sources == s.sources
                && t.levels == s.levels && t.rms == s.rms
        }),
{
    let t = state_after(s, m, mode, label, at);
    if mode != OutputMode::Type {
        assert(t.segments.drop_last() =~= s.segments);
    }
}

/// Everything that was said, end to end.
pub open spec fn words_in(s: Seq<SegmentView>) -> Seq<char> {
    s.map_values(|x: SegmentView| x.text).flatten()
}

proof fn lemma_words_push(s: Seq<SegmentView>, x: SegmentView)
    ensures
        words_in(s.push(x)) == words_in(s) + x.text,
{
    let f = |x: SegmentView| x.text;
    assert(s.push(x).map_values(f) =~= s.map_values(f).push(x.text));
    s.map_values(f).lemma_flatten_push(x.text);
}

/// A revision takes back whole segments from the end, as few as hold the
/// characters it retracts.
pub proof fn lemma_a_revision_takes_the_fewest_segments(s: Seq<SegmentView>, n: int)
    ensures
        ({
            let k = retracted(s, n).len() as int;
            &&& 0 <= k <= s.len()
            &&& retracted(s, n) == s.take(k)
            &&& k > 0 ==> words_in(s.skip(k)).len() >= n
            &&& k < s.len() ==> words_in(s.skip(k + 1)).len() < n
        }),
    decreases s.len(),
{
    let r = retracted(s, n);
    let k = r.len() as int;
    if n <= 0 || s.len() == 0 {
        assert(s.take(k) =~= s);
    } else {
        let d = s.drop_last();
        let x = s.last();
        lemma_a_revision_takes_the_fewest_segments(d, n - x.text.len());
        assert(d.take(k) =~= s.take(k));
        assert(s.skip(k) =~= d.skip(k).push(x));
        lemma_words_push(d.skip(k), x);
        if k + 1 < s.len() {
            assert(s.skip(k + 1) =~= d.skip(k + 1).push(x));
            lemma_words_push(d.skip(k + 1), x);
        } else {
            assert(s.skip(k + 1) =~= Seq::empty());
            assert(Seq::<SegmentView>::empty().map_values(|x: SegmentView| x.text)
                =~= Seq::empty());
        }
    }
}

/// A revision drops the last characters of the transcript, as many as it says
/// or all there are, and puts its own words there, as a segment of its own that
/// nobody is named for. It types nothing and writes nothing to the file.
pub proof fn lemma_a_revision_replaces_the_end(
    s: StateView,
    m: ServerMessage,
    mode: OutputMode,
    label: Option<Seq<char>>,
    at: i64,
)
    requires
        s.changes < u64::MAX,
        m is TranscriptRevise,
    ensures
        ({
            let t = state_after(s, m, mode, label, at);
            let e = effects_of(s, m, mode, label, at);
            let n = m->TranscriptRevise_retract_n as int;
            let text = m->TranscriptRevise_text@;
            let kept = if n < s.transcript.len() {
                s.transcript.len() - n
            } else {
                0
            };
            &&& t.transcript.len() == kept + text.len()
            &&& forall|i: int| 0 <= i < kept ==> #[trigger] t.transcript[i] == s.transcript[i]
            &&& forall|i: int| 0 <= i < text.len() ==> t.transcript[kept + i] == #[trigger] text[i]
            &&& t.segments.len() > 0
            &&& t.segments.last().text == text
            &&& t.segments.last().speaker is None && t.segments.last().seq is None
            &&& t.segments.last().source == label && t.segments.last().at == at
            &&& t.segments.drop_last() == s.segments.take(t.segments.len() - 1)
            &&& t.changes == s.changes + 1
            &&& e.typing is None && e.append is None && e.notify && !e.end
            &&& t.status == s.status && t.error == s.error
        }),
{
    let t = state_after(s, m, mode, label, at);
    let n = m->TranscriptRevise_retract_n as int;
    lemma_a_revision_takes_the_fewest_segments(s.segments, n);
    assert(t.segments.drop_last() =~= retracted(s.segments, n));
}

/// The segments hold what the transcript does, and go on doing so: through
/// every fragment, and through a revision that falls between two segments.
pub proof fn lemma_segments_hold_the_transcript(
    s: StateView,
    m: ServerMessage,
    mode: OutputMode,
    label: Option<Seq<char>>,
    at: i64,
    k: int,
)
    requires
        words_in(s.segments) == s.transcript,
        m is TranscriptRevise ==> 0 <= k <= s.segments.len() && words_in(
            s.segments.skip(k),
        ).len() == m->TranscriptRevise_retract_n && forall|i: int|
            0 <= i < s.segments.len() ==> (#[trigger] s.segments[i]).text.len() > 0,
    ensures
        words_in(state_after(s, m, mode, label, at).segments) == state_after(
            s,
            m,
            mode,
            label,
            at,
        ).transcript,
{
    let t = state_after(s, m, mode, label, at);
    match m {
        ServerMessage::TranscriptCommit { seq, text, speaker } => {
            lemma_words_push(s.segments, fragment(Some(seq), text@, speaker, label, at));
        },
        ServerMessage::TranscriptProvisional { seq, text, speaker } => {
            lemma_words_push(s.segments, fragment(Some(seq), text@, speaker, label, at));
        },
        ServerMessage::TranscriptRevise { retract_n, text, .. } => {
            let n = retract_n as int;
            let r = retracted(s.segments, n);
            let j = r.len() as int;
            lemma_a_revision_takes_the_fewest_segments(s.segments, n);
            if j < k {
                lemma_words_split(s.segments.skip(j + 1), k - j - 1);
                assert(s.segments.skip(j + 1).skip(k - j - 1) =~= s.segments.skip(k));
            } else if k < j {
                lemma_words_split(s.segments.skip(k), j - k);
                assert(s.segments.skip(k).skip(j - k) =~= s.segments.skip(j));
                lemma_words_nonempty(s.segments.skip(k).take(j - k));
            }
            assert(j == k);
            lemma_words_split(s.segments, k);
            assert(shortened(s.transcript, n) =~= words_in(s.segments.take(k)));
            lemma_words_push(r, fragment(None, text@, None, label, at));
        },
        ServerMessage::TranscriptRelabel { from_seq, to_seq, speaker } => {
            let f = |x: SegmentView| x.text;
            let after = all_relabelled(s.segments, from_seq, to_seq, speaker);
            assert(after.map_values(f) =~= s.segments.map_values(f));
        },
        _ => {},
    }
}

proof fn lemma_words_split(s: Seq<SegmentView>, k: int)
    requires
        0 <= k <= s.len(),
    ensures
        words_in(s) == words_in(s.take(k)) + words_in(s.skip(k)),
{
    let f = |x: SegmentView| x.text;
    assert(s.map_values(f) =~= s.take(k).map_values(f) + s.skip(k).map_values(f));
    vstd::seq_lib::lemma_flatten_concat(s.take(k).map_values(f), s.skip(k).map_values(f));
}

proof fn lemma_words_nonempty(s: Seq<SegmentView>)
    requires
        s.len() > 0,
        s[0].text.len() > 0,
    ensures
        words_in(s).len() > 0,
{
    let f = |x: SegmentView| x.text;
    s.map_values(f).lemma_flatten_length_ge_single_element_length(0);
}

/// A relabelling names a speaker for exactly the segments whose number is in its
/// range. Numbers outside it, and segments without one, keep theirs.
pub proof fn lemma_a_relabel_names_its_range(
    s: Seq<SegmentView>,
    from: u64,
    to: u64,
    speaker: u32,
    i: int,
)
    requires
        0 <= i < s.len(),
    ensures
        ({
            let t = all_relabelled(s, from, to, speaker);
            &&& t.len() == s.len()
            &&& s[i].seq is None ==> t[i].speaker == s[i].speaker
            &&& s[i].seq is Some ==> t[i].speaker == if from <= s[i].seq->0 && s[i].seq->0 <= to {
                Some(speaker)
            } else {
                s[i].speaker
            }
            &&& t[i].text == s[i].text && t[i].at == s[i].at && t[i].source == s[i].source
                && t[i].seq == s[i].seq
        }),
{
}

/// A relabelling that is taken leaves the words alone, and is announced exactly
/// when it changed who said something.
pub proof fn lemma_a_relabel_changes_no_word(
    s: StateView,
    m: ServerMessage,
    mode: OutputMode,
    label: Option<Seq<char>>,
    at: i64,
)
    requires
        s.changes < u64::MAX,
        m is TranscriptRelabel,
    ensures
        ({
            let t = state_after(s, m, mode, label, at);
            let e = effects_of(s, m, mode, label, at);
            &&& t.transcript == s.transcript
            &&& t.segments == all_relabelled(
                s.segments,
                m->TranscriptRelabel_from_seq,
                m->TranscriptRelabel_to_seq,
                m->TranscriptRelabel_speaker,
            )
            &&& e.notify <==> t.segments != s.segments
            &&& t.changes == s.changes + if e.notify {
                1int
            } else {
                0
            }
            &&& e.typing is None && e.append is None && !e.end
        }),
{
}

/// A session ends when the server closes it or reports an error, and on nothing
/// else; an error is kept to be shown and a message that brings no text changes
/// none.
pub proof fn lemma_only_the_end_ends_a_session(
    s: StateView,
    m: ServerMessage,
    mode: OutputMode,
    label: Option<Seq<char>>,
    at: i64,
)
    ensures
        ({
            let t = state_after(s, m, mode, label, at);
            let e = effects_of(s, m, mode, label, at);
            &&& e.end <==> m is SessionClosed || m is Error
            &&& m is Error ==> t.error == Some(m->Error_message@) && e.notify
            &&& m !is Error ==> t.error == s.error
            &&& m is SessionClosed || m is SessionReady ==> t == s && !e.notify
            &&& m is SessionClosed || m is SessionReady || m is Error ==> t.transcript
                == s.transcript && t.segments == s.segments && e.typing is None && e.append is None
        }),
{
}

/// The segments of several sessions are those of each, one after another.
pub proof fn lemma_all_segments_are_each_ones(states: Seq<StateView>)
    ensures
        all_segments(states) == states.map_values(|s: StateView| s.segments).flatten(),
        all_rows(states) == states.map_values(|s: StateView| s.sources).flatten(),
    decreases states.len(),
{
    let f = |s: StateView| s.segments;
    let g = |s: StateView| s.sources;
    if states.len() == 0 {
        assert(states.map_values(f) =~= Seq::empty());
        assert(states.map_values(g) =~= Seq::empty());
    } else {
        let d = states.drop_last();
        lemma_all_segments_are_each_ones(d);
        assert(states.map_values(f) =~= d.map_values(f).push(states.last().segments));
        assert(states.map_values(g) =~= d.map_values(g).push(states.last().sources));
        d.map_values(f).lemma_flatten_push(states.last().segments);
        d.map_values(g).lemma_flatten_push(states.last().sources);
    }
}

/// Merged segments come in the order of their times, and the transcript is what
/// they read as with time and source on each line.
pub proof fn lemma_merged_segments_are_in_time(states: Seq<StateView>, i: int, j: int)
    requires
        states.len() != 1,
        0 <= i <= j < merged(states).segments.len(),
    ensures
        merged(states).segments[i].at <= merged(states).segments[j].at,
        merged(states).sources == states.map_values(|s: StateView| s.sources).flatten(),
        merged(states).transcript == rendered(merged(states).segments, ""@, Format::Labelled),
{
    crate::order::lemma_sorted(all_segments(states));
    lemma_all_segments_are_each_ones(states);
    if i < j {
        assert(crate::order::Ranked::at_most(
            &merged(states).segments[i],
            &merged(states).segments[j],
        ));
    }
}

/// What a merge says of its sessions as a whole is what the first of them says
/// that says anything: which model, how long a chunk, what was heard last, what
/// went wrong.
pub proof fn lemma_a_merge_takes_the_first_that_knows(states: Seq<StateView>, i: int)
    requires
        0 <= i < states.len(),
        states.len() != 1,
    ensures
        ({
            let m = merged(states);
            &&& states[i].model is Some && (forall|j: int|
                0 <= j < i ==> (#[trigger] states[j]).model is None) ==> m.model == states[i].model
            &&& states[i].chunk_ms is Some && (forall|j: int|
                0 <= j < i ==> (#[trigger] states[j]).chunk_ms is None) ==> m.chunk_ms
                == states[i].chunk_ms
            &&& states[i].error is Some && (forall|j: int|
                0 <= j < i ==> (#[trigger] states[j]).error is None) ==> m.error == states[i].error
            &&& states[i].stream_error is Some && (forall|j: int|
                0 <= j < i ==> (#[trigger] states[j]).stream_error is None) ==> m.stream_error
                == states[i].stream_error
            &&& states[i].last_fragment.len() > 0 && (forall|j: int|
                0 <= j < i ==> (#[trigger] states[j]).last_fragment.len() == 0) ==> m.last_fragment
                == states[i].last_fragment
            &&& states[i].status != Status::Idle && (forall|j: int|
                0 <= j < i ==> (#[trigger] states[j]).status == Status::Idle) ==> m.status
                == states[i].status
            &&& states[i].diarize ==> m.diarize
            &&& states[i].diarize_requested ==> m.diarize_requested
        }),
{
    crate::order::lemma_first_where(states, |s: StateView| s.diarize);
    crate::order::lemma_first_where(states, |s: StateView| s.diarize_requested);
    if forall|j: int| 0 <= j < i ==> (#[trigger] states[j]).model is None {
        if states[i].model is Some {
            lemma_first_where_at(states, |s: StateView| s.model is Some, i);
        }
    }
    if forall|j: int| 0 <= j < i ==> (#[trigger] states[j]).chunk_ms is None {
        if states[i].chunk_ms is Some {
            lemma_first_where_at(states, |s: StateView| s.chunk_ms is Some, i);
        }
    }
    if forall|j: int| 0 <= j < i ==> (#[trigger] states[j]).error is None {
        if states[i].error is Some {
            lemma_first_where_at(states, |s: StateView| s.error is Some, i);
        }
    }
    if forall|j: int| 0 <= j < i ==> (#[trigger] states[j]).stream_error is None {
        if states[i].stream_error is Some {
            lemma_first_where_at(states, |s: StateView| s.stream_error is Some, i);
        }
    }
    if forall|j: int| 0 <= j < i ==> (#[trigger] states[j]).last_fragment.len() == 0 {
        if states[i].last_fragment.len() > 0 {
            lemma_first_where_at(states, |s: StateView| s.last_fragment.len() > 0, i);
        }
    }
    if forall|j: int| 0 <= j < i ==> (#[trigger] states[j]).status == Status::Idle {
        if states[i].status != Status::Idle {
            lemma_first_where_at(states, |s: StateView| s.status.active(), i);
        }
    }
}

/// A merge claims nothing that no session does.
pub proof fn lemma_a_merge_invents_nothing(states: Seq<StateView>)
    requires
        forall|j: int| 0 <= j < states.len() ==> !(#[trigger] states[j]).diarize,
        forall|j: int| 0 <= j < states.len() ==> !(#[trigger] states[j]).diarize_requested,
        forall|j: int| 0 <= j < states.len() ==> (#[trigger] states[j]).model is None,
        forall|j: int| 0 <= j < states.len() ==> (#[trigger] states[j]).stream_error is None,
    ensures
        !merged(states).diarize && !merged(states).diarize_requested,
        merged(states).model is None && merged(states).stream_error is None,
{
    crate::order::lemma_first_where(states, |s: StateView| s.diarize);
    crate::order::lemma_first_where(states, |s: StateView| s.diarize_requested);
    crate::order::lemma_first_where(states, |s: StateView| s.model is Some);
    crate::order::lemma_first_where(states, |s: StateView| s.stream_error is Some);
}

/// A window slides: it ends with the newest samples that came and holds as many
/// as there are, up to its size.
pub proof fn lemma_a_window_ends_with_the_newest(window: Seq<u32>, chunk: Seq<u32>, i: int)
    requires
        1 <= i <= newest(window, chunk).len(),
    ensures
        ({
            let w = newest(window, chunk);
            let n = window.len() + chunk.len();
            &&& w.len() == if n < METER_WINDOW {
                n
            } else {
                METER_WINDOW as nat
            }
            &&& w[w.len() - i] == if i <= chunk.len() {
                chunk[chunk.len() - i]
            } else {
                window[n - i]
            }
        }),
{
}

/// Only a server that says it is ready starts a session, and a refusal gives the
/// server's own reason.
pub proof fn lemma_only_ready_starts_a_session(f: FirstFrame, shown: Seq<char>)
    ensures
        refusal(f, shown) is None <==> (f matches FirstFrame::Message(m) && m is SessionReady),
        (f matches FirstFrame::Message(ServerMessage::Error { message, .. }) ==> crate::text::ends(
            refusal(f, shown)->0,
            message@,
        )),
        (f matches FirstFrame::Undecodable(why) ==> refusal(f, shown) == Some(why@)),
        (f matches FirstFrame::Failed(why) ==> crate::text::ends(refusal(f, shown)->0, why@)),
{
    match f {
        FirstFrame::Message(ServerMessage::Error { code, message, .. }) => {
            let r = refusal(f, shown)->0;
            assert(r.skip(r.len() - message@.len()) =~= message@);
        },
        FirstFrame::Failed(why) => {
            let r = refusal(f, shown)->0;
            assert(r.skip(r.len() - why@.len()) =~= why@);
        },
        _ => {},
    }
}

/// A state without its text is the same state in every other respect.
pub proof fn lemma_a_live_state_lacks_only_text(s: StateView)
    ensures
        ({
            let l = s.without_text();
            &&& l.transcript.len() == 0 && l.segments.len() == 0
            &&& l == StateView { transcript: l.transcript, segments: l.segments, ..s }
        }),
{
}

/// A session that has not begun has heard nothing, was granted nothing and has
/// nothing to complain of.
pub proof fn lemma_a_blank_state_says_nothing()
    ensures
        ({
            let s = StateView::blank();
            &&& s.status == Status::Idle
            &&& s.transcript.len() == 0 && s.segments.len() == 0 && s.last_fragment.len() == 0
            &&& s.model is None && s.chunk_ms is None
            &&& !s.diarize && !s.diarize_requested
            &&& s.error is None && s.stream_error is None
            &&& s.sources.len() == 0 && s.levels.len() == 0
            &&& s.rms == 0 && s.changes == 0
        }),
{
}

/// Retracting nothing leaves every segment, and retracting anything takes the
/// last one.
pub proof fn lemma_retracting_nothing_keeps_everything(s: Seq<SegmentView>, n: int)
    ensures
        retracted(s, 0) == s,
        n > 0 && s.len() > 0 ==> retracted(s, n).len() < s.len(),
    decreases s.len(),
{
    reveal_with_fuel(retracted, 2);
    if n > 0 && s.len() > 0 {
        let d = s.drop_last();
        let m = n - s.last().text.len();
        if m > 0 {
            lemma_retracting_nothing_keeps_everything(d, m);
        }
    }
}

} // verus!
