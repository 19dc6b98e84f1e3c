//! A small control panel: what it is listening to, whether the server is up,
//! and what it heard last.

use crate::audio::source::{
    display_of, shown_detail, strip_suffix, without_suffix, SourceKind,
};
use crate::client::session::{ready, refusal, shortened, FirstFrame};
use crate::order::{first_where, lemma_first_where_at};
use crate::parakeet::source::{resolve, Source};
use crate::paths::{self, join_of, parent_of};
use crate::platform::Platform;
use crate::proto::{ClientMessage, Encoding, Mode, ServerMessage, SAMPLE_RATE};
use crate::text::{self, begins, decimal, occurs_in, opt_view, texts};
use vstd::prelude::*;

verus! {

// ---------------------------------------------------------------------------
// The session
// ---------------------------------------------------------------------------

#[derive(Debug, Clone, Copy, PartialEq, Eq, Structural)]
pub enum Status {
    Idle,
    Connecting,
    Listening,
    Stopping,
}

impl Default for Status {
    fn default() -> (r: Status)
        ensures
            r == Status::Idle,
    {
        Status::Idle
    }
}

impl Status {
    pub open spec fn label_of(self) -> Seq<char> {
        match self {
            Status::Idle => "Idle"@,
            Status::Connecting => "Connecting…"@,
            Status::Listening => "LISTENING"@,
            Status::Stopping => "Stopping…"@,
        }
    }

    pub fn label(self) -> (r: &'static str)
        ensures
            r@ == self.label_of(),
    {
        match self {
            Status::Idle => "Idle",
            Status::Connecting => "Connecting…",
            Status::Listening => "LISTENING",
            Status::Stopping => "Stopping…",
        }
    }
}

/// What the window needs to draw.
#[derive(Debug, PartialEq, Eq)]
pub struct SessionState {
    pub status: Status,
    /// Everything transcribed this session.
    pub transcript: String,
    /// The most recent fragment, shown so the user can see it is alive.
    pub last_fragment: String,
    pub model: Option<String>,
    pub chunk_ms: Option<u32>,
    pub error: Option<String>,
}

#[verifier::ext_equal]
pub struct StateView {
    pub status: Status,
    pub transcript: Seq<char>,
    pub last_fragment: Seq<char>,
    pub model: Option<Seq<char>>,
    pub chunk_ms: Option<u32>,
    pub error: Option<Seq<char>>,
}

impl View for SessionState {
    type V = StateView;

    open spec fn view(&self) -> StateView {
        StateView {
            status: self.status,
            transcript: self.transcript@,
            last_fragment: self.last_fragment@,
            model: opt_view(self.model),
            chunk_ms: self.chunk_ms,
            error: opt_view(self.error),
        }
    }
}

impl StateView {
    pub open spec fn blank() -> StateView {
        StateView {
            status: Status::Idle,
            transcript: Seq::empty(),
            last_fragment: Seq::empty(),
            model: None,
            chunk_ms: None,
            error: None,
        }
    }
}

impl Clone for SessionState {
    fn clone(&self) -> (r: SessionState)
        ensures
            r == *self,
    {
        SessionState {
            status: self.status,
            transcript: self.transcript.clone(),
            last_fragment: self.last_fragment.clone(),
            model: self.model.clone(),
            chunk_ms: self.chunk_ms,
            error: self.error.clone(),
        }
    }
}

impl Default for SessionState {
    fn default() -> (r: SessionState)
        ensures
            r@ == StateView::blank(),
    {
        SessionState {
            status: Status::Idle,
            transcript: String::new(),
            last_fragment: String::new(),
            model: None,
            chunk_ms: None,
            error: None,
        }
    }
}

/// The message that opens a session: the window owns its buffer, so the server
/// may revise it.
pub fn hello() -> (r: ClientMessage)
    ensures
        r == (ClientMessage::SessionStart {
            mode: Mode::Transcript,
            sample_rate: SAMPLE_RATE,
            encoding: Encoding::PcmS16le,
            language: None,
            vocabulary: None,
            diarize: false,
        }),
{
    ClientMessage::SessionStart {
        mode: Mode::Transcript,
        sample_rate: SAMPLE_RATE,
        encoding: Encoding::PcmS16le,
        language: None,
        vocabulary: None,
        diarize: false,
    }
}

/// A state after a message.
pub open spec fn state_after(s: StateView, m: ServerMessage) -> StateView {
    match m {
        ServerMessage::TranscriptCommit { text, .. } => StateView {
            transcript: s.transcript + text@,
            last_fragment: text@,
            ..s
        },
        ServerMessage::TranscriptProvisional { text, .. } => StateView {
            transcript: s.transcript + text@,
            last_fragment: text@,
            ..s
        },
        ServerMessage::TranscriptRevise { retract_n, text, .. } => StateView {
            transcript: shortened(s.transcript, retract_n as int) + text@,
            ..s
        },
        ServerMessage::Error { message, .. } => StateView { error: Some(message@), ..s },
        _ => s,
    }
}

/// What a message makes the session do, besides changing its state.
#[derive(Debug, Clone, Copy, PartialEq, Eq, Structural)]
pub struct After {
    /// The window is to be redrawn.
    pub redraw: bool,
    /// The session is over.
    pub end: bool,
}

impl SessionState {
    /// A session that has just been asked for.
    pub fn connecting() -> (r: SessionState)
        ensures
            r@ == (StateView { status: Status::Connecting, ..StateView::blank() }),
    {
        let mut s = SessionState::default();
        s.status = Status::Connecting;
        s
    }

    /// Take the first frame: a server that is ready starts the session, and
    /// anything else leaves it as it was and says why it cannot run.
    pub fn handshake(&mut self, frame: &FirstFrame, shown: &str) -> (r: Result<(), String>)
        ensures
            match r {
                Ok(_) => refusal(*frame, shown@) is None,
                Err(e) => refusal(*frame, shown@) == Some(e@),
            },
            final(self)@ == (match *frame {
                FirstFrame::Message(ServerMessage::SessionReady { model, chunk_ms, .. }) => (
                StateView {
                    status: Status::Listening,
                    model: Some(model@),
                    chunk_ms: Some(chunk_ms),
                    ..old(self)@
                }),
                _ => old(self)@,
            }),
    {
        if let FirstFrame::Message(ServerMessage::SessionReady { model, chunk_ms, .. }) = frame {
            self.status = Status::Listening;
            self.model = Some(model.clone());
            self.chunk_ms = Some(*chunk_ms);
        }
        ready(frame, shown)
    }

    /// Take one message from the server.
    pub fn on_message(&mut self, message: &ServerMessage) -> (r: After)
        ensures
            final(self)@ == state_after(old(self)@, *message),
            r.end == (message is SessionClosed || message is Error),
            r.redraw == (message is TranscriptCommit || message is TranscriptProvisional
                || message is TranscriptRevise || message is Error),
    {
        match message {
            ServerMessage::TranscriptCommit { text, .. } => {
                self.transcript.append(text.as_str());
                self.last_fragment = text.clone();
                After { redraw: true, end: false }
            },
            ServerMessage::TranscriptProvisional { text, .. } => {
                self.transcript.append(text.as_str());
                self.last_fragment = text.clone();
                After { redraw: true, end: false }
            },
            ServerMessage::TranscriptRevise { retract_n, text, .. } => {
                let v = text::chars_of(self.transcript.as_str());
                let keep: usize = if *retract_n < v.len() {
                    v.len() - *retract_n
                } else {
                    0
                };
                assert(v@.subrange(0, keep as int) == v@.take(keep as int));
                let mut t = text::string_from(&v, 0, keep);
                t.append(text.as_str());
                self.transcript = t;
                After { redraw: true, end: false }
            },
            ServerMessage::SessionClosed { .. } => After { redraw: false, end: true },
            ServerMessage::Error { message, .. } => {
                self.error = Some(message.clone());
                After { redraw: true, end: true }
            },
            _ => After { redraw: false, end: false },
        }
    }

    /// The audio has ended; the last words are still to come.
    pub fn stopping(&mut self)
        ensures
            final(self)@ == (StateView { status: Status::Stopping, ..old(self)@ }),
    {
        self.status = Status::Stopping;
    }

    /// The session is over, and went wrong.
    pub fn set_error(&mut self, msg: String)
        ensures
            final(self)@ == (StateView {
                status: Status::Idle,
                error: Some(msg@),
                ..old(self)@
            }),
    {
        self.error = Some(msg);
        self.status = Status::Idle;
    }
}

// ---------------------------------------------------------------------------
// Configuration
// ---------------------------------------------------------------------------

/// Where the window's configuration is under `base`.
pub open spec fn config_file(base: Seq<char>, here: Platform) -> Seq<char> {
    join_of(base, "parakeet-gui/config.toml"@, here)
}

pub fn config_path(base: &str, here: Platform) -> (r: String)
    ensures
        r@ == config_file(base@, here),
{
    paths::join(base, "parakeet-gui/config.toml", here)
}

/// The places configuration is read from: the window's own, then the typer's.
/// The two want the same server and token, and making the user write it twice
/// invites them to diverge.
pub open spec fn config_places(base: Seq<char>, here: Platform) -> Seq<Seq<char>> {
    let own = config_file(base, here);
    let above = match parent_of(own, here) {
        Some(p) => parent_of(p, here),
        None => None,
    };
    match above {
        Some(p) => seq![own, join_of(p, "parakeet-type/config.toml"@, here)],
        None => seq![own],
    }
}

pub fn config_candidates(base: &str, here: Platform) -> (r: Vec<String>)
    ensures
        texts(r@) == config_places(base@, here),
{
    let own = config_path(base, here);
    let above = match paths::parent(own.as_str(), here) {
        Some(p) => paths::parent(p.as_str(), here),
        None => None,
    };
    let mut out: Vec<String> = Vec::new();
    out.push(own);
    if let Some(p) = above {
        out.push(paths::join(p.as_str(), "parakeet-type/config.toml", here));
    }
    assert(texts(out@) =~= config_places(base@, here));
    out
}

/// What is said when no configuration was found.
pub fn no_config(base: &str, here: Platform) -> (r: String)
    ensures
        r@ == "no config found. Create "@ + config_file(base@, here)
            + " with:\n  url = \"ws://host:8770/v1/stream\"\n  token = \"...\""@,
{
    let mut s = "no config found. Create ".to_owned();
    let p = config_path(base, here);
    s.append(p.as_str());
    s.append(" with:\n  url = \"ws://host:8770/v1/stream\"\n  token = \"...\"");
    s
}

// ---------------------------------------------------------------------------
// The picker
// ---------------------------------------------------------------------------

pub open spec fn is_microphone(s: Source) -> bool {
    s.kind == SourceKind::Microphone
}

pub open spec fn is_denoised(s: Source) -> bool {
    is_microphone(s) && occurs_in("rnnoise"@, s.key())
}

/// The source selected in a fresh list: the one wanted while it exists, then a
/// denoised microphone, then any microphone, then whatever comes first.
pub open spec fn selection(list: Seq<Source>, want: Option<Seq<char>>) -> Option<Source> {
    let kept = match want {
        Some(k) => first_where(list, |s: Source| s.key() == k),
        None => None,
    };
    let denoised = first_where(list, |s: Source| is_denoised(s));
    let microphone = first_where(list, |s: Source| is_microphone(s));
    if kept is Some {
        kept
    } else if denoised is Some {
        denoised
    } else if microphone is Some {
        microphone
    } else if list.len() > 0 {
        Some(list[0])
    } else {
        None
    }
}

fn select(list: &Vec<Source>, want: &Option<String>) -> (r: Option<Source>)
    ensures
        r == selection(list@, opt_view(*want)),
{
    if let Some(k) = want {
        let found = resolve(list.as_slice(), k.as_str());
        if found.is_some() {
            return found;
        }
    }
    let ghost denoised = |s: Source| is_denoised(s);
    let ghost microphone = |s: Source| is_microphone(s);
    let ghost w = opt_view(*want);
    let mut i: usize = 0;
    while i < list.len()
        invariant
            i <= list@.len(),
            denoised == (|s: Source| is_denoised(s)),
            w == opt_view(*want),
            w matches Some(k) ==> first_where(list@, |s: Source| s.key() == k) is None,
            forall|j: int| 0 <= j < i ==> !denoised(#[trigger] list@[j]),
        decreases list@.len() - i,
    {
        if list[i].kind == SourceKind::Microphone {
            let key = list[i].stable_key();
            if text::contains_text(key.as_str(), "rnnoise") {
                proof {
                    lemma_first_where_at(list@, denoised, i as int);
                }
                return Some(list[i].clone());
            }
        }
        i += 1;
    }
    proof {
        lemma_first_where_at(list@, denoised, i as int);
    }
    let mut j: usize = 0;
    while j < list.len()
        invariant
            j <= list@.len(),
            microphone == (|s: Source| is_microphone(s)),
            w == opt_view(*want),
            w matches Some(k) ==> first_where(list@, |s: Source| s.key() == k) is None,
            first_where(list@, |s: Source| is_denoised(s)) is None,
            forall|m: int| 0 <= m < j ==> !microphone(#[trigger] list@[m]),
        decreases list@.len() - j,
    {
        if list[j].kind == SourceKind::Microphone {
            proof {
                lemma_first_where_at(list@, microphone, j as int);
            }
            return Some(list[j].clone());
        }
        j += 1;
    }
    proof {
        lemma_first_where_at(list@, microphone, j as int);
    }
    if list.len() > 0 {
        return Some(list[0].clone());
    }
    None
}

/// The picker: what can be captured, and what is selected.
pub struct Picker {
    pub sources: Vec<Source>,
    pub selected: Option<Source>,
    /// Why the sources could not be listed.
    pub list_error: Option<String>,
}

impl Picker {
    /// Re-enumerate, keeping the current selection if it still exists;
    /// `remembered` is the key to look for when nothing is selected.
    ///
    /// Applications come and go and their node ids change, so the selection is
    /// matched on its key rather than held by reference.
    pub fn refresh_sources(
        &mut self,
        listing: Result<Vec<Source>, String>,
        remembered: &Option<String>,
    )
        ensures
            match listing {
                Ok(list) => {
                    &&& final(self).sources@ == list@
                    &&& final(self).list_error is None
                    &&& final(self).selected == selection(
                        list@,
                        match old(self).selected {
                            Some(s) => Some(s.key()),
                            None => opt_view(*remembered),
                        },
                    )
                },
                Err(e) => {
                    &&& final(self).sources == old(self).sources
                    &&& final(self).selected == old(self).selected
                    &&& final(self).list_error == Some(e)
                },
            },
    {
        match listing {
            Ok(list) => {
                self.list_error = None;
                let want = match &self.selected {
                    Some(s) => Some(s.stable_key()),
                    None => remembered.clone(),
                };
                self.selected = select(&list, &want);
                self.sources = list;
            },
            Err(e) => {
                self.list_error = Some(e);
            },
        }
    }
}

/// A row of the open picker.
#[derive(Debug, PartialEq, Eq)]
pub enum Row {
    Separator,
    /// A kind of source.
    Heading(String),
    /// A source, by its place in the list, and whether it is the one selected.
    Item { index: usize, label: String, chosen: bool },
}

pub enum RowView {
    Separator,
    Heading(Seq<char>),
    Item { index: int, label: Seq<char>, chosen: bool },
}

pub open spec fn row_view(r: Row) -> RowView {
    match r {
        Row::Separator => RowView::Separator,
        Row::Heading(h) => RowView::Heading(h@),
        Row::Item { index, label, chosen } => RowView::Item {
            index: index as int,
            label: label@,
            chosen,
        },
    }
}

pub open spec fn row_views(v: Seq<Row>) -> Seq<RowView> {
    v.map_values(|r: Row| row_view(r))
}

pub open spec fn item_of(sources: Seq<Source>, selected: Option<Source>, i: int) -> RowView {
    RowView::Item {
        index: i,
        label: display_of(sources[i].name@, shown_detail(sources[i].detail)),
        chosen: selected matches Some(s) && s@ == sources[i]@,
    }
}

/// The rows of the open picker for the first `n` sources: each kind under a
/// heading of its own, set apart from the one before.
pub open spec fn rows_of(sources: Seq<Source>, selected: Option<Source>, n: int) -> Seq<RowView>
    decreases n,
{
    if n <= 0 {
        Seq::empty()
    } else {
        let before = rows_of(sources, selected, n - 1);
        let heading = RowView::Heading(sources[n - 1].kind.label_of());
        let item = item_of(sources, selected, n - 1);
        if n == 1 {
            before.push(heading).push(item)
        } else if sources[n - 2].kind != sources[n - 1].kind {
            before.push(RowView::Separator).push(heading).push(item)
        } else {
            before.push(item)
        }
    }
}

fn same_source(a: &Source, b: &Source) -> (r: bool)
    ensures
        r == (a@ == b@),
{
    a.id == b.id && a.kind == b.kind && text::same(a.name.as_str(), b.name.as_str())
        && text::same_opt(&a.node_name, &b.node_name) && text::same_opt(&a.detail, &b.detail)
}

/// The rows of the open picker.
pub fn rows(sources: &Vec<Source>, selected: &Option<Source>) -> (r: Vec<Row>)
    ensures
        row_views(r@) == rows_of(sources@, *selected, sources@.len() as int),
{
    let mut out: Vec<Row> = Vec::new();
    let mut i: usize = 0;
    assert(row_views(out@) == rows_of(sources@, *selected, 0));
    while i < sources.len()
        invariant
            i <= sources@.len(),
            row_views(out@) == rows_of(sources@, *selected, i as int),
        decreases sources@.len() - i,
    {
        let kind = sources[i].kind;
        let ghost was = out@;
        if i == 0 {
            out.push(Row::Heading(kind.label().to_owned()));
            assert(row_views(out@) == row_views(was).push(RowView::Heading(kind.label_of())));
        } else if sources[i - 1].kind != kind {
            out.push(Row::Separator);
            let ghost mid = out@;
            assert(row_views(mid) == row_views(was).push(RowView::Separator));
            out.push(Row::Heading(kind.label().to_owned()));
            assert(row_views(out@) == row_views(mid).push(RowView::Heading(kind.label_of())));
        }
        let chosen: bool = match selected {
            Some(s) => same_source(s, &sources[i]),
            None => false,
        };
        let label = sources[i].display();
        let ghost before_item = out@;
        out.push(Row::Item { index: i, label, chosen });
        assert(row_views(out@) == row_views(before_item).push(item_of(sources@, *selected, i as int)));
        i += 1;
    }
    out
}

// ---------------------------------------------------------------------------
// The rest of the window
// ---------------------------------------------------------------------------

/// How the state is shown: the colour and the mark beside the status.
pub fn status_mark(status: Status) -> (r: (Option<(u8, u8, u8)>, &'static str))
    ensures
        r.0 == (match status {
            Status::Listening => Some((220u8, 60u8, 60u8)),
            Status::Connecting | Status::Stopping => Some((220u8, 170u8, 60u8)),
            Status::Idle => None,
        }),
        r.1@ == (if status == Status::Idle {
            "○"@
        } else {
            "●"@
        }),
{
    match status {
        Status::Listening => (Some((220, 60, 60)), "●"),
        Status::Connecting => (Some((220, 170, 60)), "●"),
        Status::Stopping => (Some((220, 170, 60)), "●"),
        Status::Idle => (None, "○"),
    }
}

/// What is said of the server's model, once it is known.
pub fn model_line(state: &SessionState) -> (r: Option<String>)
    ensures
        opt_view(r) == (match (opt_view(state.model), state.chunk_ms) {
            (Some(m), Some(c)) => Some(m + " · "@ + decimal(c as nat) + "ms chunks"@),
            _ => None,
        }),
{
    match (&state.model, state.chunk_ms) {
        (Some(m), Some(c)) => {
            let mut s = m.clone();
            s.append(" · ");
            let n = text::decimal_text(c as u64);
            s.append(n.as_str());
            s.append("ms chunks");
            Some(s)
        },
        _ => None,
    }
}

/// What the picker shows while closed.
pub fn picker_label(selected: &Option<Source>) -> (r: String)
    ensures
        r@ == (match *selected {
            Some(s) => display_of(s.name@, shown_detail(s.detail)),
            None => "none"@,
        }),
{
    match selected {
        Some(s) => s.display(),
        None => "none".to_owned(),
    }
}

/// `s` with every leading copy of `pat` removed.
pub open spec fn without_prefix(s: Seq<char>, pat: Seq<char>) -> Seq<char>
    decreases s.len(),
{
    if pat.len() > 0 && begins(s, pat) {
        without_prefix(s.skip(pat.len() as int), pat)
    } else {
        s
    }
}

fn strip_prefix(s: &str, pat: &str) -> (r: String)
    requires
        pat@.len() > 0,
    ensures
        r@ == without_prefix(s@, pat@),
{
    let mut cur = s.to_owned();
    let n: usize = text::chars_of(pat).len();
    while text::starts_with(cur.as_str(), pat)
        invariant
            n == pat@.len() > 0,
            without_prefix(s@, pat@) == without_prefix(cur@, pat@),
        decreases cur@.len(),
    {
        let v = text::chars_of(cur.as_str());
        assert(v@.subrange(n as int, v@.len() as int) == v@.skip(n as int));
        cur = text::string_from(&v, n, v.len());
    }
    cur
}

/// The server's address as the window shows it: without what every address has.
pub fn short_url(url: &str) -> (r: String)
    ensures
        r@ == without_suffix(without_prefix(url@, "ws://"@), "/v1/stream"@),
{
    proof {
        reveal_strlit("ws://");
        reveal_strlit("/v1/stream");
    }
    let s = strip_prefix(url, "ws://");
    strip_suffix(s.as_str(), "/v1/stream")
}

/// A selection that still exists is kept across a rescan, whatever node ids
/// have become; system audio is never selected unasked while there is a
/// microphone.
pub proof fn lemma_selection(list: Seq<Source>, want: Option<Seq<char>>)
    ensures
        (want matches Some(k) && exists|i: int|
            0 <= i < list.len() && (#[trigger] list[i]).key() == k) ==> (selection(
            list,
            want,
        ) matches Some(s) && s.key() == want->0),
        (want is None && exists|i: int|
            0 <= i < list.len() && is_microphone(#[trigger] list[i])) ==> (selection(
            list,
            want,
        ) matches Some(s) && is_microphone(s)),
        selection(list, want) is Some <==> list.len() > 0,
{
    if let Some(k) = want {
        crate::order::lemma_first_where(list, |s: Source| s.key() == k);
    }
    crate::order::lemma_first_where(list, |s: Source| is_denoised(s));
    crate::order::lemma_first_where(list, |s: Source| is_microphone(s));
}

/// Text the server sends goes behind the transcript, a revision replaces its
/// end and nothing before it, and no other message touches it.
pub proof fn lemma_text_goes_behind_the_transcript(s: StateView, m: ServerMessage)
    ensures
        ({
            let t = state_after(s, m);
            &&& m matches ServerMessage::TranscriptCommit { text, .. } ==> t.transcript
                == s.transcript + text@ && t.last_fragment == text@
            &&& m matches ServerMessage::TranscriptProvisional { text, .. } ==> t.transcript
                == s.transcript + text@ && t.last_fragment == text@
            &&& m matches ServerMessage::TranscriptRevise { retract_n, text, .. } ==> {
                let kept: int = if retract_n < s.transcript.len() {
                    s.transcript.len() - retract_n
                } else {
                    0
                };
                t.transcript == s.transcript.take(kept) + text@ && t.last_fragment
                    == s.last_fragment
            }
            &&& m matches ServerMessage::Error { message, .. } ==> t.error == Some(message@)
            &&& t.transcript != s.transcript ==> m is TranscriptCommit || m is TranscriptProvisional
                || m is TranscriptRevise
            &&& t.error != s.error ==> m is Error
            &&& t.status == s.status && t.model == s.model && t.chunk_ms == s.chunk_ms
        }),
{
}

/// Every source of the picker has one row, in order, with its name and whether
/// it is the one selected; a heading stands before each first one of a kind.
pub proof fn lemma_every_source_has_a_row(
    sources: Seq<Source>,
    selected: Option<Source>,
    n: int,
)
    requires
        0 < n <= sources.len(),
    ensures
        ({
            let before = rows_of(sources, selected, n - 1);
            let after = rows_of(sources, selected, n);
            let i = n - 1;
            &&& after.last() == (RowView::Item {
                index: i,
                label: display_of(sources[i].name@, shown_detail(sources[i].detail)),
                chosen: selected is Some && selected->0@ == sources[i]@,
            })
            &&& after.take(before.len() as int) == before
            &&& i == 0 ==> after.len() == 2 && after[0] == RowView::Heading(
                sources[0].kind.label_of(),
            )
            &&& i > 0 && sources[i - 1].kind == sources[i].kind ==> after.len() == before.len() + 1
            &&& i > 0 && sources[i - 1].kind != sources[i].kind ==> after.len() == before.len() + 3
                && after[before.len() as int] is Separator && after[before.len() as int + 1]
                == RowView::Heading(sources[i].kind.label_of())
        }),
{
    let before = rows_of(sources, selected, n - 1);
    let after = rows_of(sources, selected, n);
    assert(after.take(before.len() as int) =~= before);
}

/// The picker selects the first source with the key wanted; failing that the
/// first denoised microphone, then the first microphone, then the first source.
pub proof fn lemma_the_selection_is_the_first_of_the_best(
    list: Seq<Source>,
    want: Option<Seq<char>>,
    i: int,
)
    requires
        0 <= i < list.len(),
    ensures
        want is Some && list[i].key() == want->0 && (forall|j: int|
            0 <= j < i ==> (#[trigger] list[j]).key() != want->0) ==> selection(list, want) == Some(
            list[i],
        ),
        want is None && list[i].kind == SourceKind::Microphone && occurs_in(
            "rnnoise"@,
            list[i].key(),
        ) && (forall|j: int|
            0 <= j < i ==> !((#[trigger] list[j]).kind == SourceKind::Microphone && occurs_in(
                "rnnoise"@,
                list[j].key(),
            ))) ==> selection(list, want) == Some(list[i]),
        want is None && list[i].kind == SourceKind::Microphone && (forall|j: int|
            0 <= j < list.len() ==> !occurs_in("rnnoise"@, (#[trigger] list[j]).key())) && (forall|
            j: int,
        |
            0 <= j < i ==> (#[trigger] list[j]).kind != SourceKind::Microphone) ==> selection(
            list,
            want,
        ) == Some(list[i]),
        want is None && (forall|j: int|
            0 <= j < list.len() ==> (#[trigger] list[j]).kind != SourceKind::Microphone)
            ==> selection(list, want) == Some(list[0]),
{
    let denoised = |s: Source| is_denoised(s);
    let microphone = |s: Source| is_microphone(s);
    if let Some(k) = want {
        let known = |s: Source| s.key() == k;
        if known(list[i]) && (forall|j: int| 0 <= j < i ==> (#[trigger] list[j]).key() != k) {
            assert(forall|j: int| 0 <= j < i ==> !known(#[trigger] list[j]));
            lemma_first_where_at(list, known, i);
        }
    }
    crate::order::lemma_first_where(list, denoised);
    crate::order::lemma_first_where(list, microphone);
    if is_denoised(list[i]) && (forall|j: int| 0 <= j < i ==> !is_denoised(#[trigger] list[j])) {
        lemma_first_where_at(list, denoised, i);
    }
    if is_microphone(list[i]) && (forall|j: int|
        0 <= j < i ==> !is_microphone(#[trigger] list[j])) {
        lemma_first_where_at(list, microphone, i);
    }
}

/// Only copies of the prefix are taken off the front of a text, and all of them
/// are.
pub proof fn lemma_only_the_prefix_is_taken_off(s: Seq<char>, pat: Seq<char>)
    requires
        pat.len() > 0,
    ensures
        without_prefix(s, pat).len() <= s.len(),
        s.skip(s.len() - without_prefix(s, pat).len()) == without_prefix(s, pat),
        !begins(without_prefix(s, pat), pat),
        !begins(s, pat) ==> without_prefix(s, pat) == s,
        without_prefix(pat + s, pat) == without_prefix(s, pat),
    decreases s.len(),
{
    let whole = pat + s;
    assert(whole.take(pat.len() as int) =~= pat);
    assert(whole.skip(pat.len() as int) =~= s);
    if begins(s, pat) {
        let t = s.skip(pat.len() as int);
        lemma_only_the_prefix_is_taken_off(t, pat);
        let r = without_prefix(t, pat);
        assert(s.skip(s.len() - r.len()) =~= t.skip(t.len() - r.len()));
    } else {
        assert(s.skip(0) =~= s);
    }
}

} // verus!
