//! What front-ends and the background daemon say to each other.
//!
//! The daemon owns the session and the tray; a window is a viewer that attaches
//! and detaches.

use crate::audio::mixer::{health_rows, HealthView, SourceHealth};
use crate::client::hotkey::Report;
use crate::client::mode::{OutputMode, SourceMode};
use crate::client::save::{turn_text_views, Format};
use crate::client::session::{copy_levels, copy_rows, SessionState, StateView, Status};
use crate::paths::{self, join_of};
use crate::platform::Platform;
use crate::text::{self, is_blank, opt_view, texts};
use vstd::prelude::*;

verus! {

/// A request from a front-end to the daemon.
#[allow(inconsistent_fields)]
#[derive(Debug, PartialEq, Eq)]
pub enum Request {
    /// Poll current state.
    ///
    /// `since` is the last [`DaemonState::revision`] this viewer saw. While it
    /// still matches, the daemon leaves the transcript out of the reply and
    /// the viewer keeps the copy it already has.
    GetState { since: Option<u64> },
    Start,
    Stop,
    Toggle,
    SetMode { mode: OutputMode },
    /// Ask the server for speaker labels on the next session.
    SetDiarize { diarize: bool },
    SetSource { key: String },
    /// Replace the whole selection, and optionally how they are combined.
    SetSources { keys: Vec<String>, source_mode: Option<SourceMode> },
    /// Point the daemon at a different machine. Applies to the next session.
    SetServer { server: String },
    /// Layout for saved and streamed transcripts.
    SetFormat { format: Format },
    /// Append the transcript to this file as it is dictated. `None` stops.
    SetStreamFile { path: Option<String> },
    /// Save the current transcript, returning the path written.
    Save { format: Format, path: Option<String> },
    /// Transcribe an audio file, replacing the current transcript.
    TranscribeFile { path: String },
    /// Save one file per source. Separate mode only.
    SaveSplit { format: Format },
    /// Discard the retained transcript.
    Clear,
    /// Stop the daemon entirely.
    Quit,
}

/// The daemon's reply. Every request gets exactly one.
#[derive(Debug, PartialEq, Eq)]
pub enum Response {
    State(DaemonState),
    /// A path, for `Save`.
    Saved { path: String },
    Done,
    Error { message: String },
}

/// Everything a viewer needs: the session's state plus the daemon's own
/// settings, so one round trip renders a whole frame.
#[derive(Debug, PartialEq, Eq)]
pub struct DaemonState {
    pub status: Status,
    pub mode: OutputMode,
    pub transcript: String,
    /// The same text grouped into turns, ready to render. Empty when nothing
    /// carries a speaker: the flat `transcript` is the whole story then.
    pub turns: Vec<(Option<u32>, String)>,
    /// Which transcript the two fields above are. Bumped on every change, so
    /// no two different transcripts ever share one. Zero means "this daemon
    /// does not track revisions".
    pub revision: u64,
    pub last_fragment: String,
    pub model: Option<String>,
    pub chunk_ms: Option<u32>,
    /// What the handshake actually granted.
    pub diarize: bool,
    /// Whether the session behind this state actually asked for labels.
    pub diarize_requested: bool,
    /// What the daemon will ask for at the *next* session.
    pub diarize_configured: bool,
    pub error: Option<String>,
    /// A fragment that never reached the transcript file.
    pub stream_error: Option<String>,
    /// Stable key of the first source, kept for viewers that show only one.
    pub source_key: Option<String>,
    /// Every selected source, in order.
    pub source_keys: Vec<String>,
    pub source_mode: SourceMode,
    /// Ten-band spectrum, as `f32` bit patterns.
    pub levels: Vec<u32>,
    /// Overall level of the same.
    pub rms: u32,
    /// One row per selected source.
    pub sources: Vec<SourceHealth>,
    /// Progress through a file, an `f32` from 0.0 to 1.0 by its bit pattern.
    pub progress: u32,
    /// What became of the configured global hotkey.
    pub hotkey: Report,
    /// Where the transcript is being appended, if anywhere.
    pub stream_to: Option<String>,
    /// Layout in use for saving and streaming.
    pub format: Format,
}

#[verifier::ext_equal]
pub struct DaemonView {
    pub status: Status,
    pub mode: OutputMode,
    pub transcript: Seq<char>,
    pub turns: Seq<(Option<u32>, Seq<char>)>,
    pub revision: u64,
    pub last_fragment: Seq<char>,
    pub model: Option<Seq<char>>,
    pub chunk_ms: Option<u32>,
    pub diarize: bool,
    pub diarize_requested: bool,
    pub diarize_configured: bool,
    pub error: Option<Seq<char>>,
    pub stream_error: Option<Seq<char>>,
    pub source_key: Option<Seq<char>>,
    pub source_keys: Seq<Seq<char>>,
    pub source_mode: SourceMode,
    pub levels: Seq<u32>,
    pub rms: u32,
    pub sources: Seq<HealthView>,
    pub progress: u32,
    pub hotkey: Report,
    pub stream_to: Option<Seq<char>>,
    pub format: Format,
}

impl View for DaemonState {
    type V = DaemonView;

    open spec fn view(&self) -> DaemonView {
        DaemonView {
            status: self.status,
            mode: self.mode,
            transcript: self.transcript@,
            turns: turn_text_views(self.turns@),
            revision: self.revision,
            last_fragment: self.last_fragment@,
            model: opt_view(self.model),
            chunk_ms: self.chunk_ms,
            diarize: self.diarize,
            diarize_requested: self.diarize_requested,
            diarize_configured: self.diarize_configured,
            error: opt_view(self.error),
            stream_error: opt_view(self.stream_error),
            source_key: opt_view(self.source_key),
            source_keys: texts(self.source_keys@),
            source_mode: self.source_mode,
            levels: self.levels@,
            rms: self.rms,
            sources: health_rows(self.sources@),
            progress: self.progress,
            hotkey: self.hotkey,
            stream_to: opt_view(self.stream_to),
            format: self.format,
        }
    }
}

/// What a session knows about itself, before the daemon adds its own settings.
///
/// The transcript, its turns and the revision are left empty: the daemon holds
/// those and fills them in itself.
pub open spec fn seen_from(s: StateView, mode: OutputMode, source_key: Option<Seq<char>>) -> DaemonView {
    DaemonView {
        status: s.status,
        mode,
        transcript: Seq::empty(),
        turns: Seq::empty(),
        revision: 0,
        last_fragment: s.last_fragment,
        model: s.model,
        chunk_ms: s.chunk_ms,
        diarize: s.diarize,
        diarize_requested: s.diarize_requested,
        diarize_configured: false,
        error: s.error,
        stream_error: s.stream_error,
        source_key,
        source_keys: Seq::empty(),
        source_mode: SourceMode::Combined,
        levels: s.levels,
        rms: s.rms,
        sources: s.sources,
        progress: 0,
        hotkey: Report::Unset,
        stream_to: None,
        format: Format::Plain,
    }
}

impl DaemonState {
    /// Everything a session knows about itself, ready for the daemon to
    /// stamp its own settings onto.
    pub fn from_session(s: &SessionState, mode: OutputMode, source_key: Option<String>) -> (r:
        DaemonState)
        ensures
            r@ == seen_from(s@, mode, opt_view(source_key)),
    {
        let d = DaemonState {
            status: s.status,
            mode,
            transcript: String::new(),
            turns: Vec::new(),
            revision: 0,
            last_fragment: s.last_fragment.clone(),
            model: s.model.clone(),
            chunk_ms: s.chunk_ms,
            diarize: s.diarize,
            diarize_requested: s.diarize_requested,
            diarize_configured: false,
            error: s.error.clone(),
            stream_error: s.stream_error.clone(),
            source_key,
            source_keys: Vec::new(),
            source_mode: SourceMode::Combined,
            levels: copy_levels(&s.levels),
            rms: s.rms,
            sources: copy_rows(&s.sources),
            progress: 0,
            hotkey: Report::Unset,
            stream_to: None,
            format: Format::Plain,
        };
        assert(d@ =~= seen_from(s@, mode, opt_view(source_key)));
        d
    }
}

/// The state of a daemon with nothing to say.
impl Default for DaemonState {
    fn default() -> (r: DaemonState)
        ensures
            r@ == seen_from(StateView::blank(), OutputMode::Type, None),
    {
        let s = SessionState::default();
        DaemonState::from_session(&s, OutputMode::Type, None)
    }
}

/// A copy of a list of strings.
pub fn copy_texts(v: &Vec<String>) -> (r: Vec<String>)
    ensures
        r@ == v@,
{
    let mut out: Vec<String> = Vec::new();
    let mut i: usize = 0;
    while i < v.len()
        invariant
            i <= v@.len(),
            out@ == v@.take(i as int),
        decreases v@.len() - i,
    {
        out.push(v[i].clone());
        assert(v@.take(i + 1) == v@.take(i as int).push(v@[i as int]));
        i += 1;
    }
    assert(v@.take(i as int) == v@);
    out
}

/// A copy of a list of turns.
pub fn copy_turns(v: &Vec<(Option<u32>, String)>) -> (r: Vec<(Option<u32>, String)>)
    ensures
        r@ == v@,
{
    let mut out: Vec<(Option<u32>, String)> = Vec::new();
    let mut i: usize = 0;
    while i < v.len()
        invariant
            i <= v@.len(),
            out@ == v@.take(i as int),
        decreases v@.len() - i,
    {
        out.push((v[i].0, v[i].1.clone()));
        assert(v@.take(i + 1) == v@.take(i as int).push(v@[i as int]));
        i += 1;
    }
    assert(v@.take(i as int) == v@);
    out
}

impl Clone for DaemonState {
    fn clone(&self) -> (r: DaemonState)
        ensures
            r@ == self@,
    {
        DaemonState {
            status: self.status,
            mode: self.mode,
            transcript: self.transcript.clone(),
            turns: copy_turns(&self.turns),
            revision: self.revision,
            last_fragment: self.last_fragment.clone(),
            model: self.model.clone(),
            chunk_ms: self.chunk_ms,
            diarize: self.diarize,
            diarize_requested: self.diarize_requested,
            diarize_configured: self.diarize_configured,
            error: self.error.clone(),
            stream_error: self.stream_error.clone(),
            source_key: self.source_key.clone(),
            source_keys: copy_texts(&self.source_keys),
            source_mode: self.source_mode,
            levels: copy_levels(&self.levels),
            rms: self.rms,
            sources: copy_rows(&self.sources),
            progress: self.progress,
            hotkey: self.hotkey.clone(),
            stream_to: self.stream_to.clone(),
            format: self.format,
        }
    }
}

/// Path of the daemon socket: in the runtime directory, which is cleared on
/// logout, so a stale socket cannot outlive the session that made it.
pub fn socket_path(runtime: &Option<String>, here: Platform) -> (r: String)
    ensures
        r@ == (if here == Platform::Windows {
            "\\\\.\\pipe\\syrinx.sock"@
        } else {
            match opt_view(*runtime) {
                Some(d) => join_of(d, "syrinx.sock"@, here),
                None => join_of("/tmp"@, "syrinx.sock"@, here),
            }
        }),
{
    if here == Platform::Windows {
        return "\\\\.\\pipe\\syrinx.sock".to_owned();
    }
    match runtime {
        Some(d) => paths::join(d.as_str(), "syrinx.sock", here),
        None => paths::join("/tmp", "syrinx.sock", here),
    }
}

/// Whether a socket was left behind by a daemon that did not shut down cleanly.
///
/// A file that is there says nothing by itself: only one that nobody answers on
/// is stale. A named pipe exists only while its server holds it open.
pub fn is_stale_socket(exists: bool, answers: bool, here: Platform) -> (r: bool)
    ensures
        r == (here != Platform::Windows && exists && !answers),
{
    here != Platform::Windows && exists && !answers
}

/// What a reply to a plain request comes to for whoever asked.
pub fn ask_daemon(reply: &Response) -> (r: Result<(), String>)
    ensures
        match *reply {
            Response::Error { message } => r matches Err(e) && e@ == "the daemon refused: "@
                + message@,
            _ => r is Ok,
        },
{
    match reply {
        Response::Error { message } => {
            let mut e = "the daemon refused: ".to_owned();
            e.append(message.as_str());
            Err(e)
        },
        _ => Ok(()),
    }
}

/// The state in a reply, if a daemon answered with one.
pub fn daemon_state(reply: Option<Response>) -> (r: Option<DaemonState>)
    ensures
        r == (match reply {
            Some(Response::State(s)) => Some(s),
            _ => None,
        }),
{
    match reply {
        Some(Response::State(s)) => Some(s),
        _ => None,
    }
}

/// What the daemon does with a line a client sent.
pub enum Routing {
    /// Nothing was asked.
    Ignore,
    /// Answer from what is published, without waiting for the loop.
    Poll { since: Option<u64> },
    /// Hand the request to the loop.
    Forward(Request),
    /// Answer at once.
    Refuse(Response),
}

/// Decide what becomes of a line a client sent and what it decodes to.
///
/// A poll is answered without the loop: a window asks thirty times a second,
/// and waiting for a tick each time would make it stutter.
pub fn route(line: &str, decoded: Result<Request, String>) -> (r: Routing)
    ensures
        r is Ignore <==> is_blank(line@),
        !is_blank(line@) ==> match decoded {
            Ok(Request::GetState { since }) => r == (Routing::Poll { since }),
            Ok(request) => r == Routing::Forward(request),
            Err(why) => r matches Routing::Refuse(Response::Error { message }) && message@
                == "undecodable request: "@ + why@,
        },
{
    if text::blank(line) {
        return Routing::Ignore;
    }
    match decoded {
        Ok(request) => match request {
            Request::GetState { since } => Routing::Poll { since },
            other => Routing::Forward(other),
        },
        Err(why) => Routing::Refuse(undecodable(why.as_str())),
    }
}

/// What becomes of a request the daemon's loop was given.
pub enum Forwarded {
    Answered(Response),
    /// The loop is gone.
    ShuttingDown,
    /// The loop did not answer in time.
    TimedOut,
}

/// The reply a client gets for a forwarded request.
pub fn reply(outcome: Forwarded) -> (r: Response)
    ensures
        match outcome {
            Forwarded::Answered(x) => r == x,
            Forwarded::ShuttingDown => r matches Response::Error { message } && message@
                == "daemon is shutting down"@,
            Forwarded::TimedOut => r matches Response::Error { message } && message@
                == "daemon did not answer in time"@,
        },
{
    match outcome {
        Forwarded::Answered(x) => x,
        Forwarded::ShuttingDown => Response::Error {
            message: "daemon is shutting down".to_owned(),
        },
        Forwarded::TimedOut => Response::Error {
            message: "daemon did not answer in time".to_owned(),
        },
    }
}

/// The reply to a request that could not be read.
pub fn undecodable(why: &str) -> (r: Response)
    ensures
        r matches Response::Error { message } && message@ == "undecodable request: "@ + why@,
{
    let mut s = "undecodable request: ".to_owned();
    s.append(why);
    Response::Error { message: s }
}

/// A session's own report is passed on as it stands, and what only the daemon
/// knows is left for it to fill in.
pub proof fn lemma_a_session_is_seen_as_it_is(
    s: StateView,
    mode: OutputMode,
    source_key: Option<Seq<char>>,
)
    ensures
        ({
            let v = seen_from(s, mode, source_key);
            &&& v.status == s.status
            &&& v.mode == mode
            &&& v.last_fragment == s.last_fragment
            &&& v.model == s.model
            &&& v.chunk_ms == s.chunk_ms
            &&& v.diarize == s.diarize
            &&& v.diarize_requested == s.diarize_requested
            &&& v.error == s.error
            &&& v.stream_error == s.stream_error
            &&& v.source_key == source_key
            &&& v.levels == s.levels
            &&& v.rms == s.rms
            &&& v.sources == s.sources
            &&& v.transcript.len() == 0 && v.turns.len() == 0 && v.revision == 0
            &&& !v.diarize_configured
            &&& v.source_keys.len() == 0 && v.source_mode == SourceMode::Combined
            &&& v.progress == 0 && v.hotkey == Report::Unset
            &&& v.stream_to is None && v.format == Format::Plain
        }),
{
}

} // verus!
