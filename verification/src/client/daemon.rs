//! The background daemon: it owns the sessions and what viewers are told.
//!
//! Everything persistent lives here. A window attaches as a viewer and may come
//! and go; closing it does not stop dictation, because the daemon never had a
//! window to lose. What it decides is here; the sockets, the threads and the
//! files are its caller's.

use crate::audio::source::{labels_of, short_labels, Source};
use crate::audio::{choice, choose_source, resolve};
use crate::client::config::{expanded, Config, ConfigView};
use crate::client::hotkey::{self, meaning, unsupported, HotKey, Report};
use crate::client::ipc::{copy_texts, copy_turns, seen_from, DaemonState, DaemonView, Request, Response};
use crate::client::mode::{OutputMode, SourceMode};
use crate::client::preview::{is_watched, watched, Preview};
use crate::client::save::{
    self, file_views, fresh_path, grouped, has_speaker, rendered, saved_name, source_files,
    source_path, turn_text_views, turn_texts_of, Format,
};
use crate::client::segment::segment_views;
use crate::client::session::{
    merge_states, merged, options_views, state_after, state_views,
    OptionsView, SessionOptions, SessionState, StateView, Status,
};
use crate::client::tray::{TrayCommand, TrayState};
use crate::order::{first_where, lemma_first_where};
use crate::paths::{self, join_of};
use crate::platform::Platform;
use crate::proto::ServerMessage;
use crate::text::{self, debug_of, is_blank, joined, opt_view, texts, trim_of};
use vstd::prelude::*;

verus! {

// ---------------------------------------------------------------------------
// The hotkey
// ---------------------------------------------------------------------------

/// Work out what to tell the user about their hotkey.
///
/// Three different things can be true and they are not interchangeable: none
/// was asked for, one was asked for and cannot work here, or one was asked for
/// and failed.
pub fn report_hotkey(
    hotkey: &Option<HotKey>,
    error: Option<String>,
    here: Platform,
    wayland: bool,
) -> (r: Report)
    ensures
        match *hotkey {
            None => r == Report::Unset,
            Some(h) => match (unsupported(here, wayland), error) {
                (Some(w), _) => r matches Report::Unavailable { spelled, why } && spelled@
                    == h.spelled@ && why@ == w,
                (None, Some(e)) => r == (Report::Failed { spelled: h.spelled, error: e }),
                (None, None) => if here == Platform::Windows {
                    r == (Report::Active { spelled: h.spelled })
                } else {
                    r matches Report::Unavailable { spelled, why } && spelled@ == h.spelled@ && why@
                        == "syrinx only registers hotkeys on Windows so far. Bind it in your window manager to run `syrinx toggle`."@
                },
            },
        },
{
    match hotkey {
        None => Report::Unset,
        Some(h) => {
            let spelled = h.spelled.clone();
            if let Some(why) = hotkey::supported_here(here, wayland) {
                return Report::Unavailable { spelled, why: why.to_owned() };
            }
            if let Some(e) = error {
                return Report::Failed { spelled, error: e };
            }
            if here != Platform::Windows {
                return Report::Unavailable {
                    spelled,
                    why:
                        "syrinx only registers hotkeys on Windows so far. Bind it in your window manager to run `syrinx toggle`.".to_owned(),
                };
            }
            Report::Active { spelled }
        },
    }
}

/// Read and check the configured hotkey.
pub fn state_hotkey(config: &Config) -> (r: Result<Option<HotKey>, String>)
    ensures
        match opt_view(config.hotkey) {
            None => r == Ok::<Option<HotKey>, String>(None),
            Some(spec) => match (meaning(spec), r) {
                (Ok((mods, code)), Ok(Some(h))) => h.mods == mods && h.code@ == code && h.spelled@
                    == trim_of(spec),
                (Err(why), Err(e)) => e@ == "the `hotkey` setting in your config ("@ + debug_of(
                    spec,
                ) + ") is not valid: "@ + why,
                _ => false,
            },
        },
{
    match &config.hotkey {
        None => Ok(None),
        Some(spec) => match hotkey::parse(spec.as_str()) {
            Ok(h) => Ok(Some(h)),
            Err(why) => {
                let mut e = "the `hotkey` setting in your config (".to_owned();
                let shown = text::debug_text(spec.as_str());
                e.append(shown.as_str());
                e.append(") is not valid: ");
                e.append(why.as_str());
                Err(e)
            },
        },
    }
}

// ---------------------------------------------------------------------------
// What the daemon holds
// ---------------------------------------------------------------------------

/// What a daemon is told to do.
#[derive(Debug, PartialEq, Eq)]
pub struct DaemonOptions {
    pub config: Config,
    pub mode: OutputMode,
    /// Selected sources, in order. The first is the one that types at the
    /// cursor in separate mode.
    pub source_keys: Vec<String>,
    pub source_mode: SourceMode,
    /// Save each session automatically as it ends.
    pub save_each: bool,
    pub format: Format,
    /// Command used to open a viewer when the tray asks for one.
    pub gui_command: Option<String>,
    /// What paths are read by.
    pub here: Platform,
}

#[verifier::ext_equal]
pub struct SettingsView {
    pub config: ConfigView,
    pub mode: OutputMode,
    pub source_keys: Seq<Seq<char>>,
    pub source_mode: SourceMode,
    pub save_each: bool,
    pub format: Format,
    pub gui_command: Option<Seq<char>>,
    pub here: Platform,
}

impl View for DaemonOptions {
    type V = SettingsView;

    open spec fn view(&self) -> SettingsView {
        SettingsView {
            config: self.config@,
            mode: self.mode,
            source_keys: texts(self.source_keys@),
            source_mode: self.source_mode,
            save_each: self.save_each,
            format: self.format,
            gui_command: opt_view(self.gui_command),
            here: self.here,
        }
    }
}

/// State of a file transcription.
#[derive(Debug, PartialEq, Eq)]
pub struct FileJob {
    /// How far along it is, an `f32` from 0.0 to 1.0 by its bit pattern.
    pub progress: u32,
    pub done: bool,
    pub text: String,
    pub error: Option<String>,
}

#[verifier::ext_equal]
pub struct JobView {
    pub progress: u32,
    pub done: bool,
    pub text: Seq<char>,
    pub error: Option<Seq<char>>,
}

impl View for FileJob {
    type V = JobView;

    open spec fn view(&self) -> JobView {
        JobView {
            progress: self.progress,
            done: self.done,
            text: self.text@,
            error: opt_view(self.error),
        }
    }
}

/// What a revision is computed from: the generation, how many sessions are
/// running, and how many changes they have made between them.
pub type Token = (u64, usize, u64);

/// The transcript as viewers see it, rebuilt only when it changes.
///
/// Building it on every tick would mean merging and regrouping every segment
/// forty times a second to produce a byte-identical answer. `token` is what
/// makes "has it changed" answerable without looking at the text at all.
#[derive(Debug, PartialEq, Eq)]
pub struct TranscriptCache {
    /// Published to viewers, and only ever counted up.
    pub revision: u64,
    pub token: Token,
    pub transcript: String,
    pub turns: Vec<(Option<u32>, String)>,
}

#[verifier::ext_equal]
pub struct CacheView {
    pub revision: u64,
    pub token: Token,
    pub transcript: Seq<char>,
    pub turns: Seq<(Option<u32>, Seq<char>)>,
}

impl View for TranscriptCache {
    type V = CacheView;

    open spec fn view(&self) -> CacheView {
        CacheView {
            revision: self.revision,
            token: self.token,
            transcript: self.transcript@,
            turns: turn_text_views(self.turns@),
        }
    }
}

/// What the daemon remembers from one tick to the next. The sessions themselves
/// run elsewhere, and each function that depends on them is told their states.
pub struct DaemonRuntime {
    pub opts: DaemonOptions,
    /// The last finished session's state.
    ///
    /// Without it, stopping would wipe the transcript from every viewer at
    /// exactly the moment the user wants to read or save it.
    pub last: SessionState,
    /// Bumped whenever the sessions or `last` are replaced rather than merely
    /// added to. Sessions only ever count upwards while they run, so this is
    /// what tells the cache that the text moved backwards or sideways.
    pub generation: u64,
    pub text: TranscriptCache,
    /// A file transcription in flight.
    pub file_job: Option<FileJob>,
    /// When a viewer last asked for state, in nanoseconds.
    pub last_viewer: Option<u64>,
}

#[verifier::ext_equal]
pub struct RuntimeView {
    pub opts: SettingsView,
    pub last: StateView,
    pub generation: u64,
    pub text: CacheView,
    pub file_job: Option<JobView>,
    pub last_viewer: Option<u64>,
}

pub open spec fn job_view(j: Option<FileJob>) -> Option<JobView> {
    match j {
        Some(j) => Some(j@),
        None => None,
    }
}

impl View for DaemonRuntime {
    type V = RuntimeView;

    open spec fn view(&self) -> RuntimeView {
        RuntimeView {
            opts: self.opts@,
            last: self.last@,
            generation: self.generation,
            text: self.text@,
            file_job: job_view(self.file_job),
            last_viewer: self.last_viewer,
        }
    }
}

// ---------------------------------------------------------------------------
// What the sessions say
// ---------------------------------------------------------------------------

/// Whether any session is running.
pub open spec fn any_running(states: Seq<StateView>) -> bool {
    exists|i: int| 0 <= i < states.len() && (#[trigger] states[i]).status.active()
}

pub fn running(states: &[SessionState]) -> (r: bool)
    ensures
        r == any_running(state_views(states@)),
{
    let ghost all = state_views(states@);
    let mut i: usize = 0;
    while i < states.len()
        invariant
            i <= states@.len(),
            all == state_views(states@),
            forall|j: int| 0 <= j < i ==> !(#[trigger] all[j]).status.active(),
        decreases states@.len() - i,
    {
        assert(all[i as int] == states@[i as int]@);
        if states[i].status.is_active() {
            return true;
        }
        i += 1;
    }
    false
}

/// How many changes the sessions have made between them.
pub open spec fn all_changes(states: Seq<StateView>) -> nat
    decreases states.len(),
{
    if states.len() == 0 {
        0
    } else {
        all_changes(states.drop_last()) + states.last().changes as nat
    }
}

proof fn lemma_changes_so_far(states: Seq<StateView>, i: int)
    requires
        0 <= i <= states.len(),
    ensures
        all_changes(states.take(i)) <= all_changes(states),
    decreases states.len() - i,
{
    if i < states.len() {
        lemma_changes_so_far(states, i + 1);
        assert(states.take(i + 1).drop_last() == states.take(i));
    } else {
        assert(states.take(i) == states);
    }
}

/// Add up the changes the sessions have made.
pub fn changes(states: &[SessionState]) -> (r: u64)
    requires
        all_changes(state_views(states@)) <= u64::MAX,
    ensures
        r == all_changes(state_views(states@)),
{
    let ghost all = state_views(states@);
    let mut sum: u64 = 0;
    let mut i: usize = 0;
    while i < states.len()
        invariant
            i <= states@.len(),
            all == state_views(states@),
            all_changes(all) <= u64::MAX,
            sum == all_changes(all.take(i as int)),
        decreases states@.len() - i,
    {
        assert(all.take(i + 1).drop_last() == all.take(i as int));
        assert(all.take(i + 1).last() == states@[i as int]@);
        proof {
            lemma_changes_so_far(all, i + 1);
        }
        sum = sum + states[i].changes;
        i += 1;
    }
    assert(all.take(i as int) == all);
    sum
}

/// The state that holds the words: the running sessions folded into one, or
/// what the last one left behind.
pub open spec fn holding(s: RuntimeView, states: Seq<StateView>) -> StateView {
    if states.len() == 0 {
        s.last
    } else {
        merged(states)
    }
}

/// A state's words grouped into turns, where anybody has been named.
pub open spec fn turns_shown(s: StateView) -> Seq<(Option<u32>, Seq<char>)> {
    if has_speaker(s.segments) {
        turn_texts_of(s.segments)
    } else {
        Seq::empty()
    }
}

/// The cache after a refresh: as it was while its token still holds, and
/// otherwise rebuilt under the next revision.
pub open spec fn refreshed(s: RuntimeView, states: Seq<StateView>, changes: u64) -> CacheView {
    let token = (s.generation, states.len() as usize, changes);
    if s.text.token == token {
        s.text
    } else {
        CacheView {
            revision: (s.text.revision + 1) as u64,
            token,
            transcript: holding(s, states).transcript,
            turns: turns_shown(holding(s, states)),
        }
    }
}

/// What a viewer is told of everything but the words.
pub open spec fn snapshot(
    s: RuntimeView,
    lives: Seq<StateView>,
    metered: Option<(Seq<u32>, u32)>,
) -> DaemonView {
    let source = if s.opts.source_keys.len() > 0 {
        Some(s.opts.source_keys[0])
    } else {
        None
    };
    let live = if lives.len() == 0 {
        s.last.without_text()
    } else {
        merged(lives)
    };
    let seen = seen_from(live, s.opts.mode, source);
    let told = DaemonView {
        revision: s.text.revision,
        source_keys: s.opts.source_keys,
        source_mode: s.opts.source_mode,
        diarize_configured: s.opts.config.diarize,
        stream_to: s.opts.config.stream_to,
        format: s.opts.format,
        ..seen
    };
    let with_job = match s.file_job {
        Some(j) => if j.done {
            told
        } else {
            DaemonView {
                status: Status::Transcribing,
                progress: j.progress,
                diarize_requested: false,
                ..told
            }
        },
        None => told,
    };
    match metered {
        Some((levels, rms)) => if any_running(lives) {
            with_job
        } else {
            DaemonView { levels, rms, ..with_job }
        },
        None => with_job,
    }
}

pub open spec fn meter_of(p: Option<Preview>) -> Option<(Seq<u32>, u32)> {
    match p {
        Some(p) => Some((p@.levels, p@.rms)),
        None => None,
    }
}

// ---------------------------------------------------------------------------
// Starting
// ---------------------------------------------------------------------------

/// The sources still present among those selected, in the order selected.
pub open spec fn present(keys: Seq<Seq<char>>, available: Seq<Source>) -> Seq<Source>
    decreases keys.len(),
{
    if keys.len() == 0 {
        Seq::empty()
    } else {
        let rest = present(keys.drop_last(), available);
        match first_where(available, |s: Source| s.key() == keys.last()) {
            Some(s) => rest.push(s),
            None => rest,
        }
    }
}

/// The keys selected that name nothing any more.
pub open spec fn absent(keys: Seq<Seq<char>>, available: Seq<Source>) -> Seq<Seq<char>>
    decreases keys.len(),
{
    if keys.len() == 0 {
        Seq::empty()
    } else {
        let rest = absent(keys.drop_last(), available);
        match first_where(available, |s: Source| s.key() == keys.last()) {
            Some(s) => rest,
            None => rest.push(keys.last()),
        }
    }
}

/// The sources a session uses: those selected that are still present, or one
/// chosen by default when none is.
pub open spec fn sources_used(keys: Seq<Seq<char>>, available: Seq<Source>) -> Seq<Source> {
    let found = present(keys, available);
    if found.len() > 0 {
        found
    } else {
        match choice(available, None) {
            Some(s) => seq![s],
            None => Seq::empty(),
        }
    }
}

pub open spec fn keys_of(sources: Seq<Source>) -> Seq<Seq<char>> {
    sources.map_values(|s: Source| s.key())
}

/// Settings with a generated stream name brought up to `stamp`.
pub open spec fn with_fresh_stream(o: SettingsView, stamp: Seq<char>) -> SettingsView {
    match o.config.stream_to {
        Some(p) => SettingsView {
            config: ConfigView { stream_to: Some(fresh_path(p, stamp, o.here)), ..o.config },
            ..o
        },
        None => o,
    }
}

/// Whether bringing the stream name up to `stamp` changes it.
pub open spec fn stream_moves(o: SettingsView, stamp: Seq<char>) -> bool {
    o.config.stream_to matches Some(p) && fresh_path(p, stamp, o.here) != p
}

/// The daemon after it has started a session on `sources`.
pub open spec fn started(s: RuntimeView, sources: Seq<Source>, stamp: Seq<char>) -> RuntimeView {
    RuntimeView {
        opts: with_fresh_stream(
            SettingsView { source_keys: keys_of(sources), ..s.opts },
            stamp,
        ),
        last: StateView::blank(),
        generation: (s.generation + 1) as u64,
        ..s
    }
}

/// The file a session of one of several sources streams to.
pub open spec fn split_stream(
    base: Option<Seq<char>>,
    several: bool,
    name: Seq<char>,
    format: Format,
    here: Platform,
) -> Option<(Seq<char>, Format)> {
    match base {
        Some(b) => Some(
            (if several {
                source_path(b, name, here)
            } else {
                b
            }, format),
        ),
        None => None,
    }
}

/// The session of the `i`th source in separate mode.
///
/// Only the first source types: two sessions typing at one cursor interleave
/// nonsense.
pub open spec fn separate_session(
    o: SettingsView,
    sources: Seq<Source>,
    names: Seq<Seq<char>>,
    home: Option<Seq<char>>,
    i: int,
) -> OptionsView {
    OptionsView {
        url: o.config.url,
        token: o.config.token,
        sources: seq![sources[i]],
        mode: if i == 0 {
            o.mode
        } else {
            OutputMode::Transcribe
        },
        diarize: o.config.diarize,
        label: Some(names[i]),
        inject: o.config.inject,
        stream: split_stream(
            stream_base(o, home),
            sources.len() > 1,
            names[i],
            o.format,
            o.here,
        ),
    }
}

/// Where transcripts are streamed to, if anywhere.
pub open spec fn stream_base(o: SettingsView, home: Option<Seq<char>>) -> Option<Seq<char>> {
    match o.config.stream_to {
        Some(p) => Some(expanded(p, home, o.here)),
        None => None,
    }
}

/// The sessions to run: one of everything mixed, or one for each source.
pub open spec fn planned(
    o: SettingsView,
    sources: Seq<Source>,
    names: Seq<Seq<char>>,
    home: Option<Seq<char>>,
) -> Seq<OptionsView> {
    match o.source_mode {
        SourceMode::Combined => seq![
            OptionsView {
                url: o.config.url,
                token: o.config.token,
                sources,
                mode: o.mode,
                diarize: o.config.diarize,
                label: None,
                inject: o.config.inject,
                stream: match stream_base(o, home) {
                    Some(b) => Some((b, o.format)),
                    None => None,
                },
            },
        ],
        SourceMode::Separate => Seq::new(
            sources.len(),
            |i: int| separate_session(o, sources, names, home, i),
        ),
    }
}

/// What starting comes to.
pub struct Plan {
    /// One session each.
    pub sessions: Vec<SessionOptions>,
    /// Selected sources that are no longer present, by key.
    pub missing: Vec<String>,
    /// The command that shows the level overlay, when it is to be shown.
    ///
    /// Typing gives no feedback of its own -- text lands in whatever has focus,
    /// and silence looks like a dead microphone. A mode that shows its text in
    /// a window needs no overlay.
    pub overlay: Option<String>,
    /// The configuration changed, and is to be written down.
    pub save_config: bool,
}

pub enum Started {
    /// A session is already running.
    Ignored,
    /// No session can run, and why.
    Failed(String),
    Ready(Plan),
}

fn find_selected(keys: &Vec<String>, available: &[Source]) -> (r: (Vec<Source>, Vec<String>))
    ensures
        r.0@ == present(texts(keys@), available@),
        texts(r.1@) == absent(texts(keys@), available@),
{
    let ghost all = texts(keys@);
    let mut found: Vec<Source> = Vec::new();
    let mut missing: Vec<String> = Vec::new();
    let mut i: usize = 0;
    assert(found@ == present(all.take(0), available@));
    assert(texts(missing@) == absent(all.take(0), available@));
    while i < keys.len()
        invariant
            i <= keys@.len(),
            all == texts(keys@),
            found@ == present(all.take(i as int), available@),
            texts(missing@) == absent(all.take(i as int), available@),
        decreases keys@.len() - i,
    {
        assert(all.take(i + 1).drop_last() == all.take(i as int));
        assert(all.take(i + 1).last() == keys@[i as int]@);
        match resolve(available, keys[i].as_str()) {
            Some(s) => {
                found.push(s);
            },
            None => {
                let ghost was = missing@;
                missing.push(keys[i].clone());
                assert(texts(missing@) == texts(was).push(keys@[i as int]@));
            },
        }
        i += 1;
    }
    assert(all.take(i as int) == all);
    (found, missing)
}

/// A copy of a list of sources.
fn copy_sources(v: &Vec<Source>) -> (r: Vec<Source>)
    ensures
        r@ == v@,
{
    let mut out: Vec<Source> = Vec::new();
    let mut i: usize = 0;
    while i < v.len()
        invariant
            i <= v@.len(),
            out@ == v@.take(i as int),
        decreases v@.len() - i,
    {
        out.push(v[i].clone());
        assert(v@.take(i + 1) == v@.take(i as int).push(v@[i as int]));
        i += 1;
    }
    assert(v@.take(i as int) == v@);
    out
}

fn stable_keys(v: &Vec<Source>) -> (r: Vec<String>)
    ensures
        texts(r@) == keys_of(v@),
{
    let mut out: Vec<String> = Vec::new();
    let mut i: usize = 0;
    assert(texts(out@) == keys_of(v@.take(0)));
    while i < v.len()
        invariant
            i <= v@.len(),
            texts(out@) == keys_of(v@.take(i as int)),
        decreases v@.len() - i,
    {
        let ghost was = out@;
        let k = v[i].stable_key();
        let ghost g = k@;
        out.push(k);
        assert(texts(out@) == texts(was).push(g));
        assert(keys_of(v@.take(i + 1)) == keys_of(v@.take(i as int)).push(v@[i as int].key()));
        i += 1;
    }
    assert(v@.take(i as int) == v@);
    out
}

/// The sessions to run on `sources`.
pub fn plan_sessions(opts: &DaemonOptions, sources: &Vec<Source>, home: &Option<String>) -> (r: Vec<
    SessionOptions,
>)
    ensures
        exists|names: Seq<Seq<char>>|
            #[trigger] labels_of(sources@, names) && options_views(r@) == planned(
                opts@,
                sources@,
                names,
                opt_view(*home),
            ),
{
    let ghost o = opts@;
    let ghost h = opt_view(*home);
    let stream = opts.config.stream_path(home, opts.here);
    let names = short_labels(sources.as_slice());
    let ghost labels = texts(names@);
    let mut out: Vec<SessionOptions> = Vec::new();
    match opts.source_mode {
        SourceMode::Combined => {
            let session = SessionOptions {
                url: opts.config.url.clone(),
                token: opts.config.token.clone(),
                sources: copy_sources(sources),
                mode: opts.mode,
                diarize: opts.config.diarize,
                label: None,
                inject: opts.config.inject,
                stream: match stream {
                    Some(p) => Some((p, opts.format)),
                    None => None,
                },
            };
            out.push(session);
            assert(options_views(out@) =~= planned(o, sources@, labels, h));
        },
        SourceMode::Separate => {
            let several: bool = sources.len() > 1;
            let mut i: usize = 0;
            while i < sources.len()
                invariant
                    i <= sources@.len() == names@.len(),
                    o == opts@,
                    h == opt_view(*home),
                    labels == texts(names@),
                    opt_view(stream) == stream_base(o, h),
                    several == (sources@.len() > 1),
                    out@.len() == i,
                    forall|j: int|
                        0 <= j < i ==> (#[trigger] out@[j])@ == separate_session(
                            o,
                            sources@,
                            labels,
                            h,
                            j,
                        ),
                decreases sources@.len() - i,
            {
                let name = names[i].clone();
                assert(name@ == labels[i as int]);
                let to = match &stream {
                    Some(base) => {
                        let p = if several {
                            save::path_for_source(base.as_str(), name.as_str(), opts.here)
                        } else {
                            base.clone()
                        };
                        Some((p, opts.format))
                    },
                    None => None,
                };
                let mode = if i == 0 {
                    opts.mode
                } else {
                    OutputMode::Transcribe
                };
                let mut one: Vec<Source> = Vec::new();
                one.push(sources[i].clone());
                assert(one@ =~= seq![sources@[i as int]]);
                let session = SessionOptions {
                    url: opts.config.url.clone(),
                    token: opts.config.token.clone(),
                    sources: one,
                    mode,
                    diarize: opts.config.diarize,
                    label: Some(name),
                    inject: opts.config.inject,
                    stream: to,
                };
                assert(session@ =~= separate_session(o, sources@, labels, h, i as int));
                out.push(session);
                i += 1;
            }
            assert(options_views(out@) =~= planned(o, sources@, labels, h));
        },
    }
    out
}

impl DaemonRuntime {
    /// A daemon that has just been started.
    ///
    /// `pid` sets where revisions begin, so that a viewer outliving one daemon
    /// does not take the next one's transcript for the copy it already has.
    pub fn begin(opts: DaemonOptions, pid: u32) -> (r: DaemonRuntime)
        ensures
            r@ == (RuntimeView {
                opts: opts@,
                last: StateView::blank(),
                generation: 1,
                text: CacheView {
                    revision: (pid * 0x1_0000_0000) as u64,
                    token: (0, 0, 0),
                    transcript: Seq::empty(),
                    turns: Seq::empty(),
                },
                file_job: None,
                last_viewer: None,
            }),
    {
        let revision: u64 = pid as u64 * 0x1_0000_0000;
        let text = TranscriptCache {
            revision,
            token: (0, 0, 0),
            transcript: String::new(),
            turns: Vec::new(),
        };
        assert(turn_text_views(text.turns@) =~= Seq::empty());
        DaemonRuntime {
            opts,
            last: SessionState::default(),
            generation: 1,
            text,
            file_job: None,
            last_viewer: None,
        }
    }

    /// Select the default source when nothing has been selected.
    pub fn select_default(&mut self, available: &[Source])
        ensures
            final(self)@ == (RuntimeView {
                opts: SettingsView {
                    source_keys: match choice(available@, None) {
                        Some(s) => if old(self)@.opts.source_keys.len() == 0 {
                            seq![s.key()]
                        } else {
                            old(self)@.opts.source_keys
                        },
                        None => old(self)@.opts.source_keys,
                    },
                    ..old(self)@.opts
                },
                ..old(self)@
            }),
    {
        if self.opts.source_keys.len() > 0 {
            return;
        }
        if let Ok(s) = choose_source(available, None) {
            let mut keys: Vec<String> = Vec::new();
            keys.push(s.stable_key());
            assert(texts(keys@) =~= seq![s.key()]);
            self.opts.source_keys = keys;
        }
    }

    /// Give a generated stream name today's date, before a session opens it.
    /// Says whether the configuration changed.
    ///
    /// The stream setting is remembered, so without this every session would
    /// go on appending to a file named for the day it was first accepted. Only
    /// a generated name is touched: `notes.txt` was chosen deliberately.
    pub fn refresh_stream_name(&mut self, stamp: &str) -> (r: bool)
        requires
            stamp@.len() >= 10,
        ensures
            final(self)@ == (RuntimeView {
                opts: with_fresh_stream(old(self)@.opts, stamp@),
                ..old(self)@
            }),
            r == stream_moves(old(self)@.opts, stamp@),
    {
        let fresh = match &self.opts.config.stream_to {
            Some(p) => {
                let f = save::restamped(p.as_str(), stamp, self.opts.here);
                if text::same(f.as_str(), p.as_str()) {
                    None
                } else {
                    Some(f)
                }
            },
            None => None,
        };
        match fresh {
            Some(f) => {
                self.opts.config.stream_to = Some(f);
                assert(self.opts@ =~= with_fresh_stream(old(self)@.opts, stamp@));
                true
            },
            None => {
                assert(self.opts@ =~= with_fresh_stream(old(self)@.opts, stamp@));
                false
            },
        }
    }

    /// Give a generated stream name the date of this moment. Says whether the
    /// configuration changed.
    pub fn refresh_stream_name_now(&mut self) -> (r: bool)
        ensures
            exists|moment: Seq<char>| #[trigger]
                save::is_moment(moment) && final(self)@ == (RuntimeView {
                    opts: with_fresh_stream(old(self)@.opts, moment),
                    ..old(self)@
                }) && r == stream_moves(old(self)@.opts, moment),
    {
        let moment = save::timestamp();
        self.refresh_stream_name(moment.as_str())
    }

    /// Start dictating on the sources selected.
    ///
    /// Ignored while a session runs. `available` is what the machine can
    /// capture, or why it could not be asked.
    pub fn start(
        &mut self,
        states: &[SessionState],
        available: &Result<Vec<Source>, String>,
        home: &Option<String>,
        stamp: &str,
    ) -> (r: Started)
        requires
            stamp@.len() >= 10,
            old(self)@.generation < u64::MAX,
        ensures
            match r {
                Started::Ignored => any_running(state_views(states@)) && final(self)@ == old(self)@,
                Started::Failed(e) => !any_running(state_views(states@)) && final(self)@
                    == old(self)@ && (match *available {
                    Err(why) => e@ == "listing sources: "@ + why@,
                    Ok(v) => v@.len() == 0 && e@
                        == "choosing a source: no capturable audio sources found"@,
                }),
                Started::Ready(plan) => {
                    &&& !any_running(state_views(states@))
                    &&& available matches Ok(v) && v@.len() > 0
                    &&& ({
                        let used = sources_used(old(self)@.opts.source_keys, (available->Ok_0)@);
                        &&& final(self)@ == started(old(self)@, used, stamp@)
                        &&& exists|names: Seq<Seq<char>>|
                            #[trigger] labels_of(used, names) && options_views(plan.sessions@)
                                == planned(final(self)@.opts, used, names, opt_view(*home))
                    })
                    &&& texts(plan.missing@) == absent(
                        old(self)@.opts.source_keys,
                        (available->Ok_0)@,
                    )
                    &&& opt_view(plan.overlay) == (if old(self)@.opts.mode.types() {
                        old(self)@.opts.gui_command
                    } else {
                        None
                    })
                    &&& plan.save_config == stream_moves(old(self)@.opts, stamp@)
                },
            },
    {
        if running(states) {
            return Started::Ignored;
        }
        let offered: &Vec<Source> = match available {
            Ok(v) => v,
            Err(why) => {
                let mut e = "listing sources: ".to_owned();
                e.append(why.as_str());
                return Started::Failed(e);
            },
        };
        let (found, missing) = find_selected(&self.opts.source_keys, offered.as_slice());
        let ghost keys = old(self)@.opts.source_keys;
        proof {
            crate::audio::lemma_choice_is_offered(offered@, None);
            lemma_present_needs_offers(keys, offered@);
        }
        let mut used = found;
        if used.len() == 0 {
            match choose_source(offered.as_slice(), None) {
                Ok(s) => {
                    used.push(s);
                    assert(used@ =~= sources_used(keys, offered@));
                },
                Err(why) => {
                    let mut e = "choosing a source: ".to_owned();
                    e.append(why.as_str());
                    assert(e@ =~= "choosing a source: no capturable audio sources found"@) by {
                        reveal_strlit("choosing a source: ");
                        reveal_strlit("no capturable audio sources found");
                        reveal_strlit("choosing a source: no capturable audio sources found");
                    }
                    return Started::Failed(e);
                },
            }
        }
        self.opts.source_keys = stable_keys(&used);
        self.last = SessionState::default();
        self.generation = self.generation + 1;
        let overlay = if self.opts.mode.types_at_cursor() {
            self.opts.gui_command.clone()
        } else {
            None
        };
        let save_config: bool = self.refresh_stream_name(stamp);
        assert(self@ =~= started(old(self)@, used@, stamp@));
        let sessions = plan_sessions(&self.opts, &used, home);
        Started::Ready(Plan { sessions, missing, overlay, save_config })
    }
}

proof fn lemma_present_needs_offers(keys: Seq<Seq<char>>, available: Seq<Source>)
    ensures
        available.len() == 0 ==> present(keys, available).len() == 0,
    decreases keys.len(),
{
    if keys.len() > 0 {
        lemma_present_needs_offers(keys.drop_last(), available);
        lemma_first_where(available, |s: Source| s.key() == keys.last());
    }
}

// ---------------------------------------------------------------------------
// What viewers are told
// ---------------------------------------------------------------------------

fn labelled(segments: &[crate::client::segment::Segment]) -> (r: bool)
    ensures
        r == has_speaker(segment_views(segments@)),
{
    let ghost all = segment_views(segments@);
    let mut i: usize = 0;
    while i < segments.len()
        invariant
            i <= segments@.len(),
            all == segment_views(segments@),
            forall|j: int| 0 <= j < i ==> (#[trigger] all[j]).speaker is None,
        decreases segments@.len() - i,
    {
        assert(all[i as int] == segments@[i as int]@);
        if segments[i].speaker.is_some() {
            return true;
        }
        i += 1;
    }
    false
}

fn held_turns(s: &SessionState) -> (r: Vec<(Option<u32>, String)>)
    ensures
        turn_text_views(r@) == turns_shown(s@),
{
    if labelled(s.segments.as_slice()) {
        save::turn_texts(s.segments.as_slice())
    } else {
        let out: Vec<(Option<u32>, String)> = Vec::new();
        assert(turn_text_views(out@) =~= Seq::empty());
        out
    }
}

impl DaemonRuntime {
    /// Whether the transcript has moved since it was last published.
    ///
    /// Every part of the answer is a counter, so asking costs nothing.
    pub fn text_moved(&self, lives: &[SessionState]) -> (r: bool)
        requires
            all_changes(state_views(lives@)) <= u64::MAX,
        ensures
            r == (self@.text.token != (
                self@.generation,
                lives@.len() as usize,
                all_changes(state_views(lives@)) as u64,
            )),
    {
        let n: usize = lives.len();
        let c: u64 = changes(lives);
        self.text.token.0 != self.generation || self.text.token.1 != n || self.text.token.2 != c
    }

    /// Rebuild the published transcript, if and only if it has moved.
    ///
    /// `changes` is the running total across the sessions. It, the session
    /// count and the generation together change on every edit, so an unchanged
    /// token is proof that the text is unchanged.
    pub fn refresh_text(&mut self, states: &[SessionState], changes: u64)
        requires
            old(self)@.text.revision < u64::MAX,
        ensures
            final(self)@ == (RuntimeView {
                text: refreshed(old(self)@, state_views(states@), changes),
                ..old(self)@
            }),
    {
        let n: usize = states.len();
        if self.text.token.0 == self.generation && self.text.token.1 == n && self.text.token.2
            == changes {
            return;
        }
        let (transcript, turns) = if states.len() == 0 {
            (self.last.transcript.clone(), held_turns(&self.last))
        } else {
            let m = merge_states(states);
            let turns = held_turns(&m);
            (m.transcript, turns)
        };
        let revision: u64 = self.text.revision + 1;
        self.text = TranscriptCache {
            revision,
            token: (self.generation, n, changes),
            transcript,
            turns,
        };
    }

    /// Everything a viewer needs except the transcript itself.
    ///
    /// The transcript and its turns come back empty, and `revision` says which
    /// ones they would have been; [`publish_into`](Self::publish_into) pairs
    /// them up. The fields here move on every tick and are all small, and the
    /// transcript moves when somebody speaks and is not.
    pub fn live_snapshot(&self, lives: &[SessionState], preview: &Option<Preview>) -> (r:
        DaemonState)
        ensures
            r@ == snapshot(self@, state_views(lives@), meter_of(*preview)),
    {
        let s = if lives.len() == 0 {
            self.last.live()
        } else {
            merge_states(lives)
        };
        let source = if self.opts.source_keys.len() > 0 {
            assert(texts(self.opts.source_keys@)[0] == self.opts.source_keys@[0]@);
            Some(self.opts.source_keys[0].clone())
        } else {
            None
        };
        let mut out = DaemonState::from_session(&s, self.opts.mode, source);
        out.revision = self.text.revision;
        out.source_keys = copy_texts(&self.opts.source_keys);
        out.source_mode = self.opts.source_mode;
        out.diarize_configured = self.opts.config.diarize;
        out.stream_to = self.opts.config.stream_to.clone();
        out.format = self.opts.format;
        if let Some(j) = &self.file_job {
            if !j.done {
                out.status = Status::Transcribing;
                out.progress = j.progress;
                out.diarize_requested = false;
            }
        }
        if !running(lives) {
            if let Some(p) = preview {
                out.levels = p.levels();
                out.rms = p.rms();
            }
        }
        assert(out@ =~= snapshot(self@, state_views(lives@), meter_of(*preview)));
        out
    }

    /// Hand a fresh live state to viewers, with the transcript beside it.
    ///
    /// The transcript is copied across only when it has actually moved.
    pub fn publish_into(&self, p: &mut Published, live: DaemonState)
        ensures
            final(p)@ == published(old(p)@, self@.text, live@),
    {
        if p.live.revision != live.revision {
            p.transcript = self.text.transcript.clone();
            p.turns = copy_turns(&self.text.turns);
        }
        p.live = live;
    }
}

/// What clients read, split by how often it changes.
///
/// `live` is republished every tick and is small. The transcript is not, and is
/// the same from one tick to the next almost every time.
#[derive(Debug, PartialEq, Eq)]
pub struct Published {
    /// Everything except the transcript. `live.revision` says which transcript
    /// the two fields below are.
    pub live: DaemonState,
    pub transcript: String,
    pub turns: Vec<(Option<u32>, String)>,
}

#[verifier::ext_equal]
pub struct PublishedView {
    pub live: DaemonView,
    pub transcript: Seq<char>,
    pub turns: Seq<(Option<u32>, Seq<char>)>,
}

impl View for Published {
    type V = PublishedView;

    open spec fn view(&self) -> PublishedView {
        PublishedView {
            live: self.live@,
            transcript: self.transcript@,
            turns: turn_text_views(self.turns@),
        }
    }
}

impl Default for Published {
    fn default() -> (r: Published)
        ensures
            r@ == (PublishedView {
                live: seen_from(StateView::blank(), OutputMode::Type, None),
                transcript: Seq::empty(),
                turns: Seq::empty(),
            }),
    {
        let p = Published {
            live: DaemonState::default(),
            transcript: String::new(),
            turns: Vec::new(),
        };
        assert(turn_text_views(p.turns@) =~= Seq::empty());
        p
    }
}

/// What is published after a live state has been handed over.
pub open spec fn published(p: PublishedView, text: CacheView, live: DaemonView) -> PublishedView {
    if p.live.revision != live.revision {
        PublishedView { live, transcript: text.transcript, turns: text.turns }
    } else {
        PublishedView { live, ..p }
    }
}

/// The reply to a poll that last saw `since`.
pub open spec fn reply_since(p: PublishedView, since: Option<u64>) -> DaemonView {
    if p.live.revision == 0 || since != Some(p.live.revision) {
        DaemonView { transcript: p.transcript, turns: p.turns, ..p.live }
    } else {
        p.live
    }
}

impl Published {
    /// The reply to a poll that last saw `since`.
    ///
    /// The text travels only when the viewer has not already got it. A revision
    /// of zero never counts as a match: it is what a daemon that does not track
    /// revisions reports, and treating it as one would leave a viewer showing
    /// an empty transcript for ever.
    pub fn state_since(&self, since: Option<u64>) -> (r: DaemonState)
        ensures
            r@ == reply_since(self@, since),
    {
        let mut out = self.live.clone();
        let matches: bool = match since {
            Some(v) => self.live.revision != 0 && v == self.live.revision,
            None => false,
        };
        if !matches {
            out.transcript = self.transcript.clone();
            out.turns = copy_turns(&self.turns);
        }
        out
    }
}

/// Whether what is published belongs to the cache it was published from: it is
/// never ahead of it, and is its text whenever it is of its revision.
pub open spec fn in_step(p: PublishedView, text: CacheView) -> bool {
    &&& p.live.revision <= text.revision
    &&& p.live.revision == text.revision ==> p.transcript == text.transcript && p.turns
        == text.turns
}

/// What a viewer holds after a reply: the text it had while the revision still
/// matches, and otherwise the text it was sent.
pub open spec fn viewer_text(
    held: (Option<u64>, Seq<char>),
    reply: DaemonView,
) -> (Option<u64>, Seq<char>) {
    if reply.revision != 0 && held.0 == Some(reply.revision) {
        held
    } else {
        (Some(reply.revision), reply.transcript)
    }
}

// ---------------------------------------------------------------------------
// What is asked of the daemon
// ---------------------------------------------------------------------------

/// What the daemon's caller does next.
pub enum Action {
    Nothing,
    /// List the sources and [`start`](DaemonRuntime::start) on them.
    Start,
    /// Ask every session to stop.
    Stop,
    /// Write the configuration down.
    SaveConfig,
    /// Write these files, each a path and what it holds, and answer with
    /// [`written`].
    Write(Vec<(String, String)>),
    /// Decode this audio file, [`start the job`](DaemonRuntime::file_started)
    /// when that works, and answer with [`decoded`].
    Decode(String),
    /// Open a viewer with this command, where there is one.
    OpenViewer(Option<String>),
    Quit,
}

/// Why a file cannot be transcribed now, if it cannot.
pub open spec fn file_refusal(s: RuntimeView, running: bool) -> Option<Seq<char>> {
    if running {
        Some("stop the current session before transcribing a file"@)
    } else if s.file_job matches Some(j) && !j.done {
        Some("already transcribing a file"@)
    } else {
        None
    }
}

/// The daemon after a request.
///
/// The mode and speaker labels are fixed when a session opens, so a change to
/// either is ignored while one runs rather than half-applied; clearing would
/// fight with text still arriving.
pub open spec fn after_request(s: RuntimeView, request: Request, running: bool, now: u64) -> RuntimeView {
    match request {
        Request::GetState { .. } => RuntimeView { last_viewer: Some(now), ..s },
        Request::SetMode { mode } => if running {
            s
        } else {
            RuntimeView { opts: SettingsView { mode, ..s.opts }, ..s }
        },
        Request::SetDiarize { diarize } => if running {
            s
        } else {
            RuntimeView {
                opts: SettingsView { config: ConfigView { diarize, ..s.opts.config }, ..s.opts },
                ..s
            }
        },
        Request::SetSource { key } => RuntimeView {
            opts: SettingsView { source_keys: seq![key@], ..s.opts },
            ..s
        },
        Request::SetSources { keys, source_mode } => if running {
            s
        } else {
            RuntimeView {
                opts: SettingsView {
                    source_keys: texts(keys@),
                    source_mode: match source_mode {
                        Some(m) => m,
                        None => s.opts.source_mode,
                    },
                    ..s.opts
                },
                ..s
            }
        },
        Request::SetServer { server } => RuntimeView {
            opts: SettingsView { config: ConfigView { url: server@, ..s.opts.config }, ..s.opts },
            ..s
        },
        Request::SetFormat { format } => RuntimeView {
            opts: SettingsView {
                format,
                config: ConfigView { format, ..s.opts.config },
                ..s.opts
            },
            ..s
        },
        Request::SetStreamFile { path } => RuntimeView {
            opts: SettingsView {
                config: ConfigView { stream_to: opt_view(path), ..s.opts.config },
                ..s.opts
            },
            ..s
        },
        Request::Clear => if running {
            s
        } else {
            RuntimeView {
                last: StateView::blank(),
                generation: (s.generation + 1) as u64,
                ..s
            }
        },
        _ => s,
    }
}

/// Whether a reply is an error that says `why`.
pub open spec fn refuses(r: Option<Response>, why: Seq<char>) -> bool {
    r matches Some(Response::Error { message }) && message@ == why
}

/// The one file a transcript is saved as, or why there is none.
pub open spec fn saved_file(
    held: StateView,
    format: Format,
    path: Option<Seq<char>>,
    dir: Seq<char>,
    stamp: Seq<char>,
    here: Platform,
) -> Result<(Seq<char>, Seq<char>), Seq<char>> {
    let body = rendered(held.segments, held.transcript, format);
    if is_blank(body) {
        Err("nothing to save: the transcript is empty"@)
    } else {
        Ok(
            (match path {
                Some(p) => p,
                None => join_of(dir, saved_name(stamp), here),
            }, trim_of(body) + "\n"@),
        )
    }
}

/// Whether a reply and an action are those a request gets. A reply that waits
/// for the action is left out.
pub open spec fn answered(
    s: RuntimeView,
    request: Request,
    states: Seq<StateView>,
    dir: Seq<char>,
    stamp: Seq<char>,
    reply: Option<Response>,
    action: Action,
) -> bool {
    let running = any_running(states);
    match request {
        Request::Start => reply == Some(Response::Done) && action is Start,
        Request::Stop => reply == Some(Response::Done) && action is Stop,
        Request::Toggle => reply == Some(Response::Done) && (if running {
            action is Stop
        } else {
            action is Start
        }),
        Request::SetDiarize { .. } => reply == Some(Response::Done) && (if running {
            action is Nothing
        } else {
            action is SaveConfig
        }),
        Request::SetSources { .. } => action is Nothing && (if running {
            refuses(reply, "stop the session before changing sources"@)
        } else {
            reply == Some(Response::Done)
        }),
        Request::SetFormat { .. } => reply == Some(Response::Done) && action is SaveConfig,
        Request::SetStreamFile { .. } => reply == Some(Response::Done) && action is SaveConfig,
        Request::Save { format, path } => match saved_file(
            holding(s, states),
            format,
            opt_view(path),
            dir,
            stamp,
            s.opts.here,
        ) {
            Ok(f) => reply is None && (action matches Action::Write(v) && file_views(v@) == seq![f]),
            Err(why) => refuses(reply, why) && action is Nothing,
        },
        Request::SaveSplit { format } => {
            let groups = grouped(holding(s, states).segments);
            let files = source_files(
                join_of(dir, saved_name(stamp), s.opts.here),
                groups,
                format,
                s.opts.here,
            );
            if files.len() > 0 {
                reply is None && (action matches Action::Write(v) && file_views(v@) == files)
            } else {
                action is Nothing && refuses(
                    reply,
                    if groups.len() == 0 {
                        "nothing to save: the transcript is empty"@
                    } else {
                        "nothing to save: no source produced any text"@
                    },
                )
            }
        },
        Request::TranscribeFile { path } => match file_refusal(s, running) {
            Some(why) => refuses(reply, why) && action is Nothing,
            None => reply is None && action == Action::Decode(path),
        },
        Request::Quit => reply == Some(Response::Done) && action is Quit,
        _ => reply == Some(Response::Done) && action is Nothing,
    }
}

fn refuse(why: &str) -> (r: Option<Response>)
    ensures
        refuses(r, why@),
{
    Some(Response::Error { message: why.to_owned() })
}

impl DaemonRuntime {
    /// The words to save: those of the running sessions, or of the last one.
    fn held(&self, states: &[SessionState]) -> (r: SessionState)
        ensures
            r@ == holding(self@, state_views(states@)),
    {
        if states.len() == 0 {
            self.last.clone()
        } else {
            merge_states(states)
        }
    }

    /// What saving the transcript writes, and where.
    pub fn save(
        &self,
        states: &[SessionState],
        format: Format,
        path: &Option<String>,
        dir: &str,
        stamp: &str,
    ) -> (r: Result<(String, String), String>)
        ensures
            match (
                r,
                saved_file(
                    holding(self@, state_views(states@)),
                    format,
                    opt_view(*path),
                    dir@,
                    stamp@,
                    self@.opts.here,
                ),
            ) {
                (Ok(f), Ok(g)) => (f.0@, f.1@) == g,
                (Err(e), Err(why)) => e@ == why,
                _ => false,
            },
    {
        let st = self.held(states);
        match save::save_rendered(st.segments.as_slice(), st.transcript.as_str(), format) {
            Ok(body) => {
                let to = match path {
                    Some(p) => p.clone(),
                    None => {
                        let name = save::filename_for(stamp);
                        paths::join(dir, name.as_str(), self.opts.here)
                    },
                };
                Ok((to, body))
            },
            Err(e) => Err(e),
        }
    }

    /// What saving one file per source writes, and where.
    pub fn save_split(&self, states: &[SessionState], format: Format, dir: &str, stamp: &str) -> (r:
        Result<Vec<(String, String)>, String>)
        ensures
            ({
                let groups = grouped(holding(self@, state_views(states@)).segments);
                let files = source_files(
                    join_of(dir@, saved_name(stamp@), self@.opts.here),
                    groups,
                    format,
                    self@.opts.here,
                );
                match r {
                    Ok(v) => files.len() > 0 && file_views(v@) == files,
                    Err(e) => files.len() == 0 && e@ == (if groups.len() == 0 {
                        "nothing to save: the transcript is empty"@
                    } else {
                        "nothing to save: no source produced any text"@
                    }),
                }
            }),
    {
        let st = self.held(states);
        let name = save::filename_for(stamp);
        let base = paths::join(dir, name.as_str(), self.opts.here);
        save::save_per_source(
            base.as_str(),
            st.segments.as_slice(),
            format,
            self.opts.here,
        )
    }

    /// Discard the retained transcript. Ignored while a session is running.
    pub fn clear(&mut self, states: &[SessionState])
        requires
            old(self)@.generation < u64::MAX,
        ensures
            final(self)@ == after_request(
                old(self)@,
                Request::Clear,
                any_running(state_views(states@)),
                0,
            ),
    {
        if !running(states) {
            self.last = SessionState::default();
            self.generation = self.generation + 1;
        }
    }

    /// Take a request for something to be written or read.
    #[verifier::spinoff_prover]
    fn on_file_request(
        &self,
        request: Request,
        states: &[SessionState],
        dir: &str,
        stamp: &str,
    ) -> (r: (Option<Response>, Action))
        requires
            request is Save || request is SaveSplit || request is TranscribeFile,
        ensures
            answered(self@, request, state_views(states@), dir@, stamp@, r.0, r.1),
    {
        match request {
            Request::Save { format, path } => match self.save(states, format, &path, dir, stamp) {
                Ok(f) => {
                    let ghost g = (f.0@, f.1@);
                    let mut files: Vec<(String, String)> = Vec::new();
                    files.push(f);
                    assert(file_views(files@) =~= seq![g]);
                    (None, Action::Write(files))
                },
                Err(e) => (refuse(e.as_str()), Action::Nothing),
            },
            Request::SaveSplit { format } => match self.save_split(states, format, dir, stamp) {
                Ok(files) => (None, Action::Write(files)),
                Err(e) => (refuse(e.as_str()), Action::Nothing),
            },
            Request::TranscribeFile { path } => {
                if running(states) {
                    return (
                        refuse("stop the current session before transcribing a file"),
                        Action::Nothing,
                    );
                }
                let pending: bool = match &self.file_job {
                    Some(j) => !j.done,
                    None => false,
                };
                if pending {
                    return (refuse("already transcribing a file"), Action::Nothing);
                }
                (None, Action::Decode(path))
            },
            _ => (None, Action::Nothing),
        }
    }

    /// Take a request to change where the words come from.
    #[verifier::spinoff_prover]
    fn on_source_request(
        &mut self,
        request: Request,
        busy: bool,
        Ghost(states): Ghost<Seq<StateView>>,
        Ghost(dir): Ghost<Seq<char>>,
        Ghost(stamp): Ghost<Seq<char>>,
    ) -> (r: (Option<Response>, Action))
        requires
            request is SetSource || request is SetSources,
            busy == any_running(states),
        ensures
            final(self)@ == after_request(old(self)@, request, busy, 0),
            answered(old(self)@, request, states, dir, stamp, r.0, r.1),
    {
        match request {
            Request::SetSource { key } => {
                let ghost k = key@;
                let mut keys: Vec<String> = Vec::new();
                keys.push(key);
                assert(texts(keys@) =~= seq![k]);
                self.opts.source_keys = keys;
                (Some(Response::Done), Action::Nothing)
            },
            Request::SetSources { keys, source_mode } => {
                if busy {
                    return (refuse("stop the session before changing sources"), Action::Nothing);
                }
                self.opts.source_keys = keys;
                if let Some(m) = source_mode {
                    self.opts.source_mode = m;
                }
                (Some(Response::Done), Action::Nothing)
            },
            _ => (None, Action::Nothing),
        }
    }

    /// Take one request. `dir` is where transcripts are saved and `stamp` the
    /// moment, for those that need a name.
    #[verifier::spinoff_prover]
    pub fn on_request(
        &mut self,
        request: Request,
        states: &[SessionState],
        now: u64,
        dir: &str,
        stamp: &str,
    ) -> (r: (Option<Response>, Action))
        requires
            old(self)@.generation < u64::MAX,
        ensures
            final(self)@ == after_request(
                old(self)@,
                request,
                any_running(state_views(states@)),
                now,
            ),
            answered(old(self)@, request, state_views(states@), dir@, stamp@, r.0, r.1),
    {
        let busy: bool = running(states);
        match request {
            Request::GetState { .. } => {
                self.last_viewer = Some(now);
                (Some(Response::Done), Action::Nothing)
            },
            Request::Start => (Some(Response::Done), Action::Start),
            Request::Stop => (Some(Response::Done), Action::Stop),
            Request::Toggle => {
                if busy {
                    (Some(Response::Done), Action::Stop)
                } else {
                    (Some(Response::Done), Action::Start)
                }
            },
            Request::SetMode { mode } => {
                if !busy {
                    self.opts.mode = mode;
                }
                (Some(Response::Done), Action::Nothing)
            },
            Request::SetDiarize { diarize } => {
                if busy {
                    (Some(Response::Done), Action::Nothing)
                } else {
                    self.opts.config.diarize = diarize;
                    (Some(Response::Done), Action::SaveConfig)
                }
            },
            Request::SetSource { .. } | Request::SetSources { .. } => self.on_source_request(
                request,
                busy,
                Ghost(state_views(states@)),
                Ghost(dir@),
                Ghost(stamp@),
            ),
            Request::SetServer { server } => {
                self.opts.config.url = server;
                (Some(Response::Done), Action::Nothing)
            },
            Request::SetFormat { format } => {
                self.opts.format = format;
                self.opts.config.format = format;
                (Some(Response::Done), Action::SaveConfig)
            },
            Request::SetStreamFile { path } => {
                self.opts.config.stream_to = path;
                (Some(Response::Done), Action::SaveConfig)
            },
            Request::Save { .. } | Request::SaveSplit { .. } | Request::TranscribeFile { .. } =>
                self.on_file_request(request, states, dir, stamp),
            Request::Clear => {
                self.clear(states);
                (Some(Response::Done), Action::Nothing)
            },
            Request::Quit => (Some(Response::Done), Action::Quit),
        }
    }

    /// Take one command from the tray.
    pub fn on_tray(&mut self, command: TrayCommand, states: &[SessionState]) -> (r: Action)
        ensures
            final(self)@ == (match command {
                TrayCommand::SetMode(mode) => after_request(
                    old(self)@,
                    Request::SetMode { mode },
                    any_running(state_views(states@)),
                    0,
                ),
                _ => old(self)@,
            }),
            match command {
                TrayCommand::Toggle => if any_running(state_views(states@)) {
                    r is Stop
                } else {
                    r is Start
                },
                TrayCommand::Start => r is Start,
                TrayCommand::Stop => r is Stop,
                TrayCommand::SetMode(_) => r is Nothing,
                TrayCommand::ShowWindow => r matches Action::OpenViewer(c) && opt_view(c) == old(
                    self,
                )@.opts.gui_command,
                TrayCommand::Quit => r is Quit,
            },
    {
        match command {
            TrayCommand::Toggle => {
                if running(states) {
                    Action::Stop
                } else {
                    Action::Start
                }
            },
            TrayCommand::Start => Action::Start,
            TrayCommand::Stop => Action::Stop,
            TrayCommand::SetMode(mode) => {
                if !running(states) {
                    self.opts.mode = mode;
                }
                Action::Nothing
            },
            TrayCommand::ShowWindow => Action::OpenViewer(self.opts.gui_command.clone()),
            TrayCommand::Quit => Action::Quit,
        }
    }
}

/// The reply to a save, once its files were written or one could not be.
pub fn written(outcome: Result<Vec<String>, String>) -> (r: Response)
    ensures
        match outcome {
            Ok(written_to) => r matches Response::Saved { path } && path@ == joined(
                texts(written_to@),
                ", "@,
            ),
            Err(e) => r == (Response::Error { message: e }),
        },
{
    match outcome {
        Ok(written_to) => Response::Saved { path: text::join(&written_to, ", ") },
        Err(e) => Response::Error { message: e },
    }
}

/// The reply to a request to transcribe a file, once it was decoded or not.
pub fn decoded(outcome: Result<(), String>) -> (r: Response)
    ensures
        r == (match outcome {
            Ok(_) => Response::Done,
            Err(e) => Response::Error { message: e },
        }),
{
    match outcome {
        Ok(_) => Response::Done,
        Err(e) => Response::Error { message: e },
    }
}

/// What the tray shows for a state.
pub fn tray_state(s: &DaemonState) -> (r: TrayState)
    ensures
        r.status == s.status,
        r.mode == s.mode,
        r.last_fragment@ == s.last_fragment@,
{
    TrayState { status: s.status, mode: s.mode, last_fragment: s.last_fragment.clone() }
}

/// Why a second daemon does not start.
pub fn already_running(socket: &str) -> (r: String)
    ensures
        r@ == "a syrinx daemon is already running (socket at "@ + socket@
            + "). Use `syrinx stop` or quit it from the tray."@,
{
    let mut s = "a syrinx daemon is already running (socket at ".to_owned();
    s.append(socket);
    s.append("). Use `syrinx stop` or quit it from the tray.");
    s
}

// ---------------------------------------------------------------------------
// What ends by itself
// ---------------------------------------------------------------------------

/// The daemon after it has noticed whether a file transcription has ended.
pub open spec fn job_reaped(s: RuntimeView) -> RuntimeView {
    match s.file_job {
        Some(j) => if j.done {
            RuntimeView {
                last: match j.error {
                    Some(e) => StateView { error: Some(e), ..s.last },
                    None => StateView { transcript: j.text, segments: Seq::empty(), ..s.last },
                },
                generation: (s.generation + 1) as u64,
                file_job: None,
                ..s
            }
        } else {
            s
        },
        None => s,
    }
}

/// The daemon after every session has ended.
pub open spec fn session_reaped(s: RuntimeView, states: Seq<StateView>) -> RuntimeView {
    RuntimeView { last: merged(states), generation: (s.generation + 1) as u64, ..s }
}

/// A finished session: what to save of it, and how it went wrong.
pub struct Finished {
    /// The file to write, or why nothing is saved; `None` when saving each
    /// session was not asked for.
    pub save: Option<Result<(String, String), String>>,
    pub error: Option<String>,
}

impl DaemonRuntime {
    /// A file's transcription has begun.
    pub fn file_started(&mut self)
        ensures
            final(self)@ == (RuntimeView {
                file_job: Some(
                    JobView { progress: 0, done: false, text: Seq::empty(), error: None },
                ),
                ..old(self)@
            }),
    {
        let j = FileJob { progress: 0, done: false, text: String::new(), error: None };
        assert(j@ =~= (JobView { progress: 0, done: false, text: Seq::empty(), error: None }));
        self.file_job = Some(j);
    }

    /// A file's transcription has come this far.
    pub fn file_progress(&mut self, progress: u32)
        ensures
            final(self)@ == (RuntimeView {
                file_job: match old(self)@.file_job {
                    Some(j) => Some(JobView { progress, ..j }),
                    None => None,
                },
                ..old(self)@
            }),
    {
        if let Some(j) = self.file_job.take() {
            self.file_job = Some(FileJob { progress, ..j });
        }
    }

    /// A file's transcription has ended.
    pub fn file_done(&mut self, outcome: Result<String, String>)
        ensures
            final(self)@ == (RuntimeView {
                file_job: match old(self)@.file_job {
                    Some(j) => Some(
                        match outcome {
                            Ok(text) => JobView { done: true, text: text@, ..j },
                            Err(e) => JobView { done: true, error: Some(e@), ..j },
                        },
                    ),
                    None => None,
                },
                ..old(self)@
            }),
    {
        if let Some(j) = self.file_job.take() {
            self.file_job = Some(
                match outcome {
                    Ok(text) => FileJob { done: true, text, ..j },
                    Err(e) => FileJob { done: true, error: Some(e), ..j },
                },
            );
        }
    }

    /// Fold a finished file transcription into the retained transcript, saying
    /// whether there was one.
    pub fn reap_file_job(&mut self) -> (r: bool)
        requires
            old(self)@.generation < u64::MAX,
        ensures
            final(self)@ == job_reaped(old(self)@),
            r == (old(self)@.file_job matches Some(j) && j.done),
    {
        let done: bool = match &self.file_job {
            Some(j) => j.done,
            None => false,
        };
        if !done {
            return false;
        }
        if let Some(j) = self.file_job.take() {
            match j.error {
                Some(e) => {
                    self.last.error = Some(e);
                },
                None => {
                    self.last.transcript = j.text;
                    self.last.segments = Vec::new();
                    assert(segment_views(self.last.segments@) =~= Seq::empty());
                },
            }
        }
        self.generation = self.generation + 1;
        assert(self@ =~= job_reaped(old(self)@));
        true
    }

    /// Notice sessions that have ended, keeping their words and saying what to
    /// save. `None` while there is nothing to notice.
    pub fn reap_finished_session(&mut self, states: &[SessionState], dir: &str, stamp: &str) -> (r:
        Option<Finished>)
        requires
            old(self)@.generation < u64::MAX,
        ensures
            match r {
                None => (states@.len() == 0 || any_running(state_views(states@))) && final(self)@
                    == old(self)@,
                Some(f) => {
                    &&& states@.len() > 0
                    &&& !any_running(state_views(states@))
                    &&& final(self)@ == session_reaped(old(self)@, state_views(states@))
                    &&& opt_view(f.error) == merged(state_views(states@)).error
                    &&& if old(self)@.opts.save_each && old(self)@.opts.mode.keeps() {
                        match (
                            f.save,
                            saved_file(
                                merged(state_views(states@)),
                                old(self)@.opts.format,
                                None,
                                dir@,
                                stamp@,
                                old(self)@.opts.here,
                            ),
                        ) {
                            (Some(Ok(f)), Ok(g)) => (f.0@, f.1@) == g,
                            (Some(Err(e)), Err(why)) => e@ == why,
                            _ => false,
                        }
                    } else {
                        f.save is None
                    }
                },
            },
    {
        if states.len() == 0 || running(states) {
            return None;
        }
        let save = if self.opts.save_each && self.opts.mode.keeps_transcript() {
            Some(self.save(states, self.opts.format, &None, dir, stamp))
        } else {
            None
        };
        let st = merge_states(states);
        let error = st.error.clone();
        self.last = st;
        self.generation = self.generation + 1;
        Some(Finished { save, error })
    }
}

// ---------------------------------------------------------------------------
// The level meter
// ---------------------------------------------------------------------------

/// What becomes of the level meter.
pub enum Metering {
    Keep,
    Stop,
    /// Meter the source with this key, or a default one.
    Point(Option<String>),
}

impl DaemonRuntime {
    /// Start, stop or re-point the level meter; `current` is the key of the
    /// source being metered.
    ///
    /// Metering runs only while idle and only while a viewer is watching: a
    /// session already has the source open, and holding a capture for nobody
    /// would keep a microphone live with no indication.
    pub fn update_preview(&self, states: &[SessionState], now: u64, current: &Option<String>) -> (r:
        Metering)
        ensures
            ({
                let keys = self@.opts.source_keys;
                if !is_watched(self@.last_viewer, now) || any_running(state_views(states@)) {
                    r is Stop
                } else if keys.len() > 0 && opt_view(*current) == Some(keys[0]) {
                    r is Keep
                } else {
                    r matches Metering::Point(k) && opt_view(k) == (if keys.len() > 0 {
                        Some(keys[0])
                    } else {
                        None
                    })
                }
            }),
    {
        if !watched(self.last_viewer, now) || running(states) {
            return Metering::Stop;
        }
        if self.opts.source_keys.len() == 0 {
            return Metering::Point(None);
        }
        assert(texts(self.opts.source_keys@)[0] == self.opts.source_keys@[0]@);
        let key = self.opts.source_keys[0].clone();
        if let Some(c) = current {
            if text::same(c.as_str(), key.as_str()) {
                return Metering::Keep;
            }
        }
        Metering::Point(Some(key))
    }
}

// ---------------------------------------------------------------------------
// Laws
// ---------------------------------------------------------------------------

/// The revision holds still while the token does, and moves on by one when it
/// does not, so no two different transcripts ever share a revision.
pub proof fn lemma_revision_moves_with_the_token(
    s: RuntimeView,
    states: Seq<StateView>,
    changes: u64,
)
    requires
        s.text.revision < u64::MAX,
    ensures
        refreshed(s, states, changes).revision == s.text.revision <==> s.text.token == (
            s.generation,
            states.len() as usize,
            changes,
        ),
        refreshed(s, states, changes).revision >= s.text.revision,
        refreshed(s, states, changes).revision == s.text.revision ==> refreshed(s, states, changes)
            == s.text,
{
}

proof fn lemma_one_more_change(states: Seq<StateView>, i: int, t: StateView)
    requires
        0 <= i < states.len(),
    ensures
        all_changes(states.update(i, t)) == all_changes(states) - states[i].changes + t.changes,
    decreases states.len(),
{
    let u = states.update(i, t);
    if i == states.len() - 1 {
        assert(u.drop_last() == states.drop_last());
    } else {
        lemma_one_more_change(states.drop_last(), i, t);
        assert(u.drop_last() == states.drop_last().update(i, t));
    }
}

/// Whatever a message does to the words of any session, the count of changes
/// moves with it -- so an unchanged token is proof that the words are
/// unchanged.
pub proof fn lemma_edit_moves_the_token(
    states: Seq<StateView>,
    i: int,
    message: ServerMessage,
    mode: OutputMode,
    label: Option<Seq<char>>,
    at: i64,
)
    requires
        0 <= i < states.len(),
        states[i].changes < u64::MAX,
    ensures
        ({
            let t = state_after(states[i], message, mode, label, at);
            let after = states.update(i, t);
            &&& (t.transcript != states[i].transcript || t.segments != states[i].segments)
                ==> all_changes(after) == all_changes(states) + 1
            &&& all_changes(after) >= all_changes(states)
        }),
{
    let t = state_after(states[i], message, mode, label, at);
    crate::client::session::lemma_changes_are_counted(states[i], message, mode, label, at);
    lemma_one_more_change(states, i, t);
}

/// Refreshing the cache leaves what is published in step with it.
pub proof fn lemma_refresh_keeps_in_step(
    s: RuntimeView,
    p: PublishedView,
    states: Seq<StateView>,
    changes: u64,
)
    requires
        s.text.revision < u64::MAX,
        in_step(p, s.text),
    ensures
        in_step(p, refreshed(s, states, changes)),
{
}

/// A reply never pairs a live state with the words of another revision: after
/// each publication the words published are the cache's.
pub proof fn lemma_published_words_are_current(p: PublishedView, text: CacheView, live: DaemonView)
    requires
        in_step(p, text),
        live.revision == text.revision,
    ensures
        in_step(published(p, text, live), text),
        published(p, text, live).transcript == text.transcript,
        published(p, text, live).turns == text.turns,
        published(p, text, live).live == live,
{
}

/// A viewer that already has the words is not sent them again, and is told
/// everything else.
pub proof fn lemma_unchanged_words_are_not_sent_again(
    s: RuntimeView,
    lives: Seq<StateView>,
    metered: Option<(Seq<u32>, u32)>,
    p: PublishedView,
)
    requires
        p.live == snapshot(s, lives, metered),
        p.live.revision != 0,
    ensures
        reply_since(p, Some(p.live.revision)) == p.live,
        reply_since(p, Some(p.live.revision)).transcript.len() == 0,
        reply_since(p, Some(p.live.revision)).turns.len() == 0,
{
}

/// A revision of zero is never read as unchanged: the words always travel.
pub proof fn lemma_zero_is_never_a_match(p: PublishedView, since: Option<u64>)
    requires
        p.live.revision == 0,
    ensures
        reply_since(p, since).transcript == p.transcript,
        reply_since(p, since).turns == p.turns,
{
}

/// A viewer that asks with the revision it holds always ends up with the words
/// published, whether or not they were sent.
pub proof fn lemma_polling_keeps_a_viewer_current(
    p: PublishedView,
    held: (Option<u64>, Seq<char>),
)
    requires
        held.0 == Some(p.live.revision) && p.live.revision != 0 ==> held.1 == p.transcript,
    ensures
        viewer_text(held, reply_since(p, held.0)).1 == p.transcript,
        viewer_text(held, reply_since(p, held.0)).0 == Some(p.live.revision),
{
}

/// Ending a session loses none of its words: what can be read and saved after
/// it has ended is what could be before.
pub proof fn lemma_words_survive_the_session(s: RuntimeView, states: Seq<StateView>)
    requires
        states.len() > 0,
    ensures
        holding(session_reaped(s, states), Seq::empty()) == holding(s, states),
        s.generation < u64::MAX ==> session_reaped(s, states).generation != s.generation,
{
}

/// However many sources are recorded, at most the first one types.
pub proof fn lemma_only_the_first_types(
    o: SettingsView,
    sources: Seq<Source>,
    names: Seq<Seq<char>>,
    home: Option<Seq<char>>,
    i: int,
)
    requires
        0 < i < planned(o, sources, names, home).len(),
    ensures
        !planned(o, sources, names, home)[i].mode.types(),
{
}

/// Every source is recorded by exactly one session, and in separate mode under
/// a name no other session has.
pub proof fn lemma_every_source_has_a_session(
    o: SettingsView,
    sources: Seq<Source>,
    names: Seq<Seq<char>>,
    home: Option<Seq<char>>,
)
    requires
        labels_of(sources, names),
    ensures
        ({
            let p = planned(o, sources, names, home);
            match o.source_mode {
                SourceMode::Combined => p.len() == 1 && p[0].sources == sources,
                SourceMode::Separate => {
                    &&& p.len() == sources.len()
                    &&& forall|i: int|
                        0 <= i < p.len() ==> (#[trigger] p[i]).sources == seq![sources[i]]
                    &&& forall|i: int, j: int|
                        0 <= i < j < p.len() ==> (#[trigger] p[i]).label != (#[trigger] p[j]).label
                },
            }
        }),
{
    crate::audio::source::lemma_labels_distinct(sources, names);
    let p = planned(o, sources, names, home);
    if o.source_mode == SourceMode::Separate {
        assert forall|i: int, j: int| 0 <= i < j < p.len() implies (#[trigger] p[i]).label != (
        #[trigger] p[j]).label by {
            assert(names[i] != names[j]);
        }
    }
}

/// While a session runs, no request changes the mode, whether speakers are told
/// apart or how several sources are recorded, and none discards its words.
pub proof fn lemma_running_holds_the_settings(s: RuntimeView, request: Request, now: u64)
    ensures
        ({
            let t = after_request(s, request, true, now);
            &&& t.opts.mode == s.opts.mode
            &&& t.opts.config.diarize == s.opts.config.diarize
            &&& t.opts.source_mode == s.opts.source_mode
            &&& t.last == s.last && t.generation == s.generation && t.text == s.text
        }),
        request is SetMode || request is SetDiarize || request is SetSources || request is Clear
            ==> after_request(s, request, true, now) == s,
{
}

/// A session counts as running from the moment it connects until it is idle
/// again, and the daemon is busy while one does.
pub proof fn lemma_busy_until_every_session_is_idle(states: Seq<StateView>)
    ensures
        any_running(states) <==> exists|i: int|
            0 <= i < states.len() && (#[trigger] states[i]).status != Status::Idle,
        states.len() == 0 ==> !any_running(states),
{
}

/// Every change of every session is counted, and nothing else.
pub proof fn lemma_changes_add_up(a: Seq<StateView>, b: Seq<StateView>)
    ensures
        all_changes(a + b) == all_changes(a) + all_changes(b),
        a.len() == 1 ==> all_changes(a) == a[0].changes,
    decreases b.len(),
{
    reveal_with_fuel(all_changes, 2);
    if b.len() == 0 {
        assert(a + b =~= a);
    } else {
        assert((a + b).drop_last() =~= a + b.drop_last());
        lemma_changes_add_up(a, b.drop_last());
    }
}

/// While nothing runs, viewers read and save what the last session left; while
/// one session runs, its own words.
pub proof fn lemma_whose_words_are_held(s: RuntimeView, states: Seq<StateView>)
    ensures
        states.len() == 0 ==> holding(s, states) == s.last,
        states.len() == 1 ==> holding(s, states) == states[0],
        states.len() > 1 ==> holding(s, states) == merged(states),
{
}

/// A transcript whose token moved is published as it is held now, under the
/// next revision, and grouped into turns where anybody has been named.
pub proof fn lemma_a_moved_transcript_is_rebuilt(
    s: RuntimeView,
    states: Seq<StateView>,
    changes: u64,
)
    requires
        s.text.revision < u64::MAX,
        s.text.token.0 != s.generation || s.text.token.1 != states.len() as usize
            || s.text.token.2 != changes,
    ensures
        ({
            let t = refreshed(s, states, changes);
            &&& t.revision == s.text.revision + 1
            &&& t.token == (s.generation, states.len() as usize, changes)
            &&& states.len() == 0 ==> t.transcript == s.last.transcript
            &&& states.len() == 1 ==> t.transcript == states[0].transcript
            &&& states.len() > 1 ==> t.transcript == merged(states).transcript
            &&& states.len() == 0 && (exists|i: int|
                0 <= i < s.last.segments.len() && (#[trigger] s.last.segments[i]).speaker is Some)
                ==> t.turns == turn_texts_of(s.last.segments)
            &&& states.len() == 0 && (forall|i: int|
                0 <= i < s.last.segments.len() ==> (#[trigger] s.last.segments[i]).speaker is None)
                ==> t.turns.len() == 0
            &&& states.len() == 1 && (exists|i: int|
                0 <= i < states[0].segments.len() && (
                #[trigger] states[0].segments[i]).speaker is Some) ==> t.turns
                == turn_texts_of(states[0].segments)
            &&& states.len() == 1 && (forall|i: int|
                0 <= i < states[0].segments.len() ==> (
                #[trigger] states[0].segments[i]).speaker is None) ==> t.turns.len() == 0
        }),
{
}

/// A viewer is told every setting as the daemon holds it, and never the words
/// themselves, only which they would be.
pub proof fn lemma_a_viewer_is_told_the_settings(
    s: RuntimeView,
    lives: Seq<StateView>,
    metered: Option<(Seq<u32>, u32)>,
)
    ensures
        ({
            let v = snapshot(s, lives, metered);
            &&& v.mode == s.opts.mode
            &&& v.source_keys == s.opts.source_keys
            &&& v.source_mode == s.opts.source_mode
            &&& v.diarize_configured == s.opts.config.diarize
            &&& v.stream_to == s.opts.config.stream_to
            &&& v.format == s.opts.format
            &&& v.revision == s.text.revision
            &&& v.transcript.len() == 0
            &&& v.turns.len() == 0
            &&& s.opts.source_keys.len() > 0 ==> v.source_key == Some(s.opts.source_keys[0])
            &&& s.opts.source_keys.len() == 0 ==> v.source_key is None
        }),
{
}

/// A viewer is told of the one session that runs, or of the last one that did:
/// how it stands, what it was granted, what it last heard and what went wrong.
pub proof fn lemma_a_viewer_is_told_of_the_session(
    s: RuntimeView,
    lives: Seq<StateView>,
    metered: Option<(Seq<u32>, u32)>,
)
    requires
        lives.len() <= 1,
    ensures
        ({
            let v = snapshot(s, lives, metered);
            let of = if lives.len() == 1 {
                lives[0]
            } else {
                s.last
            };
            let working = s.file_job matches Some(j) && !j.done;
            &&& v.last_fragment == of.last_fragment
            &&& v.model == of.model
            &&& v.chunk_ms == of.chunk_ms
            &&& v.diarize == of.diarize
            &&& v.error == of.error
            &&& v.stream_error == of.stream_error
            &&& v.sources == of.sources
            &&& !working ==> v.status == of.status
            &&& !working ==> v.diarize_requested == of.diarize_requested
            &&& metered is None ==> v.levels == of.levels && v.rms == of.rms
        }),
{
}

/// While a file is transcribed a viewer is told so and how far it is, and at
/// any other time no progress is shown.
pub proof fn lemma_a_viewer_sees_a_file_progress(
    s: RuntimeView,
    lives: Seq<StateView>,
    metered: Option<(Seq<u32>, u32)>,
)
    ensures
        ({
            let v = snapshot(s, lives, metered);
            match s.file_job {
                Some(j) => if j.done {
                    v.progress == 0
                } else {
                    v.progress == j.progress && v.status == Status::Transcribing
                        && !v.diarize_requested
                },
                None => v.progress == 0,
            }
        }),
{
}

/// The meter is shown while nothing runs, and a running session's own level
/// while one does.
pub proof fn lemma_a_session_shows_its_own_level(
    s: RuntimeView,
    lives: Seq<StateView>,
    levels: Seq<u32>,
    rms: u32,
)
    ensures
        ({
            let v = snapshot(s, lives, Some((levels, rms)));
            &&& (forall|i: int|
                0 <= i < lives.len() ==> (#[trigger] lives[i]).status == Status::Idle) ==> v.levels
                == levels && v.rms == rms
            &&& lives.len() == 1 && lives[0].status != Status::Idle ==> v.levels == lives[0].levels
                && v.rms == lives[0].rms
        }),
{
    assert(lives.len() == 1 && lives[0].status != Status::Idle ==> any_running(lives));
}

/// Each selected key is looked for by itself and in turn: it adds the first
/// source with that key, or is itself reported as missing.
pub proof fn lemma_each_selected_key_is_looked_for(
    a: Seq<Seq<char>>,
    b: Seq<Seq<char>>,
    available: Seq<Source>,
    k: Seq<char>,
    i: int,
)
    ensures
        present(a + b, available) == present(a, available) + present(b, available),
        absent(a + b, available) == absent(a, available) + absent(b, available),
        0 <= i < available.len() && available[i].key() == k && (forall|j: int|
            0 <= j < i ==> (#[trigger] available[j]).key() != k) ==> present(seq![k], available)
            == seq![available[i]] && absent(seq![k], available).len() == 0,
        (forall|j: int| 0 <= j < available.len() ==> (#[trigger] available[j]).key() != k)
            ==> present(seq![k], available).len() == 0 && absent(seq![k], available) == seq![k],
    decreases b.len(),
{
    reveal_with_fuel(present, 3);
    reveal_with_fuel(absent, 3);
    if b.len() == 0 {
        assert(a + b =~= a);
        assert(present(a, available) + present(b, available) =~= present(a, available));
        assert(absent(a, available) + absent(b, available) =~= absent(a, available));
    } else {
        assert((a + b).drop_last() =~= a + b.drop_last());
        assert((a + b).last() == b.last());
        lemma_each_selected_key_is_looked_for(a, b.drop_last(), available, k, i);
        assert(present(a + b, available) =~= present(a, available) + present(b, available));
        assert(absent(a + b, available) =~= absent(a, available) + absent(b, available));
    }
    let one = seq![k];
    assert(one.drop_last() =~= Seq::<Seq<char>>::empty());
    assert(one.last() == k);
    let p = |s: Source| s.key() == one.last();
    lemma_first_where(available, p);
    if 0 <= i < available.len() && available[i].key() == k && (forall|j: int|
        0 <= j < i ==> (#[trigger] available[j]).key() != k) {
        assert(p(available[i]));
        crate::order::lemma_first_where_at(available, p, i);
        assert(present(one, available) =~= seq![available[i]]);
    }
    if forall|j: int| 0 <= j < available.len() ==> (#[trigger] available[j]).key() != k {
        assert(forall|j: int| 0 <= j < available.len() ==> !p(#[trigger] available[j]));
        assert(absent(one, available) =~= seq![k]);
    }
}

/// A session has a source to record whenever the machine offers one: those
/// selected that are there, and one chosen for it only when none of them is.
pub proof fn lemma_a_session_finds_a_source(keys: Seq<Seq<char>>, available: Seq<Source>)
    ensures
        present(keys, available).len() > 0 ==> sources_used(keys, available) == present(
            keys,
            available,
        ),
        present(keys, available).len() == 0 && available.len() > 0 ==> sources_used(
            keys,
            available,
        ).len() == 1 && available.contains(sources_used(keys, available)[0]),
        available.len() == 0 ==> sources_used(keys, available).len() == 0,
{
    lemma_present_needs_offers(keys, available);
    crate::audio::lemma_choice_is_offered(available, None);
}

/// Starting forgets the last session's words and remembers the sources really
/// used, and touches no other setting but a stream name it brings up to date.
pub proof fn lemma_starting_remembers_what_it_records(
    s: RuntimeView,
    sources: Seq<Source>,
    stamp: Seq<char>,
)
    requires
        s.generation < u64::MAX,
    ensures
        ({
            let t = started(s, sources, stamp);
            &&& t.opts.source_keys.len() == sources.len()
            &&& forall|i: int|
                0 <= i < sources.len() ==> (#[trigger] t.opts.source_keys[i]) == sources[i].key()
            &&& t.last.transcript.len() == 0
            &&& t.last.segments.len() == 0
            &&& t.last.status == Status::Idle
            &&& t.last.error is None
            &&& t.generation == s.generation + 1
            &&& t.text == s.text
            &&& t.file_job == s.file_job
            &&& t.last_viewer == s.last_viewer
            &&& t.opts.mode == s.opts.mode
            &&& t.opts.source_mode == s.opts.source_mode
            &&& t.opts.save_each == s.opts.save_each
            &&& t.opts.format == s.opts.format
            &&& t.opts.gui_command == s.opts.gui_command
            &&& t.opts.here == s.opts.here
            &&& t.opts.config == (ConfigView {
                stream_to: t.opts.config.stream_to,
                ..s.opts.config
            })
            &&& s.opts.config.stream_to is None ==> t.opts.config.stream_to is None
            &&& s.opts.config.stream_to matches Some(p) ==> t.opts.config.stream_to == Some(
                fresh_path(p, stamp, s.opts.here),
            )
            &&& stream_moves(s.opts, stamp) <==> t.opts.config.stream_to
                != s.opts.config.stream_to
        }),
{
}

/// Every session dials where the configuration says, with what it says, and
/// asks for speakers as it says.
pub proof fn lemma_every_session_follows_the_config(
    o: SettingsView,
    sources: Seq<Source>,
    names: Seq<Seq<char>>,
    home: Option<Seq<char>>,
    i: int,
)
    requires
        0 <= i < planned(o, sources, names, home).len(),
    ensures
        ({
            let p = planned(o, sources, names, home)[i];
            &&& p.url == o.config.url
            &&& p.token == o.config.token
            &&& p.diarize == o.config.diarize
            &&& p.inject == o.config.inject
            &&& i == 0 ==> p.mode == o.mode
            &&& i > 0 ==> p.mode == OutputMode::Transcribe
            &&& o.source_mode is Combined ==> p.label is None
            &&& o.source_mode is Separate ==> p.label == Some(names[i])
            &&& o.config.stream_to is None ==> p.stream is None
            &&& p.stream matches Some(f) ==> f.1 == o.format
        }),
{
}

/// One session streams to the very file that is set; each of several sessions
/// to a file of its own, beside it and named for its source.
pub proof fn lemma_each_session_streams_to_its_own_file(
    o: SettingsView,
    sources: Seq<Source>,
    names: Seq<Seq<char>>,
    home: Option<Seq<char>>,
    i: int,
    path: Seq<char>,
)
    requires
        0 <= i < planned(o, sources, names, home).len(),
        o.config.stream_to == Some(path),
    ensures
        ({
            let p = planned(o, sources, names, home)[i];
            let base = expanded(path, home, o.here);
            &&& o.source_mode is Combined || sources.len() == 1 ==> p.stream == Some(
                (base, o.format),
            )
            &&& o.source_mode is Separate && sources.len() > 1 ==> p.stream == Some(
                (source_path(base, names[i], o.here), o.format),
            )
        }),
{
}

/// A reply says everything but the words exactly as it was published, and the
/// words to whoever has another revision.
pub proof fn lemma_a_reply_is_what_was_published(p: PublishedView, since: Option<u64>)
    ensures
        reply_since(p, since) == (DaemonView {
            transcript: reply_since(p, since).transcript,
            turns: reply_since(p, since).turns,
            ..p.live
        }),
        since is None ==> reply_since(p, since).transcript == p.transcript && reply_since(
            p,
            since,
        ).turns == p.turns,
        (since matches Some(r) ==> r != p.live.revision) ==> reply_since(p, since).transcript
            == p.transcript && reply_since(p, since).turns == p.turns,
{
}

/// Each request changes what it names and nothing else.
pub proof fn lemma_each_request_sets_its_own(
    s: RuntimeView,
    request: Request,
    running: bool,
    now: u64,
)
    requires
        s.generation < u64::MAX,
    ensures
        ({
            let t = after_request(s, request, running, now);
            &&& (request matches Request::SetMode { mode } ==> !running ==> t.opts.mode == mode)
            &&& (request matches Request::SetDiarize { diarize } ==> !running
                ==> t.opts.config.diarize == diarize)
            &&& (request matches Request::SetSource { key } ==> t.opts.source_keys.len() == 1
                && t.opts.source_keys[0] == key@)
            &&& (request matches Request::SetSources { keys, source_mode } ==> !running
                ==> t.opts.source_keys.len() == keys@.len() && (forall|i: int|
                0 <= i < keys@.len() ==> (#[trigger] t.opts.source_keys[i]) == keys@[i]@) && (
            source_mode matches Some(m) ==> t.opts.source_mode == m) && (source_mode is None
                ==> t.opts.source_mode == s.opts.source_mode))
            &&& (request matches Request::SetServer { server } ==> t.opts.config.url == server@)
            &&& (request matches Request::SetFormat { format } ==> t.opts.format == format
                && t.opts.config.format == format)
            &&& (request matches Request::SetStreamFile { path } ==> t.opts.config.stream_to
                == opt_view(path))
            &&& (request is Clear ==> !running ==> t.last == StateView::blank() && t.generation
                == s.generation + 1)
            &&& (request is GetState ==> t.last_viewer == Some(now))
        }),
        ({
            let t = after_request(s, request, running, now);
            &&& t.opts.mode != s.opts.mode ==> request is SetMode
            &&& t.opts.config.diarize != s.opts.config.diarize ==> request is SetDiarize
            &&& t.opts.source_keys != s.opts.source_keys ==> request is SetSource
                || request is SetSources
            &&& t.opts.source_mode != s.opts.source_mode ==> request is SetSources
            &&& t.opts.config.url != s.opts.config.url ==> request is SetServer
            &&& t.opts.format != s.opts.format || t.opts.config.format != s.opts.config.format
                ==> request is SetFormat
            &&& t.opts.config.stream_to != s.opts.config.stream_to ==> request is SetStreamFile
            &&& t.last != s.last || t.generation != s.generation ==> request is Clear
            &&& t.last_viewer != s.last_viewer ==> request is GetState
            &&& t.text == s.text && t.file_job == s.file_job
            &&& t.opts.save_each == s.opts.save_each && t.opts.gui_command == s.opts.gui_command
                && t.opts.here == s.opts.here
            &&& t.opts.config == (ConfigView {
                url: t.opts.config.url,
                diarize: t.opts.config.diarize,
                format: t.opts.config.format,
                stream_to: t.opts.config.stream_to,
                ..s.opts.config
            })
        }),
{
}

/// A request to start, stop or toggle is done as asked, whatever runs: toggling
/// stops what runs and starts what does not.
pub proof fn lemma_sessions_are_started_and_stopped_as_asked(
    s: RuntimeView,
    request: Request,
    states: Seq<StateView>,
    dir: Seq<char>,
    stamp: Seq<char>,
    reply: Option<Response>,
    action: Action,
)
    requires
        answered(s, request, states, dir, stamp, reply, action),
    ensures
        request is Start ==> action is Start,
        request is Stop ==> action is Stop,
        request is Quit ==> action is Quit,
        request is Toggle && (exists|i: int|
            0 <= i < states.len() && (#[trigger] states[i]).status != Status::Idle)
            ==> action is Stop,
        request is Toggle && (forall|i: int|
            0 <= i < states.len() ==> (#[trigger] states[i]).status == Status::Idle)
            ==> action is Start,
        action is Start ==> request is Start || request is Toggle,
        action is Stop ==> request is Stop || request is Toggle,
        action is Quit ==> request is Quit,
        action is OpenViewer ==> false,
        action is SaveConfig ==> request is SetDiarize || request is SetFormat
            || request is SetStreamFile,
        action is Write ==> request is Save || request is SaveSplit,
        action is Decode ==> request is TranscribeFile,
{
}

/// Only what cannot be done is refused: sources are not changed under a running
/// session, no file is transcribed beside one or beside another file, and
/// nothing is saved of an empty transcript.
pub proof fn lemma_what_is_refused(
    s: RuntimeView,
    request: Request,
    states: Seq<StateView>,
    dir: Seq<char>,
    stamp: Seq<char>,
    reply: Option<Response>,
    action: Action,
)
    requires
        answered(s, request, states, dir, stamp, reply, action),
    ensures
        ({
            let busy = exists|i: int|
                0 <= i < states.len() && (#[trigger] states[i]).status != Status::Idle;
            let transcribing = s.file_job matches Some(j) && !j.done;
            &&& request is SetSources ==> (busy <==> reply is Some && reply->0 is Error)
            &&& request is TranscribeFile ==> (busy || transcribing <==> reply is Some
                && reply->0 is Error)
            &&& (request matches Request::TranscribeFile { path } ==> !busy ==> !transcribing
                ==> action == Action::Decode(path))
            &&& !(request is SetSources || request is TranscribeFile || request is Save
                || request is SaveSplit) ==> reply == Some(Response::Done)
            &&& reply is Some && reply->0 is Error ==> action is Nothing
            &&& reply is None <==> action is Write || action is Decode
            &&& request is SetDiarize && !busy ==> action is SaveConfig
            &&& request is SetFormat || request is SetStreamFile ==> action is SaveConfig
        }),
{
}

/// A saved transcript goes where it was asked to, or under a fresh name in the
/// given directory, and holds the transcript's text and one line's end.
pub proof fn lemma_a_save_goes_where_it_was_asked(
    held: StateView,
    format: Format,
    path: Option<Seq<char>>,
    dir: Seq<char>,
    stamp: Seq<char>,
    here: Platform,
)
    ensures
        ({
            let body = rendered(held.segments, held.transcript, format);
            let r = saved_file(held, format, path, dir, stamp, here);
            &&& r is Err <==> trim_of(body).len() == 0
            &&& r matches Ok(f) ==> f.1 == trim_of(body).push('\n') && f.0 == (match path {
                Some(p) => p,
                None => join_of(dir, saved_name(stamp), here),
            })
            &&& r matches Err(why) ==> why == "nothing to save: the transcript is empty"@
        }),
{
    let body = rendered(held.segments, held.transcript, format);
    text::lemma_trim_drops_only_white(body);
    reveal_strlit("\n");
    assert(trim_of(body) + "\n"@ =~= trim_of(body).push('\n'));
}

/// A finished file's text replaces the transcript; one that failed leaves the
/// transcript alone and says why; one still going changes nothing.
pub proof fn lemma_a_files_text_replaces_the_transcript(s: RuntimeView)
    requires
        s.generation < u64::MAX,
    ensures
        ({
            let t = job_reaped(s);
            match s.file_job {
                Some(j) => if j.done {
                    &&& t.file_job is None
                    &&& t.generation == s.generation + 1
                    &&& j.error is None ==> t.last.transcript == j.text && t.last.segments.len()
                        == 0 && t.last.error == s.last.error
                    &&& j.error is Some ==> t.last.transcript == s.last.transcript
                        && t.last.segments == s.last.segments && t.last.error == j.error
                } else {
                    t == s
                },
                None => t == s,
            }
        }),
        job_reaped(s).opts == s.opts,
        job_reaped(s).text == s.text,
        job_reaped(s).last_viewer == s.last_viewer,
{
}

/// The daemon keeps what a finished session left, and nothing else of it
/// changes.
pub proof fn lemma_a_finished_session_is_kept(s: RuntimeView, states: Seq<StateView>)
    requires
        s.generation < u64::MAX,
    ensures
        ({
            let t = session_reaped(s, states);
            &&& states.len() == 1 ==> t.last == states[0]
            &&& states.len() > 1 ==> t.last == merged(states)
            &&& t.generation == s.generation + 1
            &&& t.opts == s.opts && t.text == s.text && t.file_job == s.file_job && t.last_viewer
                == s.last_viewer
        }),
{
}

/// Saving one file for each source writes those files whenever there are any,
/// and otherwise says that there is nothing to save.
pub proof fn lemma_a_split_save_writes_each_source(
    s: RuntimeView,
    format: Format,
    states: Seq<StateView>,
    dir: Seq<char>,
    stamp: Seq<char>,
    reply: Option<Response>,
    action: Action,
)
    requires
        answered(s, Request::SaveSplit { format }, states, dir, stamp, reply, action),
    ensures
        ({
            let groups = grouped(holding(s, states).segments);
            let files = source_files(
                join_of(dir, saved_name(stamp), s.opts.here),
                groups,
                format,
                s.opts.here,
            );
            &&& files.len() > 0 <==> action is Write
            &&& action matches Action::Write(v) ==> file_views(v@) == files && reply is None
            &&& files.len() == 0 ==> action is Nothing && reply is Some && reply->0 is Error
            &&& groups.len() == 0 && files.len() == 0 ==> (reply matches Some(
                Response::Error { message },
            ) && message@ == "nothing to save: the transcript is empty"@)
            &&& groups.len() > 0 && files.len() == 0 ==> (reply matches Some(
                Response::Error { message },
            ) && message@ == "nothing to save: no source produced any text"@)
        }),
{
}

/// A refusal says why: the session that is in the way, or the file that is.
pub proof fn lemma_a_refusal_names_its_reason(
    s: RuntimeView,
    request: Request,
    states: Seq<StateView>,
    dir: Seq<char>,
    stamp: Seq<char>,
    reply: Option<Response>,
    action: Action,
)
    requires
        answered(s, request, states, dir, stamp, reply, action),
    ensures
        reply matches Some(Response::Error { message }) ==> {
            let busy = exists|i: int|
                0 <= i < states.len() && (#[trigger] states[i]).status != Status::Idle;
            &&& request is SetSources ==> message@ == "stop the session before changing sources"@
            &&& request is TranscribeFile && busy ==> message@
                == "stop the current session before transcribing a file"@
            &&& request is TranscribeFile && !busy ==> message@ == "already transcribing a file"@
            &&& request is Save ==> message@ == "nothing to save: the transcript is empty"@
        },
{
}

} // verus!
