//! The `syrinx` command line: what each command decides and prints.
//!
//! Deliberately thin: everything of substance is shared with the window, so
//! the two cannot drift apart.

use crate::audio::source::{
    display_of, shown_detail, Source, SourceKind,
};
use crate::audio::{choice, choose_source, opt_text, resolve};
use crate::client::config::{expanded, Config};
use crate::client::ipc::DaemonState;
use crate::client::mode::OutputMode;
use crate::client::save::{
    self, file_views, grouped, rendered, saved_name, source_files, Format,
};
use crate::client::session::{
    lemma_merge_reports_every_failure, merge_states, merged, options_views, state_views,
    OptionsView, SessionOptions, SessionState, StateView,
};
use crate::client::state::{pid_text, pid_text_of};
use crate::order::first_where;
use crate::paths::{self, join_of};
use crate::platform::Platform;
use crate::text::{
    self, debug_of, is_blank, lowercase_of, opt_view, repeated, texts, trim_of,
};
use vstd::prelude::*;

verus! {

// ---------------------------------------------------------------------------
// Flags
// ---------------------------------------------------------------------------

/// A layout, as the command line spells it.
#[derive(Debug, Clone, Copy, PartialEq, Eq, Structural)]
pub enum FormatArg {
    /// Continuous prose.
    Plain,
    /// Each fragment prefixed with [MM:SS].
    Timestamped,
    /// Time and source on each line, for several sources at once.
    Labelled,
}

pub open spec fn format_for(f: FormatArg) -> Format {
    match f {
        FormatArg::Plain => Format::Plain,
        FormatArg::Timestamped => Format::Timestamped,
        FormatArg::Labelled => Format::Labelled,
    }
}

impl From<FormatArg> for Format {
    fn from(f: FormatArg) -> (r: Format) {
        match f {
            FormatArg::Plain => Format::Plain,
            FormatArg::Timestamped => Format::Timestamped,
            FormatArg::Labelled => Format::Labelled,
        }
    }
}

impl vstd::std_specs::convert::FromSpecImpl<FormatArg> for Format {
    open spec fn obeys_from_spec() -> bool {
        true
    }

    open spec fn from_spec(f: FormatArg) -> Format {
        format_for(f)
    }
}

/// A mode, as the command line spells it.
#[derive(Debug, Clone, Copy, PartialEq, Eq, Structural)]
pub enum ModeArg {
    /// Accumulate a transcript and print it when the session ends.
    Transcribe,
    /// Type at the cursor as you speak.
    Type,
    /// Both.
    Both,
}

pub open spec fn mode_for(m: ModeArg) -> OutputMode {
    match m {
        ModeArg::Transcribe => OutputMode::Transcribe,
        ModeArg::Type => OutputMode::Type,
        ModeArg::Both => OutputMode::Both,
    }
}

impl From<ModeArg> for OutputMode {
    fn from(m: ModeArg) -> (r: OutputMode) {
        match m {
            ModeArg::Transcribe => OutputMode::Transcribe,
            ModeArg::Type => OutputMode::Type,
            ModeArg::Both => OutputMode::Both,
        }
    }
}

impl vstd::std_specs::convert::FromSpecImpl<ModeArg> for OutputMode {
    open spec fn obeys_from_spec() -> bool {
        true
    }

    open spec fn from_spec(m: ModeArg) -> OutputMode {
        mode_for(m)
    }
}

/// The layout to use: the flag if given, otherwise the config.
///
/// "Not given" has to be told from "asked for plain", or the config would never
/// be consulted.
pub fn resolve_format(flag: Option<FormatArg>, cfg: &Config) -> (r: Format)
    ensures
        r == (match flag {
            Some(f) => format_for(f),
            None => cfg.format,
        }),
{
    match flag {
        Some(f) => Format::from(f),
        None => cfg.format,
    }
}

/// The mode to use: the flag if given, otherwise the config.
pub fn resolve_mode(flag: Option<ModeArg>, cfg: &Config) -> (r: OutputMode)
    ensures
        r == (match flag {
            Some(m) => mode_for(m),
            None => cfg.mode,
        }),
{
    match flag {
        Some(m) => OutputMode::from(m),
        None => cfg.mode,
    }
}

/// The source to use: the flag if given, otherwise the remembered one.
pub fn resolve_source(flag: &Option<String>, cfg: &Config) -> (r: Option<String>)
    ensures
        opt_view(r) == (if flag is Some {
            opt_view(*flag)
        } else {
            opt_view(cfg.source_key)
        }),
{
    match flag {
        Some(k) => Some(k.clone()),
        None => cfg.source_key.clone(),
    }
}

// ---------------------------------------------------------------------------
// Starting and stopping
// ---------------------------------------------------------------------------

/// What `stop` and `toggle` do.
pub enum Step {
    /// Ask this process to stop.
    Signal(i32),
    /// A running daemon owns the session: go through it rather than start a
    /// second one competing for the microphone.
    AskDaemon,
    /// Nothing is running.
    Idle,
}

/// Who is asked when a session is to be stopped or toggled: a process with a
/// PID file first, then a daemon, which holds its session without one.
pub fn who_to_ask(pid: Option<i32>, daemon: bool) -> (r: Step)
    ensures
        r == (match pid {
            Some(p) => Step::Signal(p),
            None => if daemon {
                Step::AskDaemon
            } else {
                Step::Idle
            },
        }),
{
    match pid {
        Some(p) => Step::Signal(p),
        None => {
            if daemon {
                Step::AskDaemon
            } else {
                Step::Idle
            }
        },
    }
}

/// Whether `start` may start, given the process that is already running.
pub fn may_start(pid: Option<i32>) -> (r: Result<(), String>)
    ensures
        match (r, pid) {
            (Ok(_), None) => true,
            (Err(e), Some(p)) => e@ == "already running (pid "@ + pid_text_of(p as int) + ")"@,
            _ => false,
        },
{
    match pid {
        Some(p) => {
            let mut e = "already running (pid ".to_owned();
            let n = pid_text(p);
            e.append(n.as_str());
            e.append(")");
            Err(e)
        },
        None => Ok(()),
    }
}

/// What `status` prints.
///
/// A daemon owns its session and writes no PID file, so looking only at the
/// PID file would report "idle" while a window is actively dictating.
pub fn status_line(pid: Option<i32>, daemon: &Option<DaemonState>) -> (r: String)
    ensures
        r@ == (match (pid, *daemon) {
            (Some(p), _) => "running (pid "@ + pid_text_of(p as int) + ")"@,
            (None, Some(s)) => lowercase_of(s.status.label_of()) + " (daemon, mode "@
                + s.mode.name_of() + ")"@,
            (None, None) => "idle"@,
        }),
{
    match pid {
        Some(p) => {
            let mut s = "running (pid ".to_owned();
            let n = pid_text(p);
            s.append(n.as_str());
            s.append(")");
            s
        },
        None => match daemon {
            Some(d) => {
                let mut s = text::to_lowercase(d.status.label());
                s.append(" (daemon, mode ");
                s.append(d.mode.name());
                s.append(")");
                s
            },
            None => "idle".to_owned(),
        },
    }
}

// ---------------------------------------------------------------------------
// Listing
// ---------------------------------------------------------------------------

/// How wide the names of a listing are.
pub const NAME_WIDTH: usize = 52;

/// A source as a listing shows it: its name, padded, and its key.
pub open spec fn listed_line(s: Source) -> Seq<char> {
    let name = display_of(s.name@, shown_detail(s.detail));
    let n = if name.len() < NAME_WIDTH {
        (NAME_WIDTH - name.len()) as nat
    } else {
        0
    };
    "  "@ + name + repeated(' ', n) + " "@ + s.key()
}

/// A listing, with a heading wherever the kind of source changes.
pub open spec fn listing(sources: Seq<Source>) -> Seq<Seq<char>>
    decreases sources.len(),
{
    if sources.len() == 0 {
        Seq::empty()
    } else {
        let before = listing(sources.drop_last());
        let s = sources.last();
        if sources.len() > 1 && sources[sources.len() - 2].kind == s.kind {
            before.push(listed_line(s))
        } else {
            before.push("\n"@ + s.kind.label_of() + ":"@).push(listed_line(s))
        }
    }
}

fn source_line(s: &Source) -> (r: String)
    ensures
        r@ == listed_line(*s),
{
    let mut out = "  ".to_owned();
    let name = s.display();
    out.append(name.as_str());
    let n: usize = text::chars_of(name.as_str()).len();
    let gap: usize = if n < NAME_WIDTH {
        NAME_WIDTH - n
    } else {
        0
    };
    let fill = text::repeat(' ', gap);
    out.append(fill.as_str());
    out.append(" ");
    let key = s.stable_key();
    out.append(key.as_str());
    out
}

/// What `sources` prints, line by line.
pub fn source_lines(sources: &[Source]) -> (r: Vec<String>)
    ensures
        texts(r@) == listing(sources@),
{
    let ghost all = sources@;
    let mut out: Vec<String> = Vec::new();
    let mut last: Option<SourceKind> = None;
    let mut i: usize = 0;
    assert(texts(out@) == listing(all.take(0)));
    while i < sources.len()
        invariant
            i <= sources@.len(),
            all == sources@,
            last == (if i > 0 {
                Some(all[i - 1].kind)
            } else {
                None
            }),
            texts(out@) == listing(all.take(i as int)),
        decreases sources@.len() - i,
    {
        assert(all.take(i + 1).drop_last() == all.take(i as int));
        assert(i > 0 ==> all.take(i + 1)[i - 1] == all[i - 1]);
        let kind = sources[i].kind;
        let fresh: bool = match last {
            Some(k) => k != kind,
            None => true,
        };
        if fresh {
            let mut heading = "\n".to_owned();
            heading.append(kind.label());
            heading.append(":");
            let ghost was = out@;
            let ghost h = heading@;
            out.push(heading);
            assert(texts(out@) == texts(was).push(h));
            last = Some(kind);
        }
        let line = source_line(&sources[i]);
        let ghost was = out@;
        let ghost l = line@;
        out.push(line);
        assert(texts(out@) == texts(was).push(l));
        i += 1;
    }
    assert(all.take(i as int) == all);
    out
}

// ---------------------------------------------------------------------------
// A session of one's own
// ---------------------------------------------------------------------------

/// The sources asked for by key, or the first key that names nothing.
pub open spec fn wanted(keys: Seq<Seq<char>>, available: Seq<Source>) -> Result<
    Seq<Source>,
    Seq<char>,
>
    decreases keys.len(),
{
    if keys.len() == 0 {
        Ok(Seq::empty())
    } else {
        match wanted(keys.drop_last(), available) {
            Err(k) => Err(k),
            Ok(v) => match first_where(available, |s: Source| s.key() == keys.last()) {
                Some(s) => Ok(v.push(s)),
                None => Err(keys.last()),
            },
        }
    }
}

proof fn lemma_wanted_stops(keys: Seq<Seq<char>>, available: Seq<Source>, i: int)
    requires
        0 <= i <= keys.len(),
        wanted(keys.take(i), available) is Err,
    ensures
        wanted(keys, available) == wanted(keys.take(i), available),
    decreases keys.len(),
{
    if i == keys.len() {
        assert(keys.take(i) == keys);
    } else {
        assert(keys.drop_last().take(i) == keys.take(i));
        lemma_wanted_stops(keys.drop_last(), available, i);
    }
}

/// The sources a session captures: those asked for, each of which must exist,
/// or the remembered one, or a default.
pub fn chosen_sources(keys: &Vec<String>, available: &[Source], remembered: &Option<String>) -> (r:
    Result<Vec<Source>, String>)
    ensures
        if keys@.len() == 0 {
            match (r, choice(available@, opt_view(*remembered))) {
                (Ok(v), Some(s)) => v@ == seq![s],
                (Err(e), None) => e@ == "no capturable audio sources found"@,
                _ => false,
            }
        } else {
            match (r, wanted(texts(keys@), available@)) {
                (Ok(v), Ok(w)) => v@ == w,
                (Err(e), Err(k)) => e@ == "no source matching "@ + debug_of(k),
                _ => false,
            }
        },
{
    let mut out: Vec<Source> = Vec::new();
    if keys.len() == 0 {
        let hint: Option<&str> = match remembered {
            Some(k) => Some(k.as_str()),
            None => None,
        };
        assert(opt_text(hint) == opt_view(*remembered));
        return match choose_source(available, hint) {
            Ok(s) => {
                out.push(s);
                assert(out@ =~= seq![s]);
                Ok(out)
            },
            Err(e) => Err(e),
        };
    }
    let ghost all = texts(keys@);
    let mut i: usize = 0;
    assert(Ok::<Seq<Source>, Seq<char>>(out@) == wanted(all.take(0), available@));
    while i < keys.len()
        invariant
            i <= keys@.len(),
            keys@.len() > 0,
            all == texts(keys@),
            wanted(all.take(i as int), available@) == Ok::<Seq<Source>, Seq<char>>(out@),
        decreases keys@.len() - i,
    {
        assert(all.take(i + 1).drop_last() == all.take(i as int));
        assert(all.take(i + 1).last() == keys@[i as int]@);
        match resolve(available, keys[i].as_str()) {
            Some(s) => {
                out.push(s);
            },
            None => {
                proof {
                    lemma_wanted_stops(all, available@, i + 1);
                }
                let mut e = "no source matching ".to_owned();
                let shown = text::debug_text(keys[i].as_str());
                e.append(shown.as_str());
                return Err(e);
            },
        }
        i += 1;
    }
    assert(all.take(i as int) == all);
    Ok(out)
}

/// Where a session streams to: the flag if given, otherwise the config, so a
/// one-off run can stream somewhere else without editing anything.
pub open spec fn stream_target(
    flag: Option<Seq<char>>,
    cfg: Config,
    home: Option<Seq<char>>,
    here: Platform,
) -> Option<Seq<char>> {
    if flag is Some {
        flag
    } else {
        match opt_view(cfg.stream_to) {
            Some(p) => Some(expanded(p, home, here)),
            None => None,
        }
    }
}

/// What a session of one's own is asked to be.
pub struct RunOptions {
    pub mode: OutputMode,
    /// Transcribe each source as its own stream instead of mixing them.
    pub separate: bool,
    /// Append the transcript to this file.
    pub stream: Option<String>,
    pub format: Format,
}

/// The session of one source, or of all of them mixed.
pub open spec fn run_session(
    cfg: Config,
    sources: Seq<Source>,
    mode: OutputMode,
    label: Option<Seq<char>>,
    stream: Option<(Seq<char>, Format)>,
) -> OptionsView {
    OptionsView {
        url: cfg.url@,
        token: cfg.token@,
        sources,
        mode,
        diarize: cfg.diarize,
        label,
        inject: cfg.inject,
        stream,
    }
}

/// The sessions of a run: one of everything mixed, or one for each source. They
/// all append to the same file, if any.
pub open spec fn run_sessions(
    cfg: Config,
    run: RunOptions,
    sources: Seq<Source>,
    home: Option<Seq<char>>,
    here: Platform,
) -> Seq<OptionsView> {
    let stream = match stream_target(opt_view(run.stream), cfg, home, here) {
        Some(p) => Some((p, run.format)),
        None => None,
    };
    if run.separate {
        Seq::new(
            sources.len(),
            |i: int|
                run_session(
                    cfg,
                    seq![sources[i]],
                    if i == 0 {
                        run.mode
                    } else {
                        OutputMode::Transcribe
                    },
                    Some(sources[i].short()),
                    stream,
                ),
        )
    } else {
        seq![run_session(cfg, sources, run.mode, None, stream)]
    }
}

/// The sessions of a run: one per source in separate mode, otherwise one fed by
/// a mix.
///
/// Only the first source may type, since several streams typing into one cursor
/// interleave into nonsense.
pub fn plan_run(
    cfg: &Config,
    run: &RunOptions,
    sources: Vec<Source>,
    home: &Option<String>,
    here: Platform,
) -> (r: Vec<SessionOptions>)
    ensures
        options_views(r@) == run_sessions(*cfg, *run, sources@, opt_view(*home), here),
{
    let ghost h = opt_view(*home);
    let target = match &run.stream {
        Some(p) => Some(p.clone()),
        None => cfg.stream_path(home, here),
    };
    assert(opt_view(target) == stream_target(opt_view(run.stream), *cfg, h, here));
    let ghost all = sources@;
    let mut out: Vec<SessionOptions> = Vec::new();
    if !run.separate {
        out.push(
            SessionOptions {
                url: cfg.url.clone(),
                token: cfg.token.clone(),
                sources,
                mode: run.mode,
                diarize: cfg.diarize,
                label: None,
                inject: cfg.inject,
                stream: match target {
                    Some(p) => Some((p, run.format)),
                    None => None,
                },
            },
        );
        assert(options_views(out@) =~= run_sessions(*cfg, *run, all, h, here));
        return out;
    }
    let mut i: usize = 0;
    while i < sources.len()
        invariant
            i <= sources@.len(),
            all == sources@,
            run.separate,
            opt_view(target) == stream_target(opt_view(run.stream), *cfg, h, here),
            out@.len() == i,
            forall|j: int|
                0 <= j < i ==> (#[trigger] out@[j])@ == run_sessions(*cfg, *run, all, h, here)[j],
        decreases sources@.len() - i,
    {
        let to = match &target {
            Some(p) => Some((p.clone(), run.format)),
            None => None,
        };
        let label = sources[i].short_label();
        let mut one: Vec<Source> = Vec::new();
        one.push(sources[i].clone());
        assert(one@ =~= seq![sources@[i as int]]);
        let mode = if i == 0 {
            run.mode
        } else {
            OutputMode::Transcribe
        };
        let session = SessionOptions {
            url: cfg.url.clone(),
            token: cfg.token.clone(),
            sources: one,
            mode,
            diarize: cfg.diarize,
            label: Some(label),
            inject: cfg.inject,
            stream: to,
        };
        assert(session@ =~= run_sessions(*cfg, *run, all, h, here)[i as int]);
        out.push(session);
        i += 1;
    }
    assert(options_views(out@) =~= run_sessions(*cfg, *run, all, h, here));
    out
}

/// Merge several concurrent sessions into one view, ordered by time: the same
/// view a daemon has of its own.
pub fn merge_cli_states(states: &[SessionState]) -> (r: SessionState)
    ensures
        r@ == merged(state_views(states@)),
{
    merge_states(states)
}

/// Where a run's transcript is to be saved.
pub struct SaveOptions {
    /// Write it to this file.
    pub to: Option<String>,
    /// Write it to the default transcripts folder.
    pub to_default: bool,
    /// Write one file per source instead of one combined file.
    pub split: bool,
}

/// What a run comes to once every session has ended.
pub struct Ending {
    /// What to print.
    pub print: Option<String>,
    /// The files to write, each a path and what it holds.
    pub files: Vec<(String, String)>,
    /// What the command exits with, when the files could be written.
    pub outcome: Result<(), String>,
}

/// The files a run's transcript is saved as, or why there are none.
pub open spec fn run_files(
    last: StateView,
    save: SaveOptions,
    format: Format,
    dir: Seq<char>,
    stamp: Seq<char>,
    here: Platform,
) -> Result<Seq<(Seq<char>, Seq<char>)>, Seq<char>> {
    let base = match opt_view(save.to) {
        Some(p) => p,
        None => join_of(dir, saved_name(stamp), here),
    };
    let body = rendered(last.segments, last.transcript, format);
    let groups = grouped(last.segments);
    let files = source_files(base, groups, format, here);
    if save.to is None && !save.to_default {
        Ok(Seq::empty())
    } else if save.split {
        if files.len() > 0 {
            Ok(files)
        } else if groups.len() == 0 {
            Err("nothing to save: the transcript is empty"@)
        } else {
            Err("nothing to save: no source produced any text"@)
        }
    } else if is_blank(body) {
        Err("nothing to save: the transcript is empty"@)
    } else {
        Ok(seq![(base, trim_of(body) + "\n"@)])
    }
}

/// Whether a run's ending is the one its last state calls for.
pub open spec fn ends_as(
    last: StateView,
    mode: OutputMode,
    save: SaveOptions,
    format: Format,
    dir: Seq<char>,
    stamp: Seq<char>,
    here: Platform,
    e: Ending,
) -> bool {
    let kept = mode.keeps() && !is_blank(last.transcript);
    let asked = save.to is Some || save.to_default;
    let fault = if kept {
        match run_files(last, save, format, dir, stamp, here) {
            Ok(_) => None,
            Err(why) => Some(why),
        }
    } else if asked {
        Some(
            "--save has nothing to write in "@ + mode.label_of()
                + " mode; use --mode transcribe or both"@,
        )
    } else {
        None
    };
    &&& opt_view(e.print) == (if kept {
        Some(trim_of(last.transcript))
    } else {
        None
    })
    &&& file_views(e.files@) == (if kept && fault is None {
        run_files(last, save, format, dir, stamp, here)->Ok_0
    } else {
        Seq::empty()
    })
    &&& match e.outcome {
        Ok(_) => fault is None && last.error is None,
        Err(why) => Some(why@) == (if fault is Some {
            fault
        } else {
            last.error
        }),
    }
}

fn files_to_write(
    last: &SessionState,
    save: &SaveOptions,
    format: Format,
    dir: &str,
    stamp: &str,
    here: Platform,
) -> (r: Result<Vec<(String, String)>, String>)
    ensures
        match (r, run_files(last@, *save, format, dir@, stamp@, here)) {
            (Ok(v), Ok(f)) => file_views(v@) == f,
            (Err(e), Err(why)) => e@ == why,
            _ => false,
        },
{
    let mut files: Vec<(String, String)> = Vec::new();
    if save.to.is_none() && !save.to_default {
        assert(file_views(files@) =~= Seq::empty());
        return Ok(files);
    }
    let base = match &save.to {
        Some(p) => p.clone(),
        None => {
            let name = save::filename_for(stamp);
            paths::join(dir, name.as_str(), here)
        },
    };
    if save.split {
        return save::save_per_source(base.as_str(), last.segments.as_slice(), format, here);
    }
    match save::save_rendered(last.segments.as_slice(), last.transcript.as_str(), format) {
        Ok(body) => {
            let ghost f = (base@, body@);
            files.push((base, body));
            assert(file_views(files@) =~= seq![f]);
            Ok(files)
        },
        Err(e) => Err(e),
    }
}

/// What a run prints, writes and exits with.
///
/// Saving writes what the window's Save button does, byte for byte. Asking to
/// save in a mode that keeps no transcript is a mistake worth naming rather
/// than silently doing nothing.
pub fn ending(
    last: &SessionState,
    mode: OutputMode,
    save: &SaveOptions,
    format: Format,
    dir: &str,
    stamp: &str,
    here: Platform,
) -> (r: Ending)
    ensures
        ends_as(last@, mode, *save, format, dir@, stamp@, here, r),
{
    let nothing: Vec<(String, String)> = Vec::new();
    assert(file_views(nothing@) =~= Seq::empty());
    let failed: Result<(), String> = match &last.error {
        Some(e) => Err(e.clone()),
        None => Ok(()),
    };
    if mode.keeps_transcript() && !text::blank(last.transcript.as_str()) {
        let print = Some(text::trim(last.transcript.as_str()));
        match files_to_write(last, save, format, dir, stamp, here) {
            Ok(files) => Ending { print, files, outcome: failed },
            Err(e) => Ending { print, files: nothing, outcome: Err(e) },
        }
    } else if save.to.is_some() || save.to_default {
        let mut e = "--save has nothing to write in ".to_owned();
        e.append(mode.label());
        e.append(" mode; use --mode transcribe or both");
        Ending { print: None, files: nothing, outcome: Err(e) }
    } else {
        Ending { print: None, files: nothing, outcome: failed }
    }
}

/// The command that opens a window: the one beside this program when it is
/// there, otherwise whatever is on the path.
pub fn gui_command(beside: &Option<String>, exists: bool) -> (r: String)
    ensures
        r@ == (match opt_view(*beside) {
            Some(p) => if exists {
                p
            } else {
                "syrinx-gui"@
            },
            None => "syrinx-gui"@,
        }),
{
    match beside {
        Some(p) => {
            if exists {
                p.clone()
            } else {
                "syrinx-gui".to_owned()
            }
        },
        None => "syrinx-gui".to_owned(),
    }
}

/// What to say when a file's transcript was asked for in a layout it cannot
/// have: a file is sent far faster than real time, so when its words arrive
/// says nothing about where they are in the recording.
pub fn layout_note(format: Format) -> (r: Option<&'static str>)
    ensures
        match r {
            Some(n) => format == Format::Timestamped && n@
                == "note: timestamps are not available for file transcription; saving as plain"@,
            None => format != Format::Timestamped,
        },
{
    if format == Format::Timestamped {
        Some("note: timestamps are not available for file transcription; saving as plain")
    } else {
        None
    }
}

/// In a run of several sources at most the first one types.
pub proof fn lemma_only_the_first_run_types(
    cfg: Config,
    run: RunOptions,
    sources: Seq<Source>,
    home: Option<Seq<char>>,
    here: Platform,
    i: int,
)
    requires
        0 < i < run_sessions(cfg, run, sources, home, here).len(),
    ensures
        !run_sessions(cfg, run, sources, home, here)[i].mode.types(),
{
}

/// Every source of a run is recorded by exactly one session, in separate mode
/// under its short label.
pub proof fn lemma_every_source_of_a_run_has_a_session(
    cfg: Config,
    run: RunOptions,
    sources: Seq<Source>,
    home: Option<Seq<char>>,
    here: Platform,
)
    ensures
        ({
            let p = run_sessions(cfg, run, sources, home, here);
            if run.separate {
                &&& p.len() == sources.len()
                &&& forall|i: int|
                    0 <= i < p.len() ==> (#[trigger] p[i]).sources == seq![sources[i]]
                        && p[i].label == Some(sources[i].short())
            } else {
                p.len() == 1 && p[0].sources == sources
            }
        }),
{
}

/// A run in which any source failed never comes back as successful.
pub proof fn lemma_a_failed_source_fails_the_run(
    states: Seq<StateView>,
    mode: OutputMode,
    save: SaveOptions,
    format: Format,
    dir: Seq<char>,
    stamp: Seq<char>,
    here: Platform,
    e: Ending,
    i: int,
)
    requires
        0 <= i < states.len(),
        states[i].error is Some,
        ends_as(merged(states), mode, save, format, dir, stamp, here, e),
    ensures
        e.outcome is Err,
{
    lemma_merge_reports_every_failure(states);
}

/// A run that was asked to save writes something or says why it did not.
pub proof fn lemma_a_save_is_never_silent(
    last: StateView,
    mode: OutputMode,
    save: SaveOptions,
    format: Format,
    dir: Seq<char>,
    stamp: Seq<char>,
    here: Platform,
    e: Ending,
)
    requires
        ends_as(last, mode, save, format, dir, stamp, here, e),
        save.to is Some || save.to_default,
    ensures
        e.files@.len() > 0 || e.outcome is Err,
{
    if e.outcome is Ok {
        assert(file_views(e.files@).len() == e.files@.len());
    }
}

/// What the command line spells is what is meant: no two words mean one layout
/// or one mode, and each means the one it is called after.
pub proof fn lemma_flags_mean_what_they_say(f: FormatArg, m: ModeArg)
    ensures
        format_for(f) == Format::Plain <==> f == FormatArg::Plain,
        format_for(f) == Format::Timestamped <==> f == FormatArg::Timestamped,
        format_for(f) == Format::Labelled <==> f == FormatArg::Labelled,
        mode_for(m) == OutputMode::Transcribe <==> m == ModeArg::Transcribe,
        mode_for(m) == OutputMode::Type <==> m == ModeArg::Type,
        mode_for(m) == OutputMode::Both <==> m == ModeArg::Both,
{
}

/// A listing shows a name, padded to a column, and the key to ask for it by.
pub proof fn lemma_a_listing_ends_with_the_key(s: Source)
    ensures
        ({
            let name = display_of(s.name@, shown_detail(s.detail));
            let line = listed_line(s);
            let k: int = line.len() - s.key().len();
            &&& line.subrange(0, 2) == "  "@
            &&& line.subrange(2, 2 + name.len() as int) == name
            &&& line.skip(k) == s.key()
            &&& forall|i: int| 2 + name.len() <= i < k ==> #[trigger] line[i] == ' '
            &&& name.len() <= 52 ==> k == 55
            &&& name.len() > 52 ==> k == 3 + name.len()
        }),
{
    reveal_strlit("  ");
    reveal_strlit(" ");
    let name = display_of(s.name@, shown_detail(s.detail));
    let line = listed_line(s);
    let n: nat = if name.len() < NAME_WIDTH {
        (NAME_WIDTH - name.len()) as nat
    } else {
        0
    };
    let k: int = line.len() - s.key().len();
    assert(line.subrange(0, 2) =~= "  "@);
    assert(line.subrange(2, 2 + name.len() as int) =~= name);
    assert(line.skip(k) =~= s.key());
    assert forall|i: int| 2 + name.len() <= i < k implies #[trigger] line[i] == ' ' by {
        if i < 2 + name.len() + n {
            assert(line[i] == repeated(' ', n)[i - 2 - name.len()]);
        } else {
            assert(line[i] == " "@[0]);
        }
    }
}

/// A listing has a line for every source in its order, and a heading in front
/// of each that is of another kind than the one before it.
pub proof fn lemma_a_listing_is_headed_by_kind(sources: Seq<Source>, s: Source)
    ensures
        sources.len() > 0 && sources.last().kind == s.kind ==> listing(sources.push(s)) == listing(
            sources,
        ) + seq![listed_line(s)],
        sources.len() == 0 || sources.last().kind != s.kind ==> listing(sources.push(s))
            == listing(sources) + seq!["\n"@ + s.kind.label_of() + ":"@, listed_line(s)],
        listing(Seq::empty()).len() == 0,
{
    let all = sources.push(s);
    assert(all.drop_last() =~= sources);
    if sources.len() > 0 {
        assert(all[all.len() - 2] == sources.last());
    }
    if sources.len() > 0 && sources.last().kind == s.kind {
        assert(listing(all) =~= listing(sources) + seq![listed_line(s)]);
    } else {
        assert(listing(all) =~= listing(sources) + seq![
            "\n"@ + s.kind.label_of() + ":"@,
            listed_line(s),
        ]);
    }
}

/// Every source asked for is found in its turn, as the first with its key, or
/// the first key that names none is reported and nothing is recorded.
pub proof fn lemma_what_is_asked_for_is_found(
    keys: Seq<Seq<char>>,
    available: Seq<Source>,
)
    ensures
        match wanted(keys, available) {
            Ok(v) => v.len() == keys.len() && forall|i: int|
                0 <= i < keys.len() ==> available.contains(#[trigger] v[i]) && v[i].key()
                    == keys[i],
            Err(k) => exists|i: int|
                0 <= i < keys.len() && #[trigger] keys[i] == k && (forall|j: int|
                    0 <= j < available.len() ==> (#[trigger] available[j]).key() != k) && wanted(
                    keys.take(i),
                    available,
                ) is Ok,
        },
    decreases keys.len(),
{
    if keys.len() > 0 {
        let before = keys.drop_last();
        lemma_what_is_asked_for_is_found(before, available);
        let p = |s: Source| s.key() == keys.last();
        crate::order::lemma_first_where(available, p);
        match wanted(before, available) {
            Ok(b) => {
                match first_where(available, p) {
                    Some(s) => {
                        let v = b.push(s);
                        assert(wanted(keys, available) == Ok::<Seq<Source>, Seq<char>>(v));
                        assert forall|i: int| 0 <= i < keys.len() implies available.contains(
                            #[trigger] v[i],
                        ) && v[i].key() == keys[i] by {
                            if i < before.len() {
                                assert(v[i] == b[i] && before[i] == keys[i]);
                            }
                        }
                    },
                    None => {
                        let i: int = keys.len() - 1;
                        assert(keys.take(i) =~= before);
                        assert(keys[i] == keys.last());
                        assert forall|j: int| 0 <= j < available.len() implies (
                        #[trigger] available[j]).key() != keys.last() by {
                            assert(!p(available[j]));
                        }
                    },
                }
            },
            Err(k) => {
                let i = choose|i: int|
                    0 <= i < before.len() && #[trigger] before[i] == k && (forall|j: int|
                        0 <= j < available.len() ==> (#[trigger] available[j]).key() != k)
                        && wanted(before.take(i), available) is Ok;
                assert(keys[i] == k);
                assert(keys.take(i) =~= before.take(i));
            },
        }
    }
}

/// Every session of a run dials where the configuration says and streams to the
/// same file: the one asked for, or else the one configured.
pub proof fn lemma_every_session_of_a_run_follows_the_config(
    cfg: Config,
    run: RunOptions,
    sources: Seq<Source>,
    home: Option<Seq<char>>,
    here: Platform,
    i: int,
)
    requires
        0 <= i < run_sessions(cfg, run, sources, home, here).len(),
    ensures
        ({
            let p = run_sessions(cfg, run, sources, home, here)[i];
            &&& p.url == cfg.url@
            &&& p.token == cfg.token@
            &&& p.diarize == cfg.diarize
            &&& p.inject == cfg.inject
            &&& i == 0 ==> p.mode == run.mode
            &&& i > 0 ==> p.mode == OutputMode::Transcribe
            &&& !run.separate ==> p.label is None
            &&& run.stream matches Some(f) ==> p.stream == Some((f@, run.format))
            &&& run.stream is None && cfg.stream_to is None ==> p.stream is None
            &&& run.stream is None ==> (cfg.stream_to matches Some(f) ==> p.stream == Some(
                (expanded(f@, home, here), run.format),
            ))
        }),
{
}

/// A run saves to the file named, or under a fresh name in the directory given,
/// and only when it was asked to; what it saves is its transcript.
pub proof fn lemma_a_run_saves_where_it_was_asked(
    last: StateView,
    save: SaveOptions,
    format: Format,
    dir: Seq<char>,
    stamp: Seq<char>,
    here: Platform,
)
    ensures
        ({
            let r = run_files(last, save, format, dir, stamp, here);
            let body = rendered(last.segments, last.transcript, format);
            let base = match save.to {
                Some(p) => p@,
                None => join_of(dir, saved_name(stamp), here),
            };
            let asked = save.to is Some || save.to_default;
            &&& !asked ==> (r matches Ok(v) && v.len() == 0)
            &&& asked && !save.split && !is_blank(body) ==> (r matches Ok(v) && v.len() == 1
                && v[0].0 == base && v[0].1 == trim_of(body).push('\n'))
            &&& asked && !save.split && is_blank(body) ==> r is Err
            &&& asked && save.split ==> (r matches Ok(v) ==> v.len() > 0 && v == source_files(
                base,
                grouped(last.segments),
                format,
                here,
            ))
            &&& asked && save.split && source_files(
                base,
                grouped(last.segments),
                format,
                here,
            ).len() > 0 ==> r is Ok
        }),
{
    reveal_strlit("\n");
    let body = rendered(last.segments, last.transcript, format);
    assert(trim_of(body) + "\n"@ =~= trim_of(body).push('\n'));
}

/// What a run prints and how it ends: the words it kept, trimmed; and success
/// if and only if no session failed and nothing that was to be saved could not
/// be.
pub proof fn lemma_a_run_prints_what_it_kept(
    last: StateView,
    mode: OutputMode,
    save: SaveOptions,
    format: Format,
    dir: Seq<char>,
    stamp: Seq<char>,
    here: Platform,
    e: Ending,
)
    requires
        ends_as(last, mode, save, format, dir, stamp, here, e),
    ensures
        e.print is Some <==> mode != OutputMode::Type && trim_of(last.transcript).len() > 0,
        e.print matches Some(p) ==> p@ == trim_of(last.transcript),
        save.to is None && !save.to_default ==> e.files@.len() == 0,
        save.to is None && !save.to_default ==> (e.outcome is Ok <==> last.error is None),
        save.to is None && !save.to_default && last.error is Some ==> (e.outcome matches Err(why)
            && Some(why@) == last.error),
        last.error is Some ==> e.outcome is Err,
        e.print is None ==> e.files@.len() == 0,
        e.print is None && (save.to is Some || save.to_default) ==> e.outcome is Err,
{
    assert(file_views(e.files@).len() == e.files@.len());
}

} // verus!
