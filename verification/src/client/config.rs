//! Shared client configuration.
//!
//! One file for every front-end. The command line and the window want the same
//! server and token, and making the user write them twice invites them to
//! diverge.

use crate::client::hotkey::PORTABILITY_NOTE;
use crate::client::inject::{lemma_method_names_differ, Method};
use crate::client::mode::{lemma_mode_names_differ, OutputMode};
use crate::client::save::{lemma_format_names_differ, Format};
use crate::paths::{self, is_same_path, join_of};
use crate::platform::Platform;
use crate::text::{
    self, begins, byte_len, debug_of, decimal, ends, is_blank, joined, lemma_byte_len_add,
    lemma_occurs_inside, lemma_occurs_itself, lemma_words, occurs_in,
    opt_view, repeated, split_of, texts, trim_of, words_of,
};
use crate::toml_doc::{
    self, blank, document, document_text, entries, parsed_document, reads_back, same_around,
    DocumentView, TomlView,
};
use vstd::prelude::*;

verus! {

#[derive(Debug, PartialEq, Eq)]
pub struct Config {
    /// The address to dial, used exactly as written.
    ///
    /// Nothing is inferred: no scheme, no port, no path. What is in the file is
    /// what gets dialled. `server` is accepted as a name for the same setting.
    pub url: String,
    pub token: String,
    /// Remembered source, as a `Source::stable_key`. Node ids change between
    /// runs, so a key is stored rather than an id.
    pub source_key: Option<String>,
    pub mode: OutputMode,
    /// Ask the server for anonymous speaker labels in transcribe mode.
    pub diarize: bool,
    /// How text is typed at the cursor.
    pub inject: Method,
    /// Append the transcript to this file while it is being dictated.
    pub stream_to: Option<String>,
    /// Layout for saved and streamed transcripts.
    pub format: Format,
    /// Global hotkey that starts and stops dictation, e.g. `ctrl+alt+d`.
    pub hotkey: Option<String>,
    /// waybar realtime signal for the status indicator.
    pub waybar_signal: u8,
}

impl Clone for Config {
    fn clone(&self) -> (r: Config)
        ensures
            r == *self,
    {
        Config {
            url: self.url.clone(),
            token: self.token.clone(),
            source_key: self.source_key.clone(),
            mode: self.mode,
            diarize: self.diarize,
            inject: self.inject,
            stream_to: self.stream_to.clone(),
            format: self.format,
            hotkey: self.hotkey.clone(),
            waybar_signal: self.waybar_signal,
        }
    }
}

/// A configuration, as plain values.
#[verifier::ext_equal]
pub struct ConfigView {
    pub url: Seq<char>,
    pub token: Seq<char>,
    pub source_key: Option<Seq<char>>,
    pub mode: OutputMode,
    pub diarize: bool,
    pub inject: Method,
    pub stream_to: Option<Seq<char>>,
    pub format: Format,
    pub hotkey: Option<Seq<char>>,
    pub waybar_signal: u8,
}

impl View for Config {
    type V = ConfigView;

    open spec fn view(&self) -> ConfigView {
        ConfigView {
            url: self.url@,
            token: self.token@,
            source_key: opt_view(self.source_key),
            mode: self.mode,
            diarize: self.diarize,
            inject: self.inject,
            stream_to: opt_view(self.stream_to),
            format: self.format,
            hotkey: opt_view(self.hotkey),
            waybar_signal: self.waybar_signal,
        }
    }
}

pub open spec fn url_by_default() -> Seq<char> {
    "ws://127.0.0.1:8770/v1/stream"@
}

pub fn default_url() -> (r: String)
    ensures
        r@ == url_by_default(),
{
    "ws://127.0.0.1:8770/v1/stream".to_owned()
}

pub fn default_waybar_signal() -> (r: u8)
    ensures
        r == 8,
{
    8
}

/// A config file as it was written: the token, which every file has, and
/// whatever else it says. The address may stand under either of its names.
pub struct Written {
    pub url: Option<String>,
    pub token: String,
    pub source_key: Option<String>,
    pub mode: Option<OutputMode>,
    pub diarize: Option<bool>,
    pub inject: Option<Method>,
    pub stream_to: Option<String>,
    pub format: Option<Format>,
    pub hotkey: Option<String>,
    pub waybar_signal: Option<u8>,
}

/// The settings a file comes to: what it says, and the default wherever it says
/// nothing.
pub open spec fn settings_of(w: Written) -> ConfigView {
    ConfigView {
        url: match w.url {
            Some(u) => u@,
            None => url_by_default(),
        },
        token: w.token@,
        source_key: opt_view(w.source_key),
        mode: match w.mode {
            Some(m) => m,
            None => OutputMode::Type,
        },
        diarize: match w.diarize {
            Some(d) => d,
            None => false,
        },
        inject: match w.inject {
            Some(i) => i,
            None => Method::Auto,
        },
        stream_to: opt_view(w.stream_to),
        format: match w.format {
            Some(f) => f,
            None => Format::Plain,
        },
        hotkey: opt_view(w.hotkey),
        waybar_signal: match w.waybar_signal {
            Some(n) => n,
            None => 8,
        },
    }
}

impl Config {
    /// The settings of a file, with the default for each one it leaves out.
    pub fn from_written(w: Written) -> (r: Config)
        ensures
            r@ == settings_of(w),
    {
        Config {
            url: match w.url {
                Some(u) => u,
                None => default_url(),
            },
            token: w.token,
            source_key: w.source_key,
            mode: match w.mode {
                Some(m) => m,
                None => OutputMode::default(),
            },
            diarize: match w.diarize {
                Some(d) => d,
                None => false,
            },
            inject: match w.inject {
                Some(i) => i,
                None => Method::default(),
            },
            stream_to: w.stream_to,
            format: match w.format {
                Some(f) => f,
                None => Format::default(),
            },
            hotkey: w.hotkey,
            waybar_signal: match w.waybar_signal {
                Some(n) => n,
                None => default_waybar_signal(),
            },
        }
    }
}

// ---------------------------------------------------------------------------
// Paths
// ---------------------------------------------------------------------------

/// `s` without the separators it starts with.
pub open spec fn unrooted(s: Seq<char>) -> Seq<char>
    decreases s.len(),
{
    if s.len() > 0 && (s[0] == '/' || s[0] == '\\') {
        unrooted(s.skip(1))
    } else {
        s
    }
}

/// A path with a leading `~` made the home directory, where that is known.
pub open spec fn expanded(path: Seq<char>, home: Option<Seq<char>>, here: Platform) -> Seq<char> {
    if path.len() == 0 || path[0] != '~' {
        path
    } else {
        match home {
            Some(h) => if unrooted(path.skip(1)).len() == 0 {
                h
            } else {
                join_of(h, unrooted(path.skip(1)), here)
            },
            None => path,
        }
    }
}

/// Expand a leading `~` to the home directory.
///
/// Done here rather than left to the shell: this value comes from a config
/// file and from a text box, neither of which a shell has touched, and a
/// literal `~` directory is never what was meant.
pub fn expand_tilde(path: &str, home: &Option<String>, here: Platform) -> (r: String)
    ensures
        r@ == expanded(path@, opt_view(*home), here),
{
    let v = text::chars_of(path);
    if v.len() == 0 || v[0] != '~' {
        return path.to_owned();
    }
    let mut i: usize = 1;
    while i < v.len() && (v[i] == '/' || v[i] == '\\')
        invariant
            1 <= i <= v@.len(),
            unrooted(v@.skip(1)) == unrooted(v@.skip(i as int)),
        decreases v@.len() - i,
    {
        assert(v@.skip(i as int)[0] == v@[i as int]);
        assert(v@.skip(i as int).skip(1) == v@.skip(i + 1));
        i += 1;
    }
    assert(i < v@.len() ==> v@.skip(i as int)[0] == v@[i as int]);
    assert(v@.subrange(i as int, v@.len() as int) == v@.skip(i as int));
    match home {
        Some(h) => {
            if i == v.len() {
                h.clone()
            } else {
                let rest = text::string_from(&v, i, v.len());
                paths::join(h.as_str(), rest.as_str(), here)
            }
        },
        None => path.to_owned(),
    }
}

/// What the environment says about where configuration lives.
pub struct ConfigPlaces {
    /// `XDG_CONFIG_HOME`.
    pub xdg: Option<String>,
    /// `APPDATA`.
    pub appdata: Option<String>,
    /// `USERPROFILE`.
    pub profile: Option<String>,
    /// `HOME`.
    pub home: Option<String>,
}

/// Where per-user config lives: what was asked for first, then the platform's
/// own place.
pub open spec fn base_of(places: ConfigPlaces, here: Platform) -> Seq<char> {
    if places.xdg is Some {
        places.xdg->0@
    } else if here == Platform::Windows {
        if places.appdata is Some {
            places.appdata->0@
        } else {
            let p = match opt_view(places.profile) {
                Some(p) => p,
                None => "."@,
            };
            join_of(join_of(p, "AppData"@, here), "Roaming"@, here)
        }
    } else {
        let h = match opt_view(places.home) {
            Some(h) => h,
            None => "."@,
        };
        join_of(h, ".config"@, here)
    }
}

pub fn config_base(places: &ConfigPlaces, here: Platform) -> (r: String)
    ensures
        r@ == base_of(*places, here),
{
    if let Some(d) = &places.xdg {
        return d.clone();
    }
    if here == Platform::Windows {
        if let Some(d) = &places.appdata {
            return d.clone();
        }
        let p = match &places.profile {
            Some(p) => p.clone(),
            None => ".".to_owned(),
        };
        let a = paths::join(p.as_str(), "AppData", here);
        return paths::join(a.as_str(), "Roaming", here);
    }
    let h = match &places.home {
        Some(h) => h.clone(),
        None => ".".to_owned(),
    };
    paths::join(h.as_str(), ".config", here)
}

impl Config {
    /// Where to stream the transcript, with `~` expanded.
    pub fn stream_path(&self, home: &Option<String>, here: Platform) -> (r: Option<String>)
        ensures
            opt_view(r) == (match opt_view(self.stream_to) {
                Some(p) => Some(expanded(p, opt_view(*home), here)),
                None => None,
            }),
    {
        match &self.stream_to {
            Some(p) => Some(expand_tilde(p.as_str(), home, here)),
            None => None,
        }
    }

    pub open spec fn home_file(base: Seq<char>, here: Platform) -> Seq<char> {
        join_of(base, "syrinx/config.toml"@, here)
    }

    /// Canonical location.
    pub fn default_path(base: &str, here: Platform) -> (r: String)
        ensures
            r@ == Config::home_file(base@, here),
    {
        paths::join(base, "syrinx/config.toml", here)
    }
}

// ---------------------------------------------------------------------------
// Checking
// ---------------------------------------------------------------------------

/// What is wrong with an address, if anything; `u` is already trimmed.
pub open spec fn url_fault(u: Seq<char>) -> Option<Seq<char>> {
    if u.len() == 0 {
        Some("is empty"@)
    } else if !begins(u, "ws://"@) && !begins(u, "wss://"@) {
        Some(
            "is "@ + debug_of(u)
                + ", which has no ws:// or wss:// scheme. Write the whole address, e.g. \"ws://192.168.1.10:8770/v1/stream\""@,
        )
    } else {
        let rest = if begins(u, "ws://"@) {
            u.skip(5)
        } else {
            u.skip(6)
        };
        if rest.len() == 0 || rest[0] == '/' {
            Some("is "@ + debug_of(u) + ", which names no host"@)
        } else {
            None
        }
    }
}

/// Reject an address that cannot possibly work, without rewriting it.
///
/// The value is used exactly as given, so this only says no -- it never
/// substitutes. Catching it here means a typo is reported against the config
/// file rather than surfacing later as a connection failure.
pub fn check_url(url: &str) -> (r: Result<(), String>)
    ensures
        match r {
            Ok(_) => url_fault(trim_of(url@)) is None,
            Err(e) => url_fault(trim_of(url@)) == Some(e@),
        },
{
    proof {
        reveal_strlit("ws://");
        reveal_strlit("wss://");
    }
    let u = text::trim(url);
    let v = text::chars_of(u.as_str());
    if v.len() == 0 {
        return Err("is empty".to_owned());
    }
    let plain: bool = text::starts_with(u.as_str(), "ws://");
    let secure: bool = text::starts_with(u.as_str(), "wss://");
    if !plain && !secure {
        let mut e = "is ".to_owned();
        let q = text::debug_text(u.as_str());
        e.append(q.as_str());
        e.append(
            ", which has no ws:// or wss:// scheme. Write the whole address, e.g. \"ws://192.168.1.10:8770/v1/stream\"",
        );
        return Err(e);
    }
    let at: usize = if plain {
        5
    } else {
        6
    };
    assert(at < v@.len() ==> u@.skip(at as int)[0] == v@[at as int]);
    if v.len() == at || v[at] == '/' {
        let mut e = "is ".to_owned();
        let q = text::debug_text(u.as_str());
        e.append(q.as_str());
        e.append(", which names no host");
        return Err(e);
    }
    Ok(())
}

/// A complete, valid config.
///
/// Shown whole rather than as the one field at fault, because a snippet reads
/// as "the file should contain this" and gets pasted over a working file.
pub const EXAMPLE_HINT: &'static str = "A complete config looks like this -- every field but `token` is optional,\nbut the file must contain all of the ones you want:\n\n    url = \"ws://127.0.0.1:8770/v1/stream\"\n    token = \"your-shared-token\"\n    inject = \"wtype\"        # or \"ydotool\" for Electron apps, or \"paste\"\n    mode = \"transcribe\"     # or \"type\", or \"both\"";

/// The places a config is looked for, best first.
pub open spec fn places_of(explicit: Option<Seq<char>>, base: Seq<char>, here: Platform) -> Seq<Seq<char>> {
    match explicit {
        Some(p) => seq![p],
        None => seq![
            Config::home_file(base, here),
            join_of(base, "parakeet/config.toml"@, here),
            join_of(base, "parakeet-type/config.toml"@, here),
            join_of(base, "syrinx-gui/config.toml"@, here),
        ],
    }
}

/// What became of reading one of the places a config is looked for.
pub enum ReadOutcome {
    /// There is no file there.
    Missing,
    /// It could not be read, and why.
    Failed(String),
    /// It is no config, and why.
    Invalid(String),
    Found(Config),
}

/// What looking for a config came to.
pub enum Loaded {
    /// The config to use, where it was, and whether that is the place configs
    /// belong.
    Ready { config: Config, path: String, canonical: bool },
    Refused(String),
    /// There is none anywhere: write the template to this path and say so.
    FirstRun { path: String, message: String },
}

/// Why a config that was read cannot be used.
pub open spec fn config_fault(c: Config, path: Seq<char>) -> Option<Seq<char>> {
    if url_fault(trim_of(c.url@)) is Some {
        Some("`url` in "@ + path + " "@ + url_fault(trim_of(c.url@))->0)
    } else if is_blank(c.token@) {
        Some(
            "`token` is empty in "@ + path
                + ".\n\nSet it to the same value as `token` in the server's config.toml, then run again."@,
        )
    } else {
        None
    }
}

/// Whether `l` is what a config found at `path` comes to.
pub open spec fn settled(
    o: ReadOutcome,
    path: Seq<char>,
    home: Seq<char>,
    here: Platform,
    l: Loaded,
) -> bool {
    match o {
        ReadOutcome::Missing => false,
        ReadOutcome::Failed(why) => l matches Loaded::Refused(e) && e@ == "reading "@ + path
            + ": "@ + why@,
        ReadOutcome::Invalid(why) => l matches Loaded::Refused(e) && e@ == "the config at "@ + path
            + " is not valid: "@ + why@ + "\n\n"@ + EXAMPLE_HINT@,
        ReadOutcome::Found(c) => match config_fault(c, path) {
            Some(f) => l matches Loaded::Refused(e) && e@ == f,
            None => l matches Loaded::Ready { config, path: p, canonical } && config == c && p@
                == path && canonical == is_same_path(path, home, here),
        },
    }
}

fn settle(o: &ReadOutcome, path: &str, home: &str, here: Platform) -> (r: Loaded)
    requires
        !(*o is Missing),
    ensures
        settled(*o, path@, home@, here, r),
{
    match o {
        ReadOutcome::Missing => Loaded::Refused(String::new()),
        ReadOutcome::Failed(why) => {
            let mut e = "reading ".to_owned();
            e.append(path);
            e.append(": ");
            e.append(why.as_str());
            Loaded::Refused(e)
        },
        ReadOutcome::Invalid(why) => {
            let mut e = "the config at ".to_owned();
            e.append(path);
            e.append(" is not valid: ");
            e.append(why.as_str());
            e.append("\n\n");
            e.append(EXAMPLE_HINT);
            Loaded::Refused(e)
        },
        ReadOutcome::Found(c) => {
            if let Err(fault) = check_url(c.url.as_str()) {
                let mut e = "`url` in ".to_owned();
                e.append(path);
                e.append(" ");
                e.append(fault.as_str());
                return Loaded::Refused(e);
            }
            if text::blank(c.token.as_str()) {
                let mut e = "`token` is empty in ".to_owned();
                e.append(path);
                e.append(
                    ".\n\nSet it to the same value as `token` in the server's config.toml, then run again.",
                );
                return Loaded::Refused(e);
            }
            Loaded::Ready {
                config: c.clone(),
                path: path.to_owned(),
                canonical: paths::same_path(path, home, here),
            }
        },
    }
}

impl Config {
    /// Where to look for a config: where it was asked for, or in the canonical
    /// place and then the per-program ones.
    pub fn candidates(explicit: &Option<String>, base: &str, here: Platform) -> (r: Vec<String>)
        ensures
            texts(r@) == places_of(opt_view(*explicit), base@, here),
    {
        let mut v: Vec<String> = Vec::new();
        match explicit {
            Some(p) => {
                v.push(p.clone());
                assert(texts(v@) =~= seq![p@]);
            },
            None => {
                v.push(Config::default_path(base, here));
                v.push(paths::join(base, "parakeet/config.toml", here));
                v.push(paths::join(base, "parakeet-type/config.toml", here));
                v.push(paths::join(base, "syrinx-gui/config.toml", here));
                assert(texts(v@) =~= places_of(None, base@, here));
            },
        }
        v
    }

    /// Settle on a config, given what became of reading each place in turn.
    ///
    /// The first place that holds anything decides. With nothing anywhere, a
    /// config that was asked for is an error, and otherwise a documented one is
    /// to be written.
    pub fn load(
        explicit: &Option<String>,
        base: &str,
        here: Platform,
        outcomes: &Vec<ReadOutcome>,
    ) -> (r: Loaded)
        ensures
            ({
                let places = places_of(opt_view(*explicit), base@, here);
                let home = Config::home_file(base@, here);
                let n = if outcomes@.len() < places.len() {
                    outcomes@.len()
                } else {
                    places.len()
                };
                ||| exists|i: int|
                    0 <= i < n && !((#[trigger] outcomes@[i]) is Missing) && (forall|j: int|
                        0 <= j < i ==> (#[trigger] outcomes@[j]) is Missing) && settled(
                        outcomes@[i],
                        places[i],
                        home,
                        here,
                        r,
                    )
                ||| (forall|j: int| 0 <= j < n ==> (#[trigger] outcomes@[j]) is Missing)
                    && match *explicit {
                    Some(_) => r matches Loaded::Refused(e) && e@ == "no config at "@ + home,
                    None => r matches Loaded::FirstRun { path, message } && path@ == home
                        && message@ == "No config existed, so a documented one was written to:\n  "@
                        + home
                        + "\n\nSet `token` to match the server's token, then run again. Every other setting is already at its default, and the file lists the values each one accepts."@,
                }
            }),
    {
        let places = Config::candidates(explicit, base, here);
        let home = Config::default_path(base, here);
        let mut i: usize = 0;
        while i < places.len() && i < outcomes.len()
            invariant
                i <= places@.len(),
                i <= outcomes@.len(),
                texts(places@) == places_of(opt_view(*explicit), base@, here),
                home@ == Config::home_file(base@, here),
                forall|j: int| 0 <= j < i ==> (#[trigger] outcomes@[j]) is Missing,
            decreases places@.len() - i,
        {
            let missing: bool = match &outcomes[i] {
                ReadOutcome::Missing => true,
                _ => false,
            };
            if !missing {
                assert(texts(places@)[i as int] == places@[i as int]@);
                return settle(&outcomes[i], places[i].as_str(), home.as_str(), here);
            }
            i += 1;
        }
        if explicit.is_some() {
            let mut e = "no config at ".to_owned();
            e.append(home.as_str());
            return Loaded::Refused(e);
        }
        let mut message = "No config existed, so a documented one was written to:\n  ".to_owned();
        message.append(home.as_str());
        message.append(
            "\n\nSet `token` to match the server's token, then run again. Every other setting is already at its default, and the file lists the values each one accepts.",
        );
        Loaded::FirstRun { path: home, message }
    }
}

// ---------------------------------------------------------------------------
// Saving
// ---------------------------------------------------------------------------

/// The name the address goes by in a document: `server` only where a document
/// uses that and nothing else.
pub open spec fn url_key(m: Map<Seq<char>, TomlView>) -> Seq<char> {
    if m.contains_key("server"@) && !m.contains_key("url"@) {
        "server"@
    } else {
        "url"@
    }
}

/// `m` with a setting that may be unset.
pub open spec fn with_optional(
    m: Map<Seq<char>, TomlView>,
    key: Seq<char>,
    value: Option<Seq<char>>,
) -> Map<Seq<char>, TomlView> {
    match value {
        Some(v) => m.insert(key, TomlView::Text(v)),
        None => m.remove(key),
    }
}

/// What a document holds once a config has been written into it.
pub open spec fn with_settings(m: Map<Seq<char>, TomlView>, c: Config) -> Map<
    Seq<char>,
    TomlView,
> {
    let fixed = m.insert(url_key(m), TomlView::Text(c.url@)).insert(
        "token"@,
        TomlView::Text(c.token@),
    ).insert("mode"@, TomlView::Text(c.mode.name_of())).insert(
        "diarize"@,
        TomlView::Flag(c.diarize),
    ).insert("inject"@, TomlView::Text(c.inject.name_of())).insert(
        "format"@,
        TomlView::Text(c.format.name_of()),
    ).insert("waybar_signal"@, TomlView::Number(c.waybar_signal as i64));
    with_optional(
        with_optional(
            with_optional(fixed, "source_key"@, opt_view(c.source_key)),
            "stream_to"@,
            opt_view(c.stream_to),
        ),
        "hotkey"@,
        opt_view(c.hotkey),
    )
}

/// Write a key, or remove it entirely when there is no value.
///
/// A setting put back to nothing has to lose its line, or the old value comes
/// back on the next load.
fn set_or_remove(doc: &mut toml_edit::DocumentMut, key: &str, value: &Option<String>)
    ensures
        entries(*final(doc)) == with_optional(entries(*old(doc)), key@, opt_view(*value)),
        same_around(document(*old(doc)), document(*final(doc)), key@),
        value is Some && document(*old(doc)).notes.contains_key(key@) ==> document(
            *final(doc),
        ).notes.contains_key(key@) && document(*final(doc)).notes[key@] == document(
            *old(doc),
        ).notes[key@],
        reads_back(*old(doc)) ==> reads_back(*final(doc)),
{
    match value {
        Some(v) => toml_doc::set_text(doc, key, v.as_str()),
        None => toml_doc::remove(doc, key),
    }
}

/// The document a config is written into, to begin with: the text that is there
/// if it is a document, else the template.
pub open spec fn starting_document(existing: Option<Seq<char>>) -> DocumentView {
    let there = match existing {
        Some(t) => parsed_document(t),
        None => None,
    };
    match there {
        Some(d) => d,
        None => match parsed_document(template_of()) {
            Some(d) => d,
            None => blank(),
        },
    }
}

/// Whether writing a config down takes this key out of the file.
pub open spec fn is_unset(c: Config, key: Seq<char>) -> bool {
    ||| key == "source_key"@ && c.source_key is None
    ||| key == "stream_to"@ && c.stream_to is None
    ||| key == "hotkey"@ && c.hotkey is None
}

/// Whether what stands around the settings of `before` stands around those of
/// `after`, but for what stood before a setting that is unset.
pub open spec fn layout_kept(before: DocumentView, after: DocumentView, c: Config) -> bool {
    &&& forall|k: Seq<char>|
        !is_unset(c, k) && #[trigger] before.notes.contains_key(k) ==> after.notes.contains_key(k)
            && after.notes[k] == before.notes[k]
    &&& after.closing == before.closing
}

impl Config {
    /// Edit this config's settings into a document, keeping everything else.
    pub fn write_into(&self, doc: &mut toml_edit::DocumentMut)
        ensures
            entries(*final(doc)) == with_settings(entries(*old(doc)), *self),
            layout_kept(document(*old(doc)), document(*final(doc)), *self),
            reads_back(*old(doc)) ==> reads_back(*final(doc)),
    {
        if toml_doc::has(doc, "server") && !toml_doc::has(doc, "url") {
            toml_doc::set_text(doc, "server", self.url.as_str());
        } else {
            toml_doc::set_text(doc, "url", self.url.as_str());
        }
        toml_doc::set_text(doc, "token", self.token.as_str());
        toml_doc::set_text(doc, "mode", self.mode.name());
        toml_doc::set_flag(doc, "diarize", self.diarize);
        toml_doc::set_text(doc, "inject", self.inject.name());
        toml_doc::set_text(doc, "format", self.format.name());
        toml_doc::set_number(doc, "waybar_signal", self.waybar_signal as i64);
        set_or_remove(doc, "source_key", &self.source_key);
        set_or_remove(doc, "stream_to", &self.stream_to);
        set_or_remove(doc, "hotkey", &self.hotkey);
    }

    /// The text of the config file with this config written into it, given what
    /// the file holds now.
    ///
    /// Values are edited into the existing document, so the comments and blank
    /// lines before each setting survive, as do those at the end of the file.
    /// Only a file that does not exist, or is no TOML at all, is written from the
    /// template. A comment behind a value goes with the value, and what stands
    /// before a setting that is unset goes with the setting.
    pub fn save(&self, existing: &Option<String>) -> (r: String)
        ensures
            exists|doc: toml_edit::DocumentMut|
                #![trigger document_text(doc)]
                entries(doc) == with_settings(
                    starting_document(opt_view(*existing)).entries,
                    *self,
                ) && layout_kept(starting_document(opt_view(*existing)), document(doc), *self)
                    && r@ == document_text(doc),
            parsed_document(r@) matches Some(v) && v.entries == with_settings(
                starting_document(opt_view(*existing)).entries,
                *self,
            ),
            forall|k: Seq<char>|
                #[trigger] starting_document(opt_view(*existing)).notes.contains_key(k)
                    && !is_unset(*self, k) ==> occurs_in(
                    starting_document(opt_view(*existing)).notes[k],
                    r@,
                ),
            ends(r@, starting_document(opt_view(*existing)).closing),
    {
        let there = match existing {
            Some(t) => toml_doc::parse(t.as_str()),
            None => None,
        };
        let mut doc = match there {
            Some(d) => d,
            None => {
                let t = template();
                match toml_doc::parse(t.as_str()) {
                    Some(d) => d,
                    None => toml_doc::empty(),
                }
            },
        };
        self.write_into(&mut doc);
        toml_doc::print(&doc)
    }
}

proof fn lemma_setting_names_differ()
    ensures
        ({
            let names = seq![
                "url"@,
                "server"@,
                "token"@,
                "mode"@,
                "diarize"@,
                "inject"@,
                "format"@,
                "waybar_signal"@,
                "source_key"@,
                "stream_to"@,
                "hotkey"@,
            ];
            names.no_duplicates()
        }),
{
    reveal_strlit("url");
    reveal_strlit("server");
    reveal_strlit("token");
    reveal_strlit("mode");
    reveal_strlit("diarize");
    reveal_strlit("inject");
    reveal_strlit("format");
    reveal_strlit("waybar_signal");
    reveal_strlit("source_key");
    reveal_strlit("stream_to");
    reveal_strlit("hotkey");
    let names = seq![
        "url"@,
        "server"@,
        "token"@,
        "mode"@,
        "diarize"@,
        "inject"@,
        "format"@,
        "waybar_signal"@,
        "source_key"@,
        "stream_to"@,
        "hotkey"@,
    ];
    assert("server"@[0] == 's' && "source_key"@[1] == 'o' && "stream_to"@[1] == 't'
        && "server"@[1] == 'e');
    assert("format"@[0] == 'f');
    assert("inject"@[0] == 'i');
    assert("token"@[0] == 't');
    assert("url"@[0] == 'u');
    assert("mode"@[0] == 'm');
    assert("diarize"@[0] == 'd');
    assert("waybar_signal"@[0] == 'w');
    assert("hotkey"@[0] == 'h');
    assert("source_key"@[0] == 's' && "stream_to"@[0] == 's');
    assert forall|i: int, j: int| 0 <= i < names.len() && 0 <= j < names.len() && i != j implies
        names[i] != names[j] by {}
}

/// Every setting survives a save: each is found in the saved document under its
/// name, and one that is unset is not found at all.
pub proof fn lemma_every_setting_is_saved(m: Map<Seq<char>, TomlView>, c: Config)
    ensures
        ({
            let after = with_settings(m, c);
            &&& after[url_key(m)] == TomlView::Text(c.url@) && after.contains_key(url_key(m))
            &&& after["token"@] == TomlView::Text(c.token@) && after.contains_key("token"@)
            &&& after["mode"@] == TomlView::Text(c.mode.name_of()) && after.contains_key("mode"@)
            &&& after["diarize"@] == TomlView::Flag(c.diarize) && after.contains_key("diarize"@)
            &&& after["inject"@] == TomlView::Text(c.inject.name_of()) && after.contains_key(
                "inject"@,
            )
            &&& after["format"@] == TomlView::Text(c.format.name_of()) && after.contains_key(
                "format"@,
            )
            &&& after["waybar_signal"@] == TomlView::Number(c.waybar_signal as i64)
                && after.contains_key("waybar_signal"@)
            &&& after.contains_key("source_key"@) == (c.source_key is Some)
            &&& c.source_key is Some ==> after["source_key"@] == TomlView::Text(c.source_key->0@)
            &&& after.contains_key("stream_to"@) == (c.stream_to is Some)
            &&& c.stream_to is Some ==> after["stream_to"@] == TomlView::Text(c.stream_to->0@)
            &&& after.contains_key("hotkey"@) == (c.hotkey is Some)
            &&& c.hotkey is Some ==> after["hotkey"@] == TomlView::Text(c.hotkey->0@)
        }),
{
    lemma_setting_names_differ();
    let names = seq![
        "url"@,
        "server"@,
        "token"@,
        "mode"@,
        "diarize"@,
        "inject"@,
        "format"@,
        "waybar_signal"@,
        "source_key"@,
        "stream_to"@,
        "hotkey"@,
    ];
    assert forall|i: int, j: int| 0 <= i < 11 && 0 <= j < 11 && i != j implies names[i]
        != names[j] by {}
    assert(names[0] == "url"@ && names[1] == "server"@ && names[2] == "token"@ && names[3]
        == "mode"@ && names[4] == "diarize"@ && names[5] == "inject"@ && names[6] == "format"@
        && names[7] == "waybar_signal"@ && names[8] == "source_key"@ && names[9] == "stream_to"@
        && names[10] == "hotkey"@);
}

/// Saving touches nothing but the settings: whatever else a document holds, it
/// still holds.
pub proof fn lemma_save_keeps_everything_else(
    m: Map<Seq<char>, TomlView>,
    c: Config,
    key: Seq<char>,
)
    requires
        key != url_key(m),
        key != "token"@,
        key != "mode"@,
        key != "diarize"@,
        key != "inject"@,
        key != "format"@,
        key != "waybar_signal"@,
        key != "source_key"@,
        key != "stream_to"@,
        key != "hotkey"@,
    ensures
        with_settings(m, c).contains_key(key) == m.contains_key(key),
        m.contains_key(key) ==> with_settings(m, c)[key] == m[key],
{
}

/// The text a document holds under a key, if it holds one there.
pub open spec fn text_at(m: Map<Seq<char>, TomlView>, key: Seq<char>) -> Option<Seq<char>> {
    if m.contains_key(key) {
        match m[key] {
            TomlView::Text(t) => Some(t),
            _ => None,
        }
    } else {
        None
    }
}

/// Whether `w` is what a document says: each setting under its name, the address
/// under the one of its two names that the document uses.
pub open spec fn written_in(w: Written, m: Map<Seq<char>, TomlView>) -> bool {
    &&& !(m.contains_key("url"@) && m.contains_key("server"@))
    &&& opt_view(w.url) == (if m.contains_key("server"@) {
        text_at(m, "server"@)
    } else {
        text_at(m, "url"@)
    })
    &&& text_at(m, "token"@) == Some(w.token@)
    &&& opt_view(w.source_key) == text_at(m, "source_key"@)
    &&& opt_view(w.stream_to) == text_at(m, "stream_to"@)
    &&& opt_view(w.hotkey) == text_at(m, "hotkey"@)
    &&& match w.mode {
        Some(x) => text_at(m, "mode"@) == Some(x.name_of()),
        None => !m.contains_key("mode"@),
    }
    &&& match w.inject {
        Some(x) => text_at(m, "inject"@) == Some(x.name_of()),
        None => !m.contains_key("inject"@),
    }
    &&& match w.format {
        Some(x) => text_at(m, "format"@) == Some(x.name_of()),
        None => !m.contains_key("format"@),
    }
    &&& match w.diarize {
        Some(x) => m.contains_key("diarize"@) && m["diarize"@] == TomlView::Flag(x),
        None => !m.contains_key("diarize"@),
    }
    &&& match w.waybar_signal {
        Some(x) => m.contains_key("waybar_signal"@) && m["waybar_signal"@] == TomlView::Number(
            x as i64,
        ),
        None => !m.contains_key("waybar_signal"@),
    }
}

/// Every setting survives a save and a load: whatever a file held before, what
/// is read back of the saved one is the config that was saved.
pub proof fn lemma_a_save_is_read_back(m: Map<Seq<char>, TomlView>, c: Config, w: Written)
    requires
        written_in(w, with_settings(m, c)),
    ensures
        settings_of(w) == c@,
{
    lemma_every_setting_is_saved(m, c);
    lemma_mode_names_differ();
    lemma_method_names_differ();
    lemma_format_names_differ();
    lemma_setting_names_differ();
    let after = with_settings(m, c);
    assert(after.contains_key(url_key(m)));
    if url_key(m) == "server"@ {
        assert(text_at(after, "server"@) == Some(c.url@));
    } else {
        assert(text_at(after, "url"@) == Some(c.url@));
    }
    assert(w.mode->0.name_of() == c.mode.name_of());
    assert(w.inject->0.name_of() == c.inject.name_of());
    assert(w.format->0.name_of() == c.format.name_of());
    assert(opt_view(w.source_key) == opt_view(c.source_key));
    assert(opt_view(w.stream_to) == opt_view(c.stream_to));
    assert(opt_view(w.hotkey) == opt_view(c.hotkey));
}

/// A config that was saved is the one that is loaded: where the file at `path`
/// held no document, or one that was a config, and `read` is what the saved file
/// says, settling on it gives back every setting, as long as the saved config
/// was one that can be used.
pub proof fn lemma_a_saved_config_is_loaded(
    existing: Option<Seq<char>>,
    saved: Config,
    text: Seq<char>,
    w: Written,
    read: Config,
    path: Seq<char>,
    home: Seq<char>,
    here: Platform,
    l: Loaded,
)
    requires
        config_fault(saved, path) is None,
        parsed_document(text) matches Some(v) && v.entries == with_settings(
            starting_document(existing).entries,
            saved,
        ) && written_in(w, v.entries),
        read@ == settings_of(w),
        settled(ReadOutcome::Found(read), path, home, here, l),
    ensures
        l matches Loaded::Ready { config, path: p, canonical } && config@ == saved@ && p@ == path,
{
    lemma_a_save_is_read_back(starting_document(existing).entries, saved, w);
}

// ---------------------------------------------------------------------------
// The template
// ---------------------------------------------------------------------------

/// How wide a wrapped comment may be, in bytes.
pub const WIDTH: u64 = 74;

/// Words filled into lines: each goes on the line before it while there is
/// room.
pub open spec fn filled(words: Seq<Seq<char>>) -> Seq<Seq<char>>
    decreases words.len(),
{
    if words.len() == 0 {
        Seq::empty()
    } else {
        let l = filled(words.drop_last());
        let w = words.last();
        if l.len() == 0 || byte_len(l.last()) + 1 + byte_len(w) > WIDTH {
            l.push(w)
        } else {
            l.drop_last().push(l.last() + " "@ + w)
        }
    }
}

/// Lines as comments.
pub open spec fn commented(lines: Seq<Seq<char>>) -> Seq<char>
    decreases lines.len(),
{
    if lines.len() == 0 {
        Seq::empty()
    } else {
        commented(lines.drop_last()) + ("# "@ + lines.last() + "\n"@)
    }
}

/// A paragraph as comment lines.
pub open spec fn paragraph_of(para: Seq<Seq<char>>) -> Seq<char> {
    commented(filled(words_of(joined(para, " "@))))
}

/// A text being wrapped: what has been written, and the paragraph being
/// gathered.
pub struct Wrapping {
    pub out: Seq<char>,
    pub para: Seq<Seq<char>>,
}

/// What is written once the paragraph being gathered is finished.
pub open spec fn flushed(w: Wrapping) -> Seq<char> {
    if w.para.len() == 0 {
        w.out
    } else {
        w.out + paragraph_of(w.para)
    }
}

pub open spec fn is_indented(line: Seq<char>) -> bool {
    line.len() > 0 && (line[0] == ' ' || line[0] == '\t')
}

/// One more line of a text being wrapped: a blank line ends the paragraph, and
/// an indented one is passed through as it is.
pub open spec fn wrap_line(w: Wrapping, line: Seq<char>) -> Wrapping {
    if is_blank(line) {
        Wrapping { out: flushed(w) + "#\n"@, para: Seq::empty() }
    } else if is_indented(line) {
        Wrapping { out: flushed(w) + ("#    "@ + trim_of(line) + "\n"@), para: Seq::empty() }
    } else {
        Wrapping { out: w.out, para: w.para.push(line) }
    }
}

pub open spec fn wrap_lines(lines: Seq<Seq<char>>) -> Wrapping
    decreases lines.len(),
{
    if lines.len() == 0 {
        Wrapping { out: Seq::empty(), para: Seq::empty() }
    } else {
        wrap_line(wrap_lines(lines.drop_last()), lines.last())
    }
}

/// The lines of a text; a newline at the end starts no line of its own.
pub open spec fn text_lines(s: Seq<char>) -> Seq<Seq<char>> {
    let l = split_of(s, '\n');
    if l.last().len() == 0 {
        l.drop_last()
    } else {
        l
    }
}

/// A text as comment lines that fit in a terminal.
pub open spec fn wrapped(text: Seq<char>) -> Seq<char> {
    flushed(wrap_lines(text_lines(text)))
}

fn fill(words: &Vec<String>) -> (r: Vec<String>)
    requires
        forall|i: int| 0 <= i < words@.len() ==> (#[trigger] words@[i])@.len() > 0,
    ensures
        texts(r@) == filled(texts(words@)),
{
    let ghost all = texts(words@);
    let mut lines: Vec<String> = Vec::new();
    let mut line = String::new();
    let mut i: usize = 0;
    assert(texts(lines@) == filled(all.take(0)));
    while i < words.len()
        invariant
            i <= words@.len(),
            all == texts(words@),
            i == 0 ==> texts(lines@) == filled(all.take(0)) && line@ == Seq::<char>::empty(),
            i > 0 ==> texts(lines@).push(line@) == filled(all.take(i as int)),
        decreases words@.len() - i,
    {
        assert(all.take(i + 1).drop_last() == all.take(i as int));
        let w = &words[i];
        assert(all.take(i + 1).last() == w@);
        if i == 0 {
            line = w.clone();
            assert(texts(lines@).push(line@) == filled(all.take(1)));
        } else {
            let a: u64 = text::bytes_up_to(line.as_str(), 1000);
            let b: u64 = text::bytes_up_to(w.as_str(), 1000);
            let ghost l = filled(all.take(i as int));
            assert(l.last() == line@);
            assert(l.drop_last() == texts(lines@));
            if a + 1 + b > WIDTH {
                let ghost was = lines@;
                let ghost full = line@;
                lines.push(line);
                assert(texts(lines@) == texts(was).push(full));
                line = w.clone();
            } else {
                line.append(" ");
                line.append(w.as_str());
            }
        }
        i += 1;
    }
    assert(all.take(i as int) == all);
    if i > 0 {
        let ghost was = lines@;
        let ghost full = line@;
        lines.push(line);
        assert(texts(lines@) == texts(was).push(full));
    }
    lines
}

fn flush(para: &Vec<String>, out: &mut String)
    ensures
        final(out)@ == flushed(Wrapping { out: old(out)@, para: texts(para@) }),
{
    if para.len() == 0 {
        return;
    }
    let ghost before = out@;
    let joined_text = text::join(para, " ");
    let words = text::words(joined_text.as_str());
    proof {
        lemma_words(joined_text@);
        assert forall|i: int| 0 <= i < words@.len() implies (#[trigger] words@[i])@.len() > 0 by {
            assert(texts(words@)[i] == words@[i]@);
        }
    }
    let lines = fill(&words);
    let ghost all = texts(lines@);
    let mut i: usize = 0;
    assert(before + commented(all.take(0)) == before);
    while i < lines.len()
        invariant
            i <= lines@.len(),
            all == texts(lines@),
            out@ == before + commented(all.take(i as int)),
        decreases lines@.len() - i,
    {
        assert(all.take(i + 1).drop_last() == all.take(i as int));
        let mut l = "# ".to_owned();
        l.append(lines[i].as_str());
        l.append("\n");
        out.append(l.as_str());
        assert(before + commented(all.take(i + 1)) == before + commented(all.take(i as int)) + (
        "# "@ + lines@[i as int]@ + "\n"@));
        i += 1;
    }
    assert(all.take(i as int) == all);
}

/// Wrap prose into `#` comment lines that fit in a terminal.
///
/// Indented lines are passed through unwrapped: they are examples meant to be
/// copied, and reflowing a config line would break it.
pub fn comment_wrap(text: &str) -> (r: String)
    ensures
        r@ == wrapped(text@),
{
    let mut lines = text::split(text, '\n');
    let ghost whole = split_of(text@, '\n');
    proof {
        text::lemma_split_nonempty(text@, '\n');
        assert(texts(lines@).last() == lines@[lines@.len() - 1]@);
    }
    if text::chars_of(lines[lines.len() - 1].as_str()).len() == 0 {
        let ghost was = lines@;
        let dropped = lines.pop();
        assert(texts(lines@) == texts(was).drop_last());
    }
    let ghost all = texts(lines@);
    assert(all == text_lines(text@));
    let mut out = String::new();
    let mut para: Vec<String> = Vec::new();
    let mut i: usize = 0;
    assert(texts(para@) == Seq::<Seq<char>>::empty());
    assert(all.take(0) == Seq::<Seq<char>>::empty());
    while i < lines.len()
        invariant
            i <= lines@.len(),
            all == texts(lines@),
            wrap_lines(all.take(i as int)) == (Wrapping { out: out@, para: texts(para@) }),
        decreases lines@.len() - i,
    {
        assert(all.take(i + 1).drop_last() == all.take(i as int));
        let raw = &lines[i];
        assert(all.take(i + 1).last() == raw@);
        let v = text::chars_of(raw.as_str());
        if text::blank(raw.as_str()) {
            flush(&para, &mut out);
            out.append("#\n");
            para = Vec::new();
            assert(texts(para@) == Seq::<Seq<char>>::empty());
        } else if v.len() > 0 && (v[0] == ' ' || v[0] == '\t') {
            flush(&para, &mut out);
            let mut l = "#    ".to_owned();
            let t = text::trim(raw.as_str());
            l.append(t.as_str());
            l.append("\n");
            out.append(l.as_str());
            para = Vec::new();
            assert(texts(para@) == Seq::<Seq<char>>::empty());
        } else {
            let ghost was = para@;
            para.push(raw.clone());
            assert(texts(para@) == texts(was).push(raw@));
        }
        i += 1;
    }
    assert(all.take(i as int) == all);
    flush(&para, &mut out);
    out
}

/// A wrapped line fits, unless it is a single word that cannot.
pub proof fn lemma_filled_lines_fit(words: Seq<Seq<char>>, i: int)
    requires
        0 <= i < filled(words).len(),
    ensures
        byte_len(filled(words)[i]) <= WIDTH || words.contains(filled(words)[i]),
    decreases words.len(),
{
    reveal_strlit(" ");
    if words.len() > 0 {
        let d = words.drop_last();
        let l = filled(d);
        let w = words.last();
        let u = filled(words);
        if l.len() == 0 || byte_len(l.last()) + 1 + byte_len(w) > WIDTH {
            if i < l.len() {
                lemma_filled_lines_fit(d, i);
                assert(u[i] == l[i]);
                if d.contains(l[i]) {
                    let k = choose|k: int| 0 <= k < d.len() && d[k] == l[i];
                    assert(words[k] == l[i]);
                }
            } else {
                assert(u[i] == words[words.len() - 1]);
            }
        } else if i < l.len() - 1 {
            lemma_filled_lines_fit(d, i);
            assert(u[i] == l[i]);
            if d.contains(l[i]) {
                let k = choose|k: int| 0 <= k < d.len() && d[k] == l[i];
                assert(words[k] == l[i]);
            }
        } else {
            lemma_byte_len_add(l.last() + " "@, w);
            lemma_byte_len_add(l.last(), " "@);
            assert(" "@.drop_last() == Seq::<char>::empty());
            assert(byte_len(" "@) == 1) by {
                reveal_with_fuel(byte_len, 2);
            }
        }
    }
}

/// The spaces that line descriptions up in a column.
pub open spec fn padding(name: Seq<char>) -> Seq<char> {
    repeated(
        ' ',
        if byte_len(name) < 12 {
            (12 - byte_len(name)) as nat
        } else {
            0
        },
    )
}

/// Pad a quoted value so the `--` descriptions line up in a column.
pub fn pad(name: &str) -> (r: String)
    ensures
        r@ == padding(name@),
{
    let n: u64 = text::bytes_up_to(name, 12);
    text::repeat(' ', (12 - n) as usize)
}

/// One value a setting accepts, documented.
pub open spec fn option_line(name: Seq<char>, summary: Seq<char>) -> Seq<char> {
    "#   \""@ + name + "\""@ + padding(name) + " -- "@ + summary + "\n"@
}

fn option_text(name: &str, summary: &str) -> (r: String)
    ensures
        r@ == option_line(name@, summary@),
{
    let mut s = "#   \"".to_owned();
    s.append(name);
    s.append("\"");
    let p = pad(name);
    s.append(p.as_str());
    s.append(" -- ");
    s.append(summary);
    s.append("\n");
    s
}

pub open spec fn mode_line(m: OutputMode) -> Seq<char> {
    option_line(m.name_of(), m.summary_of())
}

pub open spec fn method_line(m: Method) -> Seq<char> {
    option_line(m.name_of(), m.summary_of())
}

pub open spec fn format_line(f: Format) -> Seq<char> {
    option_line(f.name_of(), f.summary_of())
}

pub open spec fn mode_lines() -> Seq<char> {
    mode_line(OutputMode::Transcribe) + mode_line(OutputMode::Type) + mode_line(OutputMode::Both)
}

pub open spec fn method_lines() -> Seq<char> {
    method_line(Method::Auto) + method_line(Method::Wtype) + method_line(Method::Ydotool)
        + method_line(Method::Paste) + method_line(Method::SendInput)
}

pub open spec fn format_lines() -> Seq<char> {
    format_line(Format::Plain) + format_line(Format::Timestamped) + format_line(Format::Labelled)
}

fn mode_text() -> (r: String)
    ensures
        r@ == mode_lines(),
{
    let mut s = option_text(OutputMode::Transcribe.name(), OutputMode::Transcribe.summary());
    let b = option_text(OutputMode::Type.name(), OutputMode::Type.summary());
    s.append(b.as_str());
    let c = option_text(OutputMode::Both.name(), OutputMode::Both.summary());
    s.append(c.as_str());
    s
}

fn method_text() -> (r: String)
    ensures
        r@ == method_lines(),
{
    let mut s = option_text(Method::Auto.name(), Method::Auto.summary());
    let b = option_text(Method::Wtype.name(), Method::Wtype.summary());
    s.append(b.as_str());
    let c = option_text(Method::Ydotool.name(), Method::Ydotool.summary());
    s.append(c.as_str());
    let d = option_text(Method::Paste.name(), Method::Paste.summary());
    s.append(d.as_str());
    let e = option_text(Method::SendInput.name(), Method::SendInput.summary());
    s.append(e.as_str());
    s
}

fn format_text() -> (r: String)
    ensures
        r@ == format_lines(),
{
    let mut s = option_text(Format::Plain.name(), Format::Plain.summary());
    let b = option_text(Format::Timestamped.name(), Format::Timestamped.summary());
    s.append(b.as_str());
    let c = option_text(Format::Labelled.name(), Format::Labelled.summary());
    s.append(c.as_str());
    s
}

/// The template up to the modes.
pub open spec fn template_opening() -> Seq<char> {
    "# Syrinx client configuration.\n#\n# Written automatically because no config existed. Every setting below is\n# at its default except `token`, which has no sensible default.\n# Delete any line to go back to the default.\n\n"@
        + wrapped(
        "The address to dial, used exactly as written: scheme, host, port and path. Nothing is inferred. Behind TLS this is the public name and the port is left off, because wss means 443 -- for example wss://dictate.example.com/v1/stream"@,
    ) + "url = \""@ + url_by_default() + "\"\n\n"@
        + "# Shared secret, matching `token` in the server's config.toml.\n# Required: the server refuses a session without it.\n"@
        + "token = \"\"\n\n"@ + "# What to do with the text that comes back.\n"@
}

/// The template between the modes and the typing methods.
pub open spec fn template_after_modes() -> Seq<char> {
    "mode = \"type\"\n\n"@ + wrapped(
        "Ask the server for anonymous speaker labels (Speaker 1, Speaker 2, ...) on the transcript, for telling meeting participants apart. Only applies to \"transcribe\" mode, and needs a server with diarization models installed -- the server says in its handshake whether labels will come."@,
    ) + "diarize = false\n\n"@
        + "# How text is typed at the cursor, for the modes above that type.\n"@
}

/// The template between the typing methods and the layouts.
pub open spec fn template_after_methods() -> Seq<char> {
    "inject = \"auto\"\n\n"@ + wrapped(PORTABILITY_NOTE@) + "# hotkey = \"ctrl+alt+d\"\n\n"@
        + wrapped(
        "Append the transcript to this file as it is dictated, rather than only saving at the end. Every session appends to the same file, so stopping and starting continues where you left off, and a crash costs the last sentence rather than the whole session."@,
    ) + "# stream_to = \"~/transcripts/notes.txt\"\n\n"@
        + "# Layout for saved and streamed transcripts.\n"@
}

/// The template after the layouts.
pub open spec fn template_ending() -> Seq<char> {
    "format = \"plain\"\n\n"@
        + "# Capture source to use, as printed by `syrinx sources`.\n# Left unset, syrinx asks or uses the default input.\n# source_key = \"...\"\n\n"@
        + "# Realtime signal number for the waybar status indicator.\n"@
        + "# Linux only; ignored elsewhere.\n"@ + "waybar_signal = "@ + decimal(8) + "\n"@
}

/// The starter config.
pub open spec fn template_of() -> Seq<char> {
    template_opening() + mode_lines() + template_after_modes() + method_lines()
        + template_after_methods() + format_lines() + template_ending()
}

fn opening_text() -> (r: String)
    ensures
        r@ == template_opening(),
{
    let mut s =
        "# Syrinx client configuration.\n#\n# Written automatically because no config existed. Every setting below is\n# at its default except `token`, which has no sensible default.\n# Delete any line to go back to the default.\n\n".to_owned();
    let note = comment_wrap(
        "The address to dial, used exactly as written: scheme, host, port and path. Nothing is inferred. Behind TLS this is the public name and the port is left off, because wss means 443 -- for example wss://dictate.example.com/v1/stream",
    );
    s.append(note.as_str());
    s.append("url = \"");
    let url = default_url();
    s.append(url.as_str());
    s.append("\"\n\n");
    s.append(
        "# Shared secret, matching `token` in the server's config.toml.\n# Required: the server refuses a session without it.\n",
    );
    s.append("token = \"\"\n\n");
    s.append("# What to do with the text that comes back.\n");
    s
}

fn after_modes_text() -> (r: String)
    ensures
        r@ == template_after_modes(),
{
    let mut s = "mode = \"type\"\n\n".to_owned();
    let note = comment_wrap(
        "Ask the server for anonymous speaker labels (Speaker 1, Speaker 2, ...) on the transcript, for telling meeting participants apart. Only applies to \"transcribe\" mode, and needs a server with diarization models installed -- the server says in its handshake whether labels will come.",
    );
    s.append(note.as_str());
    s.append("diarize = false\n\n");
    s.append("# How text is typed at the cursor, for the modes above that type.\n");
    s
}

fn after_methods_text() -> (r: String)
    ensures
        r@ == template_after_methods(),
{
    let mut s = "inject = \"auto\"\n\n".to_owned();
    let note = comment_wrap(PORTABILITY_NOTE);
    s.append(note.as_str());
    s.append("# hotkey = \"ctrl+alt+d\"\n\n");
    let stream = comment_wrap(
        "Append the transcript to this file as it is dictated, rather than only saving at the end. Every session appends to the same file, so stopping and starting continues where you left off, and a crash costs the last sentence rather than the whole session.",
    );
    s.append(stream.as_str());
    s.append("# stream_to = \"~/transcripts/notes.txt\"\n\n");
    s.append("# Layout for saved and streamed transcripts.\n");
    s
}

fn ending_text() -> (r: String)
    ensures
        r@ == template_ending(),
{
    let mut s = "format = \"plain\"\n\n".to_owned();
    s.append(
        "# Capture source to use, as printed by `syrinx sources`.\n# Left unset, syrinx asks or uses the default input.\n# source_key = \"...\"\n\n",
    );
    s.append("# Realtime signal number for the waybar status indicator.\n");
    s.append("# Linux only; ignored elsewhere.\n");
    s.append("waybar_signal = ");
    let n = text::decimal_text(default_waybar_signal() as u64);
    s.append(n.as_str());
    s.append("\n");
    s
}

/// The starter config written when none exists.
///
/// **The same on every platform.** Every option is listed with the platform it
/// applies to, and `inject` defaults to `auto` so the default itself needs no
/// platform of its own: one config kept for a desktop and a laptop has to be
/// right on both.
pub fn template() -> (r: String)
    ensures
        r@ == template_of(),
{
    let mut s = opening_text();
    let modes = mode_text();
    s.append(modes.as_str());
    let a = after_modes_text();
    s.append(a.as_str());
    let methods = method_text();
    s.append(methods.as_str());
    let b = after_methods_text();
    s.append(b.as_str());
    let formats = format_text();
    s.append(formats.as_str());
    let c = ending_text();
    s.append(c.as_str());
    s
}

/// A value as a config file spells it.
pub open spec fn quoted(name: Seq<char>) -> Seq<char> {
    "\""@ + name + "\""@
}

proof fn lemma_option_line_names_it(name: Seq<char>, summary: Seq<char>)
    ensures
        occurs_in(quoted(name), option_line(name, summary)),
{
    reveal_strlit("#   \"");
    reveal_strlit("\"");
    lemma_occurs_itself(quoted(name));
    let before = "#   "@;
    reveal_strlit("#   ");
    let after = padding(name) + " -- "@ + summary + "\n"@;
    lemma_occurs_inside(before, quoted(name), after, quoted(name));
    assert("#   \""@ =~= before + "\""@);
    assert(option_line(name, summary) =~= before + quoted(name) + after);
}

/// What occurs in one of a text's variable parts occurs in the text.
proof fn lemma_occurs_in_part(
    a: Seq<char>,
    b: Seq<char>,
    c: Seq<char>,
    d: Seq<char>,
    e: Seq<char>,
    f: Seq<char>,
    g: Seq<char>,
    q: Seq<char>,
)
    requires
        occurs_in(q, b) || occurs_in(q, d) || occurs_in(q, f),
    ensures
        occurs_in(q, a + b + c + d + e + f + g),
{
    let all = a + b + c + d + e + f + g;
    if occurs_in(q, b) {
        lemma_occurs_inside(a, b, c + d + e + f + g, q);
        assert(a + b + (c + d + e + f + g) =~= all);
    } else if occurs_in(q, d) {
        lemma_occurs_inside(a + b + c, d, e + f + g, q);
        assert(a + b + c + d + (e + f + g) =~= all);
    } else {
        lemma_occurs_inside(a + b + c + d + e, f, g, q);
    }
}

proof fn lemma_template_shows(q: Seq<char>)
    requires
        occurs_in(q, mode_lines()) || occurs_in(q, method_lines()) || occurs_in(q, format_lines()),
    ensures
        occurs_in(q, template_of()),
{
    lemma_occurs_in_part(
        template_opening(),
        mode_lines(),
        template_after_modes(),
        method_lines(),
        template_after_methods(),
        format_lines(),
        template_ending(),
        q,
    );
}

/// The template documents every mode there is.
pub proof fn lemma_template_documents_every_mode(m: OutputMode)
    ensures
        occurs_in(quoted(m.name_of()), template_of()),
{
    let q = quoted(m.name_of());
    lemma_option_line_names_it(m.name_of(), m.summary_of());
    let a = mode_line(OutputMode::Transcribe);
    let b = mode_line(OutputMode::Type);
    let c = mode_line(OutputMode::Both);
    let none = Seq::<char>::empty();
    match m {
        OutputMode::Transcribe => {
            lemma_occurs_inside(none, a, b + c, q);
            assert(none + a + (b + c) =~= mode_lines());
        },
        OutputMode::Type => {
            lemma_occurs_inside(a, b, c, q);
        },
        OutputMode::Both => {
            lemma_occurs_inside(a + b, c, none, q);
            assert(a + b + c + none =~= mode_lines());
        },
    }
    lemma_template_shows(q);
}

/// The template documents every way of typing there is, whatever the platform.
pub proof fn lemma_template_documents_every_method(m: Method)
    ensures
        occurs_in(quoted(m.name_of()), template_of()),
{
    let q = quoted(m.name_of());
    lemma_option_line_names_it(m.name_of(), m.summary_of());
    let a = method_line(Method::Auto);
    let b = method_line(Method::Wtype);
    let c = method_line(Method::Ydotool);
    let d = method_line(Method::Paste);
    let e = method_line(Method::SendInput);
    let none = Seq::<char>::empty();
    match m {
        Method::Auto => {
            lemma_occurs_inside(none, a, b + c + d + e, q);
            assert(none + a + (b + c + d + e) =~= method_lines());
        },
        Method::Wtype => {
            lemma_occurs_inside(a, b, c + d + e, q);
            assert(a + b + (c + d + e) =~= method_lines());
        },
        Method::Ydotool => {
            lemma_occurs_inside(a + b, c, d + e, q);
            assert(a + b + c + (d + e) =~= method_lines());
        },
        Method::Paste => {
            lemma_occurs_inside(a + b + c, d, e, q);
        },
        Method::SendInput => {
            lemma_occurs_inside(a + b + c + d, e, none, q);
            assert(a + b + c + d + e + none =~= method_lines());
        },
    }
    lemma_template_shows(q);
}

/// The template documents every layout there is.
pub proof fn lemma_template_documents_every_format(f: Format)
    ensures
        occurs_in(quoted(f.name_of()), template_of()),
{
    let q = quoted(f.name_of());
    lemma_option_line_names_it(f.name_of(), f.summary_of());
    let a = format_line(Format::Plain);
    let b = format_line(Format::Timestamped);
    let c = format_line(Format::Labelled);
    let none = Seq::<char>::empty();
    match f {
        Format::Plain => {
            lemma_occurs_inside(none, a, b + c, q);
            assert(none + a + (b + c) =~= format_lines());
        },
        Format::Timestamped => {
            lemma_occurs_inside(a, b, c, q);
        },
        Format::Labelled => {
            lemma_occurs_inside(a + b, c, none, q);
            assert(a + b + c + none =~= format_lines());
        },
    }
    lemma_template_shows(q);
}

/// A file's own settings are used as they stand, and each one it leaves out has
/// its default.
pub proof fn lemma_what_is_left_out_has_its_default(w: Written)
    ensures
        ({
            let c = settings_of(w);
            &&& c.token == w.token@
            &&& w.url matches Some(x) ==> c.url == x@
            &&& w.source_key matches Some(x) ==> c.source_key == Some(x@)
            &&& w.mode matches Some(x) ==> c.mode == x
            &&& w.diarize matches Some(x) ==> c.diarize == x
            &&& w.inject matches Some(x) ==> c.inject == x
            &&& w.stream_to matches Some(x) ==> c.stream_to == Some(x@)
            &&& w.format matches Some(x) ==> c.format == x
            &&& w.hotkey matches Some(x) ==> c.hotkey == Some(x@)
            &&& w.waybar_signal matches Some(x) ==> c.waybar_signal == x
            &&& w.url is None ==> c.url == "ws://127.0.0.1:8770/v1/stream"@
            &&& w.source_key is None ==> c.source_key is None
            &&& w.mode is None ==> c.mode == OutputMode::Type
            &&& w.diarize is None ==> !c.diarize
            &&& w.inject is None ==> c.inject == Method::Auto
            &&& w.stream_to is None ==> c.stream_to is None
            &&& w.format is None ==> c.format == Format::Plain
            &&& w.hotkey is None ==> c.hotkey is None
            &&& w.waybar_signal is None ==> c.waybar_signal == 8
        }),
{
}

/// Only separators are taken off the front of a path, and all of them are.
pub proof fn lemma_only_separators_are_taken_off(s: Seq<char>)
    ensures
        ({
            let t = unrooted(s);
            let n = s.len() - t.len();
            &&& 0 <= n <= s.len()
            &&& s.skip(n) == t
            &&& forall|i: int| 0 <= i < n ==> #[trigger] s[i] == '/' || s[i] == '\\'
            &&& t.len() > 0 ==> t[0] != '/' && t[0] != '\\'
        }),
    decreases s.len(),
{
    if s.len() > 0 && (s[0] == '/' || s[0] == '\\') {
        let r = s.skip(1);
        lemma_only_separators_are_taken_off(r);
        let t = unrooted(s);
        let n = s.len() - t.len();
        assert(s.skip(n) =~= r.skip(n - 1));
        assert forall|i: int| 0 <= i < n implies #[trigger] s[i] == '/' || s[i] == '\\' by {
            if i > 0 {
                assert(r[i - 1] == s[i]);
            }
        }
    } else {
        assert(s.skip(0) =~= s);
    }
}

/// A path under `~` is that path under the home directory, `~` is the home
/// directory itself, and any other path is left as it is.
pub proof fn lemma_a_tilde_is_the_home(
    rest: Seq<char>,
    path: Seq<char>,
    home: Option<Seq<char>>,
    here: Platform,
)
    requires
        rest.len() > 0,
        rest[0] != '/' && rest[0] != '\\',
    ensures
        home matches Some(h) ==> expanded(seq!['~', '/'] + rest, home, here) == join_of(
            h,
            rest,
            here,
        ) && expanded(seq!['~'], home, here) == h && expanded(seq!['~', '/'], home, here) == h,
        home is None ==> expanded(path, home, here) == path,
        path.len() == 0 || path[0] != '~' ==> expanded(path, home, here) == path,
{
    reveal_with_fuel(unrooted, 3);
    let under = seq!['~', '/'] + rest;
    assert(under.skip(1) =~= seq!['/'] + rest);
    assert((seq!['/'] + rest).skip(1) =~= rest);
    assert(seq!['~'].skip(1) =~= Seq::<char>::empty());
    assert(seq!['~', '/'].skip(1) =~= seq!['/']);
    assert(seq!['/'].skip(1) =~= Seq::<char>::empty());
}

/// Configuration is where `XDG_CONFIG_HOME` says; otherwise where Windows keeps
/// it, or under `.config` in the home directory.
pub proof fn lemma_where_configuration_is(places: ConfigPlaces, here: Platform)
    ensures
        places.xdg matches Some(d) ==> base_of(places, here) == d@,
        places.xdg is None && here == Platform::Windows ==> (places.appdata matches Some(d)
            ==> base_of(places, here) == d@),
        places.xdg is None && here == Platform::Windows && places.appdata is None ==> (
        places.profile matches Some(d) ==> base_of(places, here) == join_of(
            join_of(d@, "AppData"@, here),
            "Roaming"@,
            here,
        )),
        places.xdg is None && here != Platform::Windows ==> (places.home matches Some(d)
            ==> base_of(places, here) == join_of(d@, ".config"@, here)),
{
}

/// An address is accepted if and only if it names a scheme that can be dialled
/// and then a host.
pub proof fn lemma_an_address_has_a_scheme_and_a_host(u: Seq<char>, host: Seq<char>)
    ensures
        host.len() > 0 && host[0] != '/' ==> url_fault("ws://"@ + host) is None && url_fault(
            "wss://"@ + host,
        ) is None,
        host.len() == 0 || host[0] == '/' ==> url_fault("ws://"@ + host) is Some && url_fault(
            "wss://"@ + host,
        ) is Some,
        !begins(u, "ws://"@) && !begins(u, "wss://"@) ==> url_fault(u) is Some,
        url_fault(Seq::empty()) is Some,
{
    reveal_strlit("ws://");
    reveal_strlit("wss://");
    let a = "ws://"@ + host;
    let b = "wss://"@ + host;
    assert("ws://"@.len() == 5 && "wss://"@.len() == 6);
    assert(a.take(5) =~= "ws://"@);
    assert(b.take(6) =~= "wss://"@);
    assert("ws://"@[2] == ':' && "wss://"@[2] == 's');
    assert(b.take(5)[2] == 's');
    assert(a.skip(5) =~= host);
    assert(b.skip(6) =~= host);
}

/// A configuration can be used if and only if its address can and it has a
/// token.
pub proof fn lemma_a_config_needs_an_address_and_a_token(c: Config, path: Seq<char>)
    ensures
        config_fault(c, path) is None <==> url_fault(trim_of(c.url@)) is None && trim_of(
            c.token@,
        ).len() > 0,
        config_fault(c, path) matches Some(why) ==> occurs_in(path, why),
{
    if url_fault(trim_of(c.url@)) is Some {
        let why = "`url` in "@ + path + " "@ + url_fault(trim_of(c.url@))->0;
        let i: int = "`url` in "@.len() as int;
        assert(why.subrange(i, i + path.len()) =~= path);
    } else if is_blank(c.token@) {
        let tail =
            ".\n\nSet it to the same value as `token` in the server's config.toml, then run again."@;
        let why = "`token` is empty in "@ + path + tail;
        let i: int = "`token` is empty in "@.len() as int;
        assert(why.subrange(i, i + path.len()) =~= path);
    }
}

/// A config asked for is looked for where it was asked for and nowhere else;
/// otherwise it is looked for where configs belong before anywhere else.
pub proof fn lemma_where_a_config_is_looked_for(
    explicit: Option<Seq<char>>,
    base: Seq<char>,
    here: Platform,
)
    ensures
        explicit matches Some(p) ==> places_of(explicit, base, here) == seq![p],
        explicit is None ==> places_of(explicit, base, here) == seq![
            join_of(base, "syrinx/config.toml"@, here),
            join_of(base, "parakeet/config.toml"@, here),
            join_of(base, "parakeet-type/config.toml"@, here),
            join_of(base, "syrinx-gui/config.toml"@, here),
        ],
{
}

/// A config that was found and can be used is used as it is, with where it was;
/// any other outcome is a refusal.
pub proof fn lemma_a_usable_config_is_used(
    o: ReadOutcome,
    path: Seq<char>,
    home: Seq<char>,
    here: Platform,
    l: Loaded,
)
    requires
        settled(o, path, home, here, l),
    ensures
        ({
            let usable = o matches ReadOutcome::Found(c) && url_fault(trim_of(c.url@)) is None
                && trim_of(c.token@).len() > 0;
            &&& l is Ready <==> usable
            &&& l is Refused <==> !usable
            &&& l matches Loaded::Ready { config, path: p, canonical } ==> o
                == ReadOutcome::Found(config) && p@ == path && (canonical <==> is_same_path(
                path,
                home,
                here,
            ))
        }),
{
}

/// Filling words into lines drops, adds and moves none of them.
pub proof fn lemma_filling_keeps_every_word(words: Seq<Seq<char>>)
    ensures
        joined(filled(words), " "@) == joined(words, " "@),
        words.len() > 0 ==> filled(words).len() > 0,
    decreases words.len(),
{
    if words.len() > 0 {
        let d = words.drop_last();
        let w = words.last();
        lemma_filling_keeps_every_word(d);
        let l = filled(d);
        if d.len() == 0 {
            assert(l.push(w) =~= seq![w]);
            assert(words =~= seq![w]);
        } else if byte_len(l.last()) + 1 + byte_len(w) > WIDTH {
            assert(l.push(w).drop_last() =~= l);
        } else {
            let f = l.drop_last().push(l.last() + " "@ + w);
            assert(filled(words) == f);
            assert(f.drop_last() =~= l.drop_last());
            if l.len() == 1 {
                assert(joined(f, " "@) =~= l[0] + " "@ + w);
            } else {
                assert(joined(f, " "@) =~= joined(l.drop_last(), " "@) + " "@ + l.last() + " "@
                    + w);
            }
            assert(joined(words, " "@) =~= joined(d, " "@) + " "@ + w);
        }
    }
}

/// A new line is begun only where the old one has no room for what follows.
pub proof fn lemma_lines_are_filled_up(words: Seq<Seq<char>>)
    ensures
        forall|i: int, j: int|
            #![trigger filled(words)[i], filled(words)[j]]
            0 <= i && j == i + 1 && j < filled(words).len() ==> byte_len(filled(words)[i]) + 1
                + byte_len(filled(words)[j]) > 74,
    decreases words.len(),
{
    if words.len() > 0 {
        let d = words.drop_last();
        let w = words.last();
        lemma_lines_are_filled_up(d);
        let l = filled(d);
        let f = filled(words);
        if l.len() == 0 || byte_len(l.last()) + 1 + byte_len(w) > WIDTH {
            assert(f =~= l.push(w));
            assert forall|i: int, j: int|
                #![trigger f[i], f[j]]
                0 <= i && j == i + 1 && j < f.len() implies byte_len(f[i]) + 1 + byte_len(f[j])
                > 74 by {
                if j < l.len() {
                    assert(f[i] == l[i] && f[j] == l[j]);
                } else {
                    assert(f[i] == l.last());
                }
            }
        } else {
            let last = l.last() + " "@ + w;
            lemma_byte_len_add(l.last(), " "@);
            lemma_byte_len_add(l.last() + " "@, w);
            assert(f =~= l.drop_last().push(last));
            assert forall|i: int, j: int|
                #![trigger f[i], f[j]]
                0 <= i && j == i + 1 && j < f.len() implies byte_len(f[i]) + 1 + byte_len(f[j])
                > 74 by {
                assert(f[i] == l[i]);
                assert(byte_len(l[i]) + 1 + byte_len(l[j]) > 74);
                if j < l.len() - 1 {
                    assert(f[j] == l[j]);
                } else {
                    assert(l[j] == l.last());
                }
            }
        }
    }
}

/// Each line becomes a comment of its own, in order.
pub proof fn lemma_each_line_is_a_comment(a: Seq<Seq<char>>, b: Seq<Seq<char>>, line: Seq<char>)
    ensures
        commented(a + b) == commented(a) + commented(b),
        commented(seq![line]) == "# "@ + line + "\n"@,
    decreases b.len(),
{
    reveal_with_fuel(commented, 2);
    if b.len() == 0 {
        assert(a + b =~= a);
        assert(commented(a) + commented(b) =~= commented(a));
    } else {
        assert((a + b).drop_last() =~= a + b.drop_last());
        assert((a + b).last() == b.last());
        lemma_each_line_is_a_comment(a, b.drop_last(), line);
        assert(commented(a + b) =~= commented(a) + commented(b));
    }
    let one = seq![line];
    assert(one.drop_last() =~= Seq::<Seq<char>>::empty());
    assert(commented(one) =~= "# "@ + line + "\n"@);
}

proof fn lemma_wrapping_goes_on(a: Seq<Seq<char>>, mark: Seq<char>, line: Seq<char>, b: Seq<Seq<char>>)
    requires
        wrap_lines(a.push(line)) == (Wrapping {
            out: flushed(wrap_lines(a)) + mark,
            para: Seq::empty(),
        }),
    ensures
        wrap_lines(a.push(line) + b).out == flushed(wrap_lines(a)) + mark + wrap_lines(b).out,
        wrap_lines(a.push(line) + b).para == wrap_lines(b).para,
    decreases b.len(),
{
    let s = a.push(line);
    if b.len() == 0 {
        assert(s + b =~= s);
        assert(wrap_lines(b).out =~= Seq::<char>::empty());
        assert(flushed(wrap_lines(a)) + mark + wrap_lines(b).out =~= flushed(wrap_lines(a)) + mark);
    } else {
        let d = b.drop_last();
        assert((s + b).drop_last() =~= s + d);
        assert((s + b).last() == b.last());
        lemma_wrapping_goes_on(a, mark, line, d);
        let before = flushed(wrap_lines(a)) + mark;
        let x = wrap_lines(s + d);
        let y = wrap_lines(d);
        assert(flushed(x) =~= before + flushed(y));
        assert(wrap_lines(s + b).out =~= before + wrap_lines(b).out);
    }
}

/// A blank line parts paragraphs and stays blank, an indented line stands by
/// itself as it is, and what is before and behind either is wrapped as if the
/// other were not there.
pub proof fn lemma_wrapping_breaks_at_blank_and_indented_lines(
    a: Seq<Seq<char>>,
    line: Seq<char>,
    b: Seq<Seq<char>>,
)
    ensures
        is_blank(line) ==> flushed(wrap_lines(a.push(line) + b)) == flushed(wrap_lines(a)) + "#\n"@
            + flushed(wrap_lines(b)),
        !is_blank(line) && (line[0] == ' ' || line[0] == '\t') ==> flushed(
            wrap_lines(a.push(line) + b),
        ) == flushed(wrap_lines(a)) + ("#    "@ + trim_of(line) + "\n"@) + flushed(wrap_lines(b)),
{
    assert(a.push(line).drop_last() =~= a);
    if is_blank(line) {
        lemma_wrapping_goes_on(a, "#\n"@, line, b);
        assert(flushed(wrap_lines(a.push(line) + b)) =~= flushed(wrap_lines(a)) + "#\n"@ + flushed(
            wrap_lines(b),
        ));
    } else if line.len() > 0 && (line[0] == ' ' || line[0] == '\t') {
        let mark = "#    "@ + trim_of(line) + "\n"@;
        lemma_wrapping_goes_on(a, mark, line, b);
        assert(flushed(wrap_lines(a.push(line) + b)) =~= flushed(wrap_lines(a)) + mark + flushed(
            wrap_lines(b),
        ));
    } else {
        text::lemma_trim_drops_only_white(line);
    }
}

proof fn lemma_plain_lines_gather(lines: Seq<Seq<char>>)
    requires
        forall|i: int|
            0 <= i < lines.len() ==> !is_blank(#[trigger] lines[i]) && lines[i][0] != ' '
                && lines[i][0] != '\t',
    ensures
        wrap_lines(lines).out.len() == 0,
        wrap_lines(lines).para == lines,
    decreases lines.len(),
{
    if lines.len() > 0 {
        let d = lines.drop_last();
        assert forall|i: int| 0 <= i < d.len() implies !is_blank(#[trigger] d[i]) && d[i][0] != ' '
            && d[i][0] != '\t' by {
            assert(d[i] == lines[i]);
        }
        lemma_plain_lines_gather(d);
        assert(lines[lines.len() - 1] == lines.last());
        assert(wrap_lines(lines).para =~= lines);
    }
}

/// Lines of prose are one paragraph: their words, filled into lines anew.
pub proof fn lemma_a_paragraph_is_filled_anew(lines: Seq<Seq<char>>)
    requires
        lines.len() > 0,
        forall|i: int|
            0 <= i < lines.len() ==> !is_blank(#[trigger] lines[i]) && lines[i][0] != ' '
                && lines[i][0] != '\t',
    ensures
        flushed(wrap_lines(lines)) == commented(filled(words_of(joined(lines, " "@)))),
{
    lemma_plain_lines_gather(lines);
    assert(wrap_lines(lines).out =~= Seq::<char>::empty());
    let p = commented(filled(words_of(joined(lines, " "@))));
    assert(Seq::<char>::empty() + p =~= p);
}

/// A text's lines are what stands between its newlines, and one more newline at
/// the very end makes no line.
pub proof fn lemma_lines_are_between_newlines(lines: Seq<Seq<char>>)
    requires
        lines.len() > 0,
        lines.last().len() > 0,
        forall|i: int| 0 <= i < lines.len() ==> !(#[trigger] lines[i]).contains('\n'),
    ensures
        text_lines(joined(lines, seq!['\n'])) == lines,
        text_lines(joined(lines, seq!['\n']).push('\n')) == lines,
{
    text::lemma_joined_parts_split_again(lines, '\n');
    let s = joined(lines, seq!['\n']);
    text::lemma_split_at(s, Seq::empty(), '\n');
    assert(s.push('\n') + Seq::<char>::empty() =~= s.push('\n'));
    assert(split_of(s.push('\n'), '\n').drop_last() =~= lines);
}

/// Descriptions line up: behind a name of any ordinary length they begin in the
/// same column.
pub proof fn lemma_descriptions_line_up(name: Seq<char>, summary: Seq<char>)
    requires
        byte_len(name) == name.len(),
        name.len() <= 12,
    ensures
        ({
            let l = option_line(name, summary);
            &&& l.subrange(0, 4) == "#   "@
            &&& l[4] == '"'
            &&& l.subrange(5, 5 + name.len() as int) == name
            &&& l[5 + name.len() as int] == '"'
            &&& forall|i: int| 6 + name.len() <= i < 18 ==> #[trigger] l[i] == ' '
            &&& l.subrange(18, 22) == " -- "@
            &&& l.skip(22) == summary.push('\n')
        }),
{
    reveal_strlit("#   \"");
    reveal_strlit("#   ");
    reveal_strlit("\"");
    reveal_strlit(" -- ");
    reveal_strlit("\n");
    let l = option_line(name, summary);
    assert("#   \""@.len() == 5 && "#   "@.len() == 4 && "\""@.len() == 1 && " -- "@.len() == 4);
    assert(padding(name).len() == 12 - name.len());
    assert(l.subrange(0, 4) =~= "#   "@);
    assert(l[4] == "#   \""@[4]);
    assert(l.subrange(5, 5 + name.len() as int) =~= name);
    assert(l[5 + name.len() as int] == "\""@[0]);
    assert forall|i: int| 6 + name.len() <= i < 18 implies #[trigger] l[i] == ' ' by {
        assert(l[i] == padding(name)[i - 6 - name.len()]);
    }
    assert(l.subrange(18, 22) =~= " -- "@);
    assert(l.skip(22) =~= summary.push('\n'));
}

/// The address keeps the name a document has for it, and is called `url` where
/// the document has both names or neither.
pub proof fn lemma_the_address_keeps_its_name(m: Map<Seq<char>, TomlView>)
    ensures
        m.contains_key("server"@) && !m.contains_key("url"@) ==> url_key(m) == "server"@,
        m.contains_key("url"@) || !m.contains_key("server"@) ==> url_key(m) == "url"@,
{
}

/// Only the three settings that may be unset lose their lines, and only while
/// they are.
pub proof fn lemma_what_loses_its_line(c: Config, key: Seq<char>)
    ensures
        is_unset(c, key) <==> (key == "source_key"@ && c.source_key is None) || (key
            == "stream_to"@ && c.stream_to is None) || (key == "hotkey"@ && c.hotkey is None),
        c.source_key is Some && c.stream_to is Some && c.hotkey is Some ==> !is_unset(c, key),
        key != "source_key"@ && key != "stream_to"@ && key != "hotkey"@ ==> !is_unset(c, key),
{
}

} // verus!
