//! Headless live dictation: speak, and text appears at the cursor.
//!
//! Runs in live mode, which is append-only by design: the server never asks
//! this client to delete text, because it types into whatever window has focus.

use crate::client::state::{pid_text, pid_text_of};
use crate::paths::{self, join_of};
use crate::platform::Platform;
use crate::proto::{ClientMessage, Encoding, Mode, ServerMessage, SAMPLE_RATE};
use crate::text::{self, opt_view, texts};
use vstd::prelude::*;

verus! {

/// Audio frames queued between capture and the socket. Shallow on purpose: if
/// the network stalls, dropping audio beats drifting further behind real time.
pub const AUDIO_QUEUE_DEPTH: usize = 32;

/// Where the typer's configuration is: the file named, or the usual place under
/// `base`.
pub fn config_path(explicit: &Option<String>, base: &str, here: Platform) -> (r: String)
    ensures
        r@ == (match opt_view(*explicit) {
            Some(p) => p,
            None => join_of(base@, "parakeet-type/config.toml"@, here),
        }),
{
    match explicit {
        Some(p) => p.clone(),
        None => paths::join(base, "parakeet-type/config.toml", here),
    }
}

/// What `status` prints.
pub fn status_line(pid: Option<i32>) -> (r: String)
    ensures
        r@ == (match pid {
            Some(p) => "dictating (pid "@ + pid_text_of(p as int) + ")"@,
            None => "idle"@,
        }),
{
    match pid {
        Some(p) => {
            let mut s = "dictating (pid ".to_owned();
            let n = pid_text(p);
            s.append(n.as_str());
            s.append(")");
            s
        },
        None => "idle".to_owned(),
    }
}

/// Whether `start` may start, given the process that is already dictating.
pub fn may_start(pid: Option<i32>) -> (r: Result<(), String>)
    ensures
        match (r, pid) {
            (Ok(_), None) => true,
            (Err(e), Some(p)) => e@ == "already dictating (pid "@ + pid_text_of(p as int) + ")"@,
            _ => false,
        },
{
    match pid {
        Some(p) => {
            let mut e = "already dictating (pid ".to_owned();
            let n = pid_text(p);
            e.append(n.as_str());
            e.append(")");
            Err(e)
        },
        None => Ok(()),
    }
}

/// The message that opens a session.
pub fn hello() -> (r: ClientMessage)
    ensures
        r == (ClientMessage::SessionStart {
            mode: Mode::Live,
            sample_rate: SAMPLE_RATE,
            encoding: Encoding::PcmS16le,
            language: None,
            vocabulary: None,
            diarize: false,
        }),
{
    ClientMessage::SessionStart {
        mode: Mode::Live,
        sample_rate: SAMPLE_RATE,
        encoding: Encoding::PcmS16le,
        language: None,
        vocabulary: None,
        diarize: false,
    }
}

/// What a message makes the typer do.
#[derive(Debug, PartialEq, Eq)]
pub enum Step {
    /// Type this at the cursor.
    Type(String),
    /// The session is over.
    End,
    /// Live mode is append-only, and the server never sends this.
    Unexpected,
}

pub open spec fn step_of(message: ServerMessage) -> Step {
    match message {
        ServerMessage::TranscriptCommit { text, .. } => Step::Type(text),
        ServerMessage::SessionClosed { .. } => Step::End,
        ServerMessage::Error { .. } => Step::End,
        _ => Step::Unexpected,
    }
}

/// Take one message from the server.
pub fn on_message(message: &ServerMessage) -> (r: Step)
    ensures
        r == step_of(*message),
{
    match message {
        ServerMessage::TranscriptCommit { text, .. } => Step::Type(text.clone()),
        ServerMessage::SessionClosed { .. } => Step::End,
        ServerMessage::Error { .. } => Step::End,
        _ => Step::Unexpected,
    }
}

/// The arguments `wtype` types `text` with; nothing is run for no text.
///
/// `--` keeps text that begins with a dash from being parsed as a flag.
pub fn type_text(text: &str) -> (r: Option<Vec<String>>)
    ensures
        match r {
            None => text@.len() == 0,
            Some(args) => text@.len() > 0 && texts(args@) == seq!["--"@, text@],
        },
{
    if text::chars_of(text).len() == 0 {
        return None;
    }
    let mut args: Vec<String> = Vec::new();
    args.push("--".to_owned());
    args.push(text.to_owned());
    assert(texts(args@) =~= seq!["--"@, text@]);
    Some(args)
}

/// What came of trying to run `wtype`.
pub enum Found {
    Runs,
    Missing,
    /// It could not be tried, and why.
    Failed(String),
}

/// Check `wtype` is present before a session starts, so the failure surfaces up
/// front rather than after the user has already spoken a sentence.
pub fn preflight(found: &Found) -> (r: Result<(), String>)
    ensures
        match *found {
            Found::Runs => r is Ok,
            Found::Missing => r matches Err(e) && e@
                == "wtype not found on PATH; it is required to type on Wayland"@,
            Found::Failed(why) => r matches Err(e) && e@ == "checking for wtype: "@ + why@,
        },
{
    match found {
        Found::Runs => Ok(()),
        Found::Missing => Err(
            "wtype not found on PATH; it is required to type on Wayland".to_owned(),
        ),
        Found::Failed(why) => {
            let mut e = "checking for wtype: ".to_owned();
            e.append(why.as_str());
            Err(e)
        },
    }
}

/// Nothing but committed text is ever typed, and no message makes the typer
/// take text back.
pub proof fn lemma_only_commits_are_typed(message: ServerMessage)
    ensures
        step_of(message) is Type <==> message is TranscriptCommit,
        step_of(message) matches Step::Type(t) ==> t == message->TranscriptCommit_text,
{
}

/// A session ends when the server closes it or fails, and at nothing else.
pub proof fn lemma_what_ends_a_session(message: ServerMessage)
    ensures
        step_of(message) is End <==> message is SessionClosed || message is Error,
{
}

} // verus!
