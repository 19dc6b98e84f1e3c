//! Starting a capture: which backend, asked for what.

use crate::audio::source::{Source, SourceKind, SourceTarget};
use crate::platform::Platform;
use crate::proto::SAMPLE_RATE;
use crate::text::{self, decimal, texts};
use vstd::prelude::*;

verus! {

/// How a source is captured.
pub enum Capture {
    /// `pw-record` reading a node directly.
    PipeWire { node: u32 },
    /// `pw-record` with the node's output ports linked into it.
    Linked { node: u32 },
    /// A device, on the input or the output side.
    Device { name: String, loopback: bool },
}

/// Which capture a source asks for.
///
/// Only a microphone is a source `pw-record` can be pointed at. A sink's
/// monitor and an application's stream are reached by linking their ports.
pub fn start(source: &Source, here: Platform) -> (r: Result<Capture, String>)
    ensures
        match (source.target, r) {
            (SourceTarget::PipeWireNode(id), Ok(c)) => here == Platform::Linux && c == (
            if source.kind == SourceKind::Microphone {
                Capture::PipeWire { node: id }
            } else {
                Capture::Linked { node: id }
            }),
            (SourceTarget::PipeWireNode(id), Err(e)) => here != Platform::Linux && e@
                == "this source came from PipeWire, which is only available on Linux"@,
            (SourceTarget::CpalDevice { name, loopback }, Ok(c)) => c == (Capture::Device {
                name,
                loopback,
            }),
            (SourceTarget::CpalDevice { .. }, Err(_)) => false,
        },
{
    match &source.target {
        SourceTarget::PipeWireNode(id) => {
            if here != Platform::Linux {
                return Err(
                    "this source came from PipeWire, which is only available on Linux".to_owned(),
                );
            }
            match source.kind {
                SourceKind::Microphone => Ok(Capture::PipeWire { node: *id }),
                SourceKind::Monitor => Ok(Capture::Linked { node: *id }),
                SourceKind::Application => Ok(Capture::Linked { node: *id }),
            }
        },
        SourceTarget::CpalDevice { name, loopback } => Ok(
            Capture::Device { name: name.clone(), loopback: *loopback },
        ),
    }
}

/// What `pw-record` is asked for: 16 kHz mono s16 on standard output, with no
/// header to skip. A capture that will be linked targets node zero.
pub fn record_args(target: Option<u32>) -> (r: Vec<String>)
    ensures
        texts(r@) == seq![
            "--target"@,
            decimal(match target {
                Some(n) => n as nat,
                None => 0,
            }),
            "--rate"@,
            decimal(SAMPLE_RATE as nat),
            "--channels"@,
            "1"@,
            "--format"@,
            "s16"@,
            "-"@,
        ],
{
    let node: u32 = match target {
        Some(n) => n,
        None => 0,
    };
    let mut v: Vec<String> = Vec::new();
    v.push("--target".to_owned());
    v.push(text::decimal_text(node as u64));
    v.push("--rate".to_owned());
    v.push(text::decimal_text(SAMPLE_RATE as u64));
    v.push("--channels".to_owned());
    v.push("1".to_owned());
    v.push("--format".to_owned());
    v.push("s16".to_owned());
    v.push("-".to_owned());
    assert(texts(v@) =~= seq![
        "--target"@,
        decimal(node as nat),
        "--rate"@,
        decimal(SAMPLE_RATE as nat),
        "--channels"@,
        "1"@,
        "--format"@,
        "s16"@,
        "-"@,
    ]);
    v
}

/// The `PIPEWIRE_PROPS` that give a capture stream its name.
pub fn capture_props(name: &str) -> (r: String)
    ensures
        r@ == "{ node.name = "@ + name@ + " }"@,
{
    let mut s = "{ node.name = ".to_owned();
    s.append(name);
    s.append(" }");
    s
}

/// How many times a new capture stream is looked for before giving up.
pub const LINK_TRIES: u32 = 40;

/// What one look for a new capture stream came to.
#[derive(Debug, Clone, Copy, PartialEq, Eq, Structural)]
pub enum LinkTry {
    /// The stream is not in the graph yet, or the graph could not be read.
    NotThere,
    /// It is, and its ports were linked.
    Linked,
    /// It is, and linking failed.
    Refused,
}

/// What to do after a look.
#[derive(Debug, Clone, Copy, PartialEq, Eq, Structural)]
pub enum LinkNext {
    Look,
    Record,
    GiveUp,
}

/// What follows the look numbered `tries`, counting from one.
///
/// A stream that has appeared is linked once: a refusal will not be any
/// different for asking again.
pub fn after_try(tries: u32, outcome: LinkTry) -> (r: LinkNext)
    ensures
        r == (match outcome {
            LinkTry::Linked => LinkNext::Record,
            LinkTry::Refused => LinkNext::GiveUp,
            LinkTry::NotThere => if tries < LINK_TRIES {
                LinkNext::Look
            } else {
                LinkNext::GiveUp
            },
        }),
{
    match outcome {
        LinkTry::Linked => LinkNext::Record,
        LinkTry::Refused => LinkNext::GiveUp,
        LinkTry::NotThere => if tries < LINK_TRIES {
            LinkNext::Look
        } else {
            LinkNext::GiveUp
        },
    }
}

/// The error of a capture whose application could not be linked into it.
pub fn link_error(app_node: u32) -> (r: String)
    ensures
        r@ == "could not link application node "@ + decimal(app_node as nat)
            + " into the capture stream"@,
{
    let mut s = "could not link application node ".to_owned();
    let n = text::decimal_text(app_node as u64);
    s.append(n.as_str());
    s.append(" into the capture stream");
    s
}

/// The sample formats a device may deliver.
#[derive(Debug, PartialEq, Eq)]
pub enum SampleFormat {
    F32,
    I16,
    U8,
    Other(String),
}

/// How well a format serves: lower is better, and nothing for a format that
/// cannot be converted. `F32` needs no conversion, `I16` is a cheap divide, and
/// 8-bit audio is a real loss of quality.
pub open spec fn preference(f: SampleFormat) -> Option<int> {
    match f {
        SampleFormat::F32 => Some(0),
        SampleFormat::I16 => Some(1),
        SampleFormat::U8 => Some(2),
        SampleFormat::Other(_) => None,
    }
}

fn prefer(f: &SampleFormat) -> (r: Option<u8>)
    ensures
        match r {
            Some(n) => preference(*f) == Some(n as int),
            None => preference(*f) is None,
        },
{
    match f {
        SampleFormat::F32 => Some(0),
        SampleFormat::I16 => Some(1),
        SampleFormat::U8 => Some(2),
        SampleFormat::Other(_) => None,
    }
}

/// Whether audio in this format can be captured.
pub fn convertible(f: &SampleFormat) -> (r: Result<(), String>)
    ensures
        match (*f, r) {
            (SampleFormat::Other(name), Err(e)) => e@ == "this device captures in "@ + name@
                + ", which syrinx cannot convert"@,
            (SampleFormat::Other(_), Ok(_)) => false,
            (_, Ok(_)) => true,
            (_, Err(_)) => false,
        },
{
    match f {
        SampleFormat::Other(name) => {
            let mut e = "this device captures in ".to_owned();
            e.append(name.as_str());
            e.append(", which syrinx cannot convert");
            Err(e)
        },
        _ => Ok(()),
    }
}

/// A range of sample rates a device offers in one format.
pub struct RateRange {
    pub min: u32,
    pub max: u32,
    pub format: SampleFormat,
}

/// Whether a range can deliver 16 kHz in a format that can be converted.
pub open spec fn serves(r: RateRange) -> bool {
    r.min <= SAMPLE_RATE <= r.max && preference(r.format) is Some
}

/// The range to capture at 16 kHz natively with, if the device offers one.
///
/// Preferred over resampling: no added latency and no quality loss. Of several,
/// the first of those with the best format: devices commonly offer several
/// 16 kHz ranges, and the first may be 8-bit.
pub fn native_16k_config(ranges: &Vec<RateRange>) -> (r: Option<usize>)
    ensures
        match r {
            Some(k) => {
                &&& k < ranges@.len()
                &&& serves(ranges@[k as int])
                &&& forall|j: int|
                    0 <= j < ranges@.len() && serves(#[trigger] ranges@[j]) ==> preference(
                        ranges@[k as int].format,
                    )->0 <= preference(ranges@[j].format)->0
                &&& forall|j: int|
                    0 <= j < k && serves(#[trigger] ranges@[j]) ==> preference(
                        ranges@[k as int].format,
                    )->0 < preference(ranges@[j].format)->0
            },
            None => forall|j: int| 0 <= j < ranges@.len() ==> !serves(#[trigger] ranges@[j]),
        },
{
    let mut best: Option<usize> = None;
    let mut score: u8 = 0;
    let mut i: usize = 0;
    while i < ranges.len()
        invariant
            i <= ranges@.len(),
            match best {
                Some(k) => {
                    &&& k < i
                    &&& serves(ranges@[k as int])
                    &&& preference(ranges@[k as int].format) == Some(score as int)
                    &&& forall|j: int|
                        0 <= j < i && serves(#[trigger] ranges@[j]) ==> score <= preference(
                            ranges@[j].format,
                        )->0
                    &&& forall|j: int|
                        0 <= j < k && serves(#[trigger] ranges@[j]) ==> score < preference(
                            ranges@[j].format,
                        )->0
                },
                None => forall|j: int| 0 <= j < i ==> !serves(#[trigger] ranges@[j]),
            },
        decreases ranges@.len() - i,
    {
        if ranges[i].min <= SAMPLE_RATE && SAMPLE_RATE <= ranges[i].max {
            if let Some(n) = prefer(&ranges[i].format) {
                let better: bool = match best {
                    Some(_) => n < score,
                    None => true,
                };
                if better {
                    best = Some(i);
                    score = n;
                }
            }
        }
        i += 1;
    }
    best
}

/// What came back from opening a device on its own thread.
pub enum Opened {
    Started,
    Failed(String),
    /// The thread ended without saying anything.
    Disconnected,
    /// Nothing was said within the time a device gets to open.
    TimedOut,
}

/// Whether a capture started, and why not.
pub fn opened(outcome: &Opened) -> (r: Result<(), String>)
    ensures
        match (*outcome, r) {
            (Opened::Started, Ok(_)) => true,
            (Opened::Failed(why), Err(e)) => e@ == why@,
            (Opened::Disconnected, Err(e)) => e@
                == "the audio thread stopped before the stream started"@,
            (Opened::TimedOut, Err(e)) => e@ == "the audio device did not open within 10s"@,
            _ => false,
        },
{
    match outcome {
        Opened::Started => Ok(()),
        Opened::Failed(why) => Err(why.clone()),
        Opened::Disconnected => Err(
            "the audio thread stopped before the stream started".to_owned(),
        ),
        Opened::TimedOut => Err("the audio device did not open within 10s".to_owned()),
    }
}

/// A format that needs less conversion is always preferred, and one that cannot
/// be converted never serves.
pub proof fn lemma_better_formats_are_preferred(name: String, r: RateRange)
    ensures
        preference(SampleFormat::F32)->0 < preference(SampleFormat::I16)->0,
        preference(SampleFormat::I16)->0 < preference(SampleFormat::U8)->0,
        preference(SampleFormat::F32) is Some && preference(SampleFormat::I16) is Some
            && preference(SampleFormat::U8) is Some,
        preference(SampleFormat::Other(name)) is None,
        r.format is Other ==> !serves(r),
        r.format !is Other ==> (serves(r) <==> r.min <= 16_000 && 16_000 <= r.max),
{
}

} // verus!
