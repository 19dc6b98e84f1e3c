//! Live level metering for the currently selected source.
//!
//! Runs while idle so a source can be checked before committing to a session.

use crate::audio::mixer::{
    health_row, since, HealthView, SourceHealth, SILENCE, STARVE_AFTER,
};
use crate::audio::source::Source;
use crate::client::session::copy_levels;
use vstd::prelude::*;

verus! {

/// How a preview's device is getting on.
#[derive(Debug, PartialEq, Eq)]
pub enum Opening {
    /// Still opening. A wedged device takes until the capture's own open
    /// timeout gives up on it.
    Pending,
    /// Open, and feeding the levels below.
    Open,
    /// The device would not open, and why.
    Failed(String),
}

/// How long, in nanoseconds, a caller with nothing else to do waits for a
/// device.
///
/// Longer than the capture's own open timeout, so what comes back is the real
/// reason rather than this having given up first.
pub const WAIT_FOR_OPEN: u64 = 15_000_000_000;

/// How many bands a spectrum has.
pub const BANDS: usize = 10;

/// What a caller waiting for a device does next.
pub enum Waiting {
    Ready,
    /// Look again in a moment.
    Again,
    Failed(String),
}

/// A preview: what a source has been heard to deliver.
pub struct Preview {
    levels: Vec<u32>,
    rms: u32,
    last_chunk: u64,
    opening: Opening,
    /// Which source this is metering, so the daemon can tell when to re-point.
    pub source_key: String,
    /// `Source::short_label`, so a meter row can name itself.
    pub label: String,
}

pub struct PreviewView {
    pub levels: Seq<u32>,
    pub rms: u32,
    /// When a chunk last arrived.
    pub last_chunk: u64,
    pub opening: Opening,
    pub source_key: Seq<char>,
    pub label: Seq<char>,
}

impl View for Preview {
    type V = PreviewView;

    closed spec fn view(&self) -> PreviewView {
        PreviewView {
            levels: self.levels@,
            rms: self.rms,
            last_chunk: self.last_chunk,
            opening: self.opening,
            source_key: self.source_key@,
            label: self.label@,
        }
    }
}

impl Preview {
    /// A preview of a source whose device is being opened.
    pub fn start(source: &Source, now: u64) -> (r: Preview)
        ensures
            r@ == (PreviewView {
                levels: Seq::new(BANDS as nat, |i: int| SILENCE),
                rms: SILENCE,
                last_chunk: now,
                opening: Opening::Pending,
                source_key: source.key(),
                label: source.short(),
            }),
    {
        let mut levels: Vec<u32> = Vec::new();
        let mut i: usize = 0;
        while i < BANDS
            invariant
                i <= BANDS,
                levels@ == Seq::new(i as nat, |j: int| SILENCE),
            decreases BANDS - i,
        {
            levels.push(SILENCE);
            assert(levels@ =~= Seq::new((i + 1) as nat, |j: int| SILENCE));
            i += 1;
        }
        Preview {
            levels,
            rms: SILENCE,
            last_chunk: now,
            opening: Opening::Pending,
            source_key: source.stable_key(),
            label: source.short_label(),
        }
    }

    /// What became of the attempt to open the device.
    pub fn opening(&self) -> (r: &Opening)
        ensures
            *r == self@.opening,
    {
        &self.opening
    }

    /// One look at the device, for a caller that has been waiting for it this
    /// long.
    pub fn wait_until_open(&self, waited: u64) -> (r: Waiting)
        ensures
            match self@.opening {
                Opening::Open => r is Ready,
                Opening::Failed(why) => r matches Waiting::Failed(e) && e@ == why@,
                Opening::Pending => if waited >= WAIT_FOR_OPEN {
                    r matches Waiting::Failed(e) && e@
                        == "the audio device did not open within 15s"@
                } else {
                    r is Again
                },
            },
    {
        match &self.opening {
            Opening::Open => Waiting::Ready,
            Opening::Failed(why) => Waiting::Failed(why.clone()),
            Opening::Pending => {
                if waited >= WAIT_FOR_OPEN {
                    Waiting::Failed("the audio device did not open within 15s".to_owned())
                } else {
                    Waiting::Again
                }
            },
        }
    }

    /// Record what became of the attempt to open the device.
    pub fn opened(&mut self, outcome: Result<(), String>)
        ensures
            final(self)@ == (PreviewView {
                opening: match outcome {
                    Ok(_) => Opening::Open,
                    Err(e) => Opening::Failed(e),
                },
                ..old(self)@
            }),
    {
        self.opening = match outcome {
            Ok(_) => Opening::Open,
            Err(e) => Opening::Failed(e),
        };
    }

    /// Record a chunk of audio: its level, and the spectrum up to it.
    pub fn heard(&mut self, now: u64, levels: Vec<u32>, rms: u32)
        ensures
            final(self)@ == (PreviewView {
                levels: levels@,
                rms,
                last_chunk: now,
                ..old(self)@
            }),
    {
        self.levels = levels;
        self.rms = rms;
        self.last_chunk = now;
    }

    pub fn levels(&self) -> (r: Vec<u32>)
        ensures
            r@ == self@.levels,
    {
        copy_levels(&self.levels)
    }

    pub fn rms(&self) -> (r: u32)
        ensures
            r == self@.rms,
    {
        self.rms
    }

    /// Nothing has arrived from this source for [`STARVE_AFTER`].
    ///
    /// Distinct from a level of zero, which is what a live microphone in a
    /// quiet room reads.
    pub fn silent(&self, now: u64) -> (r: bool)
        ensures
            r == (since(now, self@.last_chunk) >= STARVE_AFTER),
    {
        now.saturating_sub(self.last_chunk) >= STARVE_AFTER
    }

    /// This source as a meter row.
    pub fn health(&self, now: u64) -> (r: SourceHealth)
        ensures
            health_row(r) == (HealthView {
                label: self@.label,
                rms: self@.rms,
                silent: since(now, self@.last_chunk) >= STARVE_AFTER,
                dropped: 0,
                error: None,
            }),
    {
        SourceHealth {
            label: self.label.clone(),
            rms: self.rms,
            silent: self.silent(now),
            dropped: 0,
            error: None,
        }
    }
}

/// How long, in nanoseconds, a viewer counts as watching after it last asked.
pub const VIEWER_TIMEOUT: u64 = 3_000_000_000;

/// Whether anybody is watching.
pub open spec fn is_watched(last_viewer: Option<u64>, now: u64) -> bool {
    last_viewer matches Some(t) && since(now, t) < VIEWER_TIMEOUT
}

pub fn watched(last_viewer: Option<u64>, now: u64) -> (r: bool)
    ensures
        r == is_watched(last_viewer, now),
{
    match last_viewer {
        Some(t) => now.saturating_sub(t) < VIEWER_TIMEOUT,
        None => false,
    }
}

/// A viewer counts as watching for three seconds after it last asked, and one
/// that never asked does not.
pub proof fn lemma_a_viewer_watches_for_a_while(last: u64, now: u64)
    ensures
        !is_watched(None, now),
        is_watched(Some(last), now) <==> now < last + 3_000_000_000,
{
}

} // verus!
