//! Audio sources: what can be captured, how it is named, and which to use.

use crate::audio::cpal_backend::device_sources;
use crate::audio::graph::nodes_of;
use crate::audio::pipewire::{default_marked, listed};
use crate::audio::source::{source_views, Source, SourceKind, SourceView};
use crate::json::json_list;
use crate::order::{first_where, lemma_first_where, lemma_first_where_at};
use crate::text::{self, opt_view};
use vstd::prelude::*;

pub mod capture;
pub mod cpal_backend;
pub mod graph;
pub mod link;
pub mod mixer;
pub mod pipewire;
pub mod source;

verus! {

/// What a caught panic was about, rendered for a person to read.
///
/// A panic's payload is a `&str` or a `String` when it says anything at all.
pub fn panic_message(literal: Option<&str>, owned: Option<&String>) -> (r: String)
    ensures
        r@ == (match (literal, owned) {
            (Some(s), _) => s@,
            (None, Some(s)) => s@,
            (None, None) => "no message"@,
        }),
{
    if let Some(s) = literal {
        return s.to_owned();
    }
    if let Some(s) = owned {
        return s.clone();
    }
    "no message".to_owned()
}

/// The error a panic inside `what` is reported as.
pub fn caught(what: &str, message: &str) -> (r: String)
    ensures
        r@ == what@ + " panicked: "@ + message@,
{
    let mut s = what.to_owned();
    s.append(" panicked: ");
    s.append(message);
    s
}

/// What a platform reports about its audio, before it is made into sources.
pub enum Listing {
    /// `pw-dump` output, and the default output's node name.
    PipeWire { dump: String, default_sink: Option<String> },
    /// The names of the input and output devices, where a device that would
    /// not describe itself has none.
    Devices { inputs: Vec<Option<String>>, outputs: Vec<Option<String>> },
}

/// Everything capturable on this machine.
///
/// Ordered by kind so a picker groups naturally: microphones, then system
/// audio, then individual applications.
pub fn list_sources(listing: &Listing) -> (r: Result<Vec<Source>, String>)
    ensures
        match listing {
            Listing::PipeWire { dump, default_sink } => match (r, json_list(dump@)) {
                (Ok(v), Ok(objects)) => source_views(v@) == listed(nodes_of(objects)).map_values(
                    |s: SourceView| default_marked(s, opt_view(*default_sink)),
                ),
                (Err(e), Err(why)) => e@ == "parsing pw-dump output: "@ + why,
                _ => false,
            },
            Listing::Devices { inputs, outputs } => r is Ok && source_views(r->Ok_0@)
                == device_sources(inputs@, outputs@),
        },
{
    match listing {
        Listing::PipeWire { dump, default_sink } => pipewire::list_sources(
            dump.as_str(),
            default_sink,
        ),
        Listing::Devices { inputs, outputs } => Ok(cpal_backend::list_sources(inputs, outputs)),
    }
}

/// Re-resolve a remembered source. Node ids and device indices are not stable
/// across restarts, so a saved choice is kept as [`Source::stable_key`] and
/// looked up again here.
pub fn resolve(sources: &[Source], stable_key: &str) -> (r: Option<Source>)
    ensures
        r == first_where(sources@, |s: Source| s.key() == stable_key@),
{
    let ghost p = |s: Source| s.key() == stable_key@;
    let mut i: usize = 0;
    while i < sources.len()
        invariant
            i <= sources@.len(),
            p == (|s: Source| s.key() == stable_key@),
            forall|j: int| 0 <= j < i ==> !p(#[trigger] sources@[j]),
        decreases sources@.len() - i,
    {
        let k = sources[i].stable_key();
        if text::same(k.as_str(), stable_key) {
            proof {
                lemma_first_where_at(sources@, p, i as int);
            }
            return Some(sources[i].clone());
        }
        i += 1;
    }
    proof {
        lemma_first_where_at(sources@, p, i as int);
    }
    None
}

pub open spec fn is_microphone(s: Source) -> bool {
    s.kind == SourceKind::Microphone
}

/// A microphone whose key names the RNNoise filter.
pub open spec fn is_denoised(s: Source) -> bool {
    is_microphone(s) && text::occurs_in("rnnoise"@, s.key())
}

/// The source a session starts with: the remembered one while it exists, then
/// a denoised microphone, then any microphone, then whatever comes first.
pub open spec fn choice(sources: Seq<Source>, remembered: Option<Seq<char>>) -> Option<Source> {
    let kept = match remembered {
        Some(k) => first_where(sources, |s: Source| s.key() == k),
        None => None,
    };
    let denoised = first_where(sources, |s: Source| is_denoised(s));
    let microphone = first_where(sources, |s: Source| is_microphone(s));
    if kept is Some {
        kept
    } else if denoised is Some {
        denoised
    } else if microphone is Some {
        microphone
    } else if sources.len() > 0 {
        Some(sources[0])
    } else {
        None
    }
}

pub open spec fn opt_text(s: Option<&str>) -> Option<Seq<char>> {
    match s {
        Some(t) => Some(t@),
        None => None,
    }
}

/// Pick the source to use: the remembered one if it still exists, otherwise a
/// sensible default.
///
/// Prefers a noise-suppressed microphone where one exists. Never defaults to
/// system audio while there is a microphone: silently recording the speakers
/// because they sorted first would be a surprising thing to do unasked.
pub fn choose_source(sources: &[Source], remembered: Option<&str>) -> (r: Result<Source, String>)
    ensures
        match r {
            Ok(s) => choice(sources@, opt_text(remembered)) == Some(s),
            Err(e) => choice(sources@, opt_text(remembered)) is None && e@
                == "no capturable audio sources found"@,
        },
{
    if let Some(key) = remembered {
        let found = resolve(sources, key);
        if let Some(s) = found {
            return Ok(s);
        }
    }
    let ghost denoised = |s: Source| is_denoised(s);
    let ghost microphone = |s: Source| is_microphone(s);
    let mut i: usize = 0;
    while i < sources.len()
        invariant
            i <= sources@.len(),
            denoised == (|s: Source| is_denoised(s)),
            opt_text(remembered) matches Some(k) ==> first_where(
                sources@,
                |s: Source| s.key() == k,
            ) is None,
            forall|j: int| 0 <= j < i ==> !denoised(#[trigger] sources@[j]),
        decreases sources@.len() - i,
    {
        if sources[i].kind == SourceKind::Microphone {
            let key = sources[i].stable_key();
            if text::contains_text(key.as_str(), "rnnoise") {
                proof {
                    lemma_first_where_at(sources@, denoised, i as int);
                }
                return Ok(sources[i].clone());
            }
        }
        i += 1;
    }
    proof {
        lemma_first_where_at(sources@, denoised, i as int);
    }
    let mut j: usize = 0;
    while j < sources.len()
        invariant
            j <= sources@.len(),
            microphone == (|s: Source| is_microphone(s)),
            opt_text(remembered) matches Some(k) ==> first_where(
                sources@,
                |s: Source| s.key() == k,
            ) is None,
            first_where(sources@, |s: Source| is_denoised(s)) is None,
            forall|m: int| 0 <= m < j ==> !microphone(#[trigger] sources@[m]),
        decreases sources@.len() - j,
    {
        if sources[j].kind == SourceKind::Microphone {
            proof {
                lemma_first_where_at(sources@, microphone, j as int);
            }
            return Ok(sources[j].clone());
        }
        j += 1;
    }
    proof {
        lemma_first_where_at(sources@, microphone, j as int);
    }
    if sources.len() > 0 {
        return Ok(sources[0].clone());
    }
    Err("no capturable audio sources found".to_owned())
}

/// A choice is made whenever there is anything to choose from, and it is
/// always one of the sources offered.
pub proof fn lemma_choice_is_offered(sources: Seq<Source>, remembered: Option<Seq<char>>)
    ensures
        choice(sources, remembered) is Some <==> sources.len() > 0,
        choice(sources, remembered) matches Some(s) ==> sources.contains(s),
{
    if let Some(k) = remembered {
        lemma_first_where(sources, |s: Source| s.key() == k);
    }
    lemma_first_where(sources, |s: Source| is_denoised(s));
    lemma_first_where(sources, |s: Source| is_microphone(s));
}

/// System audio is never chosen by default while a microphone exists.
pub proof fn lemma_default_is_a_microphone(sources: Seq<Source>)
    requires
        exists|i: int| 0 <= i < sources.len() && is_microphone(#[trigger] sources[i]),
    ensures
        choice(sources, None) matches Some(s) && is_microphone(s),
{
    lemma_first_where(sources, |s: Source| is_denoised(s));
    lemma_first_where(sources, |s: Source| is_microphone(s));
}

/// A remembered source wins for as long as it exists; once it is gone the
/// choice is the one made with nothing remembered.
pub proof fn lemma_remembered_wins(sources: Seq<Source>, key: Seq<char>)
    ensures
        (exists|i: int| 0 <= i < sources.len() && (#[trigger] sources[i]).key() == key) ==> (choice(
            sources,
            Some(key),
        ) matches Some(s) && s.key() == key),
        (forall|i: int| 0 <= i < sources.len() ==> (#[trigger] sources[i]).key() != key) ==> choice(
            sources,
            Some(key),
        ) == choice(sources, None),
{
    lemma_first_where(sources, |s: Source| s.key() == key);
}

/// What is chosen when nothing remembered is there: the first microphone that
/// suppresses noise, then the first that does not, then whatever comes first.
pub proof fn lemma_the_default_is_the_first_of_the_best(sources: Seq<Source>, i: int)
    requires
        0 <= i < sources.len(),
    ensures
        sources[i].kind == SourceKind::Microphone && text::occurs_in("rnnoise"@, sources[i].key())
            && (forall|j: int|
            0 <= j < i ==> !((#[trigger] sources[j]).kind == SourceKind::Microphone
                && text::occurs_in("rnnoise"@, sources[j].key()))) ==> choice(sources, None)
            == Some(sources[i]),
        sources[i].kind == SourceKind::Microphone && (forall|j: int|
            0 <= j < sources.len() ==> !text::occurs_in(
                "rnnoise"@,
                (#[trigger] sources[j]).key(),
            )) && (forall|j: int|
            0 <= j < i ==> (#[trigger] sources[j]).kind != SourceKind::Microphone) ==> choice(
            sources,
            None,
        ) == Some(sources[i]),
        (forall|j: int|
            0 <= j < sources.len() ==> (#[trigger] sources[j]).kind != SourceKind::Microphone)
            ==> choice(sources, None) == Some(sources[0]),
{
    let denoised = |s: Source| is_denoised(s);
    let microphone = |s: Source| is_microphone(s);
    lemma_first_where(sources, denoised);
    lemma_first_where(sources, microphone);
    if is_denoised(sources[i]) && (forall|j: int| 0 <= j < i ==> !is_denoised(#[trigger] sources[j])) {
        lemma_first_where_at(sources, denoised, i);
    }
    if is_microphone(sources[i]) && (forall|j: int|
        0 <= j < i ==> !is_microphone(#[trigger] sources[j])) {
        lemma_first_where_at(sources, microphone, i);
    }
}

/// A remembered source is the first with its key.
pub proof fn lemma_a_remembered_source_is_the_first_with_its_key(
    sources: Seq<Source>,
    key: Seq<char>,
    i: int,
)
    requires
        0 <= i < sources.len(),
        sources[i].key() == key,
        forall|j: int| 0 <= j < i ==> (#[trigger] sources[j]).key() != key,
    ensures
        choice(sources, Some(key)) == Some(sources[i]),
        first_where(sources, |s: Source| s.key() == key) == Some(sources[i]),
{
    lemma_first_where_at(sources, |s: Source| s.key() == key, i);
}

} // verus!
