//! Portable backend for platforms without PipeWire, principally Windows.
//!
//! Input devices are microphones. Output devices are offered as system audio:
//! opened for input, WASAPI turns them into loopback, which is how "transcribe
//! whatever is playing" works there.

use crate::audio::source::{
    sort_sources, source_views, Source, SourceKind, SourceTarget, SourceView, TargetView,
};
use crate::order::sorted;
use crate::text::{self, opt_view};
use vstd::prelude::*;

verus! {

/// The source a device of this name is offered as.
///
/// A device has no identifier beyond its name and which side it is on, so that
/// is the key a remembered choice is kept under.
pub open spec fn device_source(name: Seq<char>, loopback: bool) -> SourceView {
    SourceView {
        target: TargetView::Device { name, loopback },
        name: if loopback {
            "Everything playing on "@ + name
        } else {
            name
        },
        kind: if loopback {
            SourceKind::Monitor
        } else {
            SourceKind::Microphone
        },
        detail: None,
        stable_name: Some(
            (if loopback {
                "cpal:out:"@
            } else {
                "cpal:in:"@
            }) + name,
        ),
        sink_description: if loopback {
            Some(name)
        } else {
            None
        },
    }
}

/// The sources one side's devices are offered as; a device that would not
/// describe itself drops out.
pub open spec fn side_sources(names: Seq<Option<String>>, loopback: bool) -> Seq<SourceView>
    decreases names.len(),
{
    if names.len() == 0 {
        Seq::empty()
    } else {
        let rest = side_sources(names.drop_last(), loopback);
        match opt_view(names.last()) {
            Some(n) => rest.push(device_source(n, loopback)),
            None => rest,
        }
    }
}

/// Microphones and outputs, as a picker shows them.
pub open spec fn device_sources(inputs: Seq<Option<String>>, outputs: Seq<Option<String>>) -> Seq<
    SourceView,
> {
    sorted(side_sources(inputs, false) + side_sources(outputs, true))
}

fn source_for(name: &String, loopback: bool) -> (r: Source)
    ensures
        r@ == device_source(name@, loopback),
{
    let mut key = if loopback {
        "cpal:out:".to_owned()
    } else {
        "cpal:in:".to_owned()
    };
    key.append(name.as_str());
    let mut shown = if loopback {
        "Everything playing on ".to_owned()
    } else {
        String::new()
    };
    shown.append(name.as_str());
    assert(Seq::<char>::empty() + name@ == name@);
    Source {
        target: SourceTarget::CpalDevice { name: name.clone(), loopback },
        name: shown,
        kind: if loopback {
            SourceKind::Monitor
        } else {
            SourceKind::Microphone
        },
        detail: None,
        stable_name: Some(key),
        sink_description: if loopback {
            Some(name.clone())
        } else {
            None
        },
    }
}

fn add_side(out: &mut Vec<Source>, names: &Vec<Option<String>>, loopback: bool)
    ensures
        source_views(final(out)@) == source_views(old(out)@) + side_sources(names@, loopback),
{
    let ghost before = source_views(out@);
    let mut i: usize = 0;
    assert(before + side_sources(names@.take(0), loopback) == before);
    while i < names.len()
        invariant
            i <= names@.len(),
            source_views(out@) == before + side_sources(names@.take(i as int), loopback),
        decreases names@.len() - i,
    {
        assert(names@.take(i + 1).drop_last() == names@.take(i as int));
        let ghost was = out@;
        if let Some(n) = &names[i] {
            let s = source_for(n, loopback);
            let ghost v = s@;
            out.push(s);
            assert(source_views(out@) == source_views(was).push(v));
            assert(source_views(out@) == before + side_sources(names@.take(i + 1), loopback));
        }
        i += 1;
    }
    assert(names@.take(i as int) == names@);
}

/// Microphones, and outputs re-offered as system audio.
pub fn list_sources(inputs: &Vec<Option<String>>, outputs: &Vec<Option<String>>) -> (r: Vec<Source>)
    ensures
        source_views(r@) == device_sources(inputs@, outputs@),
{
    let mut out: Vec<Source> = Vec::new();
    assert(source_views(out@) == Seq::<SourceView>::empty());
    add_side(&mut out, inputs, false);
    add_side(&mut out, outputs, true);
    assert(Seq::<SourceView>::empty() + side_sources(inputs@, false) == side_sources(
        inputs@,
        false,
    ));
    sort_sources(out)
}

/// An answer that may have been lost to a panic, with a lost one treated as no
/// answer.
///
/// One endpoint that will not answer drops out of a listing rather than
/// failing all of it.
pub fn without_panicking<T>(answer: Result<Option<T>, String>) -> (r: Option<T>)
    ensures
        r == (match answer {
            Ok(v) => v,
            Err(_) => None,
        }),
{
    match answer {
        Ok(v) => v,
        Err(_) => None,
    }
}

/// The first device called `name`.
pub fn find_device(names: &Vec<Option<String>>, name: &str) -> (r: Result<usize, String>)
    ensures
        match r {
            Ok(i) => {
                &&& i < names@.len()
                &&& opt_view(names@[i as int]) == Some(name@)
                &&& forall|j: int| 0 <= j < i ==> opt_view(#[trigger] names@[j]) != Some(name@)
            },
            Err(e) => {
                &&& forall|j: int|
                    0 <= j < names@.len() ==> opt_view(#[trigger] names@[j]) != Some(name@)
                &&& e@ == "no such audio device: "@ + name@
            },
        },
{
    let mut i: usize = 0;
    while i < names.len()
        invariant
            i <= names@.len(),
            forall|j: int| 0 <= j < i ==> opt_view(#[trigger] names@[j]) != Some(name@),
        decreases names@.len() - i,
    {
        if let Some(n) = &names[i] {
            if text::same(n.as_str(), name) {
                return Ok(i);
            }
        }
        i += 1;
    }
    let mut e = "no such audio device: ".to_owned();
    e.append(name);
    Err(e)
}

/// Every source of one side has a key, and the kind its side gives it.
pub proof fn lemma_side_sources(names: Seq<Option<String>>, loopback: bool, i: int)
    requires
        0 <= i < side_sources(names, loopback).len(),
    ensures
        ({
            let s = side_sources(names, loopback)[i];
            &&& s.stable_name is Some && s.stable_name->0.len() > 0
            &&& s.kind == (if loopback {
                SourceKind::Monitor
            } else {
                SourceKind::Microphone
            })
            &&& s.target is Device && s.target->loopback == loopback
        }),
    decreases names.len(),
{
    reveal_strlit("cpal:out:");
    reveal_strlit("cpal:in:");
    if names.len() > 0 {
        let rest = side_sources(names.drop_last(), loopback);
        if i < rest.len() {
            lemma_side_sources(names.drop_last(), loopback, i);
        }
    }
}

/// A device is opened and remembered by its own name and side, and no two
/// devices of different names or sides share a key.
pub proof fn lemma_a_device_is_known_by_name_and_side(
    a: Seq<char>,
    b: Seq<char>,
    x: bool,
    y: bool,
)
    ensures
        device_source(a, x).target == (TargetView::Device { name: a, loopback: x }),
        device_source(a, x).kind == (if x {
            SourceKind::Monitor
        } else {
            SourceKind::Microphone
        }),
        text::ends(device_source(a, x).name, a),
        !x ==> device_source(a, x).name == a && device_source(a, x).sink_description is None,
        x ==> device_source(a, x).sink_description == Some(a),
        device_source(a, x).detail is None,
        device_source(a, x).stable_name is Some,
        device_source(a, x).stable_name == device_source(b, y).stable_name ==> a == b && x == y,
{
    reveal_strlit("cpal:out:");
    reveal_strlit("cpal:in:");
    let n = device_source(a, x).name;
    assert(n.skip(n.len() - a.len()) =~= a);
    let k = device_source(a, x).stable_name->0;
    let l = device_source(b, y).stable_name->0;
    assert(k[5] == if x { 'o' } else { 'i' });
    assert(l[5] == if y { 'o' } else { 'i' });
    if k == l {
        let p = if x {
            9int
        } else {
            8int
        };
        assert(k.skip(p) =~= a);
        assert(l.skip(p) =~= b);
    }
}

/// Every device that describes itself is offered, in order, and no other.
pub proof fn lemma_every_named_device_is_offered(names: Seq<Option<String>>, next: Option<String>, loopback: bool)
    ensures
        side_sources(names.push(next), loopback) == (match next {
            Some(n) => side_sources(names, loopback).push(device_source(n@, loopback)),
            None => side_sources(names, loopback),
        }),
{
    assert(names.push(next).drop_last() =~= names);
}

/// Both sides are listed whole.
pub proof fn lemma_both_sides_are_listed(
    inputs: Seq<Option<String>>,
    outputs: Seq<Option<String>>,
)
    ensures
        device_sources(inputs, outputs).to_multiset() == (side_sources(inputs, false)
            + side_sources(outputs, true)).to_multiset(),
        crate::order::is_sorted(device_sources(inputs, outputs)),
{
    crate::order::lemma_sorted(side_sources(inputs, false) + side_sources(outputs, true));
}

} // verus!
