//! Linux backend: the PipeWire graph as a list of sources.
//!
//! The only backend that can target a single application, because
//! per-application audio is a PipeWire concept with no ALSA or cpal equivalent.

use crate::audio::graph::{node_views, nodes_of, read_nodes, Node, NodeView};
use crate::audio::source::{
    sort_sources, source_views, Source, SourceKind, SourceTarget, SourceView, TargetView,
};
use crate::json::{self, json_list};
use crate::order::sorted;
use crate::text::{self, ends, opt_view};
use vstd::prelude::*;

verus! {

/// The first of two optional strings that is there, else `last`.
pub open spec fn either(
    a: Option<Seq<char>>,
    b: Option<Seq<char>>,
    last: Seq<char>,
) -> Seq<char> {
    match a {
        Some(x) => x,
        None => match b {
            Some(y) => y,
            None => last,
        },
    }
}

pub fn pick(a: &Option<String>, b: &Option<String>, last: &str) -> (r: String)
    ensures
        r@ == either(opt_view(*a), opt_view(*b), last@),
{
    match a {
        Some(x) => x.clone(),
        None => match b {
            Some(y) => y.clone(),
            None => last.to_owned(),
        },
    }
}

/// The source a node offers, if it offers one.
///
/// A capture device is a microphone unless its name says it is the monitor of
/// an output; an output is offered as everything playing on it; an
/// application's playback stream is offered as that application.
pub open spec fn source_of(n: NodeView) -> Option<SourceView> {
    let target = TargetView::Node(n.id);
    if n.class == "Audio/Source"@ || n.class == "Audio/Source/Virtual"@ {
        Some(
            SourceView {
                target,
                name: either(n.description, n.name, "unknown"@),
                kind: if n.name is Some && ends(n.name->0, ".monitor"@) {
                    SourceKind::Monitor
                } else {
                    SourceKind::Microphone
                },
                detail: None,
                stable_name: n.name,
                sink_description: None,
            },
        )
    } else if n.class == "Audio/Sink"@ {
        let d = either(n.description, n.name, "unknown"@);
        Some(
            SourceView {
                target,
                name: "Everything playing on "@ + d,
                kind: SourceKind::Monitor,
                detail: None,
                stable_name: n.name,
                sink_description: Some(d),
            },
        )
    } else if n.class == "Stream/Output/Audio"@ {
        Some(
            SourceView {
                target,
                name: either(n.application, n.name, "unknown application"@),
                kind: SourceKind::Application,
                detail: n.media,
                stable_name: None,
                sink_description: None,
            },
        )
    } else {
        None
    }
}

pub fn source_from(n: &Node) -> (r: Option<Source>)
    ensures
        match r {
            Some(s) => source_of(n@) == Some(s@),
            None => source_of(n@) is None,
        },
{
    let target = SourceTarget::PipeWireNode(n.id);
    let class = n.class.as_str();
    if text::same(class, "Audio/Source") || text::same(class, "Audio/Source/Virtual") {
        let is_monitor: bool = match &n.name {
            Some(name) => text::ends_with(name.as_str(), ".monitor"),
            None => false,
        };
        Some(
            Source {
                target,
                name: pick(&n.description, &n.name, "unknown"),
                kind: if is_monitor {
                    SourceKind::Monitor
                } else {
                    SourceKind::Microphone
                },
                detail: None,
                stable_name: n.name.clone(),
                sink_description: None,
            },
        )
    } else if text::same(class, "Audio/Sink") {
        let desc = pick(&n.description, &n.name, "unknown");
        let mut name = "Everything playing on ".to_owned();
        name.append(desc.as_str());
        Some(
            Source {
                target,
                name,
                kind: SourceKind::Monitor,
                detail: None,
                stable_name: n.name.clone(),
                sink_description: Some(desc),
            },
        )
    } else if text::same(class, "Stream/Output/Audio") {
        Some(
            Source {
                target,
                name: pick(&n.application, &n.name, "unknown application"),
                kind: SourceKind::Application,
                detail: n.media.clone(),
                stable_name: None,
                sink_description: None,
            },
        )
    } else {
        None
    }
}

/// The sources `nodes` offer, in order.
pub open spec fn offered(nodes: Seq<NodeView>) -> Seq<SourceView>
    decreases nodes.len(),
{
    if nodes.len() == 0 {
        Seq::empty()
    } else {
        match source_of(nodes.last()) {
            Some(s) => offered(nodes.drop_last()).push(s),
            None => offered(nodes.drop_last()),
        }
    }
}

/// Whether some output among `all` is described as `name`.
pub open spec fn names_an_output(all: Seq<SourceView>, name: Seq<char>) -> bool {
    exists|i: int|
        0 <= i < all.len() && (#[trigger] all[i]).kind == SourceKind::Monitor
            && all[i].sink_description == Some(name)
}

/// `s`, marked as an input when it is a microphone bearing an output's name.
pub open spec fn told_apart(all: Seq<SourceView>, s: SourceView) -> SourceView {
    if s.kind == SourceKind::Microphone && names_an_output(all, s.name) {
        SourceView { name: s.name + " (input)"@, ..s }
    } else {
        s
    }
}

pub open spec fn all_told_apart(all: Seq<SourceView>) -> Seq<SourceView> {
    all.map_values(|s: SourceView| told_apart(all, s))
}

fn is_output_name(sources: &Vec<Source>, name: &str) -> (r: bool)
    ensures
        r == names_an_output(source_views(sources@), name@),
{
    let ghost all = source_views(sources@);
    let mut i: usize = 0;
    while i < sources.len()
        invariant
            i <= sources@.len(),
            all == source_views(sources@),
            forall|j: int|
                0 <= j < i ==> !((#[trigger] all[j]).kind == SourceKind::Monitor
                    && all[j].sink_description == Some(name@)),
        decreases sources@.len() - i,
    {
        assert(all[i as int] == sources@[i as int]@);
        if sources[i].kind == SourceKind::Monitor {
            if let Some(d) = &sources[i].sink_description {
                if text::same(d.as_str(), name) {
                    return true;
                }
            }
        }
        i += 1;
    }
    false
}

/// Mark microphones that share a name with an output.
///
/// A motherboard's line-in jack and its speakers are separate nodes on one
/// card, and PipeWire gives both the same `node.description`. The capture side
/// then appears under Microphone bearing the name of the sound card, which
/// reads as the *output* having been filed under the wrong heading.
///
/// "(input)" rather than anything more specific, because the collision happens
/// for a line-in jack and for a USB microphone with a headphone output alike,
/// and only "input" is true of both.
pub fn disambiguate_card_inputs(sources: &mut Vec<Source>)
    ensures
        source_views(final(sources)@) == all_told_apart(source_views(old(sources)@)),
{
    let ghost all = source_views(sources@);
    let mut marks: Vec<bool> = Vec::new();
    let mut i: usize = 0;
    while i < sources.len()
        invariant
            i <= sources@.len(),
            all == source_views(sources@),
            marks@.len() == i,
            forall|j: int|
                0 <= j < i ==> marks@[j] == (all[j].kind == SourceKind::Microphone
                    && names_an_output(all, all[j].name)),
        decreases sources@.len() - i,
    {
        assert(all[i as int] == sources@[i as int]@);
        let m: bool = sources[i].kind == SourceKind::Microphone && is_output_name(
            sources,
            sources[i].name.as_str(),
        );
        marks.push(m);
        i += 1;
    }
    let mut k: usize = 0;
    while k < sources.len()
        invariant
            k <= sources@.len() == all.len() == marks@.len(),
            forall|j: int|
                0 <= j < all.len() ==> marks@[j] == (all[j].kind == SourceKind::Microphone
                    && names_an_output(all, all[j].name)),
            forall|j: int| 0 <= j < k ==> (#[trigger] sources@[j])@ == told_apart(all, all[j]),
            forall|j: int| k <= j < all.len() ==> (#[trigger] sources@[j])@ == all[j],
        decreases sources@.len() - k,
    {
        if marks[k] {
            let mut s = sources[k].clone();
            s.name.append(" (input)");
            sources.set(k, s);
        }
        k += 1;
    }
    assert(source_views(sources@) =~= all_told_apart(all));
}

/// The sources a list of nodes offers, as a picker shows them.
pub open spec fn listed(nodes: Seq<NodeView>) -> Seq<SourceView> {
    sorted(all_told_apart(offered(nodes)))
}

/// Every source the nodes offer, told apart and in picker order.
pub fn sources_from(nodes: &Vec<Node>) -> (r: Vec<Source>)
    ensures
        source_views(r@) == listed(node_views(nodes@)),
{
    let mut out: Vec<Source> = Vec::new();
    let ghost all = node_views(nodes@);
    let mut i: usize = 0;
    assert(source_views(out@) == offered(all.take(0)));
    while i < nodes.len()
        invariant
            i <= nodes@.len(),
            all == node_views(nodes@),
            source_views(out@) == offered(all.take(i as int)),
        decreases nodes@.len() - i,
    {
        assert(all.take(i + 1).drop_last() == all.take(i as int));
        let ghost was = out@;
        if let Some(s) = source_from(&nodes[i]) {
            let ghost v = s@;
            out.push(s);
            assert(source_views(out@) == source_views(was).push(v));
        }
        i += 1;
    }
    assert(all.take(i as int) == all);
    disambiguate_card_inputs(&mut out);
    sort_sources(out)
}

/// Enumerate capturable sources from `pw-dump` output.
pub fn parse_sources(pw_dump_json: &str) -> (r: Result<Vec<Source>, String>)
    ensures
        match (r, json_list(pw_dump_json@)) {
            (Ok(v), Ok(objects)) => source_views(v@) == listed(nodes_of(objects)),
            (Err(e), Err(why)) => e@ == "parsing pw-dump output: "@ + why,
            _ => false,
        },
{
    match json::parse_list(pw_dump_json) {
        Ok(objects) => {
            let nodes = read_nodes(objects.as_slice());
            Ok(sources_from(&nodes))
        },
        Err(why) => {
            let mut e = "parsing pw-dump output: ".to_owned();
            e.append(why.as_str());
            Err(e)
        },
    }
}

/// `s`, marked when it is the monitor of the default output.
pub open spec fn default_marked(s: SourceView, default_sink: Option<Seq<char>>) -> SourceView {
    if s.kind == SourceKind::Monitor && default_sink is Some && s.stable_name == default_sink {
        SourceView { name: s.name + " (default output)"@, ..s }
    } else {
        s
    }
}

/// Say which monitor belongs to the default output.
pub fn mark_default(sources: Vec<Source>, default_sink: &Option<String>) -> (r: Vec<Source>)
    ensures
        source_views(r@) == source_views(sources@).map_values(
            |s: SourceView| default_marked(s, opt_view(*default_sink)),
        ),
{
    let mut out = sources;
    let ghost all = source_views(out@);
    let mut k: usize = 0;
    while k < out.len()
        invariant
            k <= out@.len() == all.len(),
            forall|j: int|
                0 <= j < k ==> (#[trigger] out@[j])@ == default_marked(
                    all[j],
                    opt_view(*default_sink),
                ),
            forall|j: int| k <= j < all.len() ==> (#[trigger] out@[j])@ == all[j],
        decreases out@.len() - k,
    {
        if default_sink.is_some() && out[k].kind == SourceKind::Monitor && text::same_opt(
            &out[k].stable_name,
            default_sink,
        ) {
            let mut s = out[k].clone();
            s.name.append(" (default output)");
            out.set(k, s);
        }
        k += 1;
    }
    assert(source_views(out@) =~= all.map_values(
        |s: SourceView| default_marked(s, opt_view(*default_sink)),
    ));
    out
}

/// What `pactl get-default-sink` printed, as a sink's name.
pub fn default_sink_name(printed: &str) -> (r: Option<String>)
    ensures
        opt_view(r) == (if text::trim_of(printed@).len() > 0 {
            Some(text::trim_of(printed@))
        } else {
            None
        }),
{
    let s = text::trim(printed);
    if text::blank(printed) {
        None
    } else {
        Some(s)
    }
}

/// Enumerate capturable sources from `pw-dump` output, with the default
/// output's monitor marked.
pub fn list_sources(pw_dump_json: &str, default_sink: &Option<String>) -> (r: Result<
    Vec<Source>,
    String,
>)
    ensures
        match (r, json_list(pw_dump_json@)) {
            (Ok(v), Ok(objects)) => source_views(v@) == listed(nodes_of(objects)).map_values(
                |s: SourceView| default_marked(s, opt_view(*default_sink)),
            ),
            (Err(e), Err(why)) => e@ == "parsing pw-dump output: "@ + why,
            _ => false,
        },
{
    match parse_sources(pw_dump_json) {
        Ok(v) => Ok(mark_default(v, default_sink)),
        Err(e) => Err(e),
    }
}

/// A source is offered for a node whatever else the graph holds, and nothing
/// is offered that no node stands for.
pub proof fn lemma_offered_from_nodes(nodes: Seq<NodeView>)
    ensures
        forall|i: int|
            0 <= i < nodes.len() && source_of(nodes[i]) is Some ==> offered(nodes).contains(
                source_of(#[trigger] nodes[i])->0,
            ),
        forall|k: int|
            0 <= k < offered(nodes).len() ==> exists|i: int|
                0 <= i < nodes.len() && source_of(nodes[i]) == Some(#[trigger] offered(nodes)[k]),
    decreases nodes.len(),
{
    if nodes.len() > 0 {
        let d = nodes.drop_last();
        lemma_offered_from_nodes(d);
        let before = offered(d);
        let after = offered(nodes);
        assert forall|i: int|
            0 <= i < nodes.len() && source_of(nodes[i]) is Some implies after.contains(
            source_of(#[trigger] nodes[i])->0,
        ) by {
            if i < d.len() {
                assert(d[i] == nodes[i]);
                assert(before.contains(source_of(d[i])->0));
                let k = choose|k: int| 0 <= k < before.len() && before[k] == source_of(d[i])->0;
                assert(after[k] == before[k]);
            } else {
                assert(after.last() == source_of(nodes.last())->0);
                assert(after[after.len() - 1] == source_of(nodes[i])->0);
            }
        }
        assert forall|k: int| 0 <= k < after.len() implies exists|i: int|
            0 <= i < nodes.len() && source_of(nodes[i]) == Some(#[trigger] after[k]) by {
            if k < before.len() {
                assert(after[k] == before[k]);
                let i = choose|i: int| 0 <= i < d.len() && source_of(d[i]) == Some(before[k]);
                assert(nodes[i] == d[i]);
            } else {
                assert(source_of(nodes[nodes.len() - 1]) == Some(after[k]));
            }
        }
    }
}

/// What each kind of node is offered as: a capture device as a microphone, or as
/// system audio when it is the monitor of an output; an output as system audio;
/// a playback stream as an application. Each is opened as that node, and only
/// what has a name that stays is remembered by one.
pub proof fn lemma_what_each_node_is_offered_as(n: NodeView)
    ensures
        source_of(n) is Some <==> n.class == "Audio/Source"@ || n.class == "Audio/Source/Virtual"@
            || n.class == "Audio/Sink"@ || n.class == "Stream/Output/Audio"@,
        source_of(n) matches Some(s) ==> ({
            let input = n.class == "Audio/Source"@ || n.class == "Audio/Source/Virtual"@;
            &&& s.target == TargetView::Node(n.id)
            &&& input && !(n.name is Some && ends(n.name->0, ".monitor"@)) ==> s.kind
                == SourceKind::Microphone
            &&& input && n.name is Some && ends(n.name->0, ".monitor"@) ==> s.kind
                == SourceKind::Monitor
            &&& input && n.description is Some ==> s.name == n.description->0
            &&& !input && n.class == "Audio/Sink"@ ==> s.kind == SourceKind::Monitor
                && s.sink_description is Some && ends(s.name, s.sink_description->0) && (
            n.description is Some ==> s.sink_description == n.description)
            &&& s.kind != SourceKind::Application ==> s.stable_name == n.name && s.detail is None
            &&& s.kind == SourceKind::Application ==> s.stable_name is None && s.detail == n.media
                && (n.application is Some ==> s.name == n.application->0)
        }),
{
    reveal_strlit("Audio/Source");
    reveal_strlit("Audio/Source/Virtual");
    reveal_strlit("Audio/Sink");
    reveal_strlit("Stream/Output/Audio");
    assert("Audio/Source"@.len() != "Audio/Sink"@.len());
    if let Some(s) = source_of(n) {
        if n.class == "Audio/Sink"@ {
            let d = s.sink_description->0;
            assert(s.name.skip(s.name.len() - d.len()) =~= d);
        }
    }
}

/// The sources offered are those of the nodes, in order.
pub proof fn lemma_offers_are_in_order(nodes: Seq<NodeView>, next: NodeView)
    ensures
        offered(nodes.push(next)) == (match source_of(next) {
            Some(s) => offered(nodes).push(s),
            None => offered(nodes),
        }),
        offered(Seq::empty()) == Seq::<SourceView>::empty(),
{
    assert(nodes.push(next).drop_last() =~= nodes);
}

/// Only a microphone that bears an output's name is marked, and the mark goes
/// behind its name; nothing else about any source changes.
pub proof fn lemma_only_a_shared_name_is_marked(all: Seq<SourceView>, i: int)
    requires
        0 <= i < all.len(),
    ensures
        ({
            let s = all[i];
            let t = all_told_apart(all)[i];
            let shared = s.kind == SourceKind::Microphone && exists|j: int|
                0 <= j < all.len() && (#[trigger] all[j]).kind == SourceKind::Monitor
                    && all[j].sink_description == Some(s.name);
            &&& all_told_apart(all).len() == all.len()
            &&& t.name == if shared {
                s.name + " (input)"@
            } else {
                s.name
            }
            &&& t == SourceView { name: t.name, ..s }
        }),
{
}

/// Everything the nodes offer is listed, each once for each time it is offered,
/// in the order of a picker.
pub proof fn lemma_everything_offered_is_listed(nodes: Seq<NodeView>)
    ensures
        listed(nodes).to_multiset() == all_told_apart(offered(nodes)).to_multiset(),
        crate::order::is_sorted(listed(nodes)),
{
    crate::order::lemma_sorted(all_told_apart(offered(nodes)));
}

/// Only the monitor of the default output is marked, and only in its name.
pub proof fn lemma_only_the_default_is_marked(s: SourceView, sink: Option<Seq<char>>)
    ensures
        ({
            let t = default_marked(s, sink);
            &&& t == SourceView { name: t.name, ..s }
            &&& t.name == if s.kind == SourceKind::Monitor && sink is Some && s.stable_name == sink {
                s.name + " (default output)"@
            } else {
                s.name
            }
        }),
{
}

} // verus!
