//! Capturable nodes of the PipeWire graph, by their ids.

use crate::audio::graph::{node_views, nodes_of, read_nodes, Node, NodeView};
use crate::audio::pipewire::{either, pick};
use crate::audio::source::{
    app_key, app_key_text, display_of, display_text, shown_detail, SourceKind,
};
use crate::json::{self, json_list};
use crate::order::{
    dictionary, first_where, in_dictionary_order, lemma_dictionary_total,
    lemma_dictionary_transitive, lemma_first_where_at, lemma_sorted_map, sort, sorted, Comparable,
    Ranked,
};
use crate::text::{self, ends, lowercase_of, opt_view};
use vstd::prelude::*;

verus! {

/// A capturable node in the PipeWire graph.
#[derive(Debug, PartialEq, Eq)]
pub struct Source {
    /// PipeWire node id. This is what capture targets.
    ///
    /// Not stable across restarts: persist [`Self::stable_key`] instead and
    /// re-resolve on startup.
    pub id: u32,
    /// Human-readable name for a picker.
    pub name: String,
    pub kind: SourceKind,
    /// PipeWire `node.name`, stable for devices though not for applications.
    pub node_name: Option<String>,
    /// What the application is playing, when it says.
    pub detail: Option<String>,
}

impl Clone for Source {
    fn clone(&self) -> (r: Source)
        ensures
            r == *self,
    {
        Source {
            id: self.id,
            name: self.name.clone(),
            kind: self.kind,
            node_name: self.node_name.clone(),
            detail: self.detail.clone(),
        }
    }
}

pub struct SourceView {
    pub id: u32,
    pub name: Seq<char>,
    pub kind: SourceKind,
    pub node_name: Option<Seq<char>>,
    pub detail: Option<Seq<char>>,
}

impl View for Source {
    type V = SourceView;

    open spec fn view(&self) -> SourceView {
        SourceView {
            id: self.id,
            name: self.name@,
            kind: self.kind,
            node_name: opt_view(self.node_name),
            detail: opt_view(self.detail),
        }
    }
}

pub open spec fn source_views(v: Seq<Source>) -> Seq<SourceView> {
    v.map_values(|s: Source| s@)
}

impl Source {
    /// Name for a picker, including detail where it disambiguates.
    pub fn display(&self) -> (r: String)
        ensures
            r@ == display_of(self.name@, shown_detail(self.detail)),
    {
        display_text(self.name.as_str(), &self.detail)
    }

    pub open spec fn key(self) -> Seq<char> {
        if self.node_name is Some && self.kind != SourceKind::Application {
            (self.node_name->0)@
        } else {
            app_key(self.name@, shown_detail(self.detail))
        }
    }

    /// A key worth persisting across runs.
    ///
    /// Devices keep their `node.name`. Applications have no stable identity at
    /// all, so their name is the best handle there is: "Firefox" will match the
    /// next Firefox.
    pub fn stable_key(&self) -> (r: String)
        ensures
            r@ == self.key(),
    {
        if let Some(n) = &self.node_name {
            if self.kind != SourceKind::Application {
                return n.clone();
            }
        }
        app_key_text(self.name.as_str(), &self.detail)
    }
}

/// The source a node offers, if it offers one.
pub open spec fn source_of(n: NodeView) -> Option<SourceView> {
    if n.class == "Audio/Source"@ || n.class == "Audio/Source/Virtual"@ {
        Some(
            SourceView {
                id: n.id,
                name: either(n.description, n.name, "unknown"@),
                kind: if n.name is Some && ends(n.name->0, ".monitor"@) {
                    SourceKind::Monitor
                } else {
                    SourceKind::Microphone
                },
                node_name: n.name,
                detail: None,
            },
        )
    } else if n.class == "Audio/Sink"@ {
        Some(
            SourceView {
                id: n.id,
                name: "Monitor of "@ + either(n.description, n.name, "unknown"@),
                kind: SourceKind::Monitor,
                node_name: n.name,
                detail: None,
            },
        )
    } else if n.class == "Stream/Output/Audio"@ {
        Some(
            SourceView {
                id: n.id,
                name: either(n.application, n.name, "unknown application"@),
                kind: SourceKind::Application,
                node_name: n.name,
                detail: n.media,
            },
        )
    } else {
        None
    }
}

pub fn source_from(n: &Node) -> (r: Option<Source>)
    ensures
        match r {
            Some(s) => source_of(n@) == Some(s@),
            None => source_of(n@) is None,
        },
{
    let class = n.class.as_str();
    let (kind, name) = if text::same(class, "Audio/Source") || text::same(
        class,
        "Audio/Source/Virtual",
    ) {
        let is_monitor: bool = match &n.name {
            Some(name) => text::ends_with(name.as_str(), ".monitor"),
            None => false,
        };
        let kind = if is_monitor {
            SourceKind::Monitor
        } else {
            SourceKind::Microphone
        };
        (kind, pick(&n.description, &n.name, "unknown"))
    } else if text::same(class, "Audio/Sink") {
        let mut name = "Monitor of ".to_owned();
        let desc = pick(&n.description, &n.name, "unknown");
        name.append(desc.as_str());
        (SourceKind::Monitor, name)
    } else if text::same(class, "Stream/Output/Audio") {
        (SourceKind::Application, pick(&n.application, &n.name, "unknown application"))
    } else {
        return None;
    };
    proof {
        reveal_strlit("Audio/Source");
        reveal_strlit("Audio/Source/Virtual");
        reveal_strlit("Audio/Sink");
        reveal_strlit("Stream/Output/Audio");
        assert("Audio/Source"@.len() == 12 && "Audio/Source/Virtual"@.len() == 20);
        assert("Audio/Sink"@.len() == 10 && "Stream/Output/Audio"@.len() == 19);
    }
    let detail = if kind == SourceKind::Application {
        n.media.clone()
    } else {
        None
    };
    Some(Source { id: n.id, name, kind, node_name: n.name.clone(), detail })
}

/// The sources `nodes` offer, in order.
pub open spec fn offered(nodes: Seq<NodeView>) -> Seq<SourceView>
    decreases nodes.len(),
{
    if nodes.len() == 0 {
        Seq::empty()
    } else {
        match source_of(nodes.last()) {
            Some(s) => offered(nodes.drop_last()).push(s),
            None => offered(nodes.drop_last()),
        }
    }
}

/// Picker order: by kind, then by name whatever its case.
impl Ranked for SourceView {
    open spec fn at_most(&self, other: &SourceView) -> bool {
        self.kind.place() < other.kind.place() || (self.kind.place() == other.kind.place()
            && dictionary(lowercase_of(self.name), lowercase_of(other.name)))
    }

    proof fn total(a: &SourceView, b: &SourceView) {
        lemma_dictionary_total(lowercase_of(a.name), lowercase_of(b.name));
    }

    proof fn transitive(a: &SourceView, b: &SourceView, c: &SourceView) {
        if a.kind.place() == b.kind.place() && b.kind.place() == c.kind.place() {
            lemma_dictionary_transitive(
                lowercase_of(a.name),
                lowercase_of(b.name),
                lowercase_of(c.name),
            );
        }
    }
}

impl Ranked for Source {
    open spec fn at_most(&self, other: &Source) -> bool {
        self@.at_most(&other@)
    }

    proof fn total(a: &Source, b: &Source) {
        SourceView::total(&a@, &b@);
    }

    proof fn transitive(a: &Source, b: &Source, c: &Source) {
        SourceView::transitive(&a@, &b@, &c@);
    }
}

impl Comparable for Source {
    fn is_at_most(&self, other: &Source) -> (r: bool) {
        let a: u8 = self.kind.rank();
        let b: u8 = other.kind.rank();
        if a != b {
            return a < b;
        }
        let x = text::to_lowercase(self.name.as_str());
        let y = text::to_lowercase(other.name.as_str());
        in_dictionary_order(x.as_str(), y.as_str())
    }
}

/// A list with each run of one node's entries cut down to the first of them.
pub open spec fn without_repeats(s: Seq<SourceView>) -> Seq<SourceView>
    decreases s.len(),
{
    if s.len() == 0 {
        s
    } else {
        let rest = without_repeats(s.drop_last());
        if rest.len() > 0 && rest.last().id == s.last().id {
            rest
        } else {
            rest.push(s.last())
        }
    }
}

fn drop_repeats(v: Vec<Source>) -> (r: Vec<Source>)
    ensures
        source_views(r@) == without_repeats(source_views(v@)),
{
    let ghost all = source_views(v@);
    let mut out: Vec<Source> = Vec::new();
    let mut i: usize = 0;
    assert(source_views(out@) == without_repeats(all.take(0)));
    while i < v.len()
        invariant
            i <= v@.len(),
            all == source_views(v@),
            source_views(out@) == without_repeats(all.take(i as int)),
        decreases v@.len() - i,
    {
        assert(all.take(i + 1).drop_last() == all.take(i as int));
        assert(all.take(i + 1).last() == v@[i as int]@);
        let n: usize = out.len();
        assert(n > 0 ==> source_views(out@).last() == out@[n - 1]@);
        let repeat: bool = n > 0 && out[n - 1].id == v[i].id;
        if !repeat {
            let ghost was = out@;
            out.push(v[i].clone());
            assert(source_views(out@) == source_views(was).push(v@[i as int]@));
        }
        i += 1;
    }
    assert(all.take(i as int) == all);
    out
}

/// The sources a list of nodes offers, as a picker shows them.
pub open spec fn listed(nodes: Seq<NodeView>) -> Seq<SourceView> {
    without_repeats(sorted(offered(nodes)))
}

/// Every source the nodes offer, in picker order.
pub fn sources_from(nodes: &Vec<Node>) -> (r: Vec<Source>)
    ensures
        source_views(r@) == listed(node_views(nodes@)),
{
    let mut out: Vec<Source> = Vec::new();
    let ghost all = node_views(nodes@);
    let mut i: usize = 0;
    assert(source_views(out@) == offered(all.take(0)));
    while i < nodes.len()
        invariant
            i <= nodes@.len(),
            all == node_views(nodes@),
            source_views(out@) == offered(all.take(i as int)),
        decreases nodes@.len() - i,
    {
        assert(all.take(i + 1).drop_last() == all.take(i as int));
        let ghost was = out@;
        if let Some(s) = source_from(&nodes[i]) {
            let ghost v = s@;
            out.push(s);
            assert(source_views(out@) == source_views(was).push(v));
        }
        i += 1;
    }
    assert(all.take(i as int) == all);
    proof {
        lemma_sorted_map(out@, |s: Source| s@);
    }
    drop_repeats(sort(out))
}

/// Enumerate capturable sources from `pw-dump` output.
pub fn parse_sources(pw_dump_json: &str) -> (r: Result<Vec<Source>, String>)
    ensures
        match (r, json_list(pw_dump_json@)) {
            (Ok(v), Ok(objects)) => source_views(v@) == listed(nodes_of(objects)),
            (Err(e), Err(why)) => e@ == "parsing pw-dump output: "@ + why,
            _ => false,
        },
{
    match json::parse_list(pw_dump_json) {
        Ok(objects) => {
            let nodes = read_nodes(objects.as_slice());
            Ok(sources_from(&nodes))
        },
        Err(why) => {
            let mut e = "parsing pw-dump output: ".to_owned();
            e.append(why.as_str());
            Err(e)
        },
    }
}

/// Re-resolve a remembered source, since node ids change between runs.
pub fn resolve(sources: &[Source], stable_key: &str) -> (r: Option<Source>)
    ensures
        r == first_where(sources@, |s: Source| s.key() == stable_key@),
{
    let ghost p = |s: Source| s.key() == stable_key@;
    let mut i: usize = 0;
    while i < sources.len()
        invariant
            i <= sources@.len(),
            p == (|s: Source| s.key() == stable_key@),
            forall|j: int| 0 <= j < i ==> !p(#[trigger] sources@[j]),
        decreases sources@.len() - i,
    {
        let k = sources[i].stable_key();
        if text::same(k.as_str(), stable_key) {
            proof {
                lemma_first_where_at(sources@, p, i as int);
            }
            return Some(sources[i].clone());
        }
        i += 1;
    }
    proof {
        lemma_first_where_at(sources@, p, i as int);
    }
    None
}

/// A remembered source is found whatever node id it has come back under.
pub proof fn lemma_key_ignores_the_id(s: Source, id: u32)
    ensures
        (Source { id, ..s }).key() == s.key(),
{
}

/// No node is offered twice in a row, and nothing is offered that no node is.
pub proof fn lemma_no_repeats(s: Seq<SourceView>)
    ensures
        forall|i: int, j: int|
            #![trigger without_repeats(s)[i], without_repeats(s)[j]]
            0 <= i && j == i + 1 && j < without_repeats(s).len() ==> without_repeats(s)[i].id
                != without_repeats(s)[j].id,
        forall|i: int|
            0 <= i < without_repeats(s).len() ==> s.contains(#[trigger] without_repeats(s)[i]),
        s.len() > 0 ==> without_repeats(s).len() > 0 && without_repeats(s).last().id == s.last().id,
    decreases s.len(),
{
    if s.len() > 0 {
        let d = s.drop_last();
        lemma_no_repeats(d);
        let r = without_repeats(d);
        let w = without_repeats(s);
        assert forall|i: int| 0 <= i < w.len() implies s.contains(#[trigger] w[i]) by {
            if i < r.len() {
                assert(w[i] == r[i]);
                let k = d.index_of(r[i]);
                assert(s[k] == r[i]);
            } else {
                assert(s[s.len() - 1] == w[i]);
            }
        }
        assert forall|i: int, j: int|
            #![trigger w[i], w[j]]
            0 <= i && j == i + 1 && j < w.len() implies w[i].id != w[j].id by {
            assert(w[i] == r[i]);
            if j < r.len() {
                assert(w[j] == r[j]);
            }
        }
    }
}

/// What each node is offered as: an input as a microphone, or as a monitor if
/// it is one; an output as its monitor; a playing application as itself, with
/// what it plays. Other nodes are not offered.
pub proof fn lemma_what_each_node_is_offered_as(n: NodeView)
    ensures
        source_of(n) is Some <==> n.class == "Audio/Source"@ || n.class == "Audio/Source/Virtual"@
            || n.class == "Audio/Sink"@ || n.class == "Stream/Output/Audio"@,
        source_of(n) matches Some(s) ==> ({
            let input = n.class == "Audio/Source"@ || n.class == "Audio/Source/Virtual"@;
            &&& s.id == n.id
            &&& s.node_name == n.name
            &&& input && n.name is Some && ends(n.name->0, ".monitor"@) ==> s.kind
                == SourceKind::Monitor
            &&& input && !(n.name is Some && ends(n.name->0, ".monitor"@)) ==> s.kind
                == SourceKind::Microphone
            &&& input && n.description is Some ==> s.name == n.description->0
            &&& input && n.description is None && n.name is Some ==> s.name == n.name->0
            &&& !input && n.class == "Audio/Sink"@ ==> s.kind == SourceKind::Monitor && (
            n.description is Some ==> s.name == "Monitor of "@ + n.description->0)
            &&& !input && n.class != "Audio/Sink"@ ==> s.kind == SourceKind::Application && s.detail
                == n.media && (n.application is Some ==> s.name == n.application->0)
            &&& s.kind != SourceKind::Application ==> s.detail is None
        }),
{
    reveal_strlit("Audio/Source");
    reveal_strlit("Audio/Source/Virtual");
    reveal_strlit("Audio/Sink");
    reveal_strlit("Stream/Output/Audio");
    assert("Audio/Source"@.len() == 12 && "Audio/Source/Virtual"@.len() == 20
        && "Audio/Sink"@.len() == 10 && "Stream/Output/Audio"@.len() == 19);
}

/// The sources offered are those of the nodes, in order.
pub proof fn lemma_offers_are_in_order(nodes: Seq<NodeView>, next: NodeView)
    ensures
        offered(nodes.push(next)) == (match source_of(next) {
            Some(s) => offered(nodes).push(s),
            None => offered(nodes),
        }),
        offered(Seq::empty()) == Seq::<SourceView>::empty(),
{
    assert(nodes.push(next).drop_last() =~= nodes);
}

/// Microphones come before monitors and monitors before applications, and those
/// of a kind are in the order of their names, whatever their case.
pub proof fn lemma_a_picker_is_ordered_by_kind_and_name(a: SourceView, b: SourceView)
    ensures
        a.kind == b.kind ==> (a.at_most(&b) <==> dictionary(
            lowercase_of(a.name),
            lowercase_of(b.name),
        )),
        a.kind == SourceKind::Microphone && b.kind != SourceKind::Microphone ==> a.at_most(&b)
            && !b.at_most(&a),
        a.kind == SourceKind::Application && b.kind != SourceKind::Application ==> b.at_most(&a)
            && !a.at_most(&b),
{
}

proof fn lemma_every_id_stays(s: Seq<SourceView>, i: int)
    requires
        0 <= i < s.len(),
    ensures
        exists|j: int|
            0 <= j < without_repeats(s).len() && (#[trigger] without_repeats(s)[j]).id == s[i].id,
    decreases s.len(),
{
    let d = s.drop_last();
    let rest = without_repeats(d);
    let all = without_repeats(s);
    if i < d.len() {
        lemma_every_id_stays(d, i);
        let j = choose|j: int| 0 <= j < rest.len() && (#[trigger] rest[j]).id == d[i].id;
        assert(d[i] == s[i]);
        assert(all[j] == rest[j]);
    } else {
        lemma_no_repeats(s);
        assert(all[all.len() - 1].id == s.last().id);
    }
}

/// Every node that offers a source is in the picker.
pub proof fn lemma_every_offer_is_listed(nodes: Seq<NodeView>, i: int)
    requires
        0 <= i < offered(nodes).len(),
    ensures
        exists|j: int|
            0 <= j < listed(nodes).len() && (#[trigger] listed(nodes)[j]).id == offered(nodes)[i].id,
        forall|j: int|
            0 <= j < listed(nodes).len() ==> offered(nodes).contains(#[trigger] listed(nodes)[j]),
{
    broadcast use vstd::seq_lib::group_to_multiset_ensures;

    let all = offered(nodes);
    let order = sorted(all);
    crate::order::lemma_sorted(all);
    assert(all.contains(all[i]));
    assert(all.to_multiset().count(all[i]) > 0);
    assert(order.contains(all[i]));
    let k = choose|k: int| 0 <= k < order.len() && order[k] == all[i];
    lemma_every_id_stays(order, k);
    lemma_no_repeats(order);
    assert forall|j: int| 0 <= j < listed(nodes).len() implies all.contains(
        #[trigger] listed(nodes)[j],
    ) by {
        let x = listed(nodes)[j];
        assert(order.contains(x));
        assert(order.to_multiset().count(x) > 0);
    }
}

/// A device is remembered by its node's name, and an application by its own.
pub proof fn lemma_a_key_is_what_stays(s: Source)
    ensures
        s.kind != SourceKind::Application && s.node_name is Some ==> s.key() == s.node_name->0@,
        s.kind == SourceKind::Application || s.node_name is None ==> s.key() == app_key(
            s.name@,
            shown_detail(s.detail),
        ),
{
}

} // verus!
