//! Nodes and ports of the PipeWire graph, as `pw-dump` reports them.

use crate::json::{self, json_view, JsonView};
use crate::text::{opt_view, same};
use vstd::prelude::*;

verus! {

/// A node of the graph: what the rest of the crate reads of it.
#[derive(Debug)]
pub struct Node {
    pub id: u32,
    /// `media.class`, empty when the node does not say.
    pub class: String,
    /// `node.name`.
    pub name: Option<String>,
    /// `node.description`.
    pub description: Option<String>,
    /// `application.name`.
    pub application: Option<String>,
    /// `media.name`.
    pub media: Option<String>,
}

pub struct NodeView {
    pub id: u32,
    pub class: Seq<char>,
    pub name: Option<Seq<char>>,
    pub description: Option<Seq<char>>,
    pub application: Option<Seq<char>>,
    pub media: Option<Seq<char>>,
}

impl View for Node {
    type V = NodeView;

    open spec fn view(&self) -> NodeView {
        NodeView {
            id: self.id,
            class: self.class@,
            name: opt_view(self.name),
            description: opt_view(self.description),
            application: opt_view(self.application),
            media: opt_view(self.media),
        }
    }
}

pub open spec fn node_views(v: Seq<Node>) -> Seq<NodeView> {
    v.map_values(|n: Node| n@)
}

/// An id as the graph numbers them: the low 32 bits.
pub open spec fn low32(n: u64) -> u32 {
    (n % 0x1_0000_0000) as u32
}

pub fn low_bits(n: u64) -> (r: u32)
    ensures
        r == low32(n),
{
    (n % 0x1_0000_0000) as u32
}

/// The properties of a graph object.
pub open spec fn props_of(o: JsonView) -> Option<JsonView> {
    match o.member("info"@) {
        Some(i) => i.member("props"@),
        None => None,
    }
}

/// The node an object describes; objects that are no node, or that lack
/// properties or an id, describe none.
pub open spec fn node_of(o: JsonView) -> Option<NodeView> {
    if o.text_at("type"@) != Some("PipeWire:Interface:Node"@) {
        None
    } else {
        match (props_of(o), o.number_at("id"@)) {
            (Some(p), Some(id)) => Some(
                NodeView {
                    id: low32(id),
                    class: match p.text_at("media.class"@) {
                        Some(c) => c,
                        None => ""@,
                    },
                    name: p.text_at("node.name"@),
                    description: p.text_at("node.description"@),
                    application: p.text_at("application.name"@),
                    media: p.text_at("media.name"@),
                },
            ),
            _ => None,
        }
    }
}

/// The nodes among `objects`, in order.
pub open spec fn nodes_of(objects: Seq<JsonView>) -> Seq<NodeView>
    decreases objects.len(),
{
    if objects.len() == 0 {
        Seq::empty()
    } else {
        match node_of(objects.last()) {
            Some(n) => nodes_of(objects.drop_last()).push(n),
            None => nodes_of(objects.drop_last()),
        }
    }
}

pub fn read_props(o: &serde_json::Value) -> (r: Option<&serde_json::Value>)
    ensures
        match r {
            Some(p) => props_of(json_view(*o)) == Some(json_view(*p)),
            None => props_of(json_view(*o)) is None,
        },
{
    match json::get(o, "info") {
        Some(i) => json::get(i, "props"),
        None => None,
    }
}

pub fn read_node(o: &serde_json::Value) -> (r: Option<Node>)
    ensures
        match r {
            Some(n) => node_of(json_view(*o)) == Some(n@),
            None => node_of(json_view(*o)) is None,
        },
{
    let kind = json::text_at(o, "type");
    let is_node: bool = match &kind {
        Some(k) => same(k.as_str(), "PipeWire:Interface:Node"),
        None => false,
    };
    if !is_node {
        return None;
    }
    let props = match read_props(o) {
        Some(p) => p,
        None => {
            return None;
        },
    };
    let id: u32 = match json::number_at(o, "id") {
        Some(n) => low_bits(n),
        None => {
            return None;
        },
    };
    let class = match json::text_at(props, "media.class") {
        Some(c) => c,
        None => "".to_owned(),
    };
    Some(
        Node {
            id,
            class,
            name: json::text_at(props, "node.name"),
            description: json::text_at(props, "node.description"),
            application: json::text_at(props, "application.name"),
            media: json::text_at(props, "media.name"),
        },
    )
}

pub fn read_nodes(objects: &[serde_json::Value]) -> (r: Vec<Node>)
    ensures
        node_views(r@) == nodes_of(json::json_views(objects@)),
{
    let mut out: Vec<Node> = Vec::new();
    let mut i: usize = 0;
    let ghost all = json::json_views(objects@);
    assert(node_views(out@) == nodes_of(all.take(0)));
    while i < objects.len()
        invariant
            i <= objects@.len(),
            all == json::json_views(objects@),
            node_views(out@) == nodes_of(all.take(i as int)),
        decreases objects@.len() - i,
    {
        assert(all.take(i + 1).drop_last() == all.take(i as int));
        let ghost was = out@;
        if let Some(n) = read_node(&objects[i]) {
            let ghost v = n@;
            out.push(n);
            assert(node_views(out@) == node_views(was).push(v));
        }
        i += 1;
    }
    assert(all.take(i as int) == all);
    out
}

/// The nodes of a graph are what its objects describe, in order, and an object
/// that describes none adds none.
pub proof fn lemma_nodes_are_in_order(objects: Seq<JsonView>, next: JsonView)
    ensures
        nodes_of(objects.push(next)) == (match node_of(next) {
            Some(n) => nodes_of(objects).push(n),
            None => nodes_of(objects),
        }),
        nodes_of(Seq::empty()) == Seq::<NodeView>::empty(),
{
    assert(objects.push(next).drop_last() =~= objects);
}

/// A node is described by its own properties, and only an object that says it is
/// a node, with an id and properties, describes one.
pub proof fn lemma_a_node_is_described_by_its_properties(o: JsonView)
    ensures
        node_of(o) is Some <==> o.text_at("type"@) == Some("PipeWire:Interface:Node"@)
            && o.number_at("id"@) is Some && props_of(o) is Some,
        node_of(o) matches Some(n) ==> ({
            let p = props_of(o)->0;
            &&& o.number_at("id"@)->0 <= u32::MAX ==> n.id == o.number_at("id"@)->0
            &&& n.class == match p.text_at("media.class"@) {
                Some(c) => c,
                None => ""@,
            }
            &&& n.name == p.text_at("node.name"@)
            &&& n.description == p.text_at("node.description"@)
            &&& n.application == p.text_at("application.name"@)
            &&& n.media == p.text_at("media.name"@)
        }),
{
}

} // verus!
