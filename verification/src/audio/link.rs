//! Per-application capture by linking PipeWire ports directly.
//!
//! `--target` on a capture stream means "read from this source", and an
//! application's playback stream is not a source; its output ports have to be
//! wired into the capture stream's input ports by hand. Linking is additive,
//! so the application keeps playing to its normal output.

use crate::audio::graph::{low32, low_bits, node_of, read_node};
use crate::json::{self, json_list, json_view, json_views, JsonView};
use crate::order::{
    dictionary, in_dictionary_order, lemma_dictionary_total, lemma_dictionary_transitive, sort,
    sorted, Comparable, Ranked,
};
use crate::text::{self, decimal};
use vstd::prelude::*;

verus! {

/// A PipeWire port belonging to a node.
#[derive(Debug, PartialEq, Eq)]
pub struct Port {
    pub id: u32,
    pub node_id: u32,
    /// `out` or `in`.
    pub direction: String,
    pub name: String,
}

impl Clone for Port {
    fn clone(&self) -> (r: Port)
        ensures
            r == *self,
    {
        Port {
            id: self.id,
            node_id: self.node_id,
            direction: self.direction.clone(),
            name: self.name.clone(),
        }
    }
}

pub struct PortView {
    pub id: u32,
    pub node_id: u32,
    pub direction: Seq<char>,
    pub name: Seq<char>,
}

impl View for Port {
    type V = PortView;

    open spec fn view(&self) -> PortView {
        PortView {
            id: self.id,
            node_id: self.node_id,
            direction: self.direction@,
            name: self.name@,
        }
    }
}

pub open spec fn port_views(v: Seq<Port>) -> Seq<PortView> {
    v.map_values(|p: Port| p@)
}

/// An object of the graph, as far as ports are concerned.
pub struct RawObject {
    pub id: u32,
    pub kind: String,
    pub info: Option<RawInfo>,
}

pub struct RawInfo {
    pub props: Option<serde_json::Value>,
}

pub struct RawObjectView {
    pub id: u32,
    pub kind: Seq<char>,
    /// The properties, where the object has any.
    pub props: Option<JsonView>,
}

impl View for RawObject {
    type V = RawObjectView;

    open spec fn view(&self) -> RawObjectView {
        RawObjectView {
            id: self.id,
            kind: self.kind@,
            props: match self.info {
                Some(RawInfo { props: Some(p) }) => Some(json_view(p)),
                _ => None,
            },
        }
    }
}

pub open spec fn object_views(v: Seq<RawObject>) -> Seq<RawObjectView> {
    v.map_values(|o: RawObject| o@)
}

/// The port an object describes; anything without a node and a direction
/// describes none.
pub open spec fn port_of(o: RawObjectView) -> Option<PortView> {
    if o.kind != "PipeWire:Interface:Port"@ {
        None
    } else {
        match o.props {
            Some(p) => match (p.number_at("node.id"@), p.text_at("port.direction"@)) {
                (Some(node), Some(direction)) => Some(
                    PortView {
                        id: o.id,
                        node_id: low32(node),
                        direction,
                        name: match p.text_at("port.name"@) {
                            Some(n) => n,
                            None => ""@,
                        },
                    },
                ),
                _ => None,
            },
            None => None,
        }
    }
}

/// The ports among `objects`, in order.
pub open spec fn ports_in(objects: Seq<RawObjectView>) -> Seq<PortView>
    decreases objects.len(),
{
    if objects.len() == 0 {
        Seq::empty()
    } else {
        match port_of(objects.last()) {
            Some(p) => ports_in(objects.drop_last()).push(p),
            None => ports_in(objects.drop_last()),
        }
    }
}

pub fn read_port(o: &RawObject) -> (r: Option<Port>)
    ensures
        match r {
            Some(p) => port_of(o@) == Some(p@),
            None => port_of(o@) is None,
        },
{
    if !text::same(o.kind.as_str(), "PipeWire:Interface:Port") {
        return None;
    }
    let props = match &o.info {
        Some(RawInfo { props: Some(p) }) => p,
        _ => {
            return None;
        },
    };
    let name = match json::text_at(props, "port.name") {
        Some(n) => n,
        None => "".to_owned(),
    };
    match (json::number_at(props, "node.id"), json::text_at(props, "port.direction")) {
        (Some(node), Some(direction)) => Some(
            Port { id: o.id, node_id: low_bits(node), direction, name },
        ),
        _ => None,
    }
}

/// The ports among the objects of a `pw-dump`, or the message of what was wrong
/// with the dump.
pub fn parse_ports(dump: Result<Vec<RawObject>, String>) -> (r: Result<Vec<Port>, String>)
    ensures
        match (dump, r) {
            (Ok(objects), Ok(v)) => port_views(v@) == ports_in(object_views(objects@)),
            (Err(why), Err(e)) => e@ == "parsing pw-dump output: "@ + why@,
            _ => false,
        },
{
    let objects = match dump {
        Ok(objects) => objects,
        Err(why) => {
            let mut e = "parsing pw-dump output: ".to_owned();
            e.append(why.as_str());
            return Err(e);
        },
    };
    let ghost all = object_views(objects@);
    let mut out: Vec<Port> = Vec::new();
    let mut i: usize = 0;
    assert(port_views(out@) == ports_in(all.take(0)));
    while i < objects.len()
        invariant
            i <= objects@.len(),
            all == object_views(objects@),
            port_views(out@) == ports_in(all.take(i as int)),
        decreases objects@.len() - i,
    {
        assert(all.take(i + 1).drop_last() == all.take(i as int));
        assert(all[i as int] == objects@[i as int]@);
        let ghost was = out@;
        if let Some(p) = read_port(&objects[i]) {
            let ghost v = p@;
            out.push(p);
            assert(port_views(out@) == port_views(was).push(v));
        }
        i += 1;
    }
    assert(all.take(i as int) == all);
    Ok(out)
}

/// Ports in order of name, so a stereo pair is always linked left then right.
impl Ranked for Port {
    open spec fn at_most(&self, other: &Port) -> bool {
        dictionary(self.name@, other.name@)
    }

    proof fn total(a: &Port, b: &Port) {
        lemma_dictionary_total(a.name@, b.name@);
    }

    proof fn transitive(a: &Port, b: &Port, c: &Port) {
        lemma_dictionary_transitive(a.name@, b.name@, c.name@);
    }
}

impl Comparable for Port {
    fn is_at_most(&self, other: &Port) -> (r: bool) {
        in_dictionary_order(self.name.as_str(), other.name.as_str())
    }
}

/// Whether a port is a node's, in one direction.
pub open spec fn is_of(node_id: u32, direction: Seq<char>) -> spec_fn(Port) -> bool {
    |p: Port| p.node_id == node_id && p.direction@ == direction
}

/// A node's ports of one direction, in order of name.
pub open spec fn ports_of(ports: Seq<Port>, node_id: u32, direction: Seq<char>) -> Seq<Port> {
    sorted(ports.filter(is_of(node_id, direction)))
}

fn select(ports: &[Port], node_id: u32, direction: &str) -> (r: Vec<Port>)
    ensures
        r@ == ports_of(ports@, node_id, direction@),
{
    let ghost p = is_of(node_id, direction@);
    let mut out: Vec<Port> = Vec::new();
    let mut i: usize = 0;
    assert(ports@.take(0).filter(p) == Seq::<Port>::empty()) by {
        reveal(Seq::filter);
    }
    while i < ports.len()
        invariant
            i <= ports@.len(),
            p == is_of(node_id, direction@),
            out@ == ports@.take(i as int).filter(p),
        decreases ports@.len() - i,
    {
        proof {
            assert(ports@.take(i + 1) == ports@.take(i as int).push(ports@[i as int]));
            ports@.take(i as int).lemma_filter_push(ports@[i as int], p);
        }
        if ports[i].node_id == node_id && text::same(ports[i].direction.as_str(), direction) {
            out.push(ports[i].clone());
        }
        i += 1;
    }
    assert(ports@.take(i as int) == ports@);
    sort(out)
}

/// Output ports of a node, in a stable order.
pub fn output_ports_of(ports: &[Port], node_id: u32) -> (r: Vec<Port>)
    ensures
        r@ == ports_of(ports@, node_id, "out"@),
{
    select(ports, node_id, "out")
}

/// Input ports of a node, in a stable order.
pub fn input_ports_of(ports: &[Port], node_id: u32) -> (r: Vec<Port>)
    ensures
        r@ == ports_of(ports@, node_id, "in"@),
{
    select(ports, node_id, "in")
}

/// How many links it takes to leave no port out.
pub open spec fn link_count(outs: Seq<Port>, ins: Seq<Port>) -> nat {
    if outs.len() < ins.len() {
        ins.len()
    } else {
        outs.len()
    }
}

/// Which output port goes to which input port: both in order, the fewer of them
/// gone round as often as needed.
pub open spec fn wiring(outs: Seq<Port>, ins: Seq<Port>) -> Seq<(u32, u32)> {
    Seq::new(
        link_count(outs, ins),
        |i: int| (outs[i % outs.len() as int].id, ins[i % ins.len() as int].id),
    )
}

/// No port is left out, on either side: stereo into mono links both channels,
/// and mono into stereo feeds both sides.
pub proof fn lemma_every_port_is_linked(outs: Seq<Port>, ins: Seq<Port>)
    requires
        outs.len() > 0,
        ins.len() > 0,
    ensures
        forall|i: int|
            0 <= i < outs.len() ==> #[trigger] wiring(outs, ins)[i] == (
                outs[i].id,
                ins[i % ins.len() as int].id,
            ),
        forall|i: int|
            0 <= i < ins.len() ==> #[trigger] wiring(outs, ins)[i] == (
                outs[i % outs.len() as int].id,
                ins[i].id,
            ),
{
    assert forall|i: int| 0 <= i < outs.len() implies #[trigger] wiring(outs, ins)[i] == (
        outs[i].id,
        ins[i % ins.len() as int].id,
    ) by {
        vstd::arithmetic::div_mod::lemma_small_mod(i as nat, outs.len());
    }
    assert forall|i: int| 0 <= i < ins.len() implies #[trigger] wiring(outs, ins)[i] == (
        outs[i % outs.len() as int].id,
        ins[i].id,
    ) by {
        vstd::arithmetic::div_mod::lemma_small_mod(i as nat, ins.len());
    }
}

/// Wire every output port of `source_node` into the capture node's inputs.
///
/// A stereo application feeding a mono capture links both channels to the one
/// input, which PipeWire mixes -- the same downmix a monitor would give. A mono
/// one feeding a stereo capture reaches both sides rather than leaving one
/// silent.
pub fn link_all(ports: &[Port], source_node: u32, capture_node: u32) -> (r: Result<
    Vec<(u32, u32)>,
    String,
>)
    ensures
        ({
            let outs = ports_of(ports@, source_node, "out"@);
            let ins = ports_of(ports@, capture_node, "in"@);
            match r {
                Ok(v) => outs.len() > 0 && ins.len() > 0 && v@ == wiring(outs, ins),
                Err(e) => (outs.len() == 0 || ins.len() == 0) && e@ == (if outs.len() == 0 {
                    "source node "@ + decimal(source_node as nat) + " has no output ports"@
                } else {
                    "capture node "@ + decimal(capture_node as nat) + " has no input ports"@
                }),
            }
        }),
{
    let outs = output_ports_of(ports, source_node);
    let ins = input_ports_of(ports, capture_node);
    if outs.len() == 0 {
        let mut e = "source node ".to_owned();
        let n = text::decimal_text(source_node as u64);
        e.append(n.as_str());
        e.append(" has no output ports");
        return Err(e);
    }
    if ins.len() == 0 {
        let mut e = "capture node ".to_owned();
        let n = text::decimal_text(capture_node as u64);
        e.append(n.as_str());
        e.append(" has no input ports");
        return Err(e);
    }
    let mut links: Vec<(u32, u32)> = Vec::new();
    let mut i: usize = 0;
    let n: usize = if outs.len() < ins.len() {
        ins.len()
    } else {
        outs.len()
    };
    while i < n
        invariant
            i <= n == link_count(outs@, ins@),
            outs@.len() > 0,
            ins@.len() > 0,
            links@ == wiring(outs@, ins@).take(i as int),
        decreases n - i,
    {
        let o: usize = i % outs.len();
        let k: usize = i % ins.len();
        links.push((outs[o].id, ins[k].id));
        assert(wiring(outs@, ins@).take(i + 1) == wiring(outs@, ins@).take(i as int).push(
            (outs@[o as int].id, ins@[k as int].id),
        ));
        i += 1;
    }
    assert(wiring(outs@, ins@).take(i as int) == wiring(outs@, ins@));
    Ok(links)
}

/// Whether a node is the capture stream of this name.
pub open spec fn is_capture_node(o: JsonView, name: Seq<char>) -> bool {
    match node_of(o) {
        Some(n) => n.class == "Stream/Input/Audio"@ && n.name == Some(name),
        None => false,
    }
}

/// The first capture stream of this name among `objects`.
pub open spec fn capture_node_in(objects: Seq<JsonView>, name: Seq<char>) -> Option<u32>
    decreases objects.len(),
{
    if objects.len() == 0 {
        None
    } else if is_capture_node(objects[0], name) {
        Some(node_of(objects[0])->0.id)
    } else {
        capture_node_in(objects.skip(1), name)
    }
}

/// Find a capture stream by the unique `node.name` it was launched with.
///
/// Identity comes from a name we choose rather than the process id, because
/// `pw-record` does not publish one.
pub fn find_capture_node(objects: &[serde_json::Value], name: &str) -> (r: Option<u32>)
    ensures
        r == capture_node_in(json_views(objects@), name@),
{
    let ghost all = json_views(objects@);
    let mut i: usize = 0;
    assert(all.skip(0) == all);
    while i < objects.len()
        invariant
            i <= objects@.len(),
            all == json_views(objects@),
            capture_node_in(all, name@) == capture_node_in(all.skip(i as int), name@),
        decreases objects@.len() - i,
    {
        assert(all.skip(i as int)[0] == json_view(objects@[i as int]));
        assert(all.skip(i as int).skip(1) == all.skip(i + 1));
        if let Some(n) = read_node(&objects[i]) {
            let named: bool = match &n.name {
                Some(x) => text::same(x.as_str(), name),
                None => false,
            };
            if named && text::same(n.class.as_str(), "Stream/Input/Audio") {
                return Some(n.id);
            }
        }
        i += 1;
    }
    None
}

/// The capture stream of this name in `pw-dump` output.
pub fn capture_node_by_name(pw_dump_json: &str, name: &str) -> (r: Result<Option<u32>, String>)
    ensures
        match (r, json_list(pw_dump_json@)) {
            (Ok(n), Ok(objects)) => n == capture_node_in(objects, name@),
            (Err(e), Err(why)) => e@ == "parsing pw-dump output: "@ + why,
            _ => false,
        },
{
    match json::parse_list(pw_dump_json) {
        Ok(objects) => Ok(find_capture_node(objects.as_slice(), name)),
        Err(why) => {
            let mut e = "parsing pw-dump output: ".to_owned();
            e.append(why.as_str());
            Err(e)
        },
    }
}

/// A name no other capture will share: the process id, and how many captures
/// this process started before.
pub open spec fn capture_name(pid: nat, n: nat) -> Seq<char> {
    "syrinx-capture-"@ + decimal(pid) + "-"@ + decimal(n)
}

pub fn unique_capture_name(pid: u32, n: u32) -> (r: String)
    ensures
        r@ == capture_name(pid as nat, n as nat),
{
    let mut s = "syrinx-capture-".to_owned();
    let p = text::decimal_text(pid as u64);
    s.append(p.as_str());
    s.append("-");
    let k = text::decimal_text(n as u64);
    s.append(k.as_str());
    s
}

/// The first dash ends a run of digits, which hold none.
proof fn lemma_digits_end_at_a_dash(p: Seq<char>, x: Seq<char>, q: Seq<char>, y: Seq<char>)
    requires
        text::all_digits(p),
        text::all_digits(q),
        p.push('-') + x == q.push('-') + y,
    ensures
        p == q,
        x == y,
{
    let a = p.push('-') + x;
    let b = q.push('-') + y;
    assert(a[p.len() as int] == '-');
    assert(b[q.len() as int] == '-');
    if p.len() < q.len() {
        assert(b[p.len() as int] == q[p.len() as int]);
        assert(text::is_digit(q[p.len() as int]));
    } else if q.len() < p.len() {
        assert(a[q.len() as int] == p[q.len() as int]);
        assert(text::is_digit(p[q.len() as int]));
    }
    assert(p =~= a.take(p.len() as int));
    assert(q =~= b.take(p.len() as int));
    assert(x =~= a.skip(p.len() as int + 1));
    assert(y =~= b.skip(p.len() as int + 1));
}

/// Two captures of one name are the same capture of the same process.
#[verifier::spinoff_prover]
pub proof fn lemma_capture_names_unique(pid: nat, n: nat, other_pid: nat, m: nat)
    requires
        capture_name(pid, n) == capture_name(other_pid, m),
    ensures
        pid == other_pid,
        n == m,
{
    let k = "syrinx-capture-"@.len() as int;
    let p = decimal(pid);
    let q = decimal(other_pid);
    assert("-"@ =~= seq!['-']) by {
        reveal_strlit("-");
    }
    assert(capture_name(pid, n).skip(k) =~= p.push('-') + decimal(n));
    assert(capture_name(other_pid, m).skip(k) =~= q.push('-') + decimal(m));
    text::lemma_decimal_round_trip(pid);
    text::lemma_decimal_round_trip(other_pid);
    lemma_digits_end_at_a_dash(p, decimal(n), q, decimal(m));
    text::lemma_decimal_injective(pid, other_pid);
    text::lemma_decimal_injective(n, m);
}

/// A port is described by its own properties: only an object that says it is a
/// port, with a node and a direction, describes one.
pub proof fn lemma_a_port_is_described_by_its_properties(o: RawObjectView)
    ensures
        port_of(o) is Some <==> o.kind == "PipeWire:Interface:Port"@ && (o.props matches Some(p)
            && p.number_at("node.id"@) is Some && p.text_at("port.direction"@) is Some),
        port_of(o) matches Some(p) ==> ({
            let props = o.props->0;
            &&& p.id == o.id
            &&& props.number_at("node.id"@)->0 <= u32::MAX ==> p.node_id == props.number_at(
                "node.id"@,
            )->0
            &&& Some(p.direction) == props.text_at("port.direction"@)
            &&& props.text_at("port.name"@) is Some ==> Some(p.name) == props.text_at("port.name"@)
        }),
{
}

/// The ports of a graph are those its objects describe, in order.
pub proof fn lemma_ports_are_in_order(objects: Seq<RawObjectView>, next: RawObjectView)
    ensures
        ports_in(objects.push(next)) == (match port_of(next) {
            Some(p) => ports_in(objects).push(p),
            None => ports_in(objects),
        }),
        ports_in(Seq::empty()) == Seq::<PortView>::empty(),
{
    assert(objects.push(next).drop_last() =~= objects);
}

/// The ports of a node are all those it has in a direction, in order of name.
pub proof fn lemma_the_ports_of_a_node_are_all_of_them(
    ports: Seq<Port>,
    node_id: u32,
    direction: Seq<char>,
    p: Port,
)
    ensures
        ({
            let own = ports_of(ports, node_id, direction);
            &&& own.contains(p) <==> ports.contains(p) && p.node_id == node_id && p.direction@
                == direction
            &&& own.to_multiset().count(p) == if p.node_id == node_id && p.direction@ == direction {
                ports.to_multiset().count(p)
            } else {
                0
            }
            &&& forall|i: int, j: int|
                0 <= i < j < own.len() ==> dictionary(
                    (#[trigger] own[i]).name@,
                    (#[trigger] own[j]).name@,
                )
        }),
{
    broadcast use vstd::seq_lib::group_to_multiset_ensures;

    let mine = is_of(node_id, direction);
    let some = ports.filter(mine);
    let own = ports_of(ports, node_id, direction);
    crate::order::lemma_sorted(some);
    lemma_filter_counts(ports, mine, p);
    assert forall|i: int, j: int| 0 <= i < j < own.len() implies dictionary(
        (#[trigger] own[i]).name@,
        (#[trigger] own[j]).name@,
    ) by {
        assert(own[i].at_most(&own[j]));
    }
}

proof fn lemma_filter_counts(s: Seq<Port>, p: spec_fn(Port) -> bool, x: Port)
    ensures
        s.filter(p).to_multiset().count(x) == (if p(x) {
            s.to_multiset().count(x)
        } else {
            0
        }),
    decreases s.len(),
{
    broadcast use vstd::seq_lib::group_to_multiset_ensures;

    if s.len() == 0 {
        reveal(Seq::filter);
        assert(s.filter(p) =~= s);
    } else {
        let d = s.drop_last();
        lemma_filter_counts(d, p, x);
        assert(d.push(s.last()) =~= s);
        d.lemma_filter_push(s.last(), p);
    }
}

/// There are as many links as the side with more ports has, and each links an
/// output to an input.
pub proof fn lemma_links_as_many_as_ports(outs: Seq<Port>, ins: Seq<Port>, i: int)
    requires
        outs.len() > 0,
        ins.len() > 0,
        0 <= i < wiring(outs, ins).len(),
    ensures
        wiring(outs, ins).len() >= outs.len() && wiring(outs, ins).len() >= ins.len(),
        wiring(outs, ins).len() == outs.len() || wiring(outs, ins).len() == ins.len(),
        exists|a: int, b: int|
            0 <= a < outs.len() && 0 <= b < ins.len() && wiring(outs, ins)[i] == (
                (#[trigger] outs[a]).id,
                (#[trigger] ins[b]).id,
            ),
{
    let a = i % outs.len() as int;
    let b = i % ins.len() as int;
    assert(wiring(outs, ins)[i] == (outs[a].id, ins[b].id));
}

/// The capture that is found is the first stream recording under its name.
pub proof fn lemma_the_first_capture_of_its_name_is_found(
    objects: Seq<JsonView>,
    name: Seq<char>,
    i: int,
)
    requires
        0 <= i < objects.len(),
        node_of(objects[i]) matches Some(n) && n.class == "Stream/Input/Audio"@ && n.name == Some(
            name,
        ),
        forall|j: int|
            0 <= j < i ==> !(node_of(#[trigger] objects[j]) matches Some(n) && n.class
                == "Stream/Input/Audio"@ && n.name == Some(name)),
    ensures
        capture_node_in(objects, name) == Some(node_of(objects[i])->0.id),
    decreases i,
{
    if i > 0 {
        let t = objects.skip(1);
        assert(!(node_of(objects[0]) matches Some(n) && n.class == "Stream/Input/Audio"@ && n.name
            == Some(name)));
        assert(t[i - 1] == objects[i]);
        assert forall|j: int| 0 <= j < i - 1 implies !(node_of(#[trigger] t[j]) matches Some(n)
            && n.class == "Stream/Input/Audio"@ && n.name == Some(name)) by {
            assert(t[j] == objects[j + 1]);
        }
        lemma_the_first_capture_of_its_name_is_found(t, name, i - 1);
    }
}

/// Nothing is found where nothing records under the name.
pub proof fn lemma_no_capture_is_made_up(objects: Seq<JsonView>, name: Seq<char>)
    requires
        forall|j: int|
            0 <= j < objects.len() ==> !(node_of(#[trigger] objects[j]) matches Some(n) && n.class
                == "Stream/Input/Audio"@ && n.name == Some(name)),
    ensures
        capture_node_in(objects, name) is None,
    decreases objects.len(),
{
    if objects.len() > 0 {
        let t = objects.skip(1);
        assert(!(node_of(objects[0]) matches Some(n) && n.class == "Stream/Input/Audio"@ && n.name
            == Some(name)));
        assert forall|j: int| 0 <= j < t.len() implies !(node_of(#[trigger] t[j]) matches Some(n)
            && n.class == "Stream/Input/Audio"@ && n.name == Some(name)) by {
            assert(t[j] == objects[j + 1]);
        }
        lemma_no_capture_is_made_up(t, name);
    }
}

} // verus!
