//! Circuit netlists: components, their pins and the wires between nodes.

use vstd::prelude::*;
use vstd::string::*;
use crate::text::{views, lemma_views_push};

verus! {

/// Supported component types.
#[derive(Clone, Copy, Debug, PartialEq, Eq, Hash, Structural)]
pub enum ComponentType {
    Resistor,
    Led,
    Capacitor,
    OpAmp,
    Wire,
    Battery,
    Diode,
}

/// The snake-case name of a component type.
pub open spec fn component_type_name(t: ComponentType) -> Seq<char> {
    match t {
        ComponentType::Resistor => "resistor"@,
        ComponentType::Led => "led"@,
        ComponentType::Capacitor => "capacitor"@,
        ComponentType::OpAmp => "op_amp"@,
        ComponentType::Wire => "wire"@,
        ComponentType::Battery => "battery"@,
        ComponentType::Diode => "diode"@,
    }
}

impl ComponentType {
    /// The snake-case name, as used in netlist files.
    pub fn to_string(&self) -> (s: String)
        ensures
            s@ == component_type_name(*self),
    {
        let lit = match self {
            ComponentType::Resistor => "resistor",
            ComponentType::Led => "led",
            ComponentType::Capacitor => "capacitor",
            ComponentType::OpAmp => "op_amp",
            ComponentType::Wire => "wire",
            ComponentType::Battery => "battery",
            ComponentType::Diode => "diode",
        };
        String::from_str(lit)
    }
}

/// A pin on a component, connected to a circuit node.
#[derive(Debug)]
pub struct Pin {
    /// Pin identifier (e.g. "anode", "pin1").
    pub pin_id: String,
    /// The circuit node this pin connects to.
    pub node: String,
}

/// A wire connection between two nodes.
#[derive(Debug)]
pub struct Connection {
    pub from_node: String,
    pub to_node: String,
}

/// Descriptive circuit metadata.
#[derive(Debug)]
pub struct Metadata {
    pub name: Option<String>,
    pub description: Option<String>,
    pub source: Option<String>,
}

/// A circuit component as the checks and the equation builder see it:
/// its identifier, its type and its pins.
#[derive(Debug)]
pub struct Component {
    pub id: String,
    pub component_type: ComponentType,
    pub pins: Vec<Pin>,
}

/// A complete circuit.
#[derive(Debug)]
pub struct Netlist {
    pub components: Vec<Component>,
    pub connections: Vec<Connection>,
    pub metadata: Metadata,
}

/// The nodes that the pins of `pins` touch, in pin order.
pub open spec fn pin_nodes(pins: Seq<Pin>) -> Seq<Seq<char>> {
    pins.map_values(|p: Pin| p.node@)
}

/// The nodes touched by the pins of all components, component by component.
pub open spec fn component_nodes(cs: Seq<Component>) -> Seq<Seq<char>>
    decreases cs.len(),
{
    if cs.len() == 0 {
        seq![]
    } else {
        component_nodes(cs.drop_last()) + pin_nodes(cs.last().pins@)
    }
}

/// The end nodes of the connections, `from` before `to`, connection by connection.
pub open spec fn connection_nodes(cs: Seq<Connection>) -> Seq<Seq<char>>
    decreases cs.len(),
{
    if cs.len() == 0 {
        seq![]
    } else {
        connection_nodes(cs.drop_last()) + seq![cs.last().from_node@, cs.last().to_node@]
    }
}

/// Every mention of a node in the netlist, in order: each pin of each component, then
/// both ends of each connection. A node mentioned `k` times has `k` connections.
pub open spec fn node_mentions(n: Netlist) -> Seq<Seq<char>> {
    component_nodes(n.components@) + connection_nodes(n.connections@)
}

/// Lists every mention of a node in the netlist (see `node_mentions`).
pub fn node_mentions_of(netlist: &Netlist) -> (r: Vec<String>)
    ensures
        views(r@) == node_mentions(*netlist),
{
    let mut r: Vec<String> = Vec::new();
    let cs = &netlist.components;
    let mut i: usize = 0;
    while i < cs.len()
        invariant
            i <= cs.len(),
            views(r@) == component_nodes(cs@.take(i as int)),
        decreases cs.len() - i,
    {
        let pins = &cs[i].pins;
        let ghost before = r@;
        let mut j: usize = 0;
        while j < pins.len()
            invariant
                j <= pins.len(),
                views(r@) == views(before) + pin_nodes(pins@.take(j as int)),
            decreases pins.len() - j,
        {
            let ghost r0 = r@;
            r.push(pins[j].node.clone());
            proof {
                lemma_views_push(r0, pins@[j as int].node);
            }
            assert(pins@.take(j + 1) =~= pins@.take(j as int).push(pins@[j as int]));
            assert(views(r@) =~= views(before) + pin_nodes(pins@.take(j + 1)));
            j = j + 1;
        }
        assert(pins@.take(j as int) =~= pins@);
        assert(cs@.take(i + 1).drop_last() =~= cs@.take(i as int));
        i = i + 1;
    }
    assert(cs@.take(i as int) =~= cs@);
    let ghost mid = views(r@);
    let conns = &netlist.connections;
    let mut k: usize = 0;
    while k < conns.len()
        invariant
            k <= conns.len(),
            mid == component_nodes(cs@),
            views(r@) == mid + connection_nodes(conns@.take(k as int)),
        decreases conns.len() - k,
    {
        let ghost r0 = r@;
        r.push(conns[k].from_node.clone());
        let ghost r1 = r@;
        r.push(conns[k].to_node.clone());
        proof {
            lemma_views_push(r0, conns@[k as int].from_node);
            lemma_views_push(r1, conns@[k as int].to_node);
        }
        assert(conns@.take(k + 1).drop_last() =~= conns@.take(k as int));
        assert(views(r@) =~= mid + connection_nodes(conns@.take(k + 1)));
        k = k + 1;
    }
    assert(conns@.take(k as int) =~= conns@);
    r
}

} // verus!
