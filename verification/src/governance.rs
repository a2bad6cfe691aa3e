//! The governance checks: a netlist is accepted only if it breaks none of the
//! structural rules of a physical circuit; otherwise every violation is reported.

use vstd::prelude::*;
use vstd::string::*;
use crate::component_library::{ComponentSpec, ComponentValidationError, component_error_text};
use crate::names::{
    first_occurrences, occurrences, lemma_first_occurrences, lemma_occurrences_push,
    is_ground_node, is_rail_label, is_supply_label, is_ground_name, is_rail_name,
    is_supply_name, distinct_in_order,
};
use crate::netlist::{Component, ComponentType, Connection, Netlist, node_mentions, node_mentions_of};
use crate::text::{decimal, decimal_string, lowercase, views};
use crate::wires::{LinkGraph, joined, link_nodes, link_views};

verus! {

/// The governance manager validates netlists against physical laws.
pub struct GovernanceManager;

/// Errors returned when a netlist fails governance validation.
#[derive(Debug)]
pub enum PhysicsError {
    /// Direct short circuit detected between two nodes.
    ShortCircuit { node_a: String, node_b: String },
    /// Same pin used in conflicting connections.
    PinConflict { component: String, pin: String },
    /// Component parameter validation failed.
    InvalidComponent(ComponentValidationError),
    /// Generic netlist structure error.
    InvalidNetlist(String),
    /// A node has only one connection (floating).
    FloatingNode { node: String },
    /// Circuit has no ground reference.
    NoGroundReference,
    /// Circuit has no power source.
    NoPowerSource,
}

/// A governance error, with names and messages as character sequences.
pub enum Fault {
    ShortCircuit { node_a: Seq<char>, node_b: Seq<char> },
    PinConflict { component: Seq<char>, pin: Seq<char> },
    InvalidComponent(ComponentValidationError),
    InvalidNetlist(Seq<char>),
    FloatingNode { node: Seq<char> },
    NoGroundReference,
    NoPowerSource,
}

impl View for PhysicsError {
    type V = Fault;

    open spec fn view(&self) -> Fault {
        match self {
            PhysicsError::ShortCircuit { node_a, node_b } => Fault::ShortCircuit {
                node_a: node_a@,
                node_b: node_b@,
            },
            PhysicsError::PinConflict { component, pin } => Fault::PinConflict {
                component: component@,
                pin: pin@,
            },
            PhysicsError::InvalidComponent(e) => Fault::InvalidComponent(*e),
            PhysicsError::InvalidNetlist(m) => Fault::InvalidNetlist(m@),
            PhysicsError::FloatingNode { node } => Fault::FloatingNode { node: node@ },
            PhysicsError::NoGroundReference => Fault::NoGroundReference,
            PhysicsError::NoPowerSource => Fault::NoPowerSource,
        }
    }
}

/// The text that describes a governance error.
pub open spec fn fault_text(f: Fault) -> Seq<char> {
    match f {
        Fault::ShortCircuit { node_a, node_b } => "SHORT CIRCUIT: Direct short between "@ + node_a
            + " and "@ + node_b,
        Fault::PinConflict { component, pin } => "PIN CONFLICT: Pin "@ + pin + " on component "@
            + component + " has conflicting connections"@,
        Fault::InvalidComponent(e) => component_error_text(e),
        Fault::InvalidNetlist(m) => "INVALID NETLIST: "@ + m,
        Fault::FloatingNode { node } => "FLOATING NODE: Node '"@ + node
            + "' has only one connection"@,
        Fault::NoGroundReference => "NO GROUND: Circuit has no ground reference node"@,
        Fault::NoPowerSource => "NO POWER: Circuit has no power source"@,
    }
}

impl PhysicsError {
    /// Describes the error, e.g. `NO GROUND: Circuit has no ground reference node`.
    pub fn message(&self) -> (s: String)
        ensures
            s@ == fault_text(self@),
    {
        match self {
            PhysicsError::ShortCircuit { node_a, node_b } => {
                let mut s = String::from_str("SHORT CIRCUIT: Direct short between ");
                s.append(node_a.as_str());
                s.append(" and ");
                s.append(node_b.as_str());
                s
            },
            PhysicsError::PinConflict { component, pin } => {
                let mut s = String::from_str("PIN CONFLICT: Pin ");
                s.append(pin.as_str());
                s.append(" on component ");
                s.append(component.as_str());
                s.append(" has conflicting connections");
                s
            },
            PhysicsError::InvalidComponent(e) => e.message(),
            PhysicsError::InvalidNetlist(m) => {
                let mut s = String::from_str("INVALID NETLIST: ");
                s.append(m.as_str());
                s
            },
            PhysicsError::FloatingNode { node } => {
                let mut s = String::from_str("FLOATING NODE: Node '");
                s.append(node.as_str());
                s.append("' has only one connection");
                s
            },
            PhysicsError::NoGroundReference => String::from_str(
                "NO GROUND: Circuit has no ground reference node",
            ),
            PhysicsError::NoPowerSource => String::from_str("NO POWER: Circuit has no power source"),
        }
    }
}

/// The governance errors of a list of errors.
pub open spec fn faults_of(errs: Seq<PhysicsError>) -> Seq<Fault> {
    errs.map_values(|e: PhysicsError| e@)
}

proof fn lemma_faults_push(errs: Seq<PhysicsError>, e: PhysicsError)
    ensures
        faults_of(errs.push(e)) == faults_of(errs).push(e@),
{
    assert(faults_of(errs.push(e)) =~= faults_of(errs).push(e@));
}

fn push_error(errors: &mut Vec<PhysicsError>, e: PhysicsError)
    ensures
        faults_of(final(errors)@) == faults_of(old(errors)@).push(e@),
{
    let ghost before = errors@;
    let ghost f = e@;
    errors.push(e);
    proof {
        assert(faults_of(errors@) =~= faults_of(before).push(f));
    }
}

// ---------------------------------------------------------------------------
// The rules, stated over the netlist.
// ---------------------------------------------------------------------------

/// Some node mention denotes ground.
pub open spec fn has_ground(mentions: Seq<Seq<char>>) -> bool {
    exists|i: int| 0 <= i < mentions.len() && is_ground_node(#[trigger] mentions[i])
}

/// Some component is a battery.
pub open spec fn has_battery(cs: Seq<Component>) -> bool {
    exists|i: int|
        0 <= i < cs.len() && (#[trigger] cs[i]).component_type == ComponentType::Battery
}

/// The zero-resistance links of the components: one per wire with exactly two pins.
pub open spec fn component_links(cs: Seq<Component>) -> Seq<(Seq<char>, Seq<char>)>
    decreases cs.len(),
{
    if cs.len() == 0 {
        seq![]
    } else {
        let c = cs.last();
        component_links(cs.drop_last()) + if c.component_type == ComponentType::Wire
            && c.pins@.len() == 2 {
            seq![(c.pins@[0].node@, c.pins@[1].node@)]
        } else {
            seq![]
        }
    }
}

/// The links of the explicit connections, one per connection.
pub open spec fn connection_links(cs: Seq<Connection>) -> Seq<(Seq<char>, Seq<char>)>
    decreases cs.len(),
{
    if cs.len() == 0 {
        seq![]
    } else {
        connection_links(cs.drop_last()) + seq![(cs.last().from_node@, cs.last().to_node@)]
    }
}

/// All zero-resistance links of a netlist: wires first, then explicit connections.
pub open spec fn wire_links(n: Netlist) -> Seq<(Seq<char>, Seq<char>)> {
    component_links(n.components@) + connection_links(n.connections@)
}

/// The first of `keys[i..]` that denotes ground and is joined to `p` by links.
pub open spec fn first_ground_from(
    keys: Seq<Seq<char>>,
    links: Seq<(Seq<char>, Seq<char>)>,
    p: Seq<char>,
    i: int,
) -> Option<Seq<char>>
    decreases keys.len() - i,
{
    if i >= keys.len() || i < 0 {
        None
    } else if is_ground_node(keys[i]) && joined(links, p, keys[i]) {
        Some(keys[i])
    } else {
        first_ground_from(keys, links, p, i + 1)
    }
}

/// The short circuit reported for the supply node `p`, if any: `p` and the first
/// ground node (in `keys` order) that it reaches through links alone.
pub open spec fn short_fault_at(
    keys: Seq<Seq<char>>,
    links: Seq<(Seq<char>, Seq<char>)>,
    p: Seq<char>,
) -> Seq<Fault> {
    if is_supply_label(lowercase(p)) {
        match first_ground_from(keys, links, p, 0) {
            Some(g) => seq![Fault::ShortCircuit { node_a: p, node_b: g }],
            None => seq![],
        }
    } else {
        seq![]
    }
}

/// The short circuits of the first `upto` linked nodes.
pub open spec fn short_faults(
    keys: Seq<Seq<char>>,
    links: Seq<(Seq<char>, Seq<char>)>,
    upto: int,
) -> Seq<Fault>
    decreases upto,
{
    if upto <= 0 {
        seq![]
    } else {
        short_faults(keys, links, upto - 1) + short_fault_at(keys, links, keys[upto - 1])
    }
}

/// The short circuits of a netlist, one per supply node joined to ground by links.
pub open spec fn netlist_short_faults(n: Netlist) -> Seq<Fault> {
    let links = wire_links(n);
    let keys = link_nodes(links);
    short_faults(keys, links, keys.len() as int)
}

/// The errors of the component specifications among the first `upto`.
pub open spec fn outcome_faults(
    outcomes: Seq<Result<ComponentSpec, ComponentValidationError>>,
    upto: int,
) -> Seq<Fault>
    decreases upto,
{
    if upto <= 0 {
        seq![]
    } else {
        outcome_faults(outcomes, upto - 1) + match outcomes[upto - 1] {
            Ok(_) => seq![],
            Err(e) => seq![Fault::InvalidComponent(e)],
        }
    }
}

/// The specification recorded for each component id after the first `upto` components:
/// a later component with the same id replaces an earlier one.
pub open spec fn spec_table(
    cs: Seq<Component>,
    outcomes: Seq<Result<ComponentSpec, ComponentValidationError>>,
    upto: int,
) -> Map<Seq<char>, ComponentSpec>
    decreases upto,
{
    if upto <= 0 {
        Map::empty()
    } else {
        let prev = spec_table(cs, outcomes, upto - 1);
        match outcomes[upto - 1] {
            Ok(sp) => prev.insert(cs[upto - 1].id@, sp),
            Err(_) => prev,
        }
    }
}

/// The ids of the first `upto` components whose specification succeeded.
pub open spec fn ok_ids(
    cs: Seq<Component>,
    outcomes: Seq<Result<ComponentSpec, ComponentValidationError>>,
    upto: int,
) -> Seq<Seq<char>>
    decreases upto,
{
    if upto <= 0 {
        seq![]
    } else {
        ok_ids(cs, outcomes, upto - 1) + if outcomes[upto - 1] is Ok {
            seq![cs[upto - 1].id@]
        } else {
            seq![]
        }
    }
}

/// The floating nodes among the first `upto` of `nodes`: those not exempt by name
/// that are mentioned fewer than twice.
pub open spec fn floating_faults(
    nodes: Seq<Seq<char>>,
    mentions: Seq<Seq<char>>,
    upto: int,
) -> Seq<Fault>
    decreases upto,
{
    if upto <= 0 {
        seq![]
    } else {
        let x = nodes[upto - 1];
        floating_faults(nodes, mentions, upto - 1) + if !is_rail_label(lowercase(x)) && occurrences(
            mentions,
            x,
        ) < 2 {
            seq![Fault::FloatingNode { node: x }]
        } else {
            seq![]
        }
    }
}

/// The message for a component whose pin count differs from its specification's.
pub open spec fn pin_count_text(id: Seq<char>, name: Seq<char>, have: nat, want: nat) -> Seq<
    char,
> {
    "Component "@ + id + " ("@ + name + ") has "@ + decimal(have) + " pins but expected "@
        + decimal(want)
}

/// The pin-count errors of the first `upto` components, against the recorded specifications.
pub open spec fn pin_faults(
    cs: Seq<Component>,
    table: Map<Seq<char>, ComponentSpec>,
    upto: int,
) -> Seq<Fault>
    decreases upto,
{
    if upto <= 0 {
        seq![]
    } else {
        let c = cs[upto - 1];
        pin_faults(cs, table, upto - 1) + if table.contains_key(c.id@) && c.pins@.len()
            != table[c.id@].pin_count {
            seq![
                Fault::InvalidNetlist(
                    pin_count_text(
                        c.id@,
                        table[c.id@].name@,
                        c.pins@.len(),
                        table[c.id@].pin_count as nat,
                    ),
                ),
            ]
        } else {
            seq![]
        }
    }
}

/// Every governance error of `n`, in the order they are reported, given the outcome
/// of specifying each of its components:
/// 1. no components at all; 2. each failed component specification;
/// 3. no ground node; 4. no battery; 5. each supply node joined to ground by links alone;
/// 6. each node with fewer than two connections (ground and VCC excepted);
/// 7. each component whose pin count differs from its specification.
pub open spec fn governance_faults(
    n: Netlist,
    outcomes: Seq<Result<ComponentSpec, ComponentValidationError>>,
) -> Seq<Fault> {
    let cs = n.components@;
    let mentions = node_mentions(n);
    let nodes = first_occurrences(mentions);
    let table = spec_table(cs, outcomes, cs.len() as int);
    (if cs.len() == 0 {
        seq![Fault::InvalidNetlist("Circuit has no components"@)]
    } else {
        seq![]
    }) + outcome_faults(outcomes, outcomes.len() as int) + (if has_ground(mentions) {
        seq![]
    } else {
        seq![Fault::NoGroundReference]
    }) + (if has_battery(cs) {
        seq![]
    } else {
        seq![Fault::NoPowerSource]
    }) + netlist_short_faults(n) + floating_faults(nodes, mentions, nodes.len() as int)
        + pin_faults(cs, table, cs.len() as int)
}

// ---------------------------------------------------------------------------
// The checks.
// ---------------------------------------------------------------------------

/// Lists the zero-resistance links of a netlist (see `wire_links`).
fn wire_links_of(netlist: &Netlist) -> (r: Vec<(String, String)>)
    ensures
        link_views(r@) == wire_links(*netlist),
{
    let mut r: Vec<(String, String)> = Vec::new();
    let cs = &netlist.components;
    let mut i: usize = 0;
    while i < cs.len()
        invariant
            i <= cs@.len(),
            link_views(r@) == component_links(cs@.take(i as int)),
        decreases cs.len() - i,
    {
        let c = &cs[i];
        let ghost r0 = r@;
        if c.component_type == ComponentType::Wire && c.pins.len() == 2 {
            r.push((c.pins[0].node.clone(), c.pins[1].node.clone()));
        }
        proof {
            assert(cs@.take(i + 1).drop_last() =~= cs@.take(i as int));
            assert(cs@.take(i + 1).last() == cs@[i as int]);
            assert(link_views(r@) =~= component_links(cs@.take(i + 1)));
        }
        i = i + 1;
    }
    assert(cs@.take(i as int) =~= cs@);
    let ghost mid = link_views(r@);
    let conns = &netlist.connections;
    let mut k: usize = 0;
    while k < conns.len()
        invariant
            k <= conns@.len(),
            mid == component_links(cs@),
            link_views(r@) == mid + connection_links(conns@.take(k as int)),
        decreases conns.len() - k,
    {
        let ghost r0 = r@;
        r.push((conns[k].from_node.clone(), conns[k].to_node.clone()));
        proof {
            assert(link_views(r@) =~= link_views(r0).push(
                (conns@[k as int].from_node@, conns@[k as int].to_node@),
            ));
            assert(conns@.take(k + 1).drop_last() =~= conns@.take(k as int));
            assert(link_views(r@) =~= mid + connection_links(conns@.take(k + 1)));
        }
        k = k + 1;
    }
    assert(conns@.take(k as int) =~= conns@);
    r
}

/// The first node, in order, that denotes ground and that `reach` marks as joined to `nodes[start]`.
fn first_marked_ground(
    g: &LinkGraph,
    reach: &Vec<bool>,
    start: usize,
    Ghost(links): Ghost<Seq<(Seq<char>, Seq<char>)>>,
) -> (r: Option<usize>)
    requires
        g.represents(links),
        start < g.nodes@.len(),
        reach@.len() == g.nodes@.len(),
        forall|i: int|
            0 <= i < reach@.len() ==> (reach@[i] <==> joined(
                links,
                g.nodes@[start as int]@,
                #[trigger] g.nodes@[i]@,
            )),
    ensures
        match r {
            Some(j) => j < g.nodes@.len() && first_ground_from(
                views(g.nodes@),
                links,
                g.nodes@[start as int]@,
                0,
            ) == Some(g.nodes@[j as int]@),
            None => first_ground_from(views(g.nodes@), links, g.nodes@[start as int]@, 0) is None,
        },
{
    let ghost keys = views(g.nodes@);
    let ghost p = g.nodes@[start as int]@;
    let mut j: usize = 0;
    while j < g.nodes.len()
        invariant
            j <= g.nodes@.len(),
            keys == views(g.nodes@),
            p == g.nodes@[start as int]@,
            reach@.len() == g.nodes@.len(),
            forall|i: int|
                0 <= i < reach@.len() ==> (reach@[i] <==> joined(
                    links,
                    p,
                    #[trigger] g.nodes@[i]@,
                )),
            first_ground_from(keys, links, p, 0) == first_ground_from(keys, links, p, j as int),
        decreases g.nodes.len() - j,
    {
        assert(keys[j as int] == g.nodes@[j as int]@);
        if reach[j] && is_ground_name(g.nodes[j].as_str()) {
            return Some(j);
        }
        j = j + 1;
    }
    None
}

impl GovernanceManager {
    /// Checks for short circuits: every supply node ("vcc", "5v", "3v3" or "9v", in any
    /// case) that reaches a ground node through wires and connections alone is reported,
    /// together with the first such ground node.
    fn check_short_circuits(&self, netlist: &Netlist, errors: &mut Vec<PhysicsError>)
        ensures
            faults_of(final(errors)@) == faults_of(old(errors)@) + netlist_short_faults(*netlist),
    {
        let links = wire_links_of(netlist);
        let ghost lv = link_views(links@);
        let g = LinkGraph::build(&links);
        let ghost keys = views(g.nodes@);
        let ghost base = faults_of(errors@);
        let n = g.nodes.len();
        let mut p: usize = 0;
        while p < n
            invariant
                p <= n,
                n == g.nodes@.len(),
                g.represents(lv),
                lv == wire_links(*netlist),
                keys == views(g.nodes@),
                keys == link_nodes(lv),
                faults_of(errors@) == base + short_faults(keys, lv, p as int),
            decreases n - p,
        {
            let ghost before = errors@;
            assert(keys[p as int] == g.nodes@[p as int]@);
            if is_supply_name(g.nodes[p].as_str()) {
                let reach = g.reach_from(p, Ghost(lv));
                match first_marked_ground(&g, &reach, p, Ghost(lv)) {
                    Some(q) => {
                        let e = PhysicsError::ShortCircuit {
                            node_a: g.nodes[p].clone(),
                            node_b: g.nodes[q].clone(),
                        };
                        push_error(errors, e);
                    },
                    None => {},
                }
            }
            proof {
                assert(faults_of(errors@) =~= base + short_faults(keys, lv, p + 1));
            }
            p = p + 1;
        }
    }
}

/// The component ids of a list of recorded specifications.
pub open spec fn entry_keys(e: Seq<(String, ComponentSpec)>) -> Seq<Seq<char>> {
    e.map_values(|x: (String, ComponentSpec)| x.0@)
}

/// The list `e` records exactly the specifications of `table`, one entry per id.
pub open spec fn entries_hold(
    e: Seq<(String, ComponentSpec)>,
    table: Map<Seq<char>, ComponentSpec>,
) -> bool {
    &&& forall|j: int|
        #![trigger e[j]]
        0 <= j < e.len() ==> table.contains_key(e[j].0@) && table[e[j].0@] == e[j].1
    &&& forall|k: Seq<char>| table.contains_key(k) <==> entry_keys(e).contains(k)
}

/// The first position of an entry recorded for `key`, if any.
pub fn entry_position(entries: &Vec<(String, ComponentSpec)>, key: &str) -> (r: Option<usize>)
    ensures
        r matches Some(j) ==> j < entries@.len() && entries@[j as int].0@ == key@ && forall|i: int|
            0 <= i < j ==> entries@[i].0@ != key@,
        r is None ==> !entry_keys(entries@).contains(key@),
{
    let k = String::from_str(key);
    let mut j: usize = 0;
    while j < entries.len()
        invariant
            j <= entries@.len(),
            k@ == key@,
            forall|i: int| 0 <= i < j ==> entries@[i].0@ != key@,
        decreases entries.len() - j,
    {
        if entries[j].0 == k {
            return Some(j);
        }
        j = j + 1;
    }
    proof {
        if entry_keys(entries@).contains(key@) {
            let i = choose|i: int| 0 <= i < entry_keys(entries@).len() && entry_keys(entries@)[i] == key@;
            assert(entries@[i].0@ == key@);
        }
    }
    None
}

/// The number of times `x` occurs in `v`, as character sequences.
pub fn count_of(v: &Vec<String>, x: &String) -> (r: usize)
    ensures
        r == occurrences(views(v@), x@),
{
    let mut c: usize = 0;
    let mut i: usize = 0;
    while i < v.len()
        invariant
            i <= v@.len(),
            c == occurrences(views(v@).take(i as int), x@),
            c <= i,
        decreases v.len() - i,
    {
        proof {
            assert(views(v@).take(i + 1) =~= views(v@).take(i as int).push(v@[i as int]@));
            lemma_occurrences_push(views(v@).take(i as int), v@[i as int]@, x@);
        }
        if v[i] == *x {
            c = c + 1;
        }
        i = i + 1;
    }
    assert(views(v@).take(i as int) =~= views(v@));
    c
}

fn pin_count_message(id: &String, name: &String, have: usize, want: usize) -> (s: String)
    ensures
        s@ == pin_count_text(id@, name@, have as nat, want as nat),
{
    let mut s = String::from_str("Component ");
    s.append(id.as_str());
    s.append(" (");
    s.append(name.as_str());
    s.append(") has ");
    let h = decimal_string(have);
    s.append(h.as_str());
    s.append(" pins but expected ");
    let w = decimal_string(want);
    s.append(w.as_str());
    s
}

/// A netlist that has passed all governance checks.
#[derive(Debug)]
pub struct ValidatedNetlist {
    /// The netlist that was validated.
    pub netlist: Netlist,
    /// The specification of each component, keyed by component id.
    pub component_specs: Vec<(String, ComponentSpec)>,
    /// All distinct node names of the circuit, in order of first mention.
    pub node_ids: Vec<String>,
}

impl GovernanceManager {
    /// Creates a new governance manager.
    pub fn new() -> (r: GovernanceManager)
        ensures
            r == GovernanceManager,
    {
        GovernanceManager
    }

    fn record_specs(
        netlist: &Netlist,
        specs: Vec<Result<ComponentSpec, ComponentValidationError>>,
        errors: &mut Vec<PhysicsError>,
    ) -> (entries: Vec<(String, ComponentSpec)>)
        requires
            specs@.len() == netlist.components@.len(),
        ensures
            faults_of(final(errors)@) == faults_of(old(errors)@) + outcome_faults(
                specs@,
                specs@.len() as int,
            ),
            entries_hold(
                entries@,
                spec_table(netlist.components@, specs@, specs@.len() as int),
            ),
            entry_keys(entries@) == first_occurrences(
                ok_ids(netlist.components@, specs@, specs@.len() as int),
            ),
    {
        let ghost orig = specs@;
        let ghost cs = netlist.components@;
        let ghost base = faults_of(errors@);
        let mut rest = specs;
        let mut entries: Vec<(String, ComponentSpec)> = Vec::new();
        let n = netlist.components.len();
        let mut i: usize = 0;
        while i < n
            invariant
                n == cs.len(),
                orig.len() == n,
                cs == netlist.components@,
                i <= n,
                rest@ == orig.skip(i as int),
                faults_of(errors@) == base + outcome_faults(orig, i as int),
                entries_hold(entries@, spec_table(cs, orig, i as int)),
                entry_keys(entries@) == first_occurrences(ok_ids(cs, orig, i as int)),
            decreases n - i,
        {
            assert(rest@[0] == orig[i as int]);
            let outcome = rest.remove(0);
            let c = &netlist.components[i];
            let ghost table = spec_table(cs, orig, i as int);
            let ghost ids = ok_ids(cs, orig, i as int);
            proof {
                lemma_first_occurrences(ids);
                assert(rest@ =~= orig.skip(i + 1));
            }
            match outcome {
                Ok(sp) => {
                    let ghost sp0 = sp;
                    proof {
                        assert(ok_ids(cs, orig, i + 1) =~= ids.push(c.id@));
                        assert(ok_ids(cs, orig, i + 1).drop_last() =~= ids);
                        assert(spec_table(cs, orig, i + 1) == table.insert(c.id@, sp0));
                    }
                    match entry_position(&entries, c.id.as_str()) {
                        Some(j) => {
                            let ghost e0 = entries@;
                            entries.set(j, (c.id.clone(), sp));
                            proof {
                                assert(entry_keys(entries@) =~= entry_keys(e0));
                                assert(entry_keys(e0)[j as int] == c.id@);
                                assert(entry_keys(e0).contains(c.id@));
                                assert forall|m: int|
                                    #![trigger entries@[m]]
                                    0 <= m < entries@.len() implies table.insert(
                                        c.id@,
                                        sp0,
                                    ).contains_key(entries@[m].0@) && table.insert(c.id@, sp0)[entries@[m].0@]
                                        == entries@[m].1 by {
                                    if m != j {
                                        assert(entry_keys(e0)[m] == e0[m].0@);
                                        assert(e0[m] == entries@[m]);
                                        assert(e0[m].0@ != c.id@);
                                    }
                                }
                            }
                        },
                        None => {
                            let ghost e0 = entries@;
                            entries.push((c.id.clone(), sp));
                            proof {
                                assert(entry_keys(entries@) =~= entry_keys(e0).push(c.id@));
                                assert forall|m: int|
                                    #![trigger entries@[m]]
                                    0 <= m < entries@.len() implies table.insert(
                                        c.id@,
                                        sp0,
                                    ).contains_key(entries@[m].0@) && table.insert(c.id@, sp0)[entries@[m].0@]
                                        == entries@[m].1 by {
                                    if m < e0.len() {
                                        assert(e0[m] == entries@[m]);
                                        assert(entry_keys(e0)[m] == e0[m].0@);
                                        assert(e0[m].0@ != c.id@);
                                    }
                                }
                                assert forall|k: Seq<char>|
                                    table.insert(c.id@, sp0).contains_key(k) <==> entry_keys(
                                        entries@,
                                    ).contains(k) by {
                                    if entry_keys(entries@).contains(k) && k != c.id@ {
                                        let m = choose|m: int|
                                            0 <= m < entry_keys(entries@).len() && entry_keys(
                                                entries@,
                                            )[m] == k;
                                        assert(entry_keys(e0)[m] == k);
                                    }
                                    if entry_keys(e0).contains(k) {
                                        let m = choose|m: int|
                                            0 <= m < entry_keys(e0).len() && entry_keys(e0)[m] == k;
                                        assert(entry_keys(entries@)[m] == k);
                                    }
                                    assert(entry_keys(entries@)[e0.len() as int] == c.id@);
                                }
                            }
                        },
                    }
                    proof {
                        assert(outcome_faults(orig, i + 1) =~= outcome_faults(orig, i as int));
                    }
                },
                Err(e) => {
                    proof {
                        assert(ok_ids(cs, orig, i + 1) =~= ids);
                        assert(spec_table(cs, orig, i + 1) == table);
                    }
                    push_error(errors, PhysicsError::InvalidComponent(e));
                    proof {
                        assert(faults_of(errors@) =~= base + outcome_faults(orig, i + 1));
                    }
                },
            }
            i = i + 1;
        }
        entries
    }
}

impl GovernanceManager {
    fn check_ground(mentions: &Vec<String>, errors: &mut Vec<PhysicsError>)
        ensures
            faults_of(final(errors)@) == faults_of(old(errors)@) + if has_ground(views(mentions@)) {
                seq![]
            } else {
                seq![Fault::NoGroundReference]
            },
    {
        let ghost ms = views(mentions@);
        let mut i: usize = 0;
        while i < mentions.len()
            invariant
                i <= mentions@.len(),
                ms == views(mentions@),
                forall|j: int| 0 <= j < i ==> !is_ground_node(#[trigger] ms[j]),
            decreases mentions.len() - i,
        {
            assert(ms[i as int] == mentions@[i as int]@);
            if is_ground_name(mentions[i].as_str()) {
                assert(has_ground(ms));
                assert(faults_of(old(errors)@) + seq![] =~= faults_of(old(errors)@));
                return ;
            }
            i = i + 1;
        }
        push_error(errors, PhysicsError::NoGroundReference);
        proof {
            assert(faults_of(errors@) =~= faults_of(old(errors)@) + seq![Fault::NoGroundReference]);
        }
    }

    fn check_power(cs: &Vec<Component>, errors: &mut Vec<PhysicsError>)
        ensures
            faults_of(final(errors)@) == faults_of(old(errors)@) + if has_battery(cs@) {
                seq![]
            } else {
                seq![Fault::NoPowerSource]
            },
    {
        let mut i: usize = 0;
        while i < cs.len()
            invariant
                i <= cs@.len(),
                forall|j: int|
                    0 <= j < i ==> (#[trigger] cs@[j]).component_type != ComponentType::Battery,
            decreases cs.len() - i,
        {
            if cs[i].component_type == ComponentType::Battery {
                assert(has_battery(cs@));
                assert(faults_of(old(errors)@) + seq![] =~= faults_of(old(errors)@));
                return ;
            }
            i = i + 1;
        }
        push_error(errors, PhysicsError::NoPowerSource);
        proof {
            assert(faults_of(errors@) =~= faults_of(old(errors)@) + seq![Fault::NoPowerSource]);
        }
    }

    fn check_floating(nodes: &Vec<String>, mentions: &Vec<String>, errors: &mut Vec<PhysicsError>)
        ensures
            faults_of(final(errors)@) == faults_of(old(errors)@) + floating_faults(
                views(nodes@),
                views(mentions@),
                nodes@.len() as int,
            ),
    {
        let ghost base = faults_of(errors@);
        let ghost ns = views(nodes@);
        let ghost ms = views(mentions@);
        let mut i: usize = 0;
        while i < nodes.len()
            invariant
                i <= nodes@.len(),
                ns == views(nodes@),
                ms == views(mentions@),
                faults_of(errors@) == base + floating_faults(ns, ms, i as int),
            decreases nodes.len() - i,
        {
            assert(ns[i as int] == nodes@[i as int]@);
            let exempt = is_rail_name(nodes[i].as_str());
            if !exempt && count_of(mentions, &nodes[i]) < 2 {
                push_error(errors, PhysicsError::FloatingNode { node: nodes[i].clone() });
            }
            proof {
                assert(faults_of(errors@) =~= base + floating_faults(ns, ms, i + 1));
            }
            i = i + 1;
        }
    }

    fn check_pin_counts(
        cs: &Vec<Component>,
        entries: &Vec<(String, ComponentSpec)>,
        Ghost(table): Ghost<Map<Seq<char>, ComponentSpec>>,
        errors: &mut Vec<PhysicsError>,
    )
        requires
            entries_hold(entries@, table),
        ensures
            faults_of(final(errors)@) == faults_of(old(errors)@) + pin_faults(
                cs@,
                table,
                cs@.len() as int,
            ),
    {
        let ghost base = faults_of(errors@);
        let mut i: usize = 0;
        while i < cs.len()
            invariant
                i <= cs@.len(),
                entries_hold(entries@, table),
                faults_of(errors@) == base + pin_faults(cs@, table, i as int),
            decreases cs.len() - i,
        {
            let c = &cs[i];
            match entry_position(entries, c.id.as_str()) {
                Some(j) => {
                    assert(entries@[j as int] == entries@[j as int]);
                    let spec = &entries[j].1;
                    if c.pins.len() != spec.pin_count {
                        let msg = pin_count_message(&c.id, &spec.name, c.pins.len(), spec.pin_count);
                        push_error(errors, PhysicsError::InvalidNetlist(msg));
                    }
                },
                None => {
                    assert(!table.contains_key(c.id@));
                },
            }
            proof {
                assert(faults_of(errors@) =~= base + pin_faults(cs@, table, i + 1));
            }
            i = i + 1;
        }
    }

    /// Validates a netlist against physical laws, given the outcome of specifying each
    /// of its components (`specs[i]` for `netlist.components[i]`).
    ///
    /// Returns the validated netlist when no rule is broken, or every error found,
    /// in the order that `governance_faults` gives.
    pub fn validate(
        &self,
        netlist: Netlist,
        specs: Vec<Result<ComponentSpec, ComponentValidationError>>,
    ) -> (r: Result<ValidatedNetlist, Vec<PhysicsError>>)
        requires
            specs@.len() == netlist.components@.len(),
        ensures
            match r {
                Ok(v) => {
                    &&& governance_faults(netlist, specs@).len() == 0
                    &&& v.netlist == netlist
                    &&& entries_hold(
                        v.component_specs@,
                        spec_table(netlist.components@, specs@, specs@.len() as int),
                    )
                    &&& entry_keys(v.component_specs@) == first_occurrences(
                        ok_ids(netlist.components@, specs@, specs@.len() as int),
                    )
                    &&& views(v.node_ids@) == first_occurrences(node_mentions(netlist))
                },
                Err(errs) => {
                    &&& faults_of(errs@) == governance_faults(netlist, specs@)
                    &&& errs@.len() > 0
                },
            },
    {
        let ghost n0 = netlist;
        let ghost outcomes = specs@;
        let ghost cs = netlist.components@;
        let mut errors: Vec<PhysicsError> = Vec::new();
        if netlist.components.len() == 0 {
            push_error(
                &mut errors,
                PhysicsError::InvalidNetlist(String::from_str("Circuit has no components")),
            );
        }
        let ghost f1 = faults_of(errors@);
        let entries = Self::record_specs(&netlist, specs, &mut errors);
        let ghost f2 = faults_of(errors@);
        let mentions = node_mentions_of(&netlist);
        let node_ids = distinct_in_order(&mentions);
        Self::check_ground(&mentions, &mut errors);
        let ghost f3 = faults_of(errors@);
        Self::check_power(&netlist.components, &mut errors);
        let ghost f4 = faults_of(errors@);
        self.check_short_circuits(&netlist, &mut errors);
        let ghost f5 = faults_of(errors@);
        Self::check_floating(&node_ids, &mentions, &mut errors);
        let ghost f6 = faults_of(errors@);
        Self::check_pin_counts(
            &netlist.components,
            &entries,
            Ghost(spec_table(cs, outcomes, outcomes.len() as int)),
            &mut errors,
        );
        proof {
            assert(f1 =~= if cs.len() == 0 {
                seq![Fault::InvalidNetlist("Circuit has no components"@)]
            } else {
                seq![]
            });
            assert(faults_of(errors@) =~= governance_faults(n0, outcomes));
            assert(faults_of(errors@).len() == errors@.len());
        }
        if errors.len() == 0 {
            Ok(ValidatedNetlist { netlist, component_specs: entries, node_ids })
        } else {
            Err(errors)
        }
    }
}

impl Default for GovernanceManager {
    fn default() -> (r: GovernanceManager)
        ensures
            r == GovernanceManager,
    {
        GovernanceManager::new()
    }
}

} // verus!
