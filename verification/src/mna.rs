//! Modified Nodal Analysis: the layout of the system `A x = z` for a validated circuit,
//! and the matrix entries that each component stamps into it.
//!
//! Rows `0 .. num_nodes` of `A` and `z` belong to the non-ground nodes (node index `k`
//! has row `k - 1`; ground is index 0 and has no row); rows `num_nodes ..` belong to
//! the voltage sources. The entries computed here carry a sign; the caller scales them
//! by the component's conductance or adds them as given.

use vstd::prelude::*;
use vstd::string::*;
use crate::governance::ValidatedNetlist;
use crate::names::{first_occurrences, is_ground_node, is_ground_name, lemma_first_occurrences};
use crate::netlist::{Component, ComponentType, Netlist, node_mentions, node_mentions_of};
use crate::text::views;

verus! {

/// The layout of an MNA system: its size, and the index of each node and voltage source.
#[derive(Debug)]
pub struct MnaSystem {
    /// Number of nodes, ground excluded.
    pub num_nodes: usize,
    /// Number of voltage sources (batteries).
    pub num_vsources: usize,
    /// Total system size (`num_nodes + num_vsources`).
    pub total_size: usize,
    /// Each non-ground node's name and index (1-based; 0 is ground).
    pub node_map: Vec<(String, usize)>,
    /// Each voltage source's component id and index (0-based).
    pub vsource_map: Vec<(String, usize)>,
}

/// Errors that can occur while solving an MNA system.
#[derive(Debug)]
pub enum SolverError {
    /// The A matrix is singular (cannot be inverted).
    SingularMatrix,
    /// A node referenced in the circuit was not found.
    NodeNotFound(String),
    /// The system has no equations to solve.
    EmptySystem,
    /// Newton-Raphson did not converge.
    DidNotConverge,
    /// Time budget exceeded.
    TimeBudgetExceeded,
}

/// The text that describes a solver error.
pub open spec fn solver_error_text(e: SolverError) -> Seq<char> {
    match e {
        SolverError::SingularMatrix =>
            "Singular matrix: circuit may have floating nodes or redundant equations"@,
        SolverError::NodeNotFound(n) => "Node '"@ + n@ + "' not found in the system"@,
        SolverError::EmptySystem => "MNA system has no equations to solve"@,
        SolverError::DidNotConverge => "Newton-Raphson solver did not converge"@,
        SolverError::TimeBudgetExceeded => "Solver exceeded time budget"@,
    }
}

impl SolverError {
    /// Describes the error.
    pub fn message(&self) -> (s: String)
        ensures
            s@ == solver_error_text(*self),
    {
        match self {
            SolverError::SingularMatrix => String::from_str(
                "Singular matrix: circuit may have floating nodes or redundant equations",
            ),
            SolverError::NodeNotFound(n) => {
                let mut s = String::from_str("Node '");
                s.append(n.as_str());
                s.append("' not found in the system");
                s
            },
            SolverError::EmptySystem => String::from_str("MNA system has no equations to solve"),
            SolverError::DidNotConverge => String::from_str("Newton-Raphson solver did not converge"),
            SolverError::TimeBudgetExceeded => String::from_str("Solver exceeded time budget"),
        }
    }
}

/// One signed entry of a stamp: the cell `(row, col)` receives `sign` times the stamped value.
#[derive(Clone, Copy, Debug, PartialEq, Eq, Structural)]
pub struct StampEntry {
    pub row: usize,
    pub col: usize,
    pub sign: i8,
}

/// The stamp of a voltage source: `A` receives `entries` (each sign times one), and
/// `z[z_row]` is set to the source's voltage.
#[derive(Debug)]
pub struct VoltageStamp {
    pub entries: Vec<StampEntry>,
    pub z_row: usize,
}

/// Where the conductance of a two-terminal element comes from.
#[derive(Clone, Copy, Debug, PartialEq, Eq, Structural)]
pub enum Conductance {
    /// The reciprocal of the component's own value (1000 Ω when it has none).
    ComponentValue,
    /// The fixed linear model of an LED or diode (100 Ω).
    Led,
    /// The near-zero resistance of a jumper wire (1e9 S).
    Wire,
}

/// What one component contributes to the system.
#[derive(Clone, Copy, Debug, PartialEq, Eq, Structural)]
pub enum CircuitStamp {
    /// A conductance between two node indices (see `MnaSystem::stamp_resistor`).
    Conductance { component: usize, conductance: Conductance, node1: usize, node2: usize },
    /// A voltage source between two node indices (see `MnaSystem::stamp_voltage_source`).
    VoltageSource { component: usize, pos: usize, neg: usize, vs_idx: usize },
}

/// The names in `s` that do not denote ground, in order.
pub open spec fn non_ground(s: Seq<Seq<char>>) -> Seq<Seq<char>>
    decreases s.len(),
{
    if s.len() == 0 {
        seq![]
    } else {
        non_ground(s.drop_last()) + if is_ground_node(s.last()) {
            seq![]
        } else {
            seq![s.last()]
        }
    }
}

/// The nodes that get a row of the system, in order of first mention.
pub open spec fn matrix_nodes(n: Netlist) -> Seq<Seq<char>> {
    first_occurrences(non_ground(node_mentions(n)))
}

/// The ids of the batteries, in component order.
pub open spec fn battery_ids(cs: Seq<Component>) -> Seq<Seq<char>>
    decreases cs.len(),
{
    if cs.len() == 0 {
        seq![]
    } else {
        battery_ids(cs.drop_last()) + if cs.last().component_type == ComponentType::Battery {
            seq![cs.last().id@]
        } else {
            seq![]
        }
    }
}

/// The last position of `x` in `s`, or -1.
pub open spec fn last_position<A>(s: Seq<A>, x: A) -> int
    decreases s.len(),
{
    if s.len() == 0 {
        -1
    } else if s.last() == x {
        s.len() - 1
    } else {
        last_position(s.drop_last(), x)
    }
}

/// The names of a name table.
pub open spec fn table_names(m: Seq<(String, usize)>) -> Seq<Seq<char>> {
    m.map_values(|e: (String, usize)| e.0@)
}

/// The value of the first entry of `m` named `k`.
pub open spec fn lookup(m: Seq<(String, usize)>, k: Seq<char>) -> Option<usize>
    decreases m.len(),
{
    if m.len() == 0 {
        None
    } else if m[0].0@ == k {
        Some(m[0].1)
    } else {
        lookup(m.drop_first(), k)
    }
}

/// The value of the entry named `key` in `m` (the first one, if several).
pub fn table_lookup(m: &Vec<(String, usize)>, key: &str) -> (r: Option<usize>)
    ensures
        r == lookup(m@, key@),
{
    let k = String::from_str(key);
    let mut i: usize = 0;
    assert(m@.skip(0) =~= m@);
    while i < m.len()
        invariant
            i <= m@.len(),
            k@ == key@,
            lookup(m@, key@) == lookup(m@.skip(i as int), key@),
        decreases m.len() - i,
    {
        assert(m@.skip(i as int).drop_first() =~= m@.skip(i + 1));
        assert(m@.skip(i as int)[0] == m@[i as int]);
        if m[i].0 == k {
            return Some(m[i].1);
        }
        i = i + 1;
    }
    None
}

impl MnaSystem {
    /// `self` is the layout of the system for `n`: one row per node that is not ground,
    /// in order of first mention, numbered from 1; one per battery, in component order,
    /// numbered from 0 (a repeated battery id keeps the number of its last battery).
    pub open spec fn is_layout_of(&self, n: Netlist) -> bool {
        let nodes = matrix_nodes(n);
        let bats = battery_ids(n.components@);
        &&& self.num_nodes == nodes.len()
        &&& self.num_vsources == bats.len()
        &&& self.total_size == nodes.len() + bats.len()
        &&& table_names(self.node_map@) == nodes
        &&& forall|i: int|
            0 <= i < self.node_map@.len() ==> (#[trigger] self.node_map@[i]).1 == i + 1
        &&& table_names(self.vsource_map@) == first_occurrences(bats)
        &&& forall|i: int|
            0 <= i < self.vsource_map@.len() ==> (#[trigger] self.vsource_map@[i]).1
                == last_position(bats, self.vsource_map@[i].0@)
    }

    /// The index of a node: 0 for ground, else its entry in `node_map`.
    pub open spec fn node_index_of(&self, name: Seq<char>) -> Option<usize> {
        if is_ground_node(name) {
            Some(0)
        } else {
            lookup(self.node_map@, name)
        }
    }

    /// Creates the layout of the MNA system of a validated netlist.
    pub fn from_validated(validated: &ValidatedNetlist) -> (r: MnaSystem)
        requires
            matrix_nodes(validated.netlist).len() + battery_ids(validated.netlist.components@).len()
                <= usize::MAX,
        ensures
            r.is_layout_of(validated.netlist),
    {
        let netlist = &validated.netlist;
        let mentions = node_mentions_of(netlist);
        let ghost ms = views(mentions@);
        let mut node_map: Vec<(String, usize)> = Vec::new();
        let mut node_index: usize = 0;
        let mut i: usize = 0;
        while i < mentions.len()
            invariant
                i <= mentions@.len(),
                ms == views(mentions@),
                ms == node_mentions(*netlist),
                table_names(node_map@) == first_occurrences(non_ground(ms.take(i as int))),
                node_index == node_map@.len(),
                forall|j: int| 0 <= j < node_map@.len() ==> (#[trigger] node_map@[j]).1 == j + 1,
                first_occurrences(non_ground(ms)).len() + battery_ids(netlist.components@).len()
                    <= usize::MAX,
            decreases mentions.len() - i,
        {
            let ghost t = ms.take(i + 1);
            proof {
                assert(t.drop_last() =~= ms.take(i as int));
                assert(t.last() == mentions@[i as int]@);
                lemma_non_ground_prefix(ms, i + 1);
                lemma_first_occurrences_prefix(non_ground(ms.take(i + 1)), non_ground(ms));
            }
            if !is_ground_name(mentions[i].as_str()) {
                let ghost before = node_map@;
                proof {
                    assert(non_ground(t) =~= non_ground(ms.take(i as int)).push(t.last()));
                    assert(non_ground(t).drop_last() =~= non_ground(ms.take(i as int)));
                }
                if table_lookup(&node_map, mentions[i].as_str()).is_none() {
                    proof {
                        lemma_lookup_none(node_map@, t.last());
                        lemma_first_occurrences_len(non_ground(t));
                    }
                    node_index = node_index + 1;
                    node_map.push((mentions[i].clone(), node_index));
                    proof {
                        assert(table_names(node_map@) =~= table_names(before).push(t.last()));
                    }
                } else {
                    proof {
                        lemma_lookup_some(node_map@, t.last());
                    }
                }
            } else {
                assert(non_ground(t) =~= non_ground(ms.take(i as int)));
            }
            i = i + 1;
        }
        assert(ms.take(i as int) =~= ms);
        let num_nodes = node_index;
        let cs = &netlist.components;
        let mut vsource_map: Vec<(String, usize)> = Vec::new();
        let mut vsource_index: usize = 0;
        let mut k: usize = 0;
        while k < cs.len()
            invariant
                k <= cs@.len(),
                num_nodes == first_occurrences(non_ground(ms)).len(),
                num_nodes + battery_ids(cs@).len() <= usize::MAX,
                vsource_index == battery_ids(cs@.take(k as int)).len(),
                table_names(vsource_map@) == first_occurrences(battery_ids(cs@.take(k as int))),
                forall|j: int|
                    0 <= j < vsource_map@.len() ==> (#[trigger] vsource_map@[j]).1 == last_position(
                        battery_ids(cs@.take(k as int)),
                        vsource_map@[j].0@,
                    ),
            decreases cs.len() - k,
        {
            let ghost b0 = battery_ids(cs@.take(k as int));
            let ghost b1 = battery_ids(cs@.take(k + 1));
            proof {
                assert(cs@.take(k + 1).drop_last() =~= cs@.take(k as int));
                assert(cs@.take(k + 1).last() == cs@[k as int]);
                lemma_battery_ids_prefix(cs@, k as int);
            }
            if cs[k].component_type == ComponentType::Battery {
                let ghost id = cs@[k as int].id@;
                proof {
                    assert(b1 =~= b0.push(id));
                    assert(b1.drop_last() =~= b0);
                    assert(last_position(b1, id) == b0.len());
                }
                let ghost before = vsource_map@;
                match table_position(&vsource_map, cs[k].id.as_str()) {
                    Some(j) => {
                        vsource_map.set(j, (cs[k].id.clone(), vsource_index));
                        proof {
                            assert(table_names(vsource_map@) =~= table_names(before));
                            assert(table_names(before)[j as int] == id);
                            assert(table_names(before).contains(id));
                            assert forall|m: int|
                                0 <= m < vsource_map@.len() implies (#[trigger] vsource_map@[m]).1
                                    == last_position(b1, vsource_map@[m].0@) by {
                                if m != j {
                                    lemma_first_occurrences(b0);
                                    assert(table_names(before)[m] == before[m].0@);
                                    assert(before[m].0@ != id);
                                    assert(vsource_map@[m] == before[m]);
                                    assert(last_position(b1, before[m].0@) == last_position(
                                        b0,
                                        before[m].0@,
                                    ));
                                }
                            }
                        }
                    },
                    None => {
                        vsource_map.push((cs[k].id.clone(), vsource_index));
                        proof {
                            assert(table_names(vsource_map@) =~= table_names(before).push(id));
                            assert forall|m: int|
                                0 <= m < vsource_map@.len() implies (#[trigger] vsource_map@[m]).1
                                    == last_position(b1, vsource_map@[m].0@) by {
                                if m < before.len() {
                                    assert(vsource_map@[m] == before[m]);
                                    assert(table_names(before)[m] == before[m].0@);
                                    assert(before[m].0@ != id);
                                }
                            }
                        }
                    },
                }
                vsource_index = vsource_index + 1;
            } else {
                assert(b1 =~= b0);
            }
            k = k + 1;
        }
        assert(cs@.take(k as int) =~= cs@);
        MnaSystem {
            num_nodes,
            num_vsources: vsource_index,
            total_size: num_nodes + vsource_index,
            node_map,
            vsource_map,
        }
    }

    /// A system without equations cannot be solved: `EmptySystem` exactly when
    /// `total_size` is 0.
    pub fn check_solvable(&self) -> (r: Result<(), SolverError>)
        ensures
            r is Err <==> self.total_size == 0,
            r matches Err(e) ==> e is EmptySystem,
    {
        if self.total_size == 0 {
            Err(SolverError::EmptySystem)
        } else {
            Ok(())
        }
    }

    /// Checks whether a node name denotes ground ("gnd", "ground" or "0", in any case).
    pub fn is_ground(node_name: &str) -> (r: bool)
        ensures
            r == is_ground_node(node_name@),
    {
        is_ground_name(node_name)
    }

    /// The matrix index of a node: `Some(0)` for ground, its `node_map` index otherwise,
    /// `None` when the node is not in the map.
    pub fn node_index(&self, node_name: &str) -> (r: Option<usize>)
        ensures
            r == self.node_index_of(node_name@),
    {
        if is_ground_name(node_name) {
            Some(0)
        } else {
            table_lookup(&self.node_map, node_name)
        }
    }
}

/// The first position of an entry named `key`, if any.
fn table_position(m: &Vec<(String, usize)>, key: &str) -> (r: Option<usize>)
    ensures
        r matches Some(j) ==> j < m@.len() && m@[j as int].0@ == key@ && forall|i: int|
            0 <= i < j ==> m@[i].0@ != key@,
        r is None ==> !table_names(m@).contains(key@),
{
    let k = String::from_str(key);
    let mut j: usize = 0;
    while j < m.len()
        invariant
            j <= m@.len(),
            k@ == key@,
            forall|i: int| 0 <= i < j ==> m@[i].0@ != key@,
        decreases m.len() - j,
    {
        if m[j].0 == k {
            return Some(j);
        }
        j = j + 1;
    }
    proof {
        if table_names(m@).contains(key@) {
            let i = choose|i: int| 0 <= i < table_names(m@).len() && table_names(m@)[i] == key@;
            assert(m@[i].0@ == key@);
        }
    }
    None
}

proof fn lemma_lookup_none(m: Seq<(String, usize)>, k: Seq<char>)
    requires
        lookup(m, k) is None,
    ensures
        !table_names(m).contains(k),
    decreases m.len(),
{
    if m.len() > 0 {
        lemma_lookup_none(m.drop_first(), k);
        if table_names(m).contains(k) {
            let i = choose|i: int| 0 <= i < table_names(m).len() && table_names(m)[i] == k;
            assert(i != 0);
            assert(table_names(m.drop_first())[i - 1] == k);
        }
    }
}

proof fn lemma_lookup_some(m: Seq<(String, usize)>, k: Seq<char>)
    requires
        lookup(m, k) is Some,
    ensures
        table_names(m).contains(k),
    decreases m.len(),
{
    if m[0].0@ == k {
        assert(table_names(m)[0] == k);
    } else {
        lemma_lookup_some(m.drop_first(), k);
        let i = choose|i: int|
            0 <= i < table_names(m.drop_first()).len() && table_names(m.drop_first())[i] == k;
        assert(table_names(m)[i + 1] == k);
    }
}

proof fn lemma_first_occurrences_len<A>(s: Seq<A>)
    ensures
        first_occurrences(s).len() <= s.len(),
    decreases s.len(),
{
    if s.len() > 0 {
        lemma_first_occurrences_len(s.drop_last());
    }
}

/// The distinct elements of a prefix are no more than those of the whole.
proof fn lemma_first_occurrences_prefix<A>(p: Seq<A>, s: Seq<A>)
    requires
        p.len() <= s.len(),
        p == s.take(p.len() as int),
    ensures
        first_occurrences(p).len() <= first_occurrences(s).len(),
    decreases s.len() - p.len(),
{
    if p.len() < s.len() {
        let q = s.take((p.len() + 1) as int);
        assert(q.drop_last() =~= p);
        assert(first_occurrences(q).len() >= first_occurrences(p).len());
        lemma_first_occurrences_prefix(q, s);
    } else {
        assert(p =~= s);
    }
}

proof fn lemma_non_ground_prefix(s: Seq<Seq<char>>, i: int)
    requires
        0 <= i <= s.len(),
    ensures
        non_ground(s.take(i)) == non_ground(s).take(non_ground(s.take(i)).len() as int),
        non_ground(s.take(i)).len() <= non_ground(s).len(),
    decreases s.len() - i,
{
    if i < s.len() {
        lemma_non_ground_prefix(s, i + 1);
        let t = s.take(i + 1);
        assert(t.drop_last() =~= s.take(i));
        let a = non_ground(s.take(i));
        let b = non_ground(t);
        assert(b.take(a.len() as int) =~= a);
        assert(non_ground(s).take(b.len() as int).take(a.len() as int) =~= non_ground(s).take(
            a.len() as int,
        ));
    } else {
        assert(s.take(i) =~= s);
        assert(non_ground(s).take(non_ground(s).len() as int) =~= non_ground(s));
    }
}

proof fn lemma_battery_ids_prefix(cs: Seq<Component>, k: int)
    requires
        0 <= k < cs.len(),
    ensures
        battery_ids(cs.take(k + 1)).len() <= battery_ids(cs).len(),
    decreases cs.len() - k,
{
    if k + 1 < cs.len() {
        lemma_battery_ids_prefix(cs, k + 1);
        assert(cs.take(k + 2).drop_last() =~= cs.take(k + 1));
    } else {
        assert(cs.take(k + 1) =~= cs);
    }
}

/// The entry `(row, col)` with sign `sign`.
pub open spec fn entry(row: int, col: int, sign: int) -> StampEntry {
    StampEntry { row: row as usize, col: col as usize, sign: sign as i8 }
}

/// The entries of a conductance between node indices `node1` and `node2`:
/// `G[n1][n1] += g`, `G[n2][n2] += g`, `G[n1][n2] -= g`, `G[n2][n1] -= g`, where node
/// index `k` has row `k - 1` and the entries of ground (index 0) are left out.
pub open spec fn resistor_entries(node1: usize, node2: usize) -> Seq<StampEntry> {
    (if node1 != 0 {
        seq![entry(node1 - 1, node1 - 1, 1)]
    } else {
        seq![]
    }) + (if node2 != 0 {
        seq![entry(node2 - 1, node2 - 1, 1)]
    } else {
        seq![]
    }) + (if node1 != 0 && node2 != 0 {
        seq![entry(node1 - 1, node2 - 1, -1), entry(node2 - 1, node1 - 1, -1)]
    } else {
        seq![]
    })
}

/// The entries of a voltage source with row `row`, between node indices `pos` and `neg`:
/// `B[pos][row] += 1`, `B[neg][row] -= 1`, `C[row][pos] += 1`, `C[row][neg] -= 1`,
/// ground left out.
pub open spec fn voltage_entries(pos: usize, neg: usize, row: int) -> Seq<StampEntry> {
    (if pos != 0 {
        seq![entry(pos - 1, row, 1)]
    } else {
        seq![]
    }) + (if neg != 0 {
        seq![entry(neg - 1, row, -1)]
    } else {
        seq![]
    }) + (if pos != 0 {
        seq![entry(row, pos - 1, 1)]
    } else {
        seq![]
    }) + (if neg != 0 {
        seq![entry(row, neg - 1, -1)]
    } else {
        seq![]
    })
}

/// The `z` entries of a current source between node indices `pos` and `neg`
/// (`z[pos] += i`, `z[neg] -= i`, ground left out); `col` is always 0.
pub open spec fn current_entries(pos: usize, neg: usize) -> Seq<StampEntry> {
    (if pos != 0 {
        seq![entry(pos - 1, 0, 1)]
    } else {
        seq![]
    }) + (if neg != 0 {
        seq![entry(neg - 1, 0, -1)]
    } else {
        seq![]
    })
}

/// The node index of a pin for stamping: its index, or 0 when the node is unknown.
pub open spec fn pin_index(sys: MnaSystem, pin_node: Seq<char>) -> usize {
    match sys.node_index_of(pin_node) {
        Some(k) => k,
        None => 0,
    }
}

/// What component number `i` contributes: two-terminal resistors, LEDs, diodes and
/// wires a conductance, two-terminal batteries a voltage source; capacitors (open in
/// DC), op-amps and components without exactly two pins nothing.
pub open spec fn stamp_of(sys: MnaSystem, i: int, c: Component) -> Seq<CircuitStamp> {
    if c.pins@.len() != 2 {
        seq![]
    } else {
        let n1 = pin_index(sys, c.pins@[0].node@);
        let n2 = pin_index(sys, c.pins@[1].node@);
        match c.component_type {
            ComponentType::Resistor => seq![
                CircuitStamp::Conductance {
                    component: i as usize,
                    conductance: Conductance::ComponentValue,
                    node1: n1,
                    node2: n2,
                },
            ],
            ComponentType::Battery => seq![
                CircuitStamp::VoltageSource {
                    component: i as usize,
                    pos: n1,
                    neg: n2,
                    vs_idx: lookup(sys.vsource_map@, c.id@).unwrap(),
                },
            ],
            ComponentType::Led | ComponentType::Diode => seq![
                CircuitStamp::Conductance {
                    component: i as usize,
                    conductance: Conductance::Led,
                    node1: n1,
                    node2: n2,
                },
            ],
            ComponentType::Wire => seq![
                CircuitStamp::Conductance {
                    component: i as usize,
                    conductance: Conductance::Wire,
                    node1: n1,
                    node2: n2,
                },
            ],
            ComponentType::Capacitor | ComponentType::OpAmp => seq![],
        }
    }
}

/// The stamps of the first `upto` components, in component order.
pub open spec fn circuit_stamps(sys: MnaSystem, cs: Seq<Component>, upto: int) -> Seq<CircuitStamp>
    decreases upto,
{
    if upto <= 0 {
        seq![]
    } else {
        circuit_stamps(sys, cs, upto - 1) + stamp_of(sys, upto - 1, cs[upto - 1])
    }
}

/// Every battery of `cs` has an entry in the voltage-source table of `sys`.
pub open spec fn sources_known(sys: MnaSystem, cs: Seq<Component>) -> bool {
    forall|i: int|
        0 <= i < cs.len() && (#[trigger] cs[i]).component_type == ComponentType::Battery
            ==> lookup(sys.vsource_map@, cs[i].id@) is Some
}

fn push_entry(v: &mut Vec<StampEntry>, row: usize, col: usize, sign: i8)
    ensures
        final(v)@ == old(v)@.push(entry(row as int, col as int, sign as int)),
{
    v.push(StampEntry { row, col, sign });
}

impl MnaSystem {
    /// The entries of a resistor with conductance `g` between two node indices
    /// (0 is ground): `g` times each entry's sign is added to `A[row][col]`.
    pub fn stamp_resistor(&self, node1: usize, node2: usize) -> (r: Vec<StampEntry>)
        ensures
            r@ == resistor_entries(node1, node2),
    {
        let mut r: Vec<StampEntry> = Vec::new();
        if node1 != 0 {
            push_entry(&mut r, node1 - 1, node1 - 1, 1);
        }
        if node2 != 0 {
            push_entry(&mut r, node2 - 1, node2 - 1, 1);
        }
        if node1 != 0 && node2 != 0 {
            push_entry(&mut r, node1 - 1, node2 - 1, -1);
            push_entry(&mut r, node2 - 1, node1 - 1, -1);
        }
        assert(r@ =~= resistor_entries(node1, node2));
        r
    }

    /// The stamp of voltage source number `vs_idx` between node indices `pos` (+) and
    /// `neg` (-): its row is `num_nodes + vs_idx`.
    pub fn stamp_voltage_source(&self, pos: usize, neg: usize, vs_idx: usize) -> (r: VoltageStamp)
        requires
            self.num_nodes + vs_idx <= usize::MAX,
        ensures
            r.z_row == self.num_nodes + vs_idx,
            r.entries@ == voltage_entries(pos, neg, self.num_nodes + vs_idx),
    {
        let row = self.num_nodes + vs_idx;
        let mut entries: Vec<StampEntry> = Vec::new();
        if pos != 0 {
            push_entry(&mut entries, pos - 1, row, 1);
        }
        if neg != 0 {
            push_entry(&mut entries, neg - 1, row, -1);
        }
        if pos != 0 {
            push_entry(&mut entries, row, pos - 1, 1);
        }
        if neg != 0 {
            push_entry(&mut entries, row, neg - 1, -1);
        }
        assert(entries@ =~= voltage_entries(pos, neg, row as int));
        VoltageStamp { entries, z_row: row }
    }

    /// The `z` entries of a current source flowing from `neg` to `pos`: the current
    /// times each entry's sign is added to `z[row]`.
    pub fn stamp_current_source(&self, pos: usize, neg: usize) -> (r: Vec<StampEntry>)
        ensures
            r@ == current_entries(pos, neg),
    {
        let mut r: Vec<StampEntry> = Vec::new();
        if pos != 0 {
            push_entry(&mut r, pos - 1, 0, 1);
        }
        if neg != 0 {
            push_entry(&mut r, neg - 1, 0, -1);
        }
        assert(r@ =~= current_entries(pos, neg));
        r
    }

    /// What each component of a validated circuit contributes to the system, in
    /// component order (see `stamp_of`).
    pub fn stamp_circuit(&self, validated: &ValidatedNetlist) -> (r: Vec<CircuitStamp>)
        requires
            sources_known(*self, validated.netlist.components@),
        ensures
            r@ == circuit_stamps(
                *self,
                validated.netlist.components@,
                validated.netlist.components@.len() as int,
            ),
    {
        let cs = &validated.netlist.components;
        let mut r: Vec<CircuitStamp> = Vec::new();
        let mut i: usize = 0;
        while i < cs.len()
            invariant
                i <= cs@.len(),
                sources_known(*self, cs@),
                r@ == circuit_stamps(*self, cs@, i as int),
            decreases cs.len() - i,
        {
            let c = &cs[i];
            let ghost r0 = r@;
            if c.pins.len() == 2 {
                let n1 = match self.node_index(c.pins[0].node.as_str()) {
                    Some(k) => k,
                    None => 0,
                };
                let n2 = match self.node_index(c.pins[1].node.as_str()) {
                    Some(k) => k,
                    None => 0,
                };
                match c.component_type {
                    ComponentType::Resistor => {
                        r.push(
                            CircuitStamp::Conductance {
                                component: i,
                                conductance: Conductance::ComponentValue,
                                node1: n1,
                                node2: n2,
                            },
                        );
                    },
                    ComponentType::Battery => {
                        assert(cs@[i as int].component_type == ComponentType::Battery);
                        let vs_idx = match table_lookup(&self.vsource_map, c.id.as_str()) {
                            Some(k) => k,
                            None => {
                                proof {
                                    assert(false);
                                }
                                0
                            },
                        };
                        r.push(CircuitStamp::VoltageSource { component: i, pos: n1, neg: n2, vs_idx });
                    },
                    ComponentType::Led | ComponentType::Diode => {
                        r.push(
                            CircuitStamp::Conductance {
                                component: i,
                                conductance: Conductance::Led,
                                node1: n1,
                                node2: n2,
                            },
                        );
                    },
                    ComponentType::Wire => {
                        r.push(
                            CircuitStamp::Conductance {
                                component: i,
                                conductance: Conductance::Wire,
                                node1: n1,
                                node2: n2,
                            },
                        );
                    },
                    ComponentType::Capacitor | ComponentType::OpAmp => {},
                }
            }
            assert(r@ =~= r0 + stamp_of(*self, i as int, cs@[i as int]));
            i = i + 1;
        }
        r
    }
}

/// Lays out the system of a validated netlist and lists what each component stamps
/// into it: the first two steps of solving a circuit.
pub fn assemble(validated: &ValidatedNetlist) -> (r: (MnaSystem, Vec<CircuitStamp>))
    requires
        matrix_nodes(validated.netlist).len() + battery_ids(validated.netlist.components@).len()
            <= usize::MAX,
    ensures
        r.0.is_layout_of(validated.netlist),
        r.1@ == circuit_stamps(
            r.0,
            validated.netlist.components@,
            validated.netlist.components@.len() as int,
        ),
{
    let system = MnaSystem::from_validated(validated);
    proof {
        crate::laws::law_layout_numbers_every_node(system, validated.netlist);
    }
    let stamps = system.stamp_circuit(validated);
    (system, stamps)
}

} // verus!
