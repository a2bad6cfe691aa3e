//! Properties of the library as a whole, proved from the contracts' own definitions.

use vstd::prelude::*;
use crate::component_library::{ComponentSpec, ComponentValidationError};
use crate::governance::{
    Fault, governance_faults, outcome_faults, short_faults, short_fault_at, first_ground_from,
    floating_faults, pin_faults, spec_table, has_ground, has_battery, wire_links,
};
use crate::mna::{
    MnaSystem, StampEntry, entry, resistor_entries, voltage_entries, matrix_nodes, non_ground,
    battery_ids, table_names, lookup, sources_known,
};
use crate::names::{
    first_occurrences, occurrences, lemma_first_occurrences, is_ground_node, is_rail_label,
    is_supply_label, is_ground_label,
};
use crate::netlist::{Component, Netlist, node_mentions};
use crate::text::lowercase;
use crate::wires::{joined, is_link_path, link_nodes, link_ends, linked, step_linked, lemma_link_ends_contain};

verus! {

// ---------------------------------------------------------------------------
// Helpers: what an empty list of errors says of each rule.
// ---------------------------------------------------------------------------

proof fn lemma_no_outcome_faults(
    outcomes: Seq<Result<ComponentSpec, ComponentValidationError>>,
    upto: int,
)
    requires
        0 <= upto <= outcomes.len(),
        outcome_faults(outcomes, upto).len() == 0,
    ensures
        forall|i: int| 0 <= i < upto ==> (#[trigger] outcomes[i]) is Ok,
    decreases upto,
{
    if upto > 0 {
        lemma_no_outcome_faults(outcomes, upto - 1);
    }
}

proof fn lemma_no_floating_faults(nodes: Seq<Seq<char>>, mentions: Seq<Seq<char>>, upto: int)
    requires
        0 <= upto <= nodes.len(),
        floating_faults(nodes, mentions, upto).len() == 0,
    ensures
        forall|i: int|
            0 <= i < upto && !is_rail_label(lowercase(#[trigger] nodes[i])) ==> occurrences(
                mentions,
                nodes[i],
            ) >= 2,
    decreases upto,
{
    if upto > 0 {
        lemma_no_floating_faults(nodes, mentions, upto - 1);
    }
}

proof fn lemma_no_pin_faults(cs: Seq<Component>, table: Map<Seq<char>, ComponentSpec>, upto: int)
    requires
        0 <= upto <= cs.len(),
        pin_faults(cs, table, upto).len() == 0,
    ensures
        forall|i: int|
            0 <= i < upto && table.contains_key((#[trigger] cs[i]).id@) ==> cs[i].pins@.len()
                == table[cs[i].id@].pin_count,
    decreases upto,
{
    if upto > 0 {
        lemma_no_pin_faults(cs, table, upto - 1);
    }
}

proof fn lemma_no_short_faults(keys: Seq<Seq<char>>, links: Seq<(Seq<char>, Seq<char>)>, upto: int)
    requires
        0 <= upto <= keys.len(),
        short_faults(keys, links, upto).len() == 0,
    ensures
        forall|i: int|
            0 <= i < upto && is_supply_label(lowercase(#[trigger] keys[i])) ==> first_ground_from(
                keys,
                links,
                keys[i],
                0,
            ) is None,
    decreases upto,
{
    if upto > 0 {
        lemma_no_short_faults(keys, links, upto - 1);
        let p = keys[upto - 1];
        if is_supply_label(lowercase(p)) {
            if first_ground_from(keys, links, p, 0) is Some {
                assert(short_fault_at(keys, links, p).len() == 1);
            }
        }
    }
}

proof fn lemma_first_ground_none(
    keys: Seq<Seq<char>>,
    links: Seq<(Seq<char>, Seq<char>)>,
    p: Seq<char>,
    i: int,
)
    requires
        0 <= i,
        first_ground_from(keys, links, p, i) is None,
    ensures
        forall|j: int|
            i <= j < keys.len() && is_ground_node(#[trigger] keys[j]) ==> !joined(links, p, keys[j]),
    decreases keys.len() - i,
{
    if i < keys.len() {
        lemma_first_ground_none(keys, links, p, i + 1);
    }
}

proof fn lemma_first_ground_some(
    keys: Seq<Seq<char>>,
    links: Seq<(Seq<char>, Seq<char>)>,
    p: Seq<char>,
    i: int,
)
    requires
        0 <= i,
        first_ground_from(keys, links, p, i) is Some,
    ensures
        ({
            let g = first_ground_from(keys, links, p, i).unwrap();
            is_ground_node(g) && joined(links, p, g)
        }),
    decreases keys.len() - i,
{
    if i < keys.len() && !(is_ground_node(keys[i]) && joined(links, p, keys[i])) {
        lemma_first_ground_some(keys, links, p, i + 1);
    }
}

/// A supply name and a ground name never coincide.
proof fn lemma_supply_not_ground(x: Seq<char>)
    requires
        is_supply_label(x),
    ensures
        !is_ground_label(x),
{
    reveal_strlit("gnd");
    reveal_strlit("ground");
    reveal_strlit("0");
    reveal_strlit("vcc");
    reveal_strlit("5v");
    reveal_strlit("3v3");
    reveal_strlit("9v");
    assert("gnd"@[0] == 'g' && "ground"@[0] == 'g' && "0"@[0] == '0');
    assert("vcc"@[0] == 'v' && "5v"@[0] == '5' && "3v3"@[0] == '3' && "9v"@[0] == '9');
    assert("gnd"@.len() == 3 && "ground"@.len() == 6 && "0"@.len() == 1);
    assert("vcc"@.len() == 3 && "5v"@.len() == 2 && "3v3"@.len() == 3 && "9v"@.len() == 2);
}

proof fn lemma_link_end_is_node(links: Seq<(Seq<char>, Seq<char>)>, x: Seq<char>, y: Seq<char>)
    requires
        linked(links, x, y),
    ensures
        link_nodes(links).contains(x),
        link_nodes(links).contains(y),
{
    let k = choose|k: int|
        0 <= k < links.len() && ((links[k].0 == x && links[k].1 == y) || (links[k].0 == y
            && links[k].1 == x));
    lemma_link_ends_contain(links, k);
    lemma_first_occurrences(link_ends(links));
}

/// Two distinct names joined by links are both linked nodes.
proof fn lemma_joined_nodes(links: Seq<(Seq<char>, Seq<char>)>, a: Seq<char>, b: Seq<char>)
    requires
        joined(links, a, b),
        a != b,
    ensures
        link_nodes(links).contains(a),
        link_nodes(links).contains(b),
{
    let path = choose|path: Seq<Seq<char>>| is_link_path(links, path) && path[0] == a && path.last() == b;
    assert(path.len() >= 2);
    assert(step_linked(links, path, 0));
    lemma_link_end_is_node(links, path[0], path[1]);
    assert(step_linked(links, path, path.len() - 2));
    lemma_link_end_is_node(links, path[path.len() - 2], path[path.len() - 1]);
}

// ---------------------------------------------------------------------------
// Governance.
// ---------------------------------------------------------------------------

/// A netlist that governance accepts satisfies every rule: it has components, each of
/// which was specified without error; some node is ground; some component is a battery;
/// no supply node reaches a ground node through wires and connections alone; every node
/// other than ground and VCC has at least two connections; and every component has the
/// number of pins that the specification recorded for its id requires.
pub proof fn law_accepted_netlist_obeys_every_rule(
    n: Netlist,
    outcomes: Seq<Result<ComponentSpec, ComponentValidationError>>,
)
    requires
        outcomes.len() == n.components@.len(),
        governance_faults(n, outcomes).len() == 0,
    ensures
        n.components@.len() > 0,
        forall|i: int| 0 <= i < outcomes.len() ==> (#[trigger] outcomes[i]) is Ok,
        has_ground(node_mentions(n)),
        has_battery(n.components@),
        forall|p: Seq<char>, g: Seq<char>|
            is_supply_label(lowercase(p)) && is_ground_node(g) ==> !joined(wire_links(n), p, g),
        forall|x: Seq<char>|
            #![trigger occurrences(node_mentions(n), x)]
            node_mentions(n).contains(x) && !is_rail_label(lowercase(x)) ==> occurrences(
                node_mentions(n),
                x,
            ) >= 2,
        forall|i: int|
            0 <= i < n.components@.len() ==> {
                let c = #[trigger] n.components@[i];
                let table = spec_table(n.components@, outcomes, n.components@.len() as int);
                table.contains_key(c.id@) ==> c.pins@.len() == table[c.id@].pin_count
            },
{
    let cs = n.components@;
    let mentions = node_mentions(n);
    let nodes = first_occurrences(mentions);
    let links = wire_links(n);
    let keys = link_nodes(links);
    let table = spec_table(cs, outcomes, cs.len() as int);
    lemma_no_outcome_faults(outcomes, outcomes.len() as int);
    lemma_no_short_faults(keys, links, keys.len() as int);
    lemma_no_floating_faults(nodes, mentions, nodes.len() as int);
    lemma_no_pin_faults(cs, table, cs.len() as int);
    lemma_first_occurrences(mentions);
    assert forall|p: Seq<char>, g: Seq<char>|
        is_supply_label(lowercase(p)) && is_ground_node(g) implies !joined(links, p, g) by {
        if joined(links, p, g) {
            lemma_supply_not_ground(lowercase(p));
            lemma_joined_nodes(links, p, g);
            let ip = choose|i: int| 0 <= i < keys.len() && keys[i] == p;
            let ig = choose|i: int| 0 <= i < keys.len() && keys[i] == g;
            assert(is_supply_label(lowercase(keys[ip])));
            lemma_first_ground_none(keys, links, p, 0);
            assert(is_ground_node(keys[ig]));
        }
    }
    assert forall|x: Seq<char>|
        #![trigger occurrences(node_mentions(n), x)]
        node_mentions(n).contains(x) && !is_rail_label(lowercase(x)) implies occurrences(
        node_mentions(n),
        x,
    ) >= 2 by {
        let i = choose|i: int| 0 <= i < nodes.len() && nodes[i] == x;
        assert(!is_rail_label(lowercase(nodes[i])));
    }
}

/// A netlist in which a supply node ("vcc", "5v", "3v3" or "9v", in any case) reaches a
/// ground node through wires and connections alone is rejected with a short circuit
/// between that supply node and a ground node that it reaches.
pub proof fn law_short_circuit_is_reported(
    n: Netlist,
    outcomes: Seq<Result<ComponentSpec, ComponentValidationError>>,
    p: Seq<char>,
    g: Seq<char>,
)
    requires
        is_supply_label(lowercase(p)),
        is_ground_node(g),
        joined(wire_links(n), p, g),
    ensures
        exists|i: int|
            0 <= i < governance_faults(n, outcomes).len() && ((#[trigger] governance_faults(
                n,
                outcomes,
            )[i]) matches Fault::ShortCircuit { node_a, node_b } && node_a == p
                && is_ground_node(node_b) && joined(wire_links(n), p, node_b)),
{
    let links = wire_links(n);
    let keys = link_nodes(links);
    lemma_supply_not_ground(lowercase(p));
    lemma_joined_nodes(links, p, g);
    lemma_first_occurrences(link_ends(links));
    let ip = choose|i: int| 0 <= i < keys.len() && keys[i] == p;
    let ig = choose|i: int| 0 <= i < keys.len() && keys[i] == g;
    if first_ground_from(keys, links, p, 0) is None {
        lemma_first_ground_none(keys, links, p, 0);
        assert(is_ground_node(keys[ig]));
    }
    lemma_first_ground_some(keys, links, p, 0);
    let found = first_ground_from(keys, links, p, 0).unwrap();
    let fault = Fault::ShortCircuit { node_a: p, node_b: found };
    lemma_short_faults_contain(keys, links, keys.len() as int, ip);
    let s = short_faults(keys, links, keys.len() as int);
    let j = choose|j: int| 0 <= j < s.len() && s[j] == fault;
    let cs = n.components@;
    let mentions = node_mentions(n);
    let nodes = first_occurrences(mentions);
    let pre = (if cs.len() == 0 {
        seq![Fault::InvalidNetlist("Circuit has no components"@)]
    } else {
        seq![]
    }) + outcome_faults(outcomes, outcomes.len() as int) + (if has_ground(mentions) {
        seq![]
    } else {
        seq![Fault::NoGroundReference]
    }) + (if has_battery(cs) {
        seq![]
    } else {
        seq![Fault::NoPowerSource]
    });
    let all = governance_faults(n, outcomes);
    assert(all =~= pre + s + floating_faults(nodes, mentions, nodes.len() as int) + pin_faults(
        cs,
        spec_table(cs, outcomes, cs.len() as int),
        cs.len() as int,
    ));
    assert(all[pre.len() + j] == fault);
}

proof fn lemma_short_faults_contain(
    keys: Seq<Seq<char>>,
    links: Seq<(Seq<char>, Seq<char>)>,
    upto: int,
    ip: int,
)
    requires
        0 <= ip < upto <= keys.len(),
        is_supply_label(lowercase(keys[ip])),
        first_ground_from(keys, links, keys[ip], 0) is Some,
    ensures
        short_faults(keys, links, upto).contains(
            Fault::ShortCircuit {
                node_a: keys[ip],
                node_b: first_ground_from(keys, links, keys[ip], 0).unwrap(),
            },
        ),
    decreases upto,
{
    let f = Fault::ShortCircuit {
        node_a: keys[ip],
        node_b: first_ground_from(keys, links, keys[ip], 0).unwrap(),
    };
    let prev = short_faults(keys, links, upto - 1);
    let cur = short_fault_at(keys, links, keys[upto - 1]);
    let s = short_faults(keys, links, upto);
    assert(s =~= prev + cur);
    if ip == upto - 1 {
        assert(cur =~= seq![f]);
        assert(s[prev.len() as int] == f);
    } else {
        lemma_short_faults_contain(keys, links, upto - 1, ip);
        let j = choose|j: int| 0 <= j < prev.len() && prev[j] == f;
        assert(s[j] == f);
    }
}

proof fn lemma_outcome_faults_kind(
    outcomes: Seq<Result<ComponentSpec, ComponentValidationError>>,
    upto: int,
)
    ensures
        forall|j: int|
            0 <= j < outcome_faults(outcomes, upto).len() ==> (#[trigger] outcome_faults(
                outcomes,
                upto,
            )[j]) is InvalidComponent,
    decreases upto,
{
    if upto > 0 {
        lemma_outcome_faults_kind(outcomes, upto - 1);
        let prev = outcome_faults(outcomes, upto - 1);
        assert forall|j: int|
            0 <= j < outcome_faults(outcomes, upto).len() implies (#[trigger] outcome_faults(
            outcomes,
            upto,
        )[j]) is InvalidComponent by {
            if j < prev.len() {
                assert(outcome_faults(outcomes, upto)[j] == prev[j]);
            }
        }
    }
}

proof fn lemma_pin_faults_kind(cs: Seq<Component>, table: Map<Seq<char>, ComponentSpec>, upto: int)
    ensures
        forall|j: int|
            0 <= j < pin_faults(cs, table, upto).len() ==> (#[trigger] pin_faults(
                cs,
                table,
                upto,
            )[j]) is InvalidNetlist,
    decreases upto,
{
    if upto > 0 {
        lemma_pin_faults_kind(cs, table, upto - 1);
        let prev = pin_faults(cs, table, upto - 1);
        assert forall|j: int|
            0 <= j < pin_faults(cs, table, upto).len() implies (#[trigger] pin_faults(
            cs,
            table,
            upto,
        )[j]) is InvalidNetlist by {
            if j < prev.len() {
                assert(pin_faults(cs, table, upto)[j] == prev[j]);
            }
        }
    }
}

proof fn lemma_floating_faults_kind(nodes: Seq<Seq<char>>, mentions: Seq<Seq<char>>, upto: int)
    requires
        0 <= upto <= nodes.len(),
    ensures
        forall|j: int|
            0 <= j < floating_faults(nodes, mentions, upto).len() ==> ((#[trigger] floating_faults(
                nodes,
                mentions,
                upto,
            )[j]) matches Fault::FloatingNode { node } && !is_rail_label(lowercase(node))
                && occurrences(mentions, node) < 2 && nodes.contains(node)),
    decreases upto,
{
    if upto > 0 {
        lemma_floating_faults_kind(nodes, mentions, upto - 1);
        let prev = floating_faults(nodes, mentions, upto - 1);
        let all = floating_faults(nodes, mentions, upto);
        assert forall|j: int| 0 <= j < all.len() implies (#[trigger] all[j]) matches Fault::FloatingNode {
            node,
        } && !is_rail_label(lowercase(node)) && occurrences(mentions, node) < 2 && nodes.contains(
            node,
        ) by {
            if j < prev.len() {
                assert(all[j] == prev[j]);
            } else {
                assert(nodes[upto - 1] == nodes[upto - 1]);
            }
        }
    }
}

proof fn lemma_short_faults_kind(keys: Seq<Seq<char>>, links: Seq<(Seq<char>, Seq<char>)>, upto: int)
    requires
        0 <= upto <= keys.len(),
    ensures
        forall|j: int|
            0 <= j < short_faults(keys, links, upto).len() ==> ((#[trigger] short_faults(
                keys,
                links,
                upto,
            )[j]) matches Fault::ShortCircuit { node_a, node_b } && is_supply_label(
                lowercase(node_a),
            ) && is_ground_node(node_b) && joined(links, node_a, node_b)),
    decreases upto,
{
    if upto > 0 {
        lemma_short_faults_kind(keys, links, upto - 1);
        let prev = short_faults(keys, links, upto - 1);
        let all = short_faults(keys, links, upto);
        let p = keys[upto - 1];
        if is_supply_label(lowercase(p)) && first_ground_from(keys, links, p, 0) is Some {
            lemma_first_ground_some(keys, links, p, 0);
        }
        assert forall|j: int| 0 <= j < all.len() implies (#[trigger] all[j]) matches Fault::ShortCircuit {
            node_a,
            node_b,
        } && is_supply_label(lowercase(node_a)) && is_ground_node(node_b) && joined(
            links,
            node_a,
            node_b,
        ) by {
            if j < prev.len() {
                assert(all[j] == prev[j]);
            }
        }
    }
}

proof fn lemma_occurrences_positive<A>(s: Seq<A>, x: A)
    requires
        s.contains(x),
    ensures
        occurrences(s, x) >= 1,
    decreases s.len(),
{
    if s.last() != x {
        let i = choose|i: int| 0 <= i < s.len() && s[i] == x;
        assert(s.drop_last()[i] == x);
        lemma_occurrences_positive(s.drop_last(), x);
    }
}

/// Every error that governance reports is real: a reported short circuit joins a supply
/// node to a ground node through wires and connections alone, and a reported floating
/// node, neither ground nor VCC, is mentioned exactly once in the netlist.
pub proof fn law_reported_faults_are_real(
    n: Netlist,
    outcomes: Seq<Result<ComponentSpec, ComponentValidationError>>,
)
    ensures
        forall|i: int|
            0 <= i < governance_faults(n, outcomes).len() ==> match #[trigger] governance_faults(
                n,
                outcomes,
            )[i] {
                Fault::ShortCircuit { node_a, node_b } => is_supply_label(lowercase(node_a))
                    && is_ground_node(node_b) && joined(wire_links(n), node_a, node_b),
                Fault::FloatingNode { node } => !is_rail_label(lowercase(node)) && occurrences(
                    node_mentions(n),
                    node,
                ) == 1,
                _ => true,
            },
{
    let cs = n.components@;
    let mentions = node_mentions(n);
    let nodes = first_occurrences(mentions);
    let links = wire_links(n);
    let keys = link_nodes(links);
    let table = spec_table(cs, outcomes, cs.len() as int);
    let a = if cs.len() == 0 {
        seq![Fault::InvalidNetlist("Circuit has no components"@)]
    } else {
        seq![]
    };
    let b = outcome_faults(outcomes, outcomes.len() as int);
    let c = if has_ground(mentions) {
        seq![]
    } else {
        seq![Fault::NoGroundReference]
    };
    let d = if has_battery(cs) {
        seq![]
    } else {
        seq![Fault::NoPowerSource]
    };
    let e = short_faults(keys, links, keys.len() as int);
    let f = floating_faults(nodes, mentions, nodes.len() as int);
    let g = pin_faults(cs, table, cs.len() as int);
    let all = governance_faults(n, outcomes);
    assert(all =~= a + b + c + d + e + f + g);
    lemma_outcome_faults_kind(outcomes, outcomes.len() as int);
    lemma_short_faults_kind(keys, links, keys.len() as int);
    lemma_floating_faults_kind(nodes, mentions, nodes.len() as int);
    lemma_pin_faults_kind(cs, table, cs.len() as int);
    lemma_first_occurrences(mentions);
    let l1 = a.len() + b.len() + c.len() + d.len();
    let l2 = l1 + e.len();
    let l3 = l2 + f.len();
    assert forall|i: int| 0 <= i < all.len() implies match #[trigger] all[i] {
        Fault::ShortCircuit { node_a, node_b } => is_supply_label(lowercase(node_a))
            && is_ground_node(node_b) && joined(links, node_a, node_b),
        Fault::FloatingNode { node } => !is_rail_label(lowercase(node)) && occurrences(
            mentions,
            node,
        ) == 1,
        _ => true,
    } by {
        if i < a.len() {
            assert(all[i] == a[i]);
        } else if i < a.len() + b.len() {
            assert(all[i] == b[i - a.len()]);
        } else if i < a.len() + b.len() + c.len() {
            assert(all[i] == c[i - a.len() - b.len()]);
        } else if i < l1 {
            assert(all[i] == d[i - a.len() - b.len() - c.len()]);
        } else if i < l2 {
            assert(all[i] == e[i - l1]);
        } else if i < l3 {
            assert(all[i] == f[i - l2]);
            let x = f[i - l2]->node;
            lemma_occurrences_positive(mentions, x);
        } else {
            assert(all[i] == g[i - l3]);
        }
    }
}

// ---------------------------------------------------------------------------
// The MNA system.
// ---------------------------------------------------------------------------

proof fn lemma_non_ground_contains(s: Seq<Seq<char>>, x: Seq<char>)
    requires
        s.contains(x),
        !is_ground_node(x),
    ensures
        non_ground(s).contains(x),
    decreases s.len(),
{
    let t = non_ground(s);
    if s.last() == x {
        assert(t[t.len() - 1] == x);
    } else {
        let i = choose|i: int| 0 <= i < s.len() && s[i] == x;
        assert(s.drop_last()[i] == x);
        lemma_non_ground_contains(s.drop_last(), x);
        let d = non_ground(s.drop_last());
        let j = choose|j: int| 0 <= j < d.len() && d[j] == x;
        assert(t[j] == x);
    }
}

proof fn lemma_battery_ids_contains(cs: Seq<Component>, i: int)
    requires
        0 <= i < cs.len(),
        cs[i].component_type == crate::netlist::ComponentType::Battery,
    ensures
        battery_ids(cs).contains(cs[i].id@),
    decreases cs.len(),
{
    let t = battery_ids(cs);
    if i == cs.len() - 1 {
        assert(t[t.len() - 1] == cs[i].id@);
    } else {
        assert(cs.drop_last()[i] == cs[i]);
        lemma_battery_ids_contains(cs.drop_last(), i);
        let d = battery_ids(cs.drop_last());
        let j = choose|j: int| 0 <= j < d.len() && d[j] == cs[i].id@;
        assert(t[j] == cs[i].id@);
    }
}

proof fn lemma_lookup_at(m: Seq<(String, usize)>, i: int)
    requires
        0 <= i < m.len(),
        table_names(m).no_duplicates(),
    ensures
        lookup(m, m[i].0@) == Some(m[i].1),
    decreases m.len(),
{
    if i > 0 {
        assert(table_names(m)[0] == m[0].0@);
        assert(table_names(m)[i] == m[i].0@);
        assert(table_names(m.drop_first()) =~= table_names(m).drop_first());
        assert(m.drop_first()[i - 1] == m[i]);
        lemma_lookup_at(m.drop_first(), i - 1);
    }
}

/// The layout of a netlist's system numbers every node that the netlist mentions:
/// ground gets 0, every other node a number from 1 to `num_nodes`, distinct nodes
/// distinct numbers; and every battery gets a voltage-source number.
pub proof fn law_layout_numbers_every_node(sys: MnaSystem, n: Netlist)
    requires
        sys.is_layout_of(n),
    ensures
        forall|x: Seq<char>|
            #![trigger sys.node_index_of(x)]
            node_mentions(n).contains(x) ==> (sys.node_index_of(x) matches Some(k) && (k == 0
                <==> is_ground_node(x)) && k <= sys.num_nodes),
        forall|x: Seq<char>, y: Seq<char>|
            #![trigger sys.node_index_of(x), sys.node_index_of(y)]
            node_mentions(n).contains(x) && node_mentions(n).contains(y) && x != y
                && !is_ground_node(x) && !is_ground_node(y) ==> sys.node_index_of(x)
                != sys.node_index_of(y),
        sources_known(sys, n.components@),
{
    let ms = node_mentions(n);
    let nodes = matrix_nodes(n);
    lemma_first_occurrences(non_ground(ms));
    assert forall|x: Seq<char>| ms.contains(x) && !is_ground_node(x) implies exists|i: int|
        0 <= i < sys.node_map@.len() && sys.node_map@[i].0@ == x && sys.node_index_of(x) == Some(
            sys.node_map@[i].1,
        ) by {
        lemma_non_ground_contains(ms, x);
        let i = choose|i: int| 0 <= i < nodes.len() && nodes[i] == x;
        assert(table_names(sys.node_map@)[i] == sys.node_map@[i].0@);
        lemma_lookup_at(sys.node_map@, i);
    }
    assert forall|x: Seq<char>|
        #![trigger sys.node_index_of(x)]
        ms.contains(x) implies (sys.node_index_of(x) matches Some(k) && (k == 0 <==> is_ground_node(
        x,
    )) && k <= sys.num_nodes) by {
        if !is_ground_node(x) {
            let i = choose|i: int|
                0 <= i < sys.node_map@.len() && sys.node_map@[i].0@ == x && sys.node_index_of(x)
                    == Some(sys.node_map@[i].1);
            assert(sys.node_map@[i].1 == i + 1);
        }
    }
    assert forall|x: Seq<char>, y: Seq<char>|
        #![trigger sys.node_index_of(x), sys.node_index_of(y)]
        ms.contains(x) && ms.contains(y) && x != y && !is_ground_node(x) && !is_ground_node(
            y,
        ) implies sys.node_index_of(x) != sys.node_index_of(y) by {
        let i = choose|i: int|
            0 <= i < sys.node_map@.len() && sys.node_map@[i].0@ == x && sys.node_index_of(x)
                == Some(sys.node_map@[i].1);
        let j = choose|j: int|
            0 <= j < sys.node_map@.len() && sys.node_map@[j].0@ == y && sys.node_index_of(y)
                == Some(sys.node_map@[j].1);
        assert(sys.node_map@[i].1 == i + 1);
        assert(sys.node_map@[j].1 == j + 1);
    }
    let cs = n.components@;
    let bats = battery_ids(cs);
    lemma_first_occurrences(bats);
    assert forall|i: int|
        0 <= i < cs.len() && (#[trigger] cs[i]).component_type
            == crate::netlist::ComponentType::Battery implies lookup(
        sys.vsource_map@,
        cs[i].id@,
    ) is Some by {
        lemma_battery_ids_contains(cs, i);
        let j = choose|j: int|
            0 <= j < first_occurrences(bats).len() && first_occurrences(bats)[j] == cs[i].id@;
        assert(table_names(sys.vsource_map@)[j] == sys.vsource_map@[j].0@);
        lemma_lookup_at(sys.vsource_map@, j);
    }
}

/// Every entry `(r, c, s)` of the list has a partner `(c, r, s)`.
pub open spec fn is_symmetric(entries: Seq<StampEntry>) -> bool {
    forall|i: int|
        #![trigger entries[i]]
        0 <= i < entries.len() ==> exists|j: int|
            0 <= j < entries.len() && entries[j].row == entries[i].col && entries[j].col
                == entries[i].row && entries[j].sign == entries[i].sign
}

/// The sum of the signs of the entries in row `r`.
pub open spec fn row_sum(entries: Seq<StampEntry>, r: usize) -> int
    decreases entries.len(),
{
    if entries.len() == 0 {
        0
    } else {
        row_sum(entries.drop_last(), r) + if entries.last().row == r {
            entries.last().sign as int
        } else {
            0
        }
    }
}

/// The stamp of a resistor keeps the matrix symmetric.
pub proof fn law_resistor_stamp_is_symmetric(node1: usize, node2: usize)
    ensures
        is_symmetric(resistor_entries(node1, node2)),
{
    let r = resistor_entries(node1, node2);
    let a = entry(node1 - 1, node1 - 1, 1);
    let b = entry(node2 - 1, node2 - 1, 1);
    let c = entry(node1 - 1, node2 - 1, -1);
    let d = entry(node2 - 1, node1 - 1, -1);
    if node1 != 0 && node2 != 0 {
        assert(r =~= seq![a, b, c, d]);
        assert(is_symmetric(r)) by {
            assert forall|i: int| #![trigger r[i]] 0 <= i < r.len() implies exists|j: int|
                0 <= j < r.len() && r[j].row == r[i].col && r[j].col == r[i].row && r[j].sign
                    == r[i].sign by {
                if i == 2 {
                    assert(r[3].row == r[i].col && r[3].col == r[i].row && r[3].sign == r[i].sign);
                } else if i == 3 {
                    assert(r[2].row == r[i].col && r[2].col == r[i].row && r[2].sign == r[i].sign);
                } else {
                    assert(r[i].row == r[i].col && r[i].col == r[i].row && r[i].sign == r[i].sign);
                }
            }
        }
    } else if node1 != 0 {
        assert(r =~= seq![a]);
        assert(r[0].row == r[0].col);
    } else if node2 != 0 {
        assert(r =~= seq![b]);
        assert(r[0].row == r[0].col);
    } else {
        assert(r =~= Seq::<StampEntry>::empty());
    }
}

/// The stamp of a voltage source keeps the matrix symmetric: its `B` part is the
/// transpose of its `C` part.
pub proof fn law_voltage_stamp_is_symmetric(pos: usize, neg: usize, row: int)
    ensures
        is_symmetric(voltage_entries(pos, neg, row)),
{
    let v = voltage_entries(pos, neg, row);
    let p1 = entry(pos - 1, row, 1);
    let n1 = entry(neg - 1, row, -1);
    let p2 = entry(row, pos - 1, 1);
    let n2 = entry(row, neg - 1, -1);
    if pos != 0 && neg != 0 {
        assert(v =~= seq![p1, n1, p2, n2]);
    } else if pos != 0 {
        assert(v =~= seq![p1, p2]);
    } else if neg != 0 {
        assert(v =~= seq![n1, n2]);
    } else {
        assert(v =~= Seq::<StampEntry>::empty());
    }
    let half = v.len() / 2;
    assert forall|i: int| #![trigger v[i]] 0 <= i < v.len() implies exists|j: int|
        0 <= j < v.len() && v[j].row == v[i].col && v[j].col == v[i].row && v[j].sign
            == v[i].sign by {
        if i < half {
            assert(v[i + half].row == v[i].col && v[i + half].col == v[i].row && v[i + half].sign
                == v[i].sign);
        } else {
            assert(v[i - half].row == v[i].col && v[i - half].col == v[i].row && v[i - half].sign
                == v[i].sign);
        }
    }
}

/// A resistor between two nodes, neither of them ground, adds no net conductance to any
/// row: the signs in each row of its stamp sum to zero.
pub proof fn law_resistor_rows_balance(node1: usize, node2: usize, r: usize)
    requires
        node1 != 0,
        node2 != 0,
    ensures
        row_sum(resistor_entries(node1, node2), r) == 0,
{
    let e = resistor_entries(node1, node2);
    assert(e.len() == 4);
    assert(e.drop_last().drop_last().drop_last().drop_last() =~= Seq::<StampEntry>::empty());
    reveal_with_fuel(row_sum, 5);
}

// ---------------------------------------------------------------------------
// The names and tables the rules are built on, stated against their literal values.
// ---------------------------------------------------------------------------

/// A node is a supply rail exactly when its lower-case name is "vcc", "5v", "3v3" or "9v".
pub proof fn law_supply_rail_names(name: Seq<char>)
    ensures
        is_supply_label(lowercase(name)) <==> (lowercase(name) == "vcc"@ || lowercase(name)
            == "5v"@ || lowercase(name) == "3v3"@ || lowercase(name) == "9v"@),
{
}

/// A node is ground exactly when its lower-case name is "gnd", "ground" or "0".
pub proof fn law_ground_names(name: Seq<char>)
    ensures
        is_ground_node(name) <==> (lowercase(name) == "gnd"@ || lowercase(name) == "ground"@
            || lowercase(name) == "0"@),
{
}

/// A node whose lower-case name is "vcc", "5v", "3v3" or "9v" and that reaches a node
/// whose lower-case name is "gnd", "ground" or "0" through wires and connections alone
/// makes governance report a short circuit from that node to a ground node it reaches.
pub proof fn law_supply_rail_wired_to_ground_is_rejected(
    n: Netlist,
    outcomes: Seq<Result<ComponentSpec, ComponentValidationError>>,
    p: Seq<char>,
    g: Seq<char>,
)
    requires
        lowercase(p) == "vcc"@ || lowercase(p) == "5v"@ || lowercase(p) == "3v3"@ || lowercase(p)
            == "9v"@,
        lowercase(g) == "gnd"@ || lowercase(g) == "ground"@ || lowercase(g) == "0"@,
        joined(wire_links(n), p, g),
    ensures
        exists|i: int|
            0 <= i < governance_faults(n, outcomes).len() && ((#[trigger] governance_faults(
                n,
                outcomes,
            )[i]) matches Fault::ShortCircuit { node_a, node_b } && node_a == p
                && joined(wire_links(n), p, node_b) && (lowercase(node_b) == "gnd"@ || lowercase(
                node_b,
            ) == "ground"@ || lowercase(node_b) == "0"@)),
{
    law_supply_rail_names(p);
    law_ground_names(g);
    law_short_circuit_is_reported(n, outcomes, p, g);
    let all = governance_faults(n, outcomes);
    let i = choose|i: int|
        0 <= i < all.len() && ((#[trigger] all[i]) matches Fault::ShortCircuit { node_a, node_b }
            && node_a == p && is_ground_node(node_b) && joined(wire_links(n), p, node_b));
    law_ground_names(all[i]->node_b);
}

/// The errors of the two counting rules appear only where their rule is broken: a
/// `NoGroundReference` only when no node is ground, a `NoPowerSource` only when no
/// component is a battery; and each appears whenever its rule is broken.
proof fn lemma_rule_faults(n: Netlist, outcomes: Seq<Result<ComponentSpec, ComponentValidationError>>)
    ensures
        (exists|i: int|
            0 <= i < governance_faults(n, outcomes).len() && (#[trigger] governance_faults(
                n,
                outcomes,
            )[i]) is NoGroundReference) <==> !has_ground(node_mentions(n)),
        (exists|i: int|
            0 <= i < governance_faults(n, outcomes).len() && (#[trigger] governance_faults(
                n,
                outcomes,
            )[i]) is NoPowerSource) <==> !has_battery(n.components@),
{
    let cs = n.components@;
    let mentions = node_mentions(n);
    let nodes = first_occurrences(mentions);
    let links = wire_links(n);
    let keys = link_nodes(links);
    let table = spec_table(cs, outcomes, cs.len() as int);
    let a = if cs.len() == 0 {
        seq![Fault::InvalidNetlist("Circuit has no components"@)]
    } else {
        seq![]
    };
    let b = outcome_faults(outcomes, outcomes.len() as int);
    let c = if has_ground(mentions) {
        seq![]
    } else {
        seq![Fault::NoGroundReference]
    };
    let d = if has_battery(cs) {
        seq![]
    } else {
        seq![Fault::NoPowerSource]
    };
    let e = short_faults(keys, links, keys.len() as int);
    let f = floating_faults(nodes, mentions, nodes.len() as int);
    let g = pin_faults(cs, table, cs.len() as int);
    let all = governance_faults(n, outcomes);
    assert(all =~= a + b + c + d + e + f + g);
    lemma_outcome_faults_kind(outcomes, outcomes.len() as int);
    lemma_short_faults_kind(keys, links, keys.len() as int);
    lemma_floating_faults_kind(nodes, mentions, nodes.len() as int);
    lemma_pin_faults_kind(cs, table, cs.len() as int);
    let l1 = a.len() + b.len();
    let l2 = l1 + c.len();
    let l3 = l2 + d.len();
    let l4 = l3 + e.len();
    let l5 = l4 + f.len();
    assert forall|i: int| 0 <= i < all.len() implies (#[trigger] all[i] is NoGroundReference
        ==> !has_ground(mentions)) && (all[i] is NoPowerSource ==> !has_battery(cs)) by {
        if i < a.len() {
            assert(all[i] == a[i]);
        } else if i < l1 {
            assert(all[i] == b[i - a.len()]);
        } else if i < l2 {
            assert(all[i] == c[i - l1]);
        } else if i < l3 {
            assert(all[i] == d[i - l2]);
        } else if i < l4 {
            assert(all[i] == e[i - l3]);
        } else if i < l5 {
            assert(all[i] == f[i - l4]);
        } else {
            assert(all[i] == g[i - l5]);
        }
    }
    if !has_ground(mentions) {
        assert(all[l1 as int] == c[0]);
    }
    if !has_battery(cs) {
        assert(all[l2 as int] == d[0]);
    }
}

/// Governance reports a missing ground reference exactly when no node of the netlist has
/// the lower-case name "gnd", "ground" or "0".
pub proof fn law_ground_reference_is_any_ground_name(
    n: Netlist,
    outcomes: Seq<Result<ComponentSpec, ComponentValidationError>>,
)
    ensures
        (exists|i: int|
            0 <= i < governance_faults(n, outcomes).len() && (#[trigger] governance_faults(
                n,
                outcomes,
            )[i]) is NoGroundReference) <==> !(exists|k: int|
            0 <= k < node_mentions(n).len() && (lowercase(#[trigger] node_mentions(n)[k]) == "gnd"@
                || lowercase(node_mentions(n)[k]) == "ground"@ || lowercase(node_mentions(n)[k])
                == "0"@)),
{
    lemma_rule_faults(n, outcomes);
    let m = node_mentions(n);
    assert forall|k: int| 0 <= k < m.len() implies (is_ground_node(#[trigger] m[k]) <==> (
    lowercase(m[k]) == "gnd"@ || lowercase(m[k]) == "ground"@ || lowercase(m[k]) == "0"@)) by {
        law_ground_names(m[k]);
    }
}

/// Governance reports a missing power source exactly when no component, at any position
/// of the netlist, is a battery.
pub proof fn law_power_source_is_any_battery(
    n: Netlist,
    outcomes: Seq<Result<ComponentSpec, ComponentValidationError>>,
)
    ensures
        (exists|i: int|
            0 <= i < governance_faults(n, outcomes).len() && (#[trigger] governance_faults(
                n,
                outcomes,
            )[i]) is NoPowerSource) <==> (forall|k: int|
            0 <= k < n.components@.len() ==> (#[trigger] n.components@[k]).component_type
                != crate::netlist::ComponentType::Battery),
{
    lemma_rule_faults(n, outcomes);
}

/// The pins of each component type: every two-terminal type (resistor, capacitor, LED,
/// diode, wire, battery) has exactly two, an op-amp eight.
pub proof fn law_pin_layouts()
    ensures
        crate::component_library::pin_names_of(crate::netlist::ComponentType::Resistor) == seq![
            "pin1"@,
            "pin2"@,
        ],
        crate::component_library::pin_names_of(crate::netlist::ComponentType::Capacitor) == seq![
            "pin1"@,
            "pin2"@,
        ],
        crate::component_library::pin_names_of(crate::netlist::ComponentType::Wire) == seq![
            "pin1"@,
            "pin2"@,
        ],
        crate::component_library::pin_names_of(crate::netlist::ComponentType::Led) == seq![
            "anode"@,
            "cathode"@,
        ],
        crate::component_library::pin_names_of(crate::netlist::ComponentType::Diode) == seq![
            "anode"@,
            "cathode"@,
        ],
        crate::component_library::pin_names_of(crate::netlist::ComponentType::Battery) == seq![
            "positive"@,
            "negative"@,
        ],
        crate::component_library::pin_names_of(crate::netlist::ComponentType::OpAmp) == seq![
            "out_a"@,
            "in-_a"@,
            "in+_a"@,
            "vee"@,
            "in+_b"@,
            "in-_b"@,
            "out_b"@,
            "vcc"@,
        ],
        forall|t: crate::netlist::ComponentType|
            t != crate::netlist::ComponentType::OpAmp ==> (
            #[trigger] crate::component_library::pin_names_of(t)).len() == 2,
        crate::component_library::pin_names_of(crate::netlist::ComponentType::OpAmp).len() == 8,
{
}

/// The stamp of a voltage source joins its row to its terminals with opposite signs:
/// `+1` at the positive terminal and `-1` at the negative one, in both the `B` column
/// and the `C` row, and nothing else.
pub proof fn law_voltage_stamp_polarity(pos: usize, neg: usize, row: int)
    ensures
        pos != 0 ==> voltage_entries(pos, neg, row).contains(entry(pos - 1, row, 1))
            && voltage_entries(pos, neg, row).contains(entry(row, pos - 1, 1)),
        neg != 0 ==> voltage_entries(pos, neg, row).contains(entry(neg - 1, row, -1))
            && voltage_entries(pos, neg, row).contains(entry(row, neg - 1, -1)),
        voltage_entries(pos, neg, row).len() == 2 * ((if pos != 0 {
            1int
        } else {
            0int
        }) + (if neg != 0 {
            1int
        } else {
            0int
        })),
        forall|i: int|
            0 <= i < voltage_entries(pos, neg, row).len() ==> {
                let e = #[trigger] voltage_entries(pos, neg, row)[i];
                ||| e == entry(pos - 1, row, 1) && pos != 0
                ||| e == entry(row, pos - 1, 1) && pos != 0
                ||| e == entry(neg - 1, row, -1) && neg != 0
                ||| e == entry(row, neg - 1, -1) && neg != 0
            },
{
    let v = voltage_entries(pos, neg, row);
    let p1 = entry(pos - 1, row, 1);
    let n1 = entry(neg - 1, row, -1);
    let p2 = entry(row, pos - 1, 1);
    let n2 = entry(row, neg - 1, -1);
    if pos != 0 && neg != 0 {
        assert(v =~= seq![p1, n1, p2, n2]);
        assert(v[0] == p1 && v[1] == n1 && v[2] == p2 && v[3] == n2);
    } else if pos != 0 {
        assert(v =~= seq![p1, p2]);
        assert(v[0] == p1 && v[1] == p2);
    } else if neg != 0 {
        assert(v =~= seq![n1, n2]);
        assert(v[0] == n1 && v[1] == n2);
    } else {
        assert(v =~= Seq::<StampEntry>::empty());
    }
}

/// A voltage source between two non-ground nodes, whose row lies beyond both of them,
/// makes its row read `v(pos) - v(neg)`: the signs in that row sum to zero.
pub proof fn law_voltage_row_balances(pos: usize, neg: usize, row: usize)
    requires
        pos != 0,
        neg != 0,
        pos - 1 < row,
        neg - 1 < row,
    ensures
        row_sum(voltage_entries(pos, neg, row as int), row) == 0,
{
    let v = voltage_entries(pos, neg, row as int);
    assert(v =~= seq![
        entry(pos - 1, row as int, 1),
        entry(neg - 1, row as int, -1),
        entry(row as int, pos - 1, 1),
        entry(row as int, neg - 1, -1),
    ]);
    assert(v.drop_last().drop_last().drop_last().drop_last() =~= Seq::<StampEntry>::empty());
    reveal_with_fuel(row_sum, 5);
}

} // verus!
