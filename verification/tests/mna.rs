use labwise_kernel::component_library::{ComponentSpec, ComponentValidationError};
use labwise_kernel::governance::{GovernanceManager, ValidatedNetlist};
use labwise_kernel::mna::{table_lookup, CircuitStamp, Conductance, MnaSystem, StampEntry};
use labwise_kernel::netlist::{Component, ComponentType, Connection, Metadata, Netlist, Pin};

fn mna_pin(pin_id: &str, node: &str) -> Pin {
    Pin { pin_id: pin_id.to_string(), node: node.to_string() }
}

fn mna_part(id: &str, t: ComponentType, a: (&str, &str), b: (&str, &str)) -> Component {
    Component { id: id.to_string(), component_type: t, pins: vec![mna_pin(a.0, a.1), mna_pin(b.0, b.1)] }
}

fn named(name: &str) -> Metadata {
    Metadata { name: Some(name.to_string()), description: None, source: None }
}

fn make_led_circuit() -> (Netlist, Vec<Result<ComponentSpec, ComponentValidationError>>) {
    let netlist = Netlist {
        components: vec![
            mna_part("BAT1", ComponentType::Battery, ("positive", "VCC"), ("negative", "GND")),
            mna_part("R1", ComponentType::Resistor, ("pin1", "VCC"), ("pin2", "n1")),
            mna_part("LED1", ComponentType::Led, ("anode", "n1"), ("cathode", "GND")),
        ],
        connections: vec![],
        metadata: named("LED Circuit"),
    };
    let specs = vec![
        Ok(ComponentSpec::for_type(ComponentType::Battery, "9.0V Source".to_string())),
        Ok(ComponentSpec::for_type(ComponentType::Resistor, "330Ω Resistor".to_string())),
        Ok(ComponentSpec::for_type(ComponentType::Led, "LED".to_string())),
    ];
    (netlist, specs)
}

/// 9 V battery, R1 = 1 kΩ from VCC to n1, R2 = 2 kΩ from n1 to GND.
fn make_series_resistor_circuit() -> (Netlist, Vec<Result<ComponentSpec, ComponentValidationError>>) {
    let netlist = Netlist {
        components: vec![
            mna_part("BAT1", ComponentType::Battery, ("positive", "VCC"), ("negative", "GND")),
            mna_part("R1", ComponentType::Resistor, ("pin1", "VCC"), ("pin2", "n1")),
            mna_part("R2", ComponentType::Resistor, ("pin1", "n1"), ("pin2", "GND")),
        ],
        connections: vec![],
        metadata: named("Voltage Divider"),
    };
    let specs = vec![
        Ok(ComponentSpec::for_type(ComponentType::Battery, "9.0V Source".to_string())),
        Ok(ComponentSpec::for_type(ComponentType::Resistor, "1.0kΩ Resistor".to_string())),
        Ok(ComponentSpec::for_type(ComponentType::Resistor, "2.0kΩ Resistor".to_string())),
    ];
    (netlist, specs)
}

fn validated(c: (Netlist, Vec<Result<ComponentSpec, ComponentValidationError>>)) -> ValidatedNetlist {
    GovernanceManager::new().validate(c.0, c.1).unwrap()
}

fn e(row: usize, col: usize, sign: i8) -> StampEntry {
    StampEntry { row, col, sign }
}

#[test]
fn test_mna_system_creation() {
    let validated = validated(make_led_circuit());
    let mna = MnaSystem::from_validated(&validated);

    // Should have 2 non-ground nodes: VCC and n1
    assert_eq!(mna.num_nodes, 2, "Expected 2 nodes (VCC, n1)");
    // Should have 1 voltage source: BAT1
    assert_eq!(mna.num_vsources, 1, "Expected 1 voltage source");
    // Total size = 2 + 1 = 3: the A matrix is 3x3 and z is 3x1
    assert_eq!(mna.total_size, 3);
}

#[test]
fn test_node_mapping() {
    let validated = validated(make_led_circuit());
    let mna = MnaSystem::from_validated(&validated);

    // VCC and n1 should be mapped to indices 1 and 2
    assert!(table_lookup(&mna.node_map, "VCC").is_some());
    assert!(table_lookup(&mna.node_map, "n1").is_some());
    assert!(table_lookup(&mna.node_map, "GND").is_none()); // Ground is not in the map

    // Ground should return index 0
    assert_eq!(mna.node_index("GND"), Some(0));
    assert_eq!(mna.node_index("gnd"), Some(0));
    assert_eq!(mna.node_index("ground"), Some(0));

    // VCC should return a valid index
    let vcc_idx = mna.node_index("VCC").unwrap();
    assert!(vcc_idx >= 1 && vcc_idx <= 2);
}

#[test]
fn test_vsource_mapping() {
    let validated = validated(make_series_resistor_circuit());
    let mna = MnaSystem::from_validated(&validated);

    assert_eq!(mna.vsource_map.len(), 1);
    assert!(table_lookup(&mna.vsource_map, "BAT1").is_some());
    assert_eq!(table_lookup(&mna.vsource_map, "BAT1").unwrap(), 0);
}

#[test]
fn test_series_circuit_dimensions() {
    let validated = validated(make_series_resistor_circuit());
    let mna = MnaSystem::from_validated(&validated);

    // nodes VCC, n1 (GND excluded); 1 voltage source (BAT1); total 3x3
    assert_eq!(mna.num_nodes, 2);
    assert_eq!(mna.num_vsources, 1);
    assert_eq!(mna.total_size, 3);
}

#[test]
fn test_ground_detection() {
    assert!(MnaSystem::is_ground("GND"));
    assert!(MnaSystem::is_ground("gnd"));
    assert!(MnaSystem::is_ground("ground"));
    assert!(MnaSystem::is_ground("0"));
    assert!(!MnaSystem::is_ground("VCC"));
    assert!(!MnaSystem::is_ground("n1"));
}

#[test]
fn test_stamp_resistor() {
    let validated = validated(make_series_resistor_circuit());
    let mna = MnaSystem::from_validated(&validated);

    // A resistor between node indices 1 and 2
    let entries = mna.stamp_resistor(1, 2);

    // G[1][1] and G[2][2] receive +g, G[1][2] and G[2][1] receive -g
    assert_eq!(entries, vec![e(0, 0, 1), e(1, 1, 1), e(0, 1, -1), e(1, 0, -1)]);
}

#[test]
fn test_stamp_resistor_to_ground() {
    let validated = validated(make_series_resistor_circuit());
    let mna = MnaSystem::from_validated(&validated);

    // A resistor from node 2 to ground: only G[2][2] is stamped
    let entries = mna.stamp_resistor(2, 0);
    assert_eq!(entries, vec![e(1, 1, 1)]);
}

#[test]
fn test_stamp_voltage_source() {
    let validated = validated(make_series_resistor_circuit());
    let mna = MnaSystem::from_validated(&validated);

    let vcc_idx = mna.node_index("VCC").unwrap();

    // A source VCC(+) to GND(-), source number 0
    let stamp = mna.stamp_voltage_source(vcc_idx, 0, 0);

    let vs_row = mna.num_nodes; // augmented row for vsource 0
    let vcc_col = vcc_idx - 1; // matrix column for VCC

    // B[VCC][0] = 1 and C[0][VCC] = 1; the voltage goes to z[vs_row]
    assert_eq!(stamp.entries, vec![e(vcc_col, vs_row, 1), e(vs_row, vcc_col, 1)]);
    assert_eq!(stamp.z_row, vs_row);
}

#[test]
fn test_stamp_circuit_voltage_divider() {
    let validated = validated(make_series_resistor_circuit());
    let mna = MnaSystem::from_validated(&validated);

    let stamps = mna.stamp_circuit(&validated);
    assert!(!stamps.is_empty(), "The circuit should stamp something");

    let vcc_idx = mna.node_index("VCC").unwrap();
    let n1_idx = mna.node_index("n1").unwrap();

    // The battery is a voltage source in the row after the nodes
    assert_eq!(
        stamps[0],
        CircuitStamp::VoltageSource { component: 0, pos: vcc_idx, neg: 0, vs_idx: 0 }
    );
    assert_eq!(mna.stamp_voltage_source(vcc_idx, 0, 0).z_row, mna.num_nodes);

    // R1 stamps G[VCC][VCC] and G[n1][n1]; R2 stamps G[n1][n1] again
    assert_eq!(
        stamps[1],
        CircuitStamp::Conductance {
            component: 1,
            conductance: Conductance::ComponentValue,
            node1: vcc_idx,
            node2: n1_idx,
        }
    );
    assert_eq!(
        stamps[2],
        CircuitStamp::Conductance {
            component: 2,
            conductance: Conductance::ComponentValue,
            node1: n1_idx,
            node2: 0,
        }
    );
    assert!(mna.stamp_resistor(vcc_idx, n1_idx).contains(&e(vcc_idx - 1, vcc_idx - 1, 1)));
    assert!(mna.stamp_resistor(n1_idx, 0).contains(&e(n1_idx - 1, n1_idx - 1, 1)));
}

// ── Further checks of the contracts ─────────────────────────────────────────

#[test]
fn nodes_are_numbered_in_order_of_first_mention() {
    let validated = validated(make_led_circuit());
    let mna = MnaSystem::from_validated(&validated);
    assert_eq!(mna.node_map, vec![("VCC".to_string(), 1), ("n1".to_string(), 2)]);
    assert_eq!(mna.node_index("Ground"), Some(0));
    assert_eq!(mna.node_index("unknown"), None);
}

#[test]
fn each_kind_of_component_stamps_as_modelled() {
    let netlist = Netlist {
        components: vec![
            mna_part("BAT1", ComponentType::Battery, ("positive", "VCC"), ("negative", "GND")),
            mna_part("D1", ComponentType::Diode, ("anode", "VCC"), ("cathode", "a")),
            mna_part("W1", ComponentType::Wire, ("pin1", "a"), ("pin2", "b")),
            mna_part("C1", ComponentType::Capacitor, ("pin1", "b"), ("pin2", "GND")),
            mna_part("LED1", ComponentType::Led, ("anode", "b"), ("cathode", "GND")),
            mna_part("BAT2", ComponentType::Battery, ("positive", "a"), ("negative", "0")),
        ],
        connections: vec![Connection { from_node: "b".to_string(), to_node: "c".to_string() }],
        metadata: named("Mixed"),
    };
    let mna_validated = ValidatedNetlist {
        netlist,
        component_specs: vec![],
        node_ids: vec![],
    };
    let mna = MnaSystem::from_validated(&mna_validated);
    assert_eq!(mna.num_nodes, 4); // VCC, a, b, c
    assert_eq!(mna.num_vsources, 2);
    assert_eq!(mna.total_size, 6);
    let stamps = mna.stamp_circuit(&mna_validated);
    assert_eq!(
        stamps,
        vec![
            CircuitStamp::VoltageSource { component: 0, pos: 1, neg: 0, vs_idx: 0 },
            CircuitStamp::Conductance { component: 1, conductance: Conductance::Led, node1: 1, node2: 2 },
            CircuitStamp::Conductance { component: 2, conductance: Conductance::Wire, node1: 2, node2: 3 },
            CircuitStamp::Conductance { component: 4, conductance: Conductance::Led, node1: 3, node2: 0 },
            CircuitStamp::VoltageSource { component: 5, pos: 2, neg: 0, vs_idx: 1 },
        ]
    );
}

#[test]
fn repeated_battery_id_keeps_its_last_number() {
    let netlist = Netlist {
        components: vec![
            mna_part("B", ComponentType::Battery, ("positive", "x"), ("negative", "GND")),
            mna_part("B", ComponentType::Battery, ("positive", "y"), ("negative", "GND")),
        ],
        connections: vec![],
        metadata: named("Twice"),
    };
    let v = ValidatedNetlist { netlist, component_specs: vec![], node_ids: vec![] };
    let mna = MnaSystem::from_validated(&v);
    assert_eq!(mna.num_vsources, 2);
    assert_eq!(mna.vsource_map, vec![("B".to_string(), 1)]);
}

#[test]
fn current_source_stamps_z() {
    let validated = validated(make_series_resistor_circuit());
    let mna = MnaSystem::from_validated(&validated);
    assert_eq!(mna.stamp_current_source(2, 1), vec![e(1, 0, 1), e(0, 0, -1)]);
    assert_eq!(mna.stamp_current_source(0, 1), vec![e(0, 0, -1)]);
}
