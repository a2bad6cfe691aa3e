use labwise_kernel::component_library::{ComponentSpec, ComponentValidationError};
use labwise_kernel::governance::{GovernanceManager, PhysicsError, ValidatedNetlist};
use labwise_kernel::netlist::{Component, ComponentType, Metadata, Netlist, Pin, Connection};

type Outcome = Result<ComponentSpec, ComponentValidationError>;

fn pin(pin_id: &str, node: &str) -> Pin {
    Pin { pin_id: pin_id.to_string(), node: node.to_string() }
}

fn part(id: &str, t: ComponentType, pins: Vec<Pin>) -> Component {
    Component { id: id.to_string(), component_type: t, pins }
}

fn no_metadata() -> Metadata {
    Metadata { name: None, description: None, source: None }
}

fn spec(t: ComponentType, name: &str) -> Outcome {
    Ok(ComponentSpec::for_type(t, name.to_string()))
}

/// The 9 V battery, 330 Ω resistor and red LED circuit.
fn simple_led_circuit() -> Netlist {
    Netlist {
        components: vec![
            part("BAT1", ComponentType::Battery, vec![pin("positive", "VCC"), pin("negative", "GND")]),
            part("R1", ComponentType::Resistor, vec![pin("pin1", "VCC"), pin("pin2", "n1")]),
            part("LED1", ComponentType::Led, vec![pin("anode", "n1"), pin("cathode", "GND")]),
        ],
        connections: vec![],
        metadata: Metadata {
            name: Some("Simple LED Circuit".to_string()),
            description: Some("9V battery with 330 ohm resistor and red LED".to_string()),
            source: None,
        },
    }
}

fn simple_led_specs(battery: Outcome, resistor: Outcome) -> Vec<Outcome> {
    vec![battery, resistor, spec(ComponentType::Led, "LED")]
}

fn messages(errors: &[PhysicsError]) -> Vec<String> {
    errors.iter().map(|e| e.message()).collect()
}

fn run(netlist: Netlist, specs: Vec<Outcome>) -> Result<ValidatedNetlist, Vec<PhysicsError>> {
    GovernanceManager::new().validate(netlist, specs)
}

#[test]
fn test_valid_circuit_passes() {
    let result = run(
        simple_led_circuit(),
        simple_led_specs(
            spec(ComponentType::Battery, "9.0V Source"),
            spec(ComponentType::Resistor, "330Ω Resistor"),
        ),
    );
    assert!(result.is_ok(), "Valid circuit should pass governance: {:?}", result.err());
}

#[test]
fn test_any_resistor_value_accepted() {
    // A 2.2 kΩ resistor, specified as the component library does for any positive value.
    let result = run(
        simple_led_circuit(),
        simple_led_specs(
            spec(ComponentType::Battery, "9.0V Source"),
            spec(ComponentType::Resistor, "2.2kΩ Resistor"),
        ),
    );
    assert!(result.is_ok(), "2.2kΩ resistor should be accepted: {:?}", result.err());
}

#[test]
fn test_any_battery_voltage_accepted() {
    let result = run(
        simple_led_circuit(),
        simple_led_specs(
            spec(ComponentType::Battery, "12.0V Source"),
            spec(ComponentType::Resistor, "330Ω Resistor"),
        ),
    );
    assert!(result.is_ok(), "12V battery should be accepted: {:?}", result.err());
}

#[test]
fn test_zero_resistance_rejected() {
    let err = ComponentValidationError::InvalidValue {
        component_id: "R1".to_string(),
        message: "Resistance must be positive, got 0.00Ω".to_string(),
    };
    let result = run(
        simple_led_circuit(),
        simple_led_specs(spec(ComponentType::Battery, "9.0V Source"), Err(err)),
    );
    assert!(result.is_err(), "0Ω resistor should be rejected");
}

#[test]
fn test_negative_resistance_rejected() {
    let err = ComponentValidationError::InvalidValue {
        component_id: "R1".to_string(),
        message: "Resistance must be positive, got -100.00Ω".to_string(),
    };
    let result = run(
        simple_led_circuit(),
        simple_led_specs(spec(ComponentType::Battery, "9.0V Source"), Err(err)),
    );
    assert!(result.is_err(), "Negative resistance should be rejected");
}

#[test]
fn test_unsafe_voltage_rejected() {
    let err = ComponentValidationError::UnreasonableValue {
        component_id: "BAT1".to_string(),
        message: "240.0V exceeds safe lab voltage (48V max)".to_string(),
    };
    let result = run(
        simple_led_circuit(),
        simple_led_specs(Err(err), spec(ComponentType::Resistor, "330Ω Resistor")),
    );
    assert!(result.is_err(), "240V should be rejected as unsafe");
}

#[test]
fn test_empty_circuit_rejected() {
    let netlist = Netlist { components: vec![], connections: vec![], metadata: no_metadata() };
    let result = run(netlist, vec![]);
    assert!(result.is_err());
}

#[test]
fn test_short_circuit_detected() {
    let netlist = Netlist {
        components: vec![
            part("BAT1", ComponentType::Battery, vec![pin("positive", "VCC"), pin("negative", "GND")]),
            // Wire directly from VCC to GND = SHORT CIRCUIT
            part("W1", ComponentType::Wire, vec![pin("pin1", "VCC"), pin("pin2", "GND")]),
        ],
        connections: vec![],
        metadata: no_metadata(),
    };
    let specs = vec![spec(ComponentType::Battery, "9.0V Source"), spec(ComponentType::Wire, "Jumper Wire")];
    let result = run(netlist, specs);
    assert!(result.is_err());
    let errors = result.unwrap_err();
    assert!(
        errors.iter().any(|e| matches!(e, PhysicsError::ShortCircuit { .. })),
        "Should detect short circuit: {:?}",
        errors
    );
}

#[test]
fn test_no_ground_rejected() {
    let netlist = Netlist {
        components: vec![
            part("BAT1", ComponentType::Battery, vec![pin("positive", "VCC"), pin("negative", "n1")]),
            part("R1", ComponentType::Resistor, vec![pin("pin1", "VCC"), pin("pin2", "n1")]),
        ],
        connections: vec![],
        metadata: no_metadata(),
    };
    let specs = vec![spec(ComponentType::Battery, "9.0V Source"), spec(ComponentType::Resistor, "1.0kΩ Resistor")];
    let result = run(netlist, specs);
    assert!(result.is_err());
    let errors = result.unwrap_err();
    assert!(
        errors.iter().any(|e| matches!(e, PhysicsError::NoGroundReference)),
        "Should detect missing ground: {:?}",
        errors
    );
}

#[test]
fn test_no_power_source_rejected() {
    let netlist = Netlist {
        components: vec![
            // Resistor between two nodes, but no battery to drive current
            part("R1", ComponentType::Resistor, vec![pin("pin1", "VCC"), pin("pin2", "GND")]),
        ],
        connections: vec![],
        metadata: no_metadata(),
    };
    let result = run(netlist, vec![spec(ComponentType::Resistor, "1.0kΩ Resistor")]);
    assert!(result.is_err());
    let errors = result.unwrap_err();
    assert!(
        errors.iter().any(|e| matches!(e, PhysicsError::NoPowerSource)),
        "Should detect missing power source: {:?}",
        errors
    );
}

#[test]
fn test_floating_node_rejected() {
    let netlist = Netlist {
        components: vec![
            part("BAT1", ComponentType::Battery, vec![pin("positive", "VCC"), pin("negative", "GND")]),
            // R1 connects VCC to "n1", but nothing else connects to "n1": it is floating
            part("R1", ComponentType::Resistor, vec![pin("pin1", "VCC"), pin("pin2", "n1")]),
        ],
        connections: vec![],
        metadata: no_metadata(),
    };
    let specs = vec![spec(ComponentType::Battery, "9.0V Source"), spec(ComponentType::Resistor, "1.0kΩ Resistor")];
    let result = run(netlist, specs);
    assert!(result.is_err());
    let errors = result.unwrap_err();
    assert!(
        errors.iter().any(|e| matches!(e, PhysicsError::FloatingNode { .. })),
        "Should detect floating node n1: {:?}",
        errors
    );
}

#[test]
fn test_wrong_pin_count_rejected() {
    let netlist = Netlist {
        components: vec![
            part("BAT1", ComponentType::Battery, vec![pin("positive", "VCC"), pin("negative", "GND")]),
            // Resistor with 3 pins: physically impossible
            part(
                "R1",
                ComponentType::Resistor,
                vec![pin("pin1", "VCC"), pin("pin2", "GND"), pin("pin3", "n1")],
            ),
        ],
        connections: vec![],
        metadata: no_metadata(),
    };
    let specs = vec![spec(ComponentType::Battery, "9.0V Source"), spec(ComponentType::Resistor, "1.0kΩ Resistor")];
    let result = run(netlist, specs);
    assert!(result.is_err());
    let errors = result.unwrap_err();
    assert!(
        errors.iter().any(|e| matches!(e, PhysicsError::InvalidNetlist(_))),
        "Should reject resistor with 3 pins: {:?}",
        errors
    );
}

// ── Further checks of the contracts on concrete circuits ─────────────────────

#[test]
fn accepted_circuit_keeps_specs_and_nodes_in_order() {
    let v = run(
        simple_led_circuit(),
        simple_led_specs(
            spec(ComponentType::Battery, "9.0V Source"),
            spec(ComponentType::Resistor, "330Ω Resistor"),
        ),
    )
    .unwrap();
    assert_eq!(v.node_ids, vec!["VCC".to_string(), "GND".to_string(), "n1".to_string()]);
    let ids: Vec<&str> = v.component_specs.iter().map(|(id, _)| id.as_str()).collect();
    assert_eq!(ids, vec!["BAT1", "R1", "LED1"]);
    assert_eq!(v.component_specs[1].1.name, "330Ω Resistor");
    assert_eq!(v.netlist.components.len(), 3);
}

#[test]
fn every_error_is_reported_in_rule_order() {
    // No components at all: no ground, no battery either.
    let netlist = Netlist { components: vec![], connections: vec![], metadata: no_metadata() };
    let errors = run(netlist, vec![]).unwrap_err();
    assert_eq!(
        messages(&errors),
        vec![
            "INVALID NETLIST: Circuit has no components".to_string(),
            "NO GROUND: Circuit has no ground reference node".to_string(),
            "NO POWER: Circuit has no power source".to_string(),
        ]
    );
}

#[test]
fn failed_component_spec_is_reported_first() {
    let err = ComponentValidationError::InvalidValue {
        component_id: "R1".to_string(),
        message: "Resistor must have a resistance value (ohms)".to_string(),
    };
    let errors = run(
        simple_led_circuit(),
        simple_led_specs(spec(ComponentType::Battery, "9.0V Source"), Err(err)),
    )
    .unwrap_err();
    assert_eq!(
        messages(&errors),
        vec!["INVALID VALUE [R1]: Resistor must have a resistance value (ohms)".to_string()]
    );
}

#[test]
fn short_circuit_through_connections_names_both_nodes() {
    // 5V reaches gnd through a chain of explicit connections; case does not matter.
    let netlist = Netlist {
        components: vec![
            part("BAT1", ComponentType::Battery, vec![pin("positive", "5V"), pin("negative", "gnd")]),
            part("R1", ComponentType::Resistor, vec![pin("pin1", "5V"), pin("pin2", "a")]),
        ],
        connections: vec![
            Connection { from_node: "a".to_string(), to_node: "b".to_string() },
            Connection { from_node: "5V".to_string(), to_node: "b".to_string() },
            Connection { from_node: "b".to_string(), to_node: "gnd".to_string() },
        ],
        metadata: no_metadata(),
    };
    let specs = vec![spec(ComponentType::Battery, "5.0V Source"), spec(ComponentType::Resistor, "1.0kΩ Resistor")];
    let errors = run(netlist, specs).unwrap_err();
    assert_eq!(
        messages(&errors),
        vec!["SHORT CIRCUIT: Direct short between 5V and gnd".to_string()]
    );
}

#[test]
fn resistor_between_supply_and_ground_is_no_short() {
    // Only a resistor joins VCC and GND: no zero-resistance path.
    let netlist = Netlist {
        components: vec![
            part("BAT1", ComponentType::Battery, vec![pin("positive", "VCC"), pin("negative", "GND")]),
            part("R1", ComponentType::Resistor, vec![pin("pin1", "VCC"), pin("pin2", "GND")]),
            part("W1", ComponentType::Wire, vec![pin("pin1", "VCC"), pin("pin2", "x")]),
            part("W2", ComponentType::Wire, vec![pin("pin1", "y"), pin("pin2", "GND")]),
            part("R2", ComponentType::Resistor, vec![pin("pin1", "x"), pin("pin2", "y")]),
        ],
        connections: vec![],
        metadata: no_metadata(),
    };
    let specs = vec![
        spec(ComponentType::Battery, "9.0V Source"),
        spec(ComponentType::Resistor, "1.0kΩ Resistor"),
        spec(ComponentType::Wire, "Jumper Wire"),
        spec(ComponentType::Wire, "Jumper Wire"),
        spec(ComponentType::Resistor, "1.0kΩ Resistor"),
    ];
    assert!(run(netlist, specs).is_ok());
}

#[test]
fn floating_node_message_names_the_node() {
    let netlist = Netlist {
        components: vec![
            part("BAT1", ComponentType::Battery, vec![pin("positive", "VCC"), pin("negative", "GND")]),
            part("R1", ComponentType::Resistor, vec![pin("pin1", "VCC"), pin("pin2", "n1")]),
        ],
        connections: vec![],
        metadata: no_metadata(),
    };
    let specs = vec![spec(ComponentType::Battery, "9.0V Source"), spec(ComponentType::Resistor, "1.0kΩ Resistor")];
    let errors = run(netlist, specs).unwrap_err();
    assert_eq!(
        messages(&errors),
        vec!["FLOATING NODE: Node 'n1' has only one connection".to_string()]
    );
}

#[test]
fn pin_count_message_gives_both_counts() {
    let netlist = Netlist {
        components: vec![
            part("BAT1", ComponentType::Battery, vec![pin("positive", "VCC"), pin("negative", "GND")]),
            part(
                "R1",
                ComponentType::Resistor,
                vec![pin("pin1", "VCC"), pin("pin2", "GND"), pin("pin3", "GND")],
            ),
        ],
        connections: vec![],
        metadata: no_metadata(),
    };
    let specs = vec![spec(ComponentType::Battery, "9.0V Source"), spec(ComponentType::Resistor, "1.0kΩ Resistor")];
    let errors = run(netlist, specs).unwrap_err();
    assert_eq!(
        messages(&errors),
        vec!["INVALID NETLIST: Component R1 (1.0kΩ Resistor) has 3 pins but expected 2".to_string()]
    );
}

#[test]
fn explicit_connections_count_as_connections() {
    // n1 has one pin, but an explicit connection gives it a second connection.
    let netlist = Netlist {
        components: vec![
            part("BAT1", ComponentType::Battery, vec![pin("positive", "VCC"), pin("negative", "GND")]),
            part("R1", ComponentType::Resistor, vec![pin("pin1", "VCC"), pin("pin2", "n1")]),
        ],
        connections: vec![Connection { from_node: "n1".to_string(), to_node: "Ground".to_string() }],
        metadata: no_metadata(),
    };
    let specs = vec![spec(ComponentType::Battery, "9.0V Source"), spec(ComponentType::Resistor, "1.0kΩ Resistor")];
    assert!(run(netlist, specs).is_ok());
}

#[test]
fn physics_error_messages() {
    let e = PhysicsError::PinConflict { component: "U1".to_string(), pin: "vcc".to_string() };
    assert_eq!(e.message(), "PIN CONFLICT: Pin vcc on component U1 has conflicting connections");
    let e = PhysicsError::InvalidComponent(ComponentValidationError::UnreasonableValue {
        component_id: "C1".to_string(),
        message: "too big".to_string(),
    });
    assert_eq!(e.message(), "UNREASONABLE VALUE [C1]: too big");
    let d = GovernanceManager::default();
    assert!(d.validate(simple_led_circuit(), vec![
        spec(ComponentType::Battery, "9.0V Source"),
        spec(ComponentType::Resistor, "330Ω Resistor"),
        spec(ComponentType::Led, "LED"),
    ]).is_ok());
}
