use labwise_kernel::component_library::{
    expected_pin_names, fixed_name, missing_value_error, ComponentSpec, ComponentValidationError,
};
use labwise_kernel::names::{distinct_in_order, is_ground_name, is_rail_name, is_supply_name};
use labwise_kernel::netlist::ComponentType;
use labwise_kernel::text::decimal_string;

#[test]
fn test_resistor_no_value_rejected() {
    let err = missing_value_error(ComponentType::Resistor, "R1");
    assert!(err.is_some(), "Resistor without value should be rejected");
    match err.unwrap() {
        ComponentValidationError::InvalidValue { component_id, message } => {
            assert_eq!(component_id, "R1");
            assert_eq!(message, "Resistor must have a resistance value (ohms)");
        }
        other => panic!("unexpected {:?}", other),
    }
}

#[test]
fn test_wire_no_value_needed() {
    assert!(missing_value_error(ComponentType::Wire, "W1").is_none());
    assert!(missing_value_error(ComponentType::Led, "LED1").is_none());
    assert!(missing_value_error(ComponentType::Battery, "V1").is_some());
    assert!(missing_value_error(ComponentType::Capacitor, "C1").is_some());
}

#[test]
fn pin_layouts_follow_the_component_type() {
    assert_eq!(expected_pin_names(ComponentType::Battery), vec!["positive".to_string(), "negative".to_string()]);
    assert_eq!(expected_pin_names(ComponentType::OpAmp).len(), 8);
    assert_eq!(expected_pin_names(ComponentType::OpAmp)[7], "vcc");
    let spec = ComponentSpec::for_type(ComponentType::Led, "LED".to_string());
    assert_eq!(spec.pin_count, 2);
    assert_eq!(spec.pin_names, vec!["anode".to_string(), "cathode".to_string()]);
    assert_eq!(fixed_name(ComponentType::OpAmp), Some("Op-Amp".to_string()));
    assert_eq!(fixed_name(ComponentType::Resistor), None);
}

#[test]
fn component_error_messages() {
    let e = ComponentValidationError::InvalidValue {
        component_id: "R1".to_string(),
        message: "Resistance must be positive, got 0.00Ω".to_string(),
    };
    assert_eq!(e.message(), "INVALID VALUE [R1]: Resistance must be positive, got 0.00Ω");
}

#[test]
fn node_names_are_compared_without_case() {
    assert!(is_ground_name("GrOuNd"));
    assert!(!is_ground_name("GND1"));
    assert!(is_supply_name("5V"));
    assert!(is_supply_name("3V3"));
    assert!(!is_supply_name("12V"));
    assert!(is_rail_name("Vcc"));
    assert!(!is_rail_name("9V"));
}

#[test]
fn decimal_rendering() {
    assert_eq!(decimal_string(0), "0");
    assert_eq!(decimal_string(7), "7");
    assert_eq!(decimal_string(10), "10");
    assert_eq!(decimal_string(4096), "4096");
}

#[test]
fn distinct_names_keep_first_mentions() {
    let v: Vec<String> = ["b", "a", "b", "c", "a"].iter().map(|s| s.to_string()).collect();
    assert_eq!(distinct_in_order(&v), vec!["b".to_string(), "a".to_string(), "c".to_string()]);
}

#[test]
fn component_type_names() {
    assert_eq!(ComponentType::OpAmp.to_string(), "op_amp");
    assert_eq!(ComponentType::Resistor.to_string(), "resistor");
}
