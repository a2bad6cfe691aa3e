//! Component rules that hold whatever a component's value is: the pins each type has,
//! which types need a value, and the errors a component's parameters can raise.

use vstd::prelude::*;
use vstd::string::*;
use crate::netlist::ComponentType;
use crate::text::views;

verus! {

/// Errors when a component's parameters are physically invalid.
#[derive(Debug)]
pub enum ComponentValidationError {
    /// Value is missing, negative or zero when it must be positive.
    InvalidValue { component_id: String, message: String },
    /// Value exceeds reasonable physical limits.
    UnreasonableValue { component_id: String, message: String },
}

/// The text that describes a component validation error.
pub open spec fn component_error_text(e: ComponentValidationError) -> Seq<char> {
    match e {
        ComponentValidationError::InvalidValue { component_id, message } =>
            "INVALID VALUE ["@ + component_id@ + "]: "@ + message@,
        ComponentValidationError::UnreasonableValue { component_id, message } =>
            "UNREASONABLE VALUE ["@ + component_id@ + "]: "@ + message@,
    }
}

impl ComponentValidationError {
    /// Describes the error, e.g. `INVALID VALUE [R1]: Resistance must be positive, got 0.00Ω`.
    pub fn message(&self) -> (s: String)
        ensures
            s@ == component_error_text(*self),
    {
        match self {
            ComponentValidationError::InvalidValue { component_id, message } => {
                let mut s = String::from_str("INVALID VALUE [");
                s.append(component_id.as_str());
                s.append("]: ");
                s.append(message.as_str());
                s
            },
            ComponentValidationError::UnreasonableValue { component_id, message } => {
                let mut s = String::from_str("UNREASONABLE VALUE [");
                s.append(component_id.as_str());
                s.append("]: ");
                s.append(message.as_str());
                s
            },
        }
    }
}

/// The pin names that a component of type `t` has, in order.
pub open spec fn pin_names_of(t: ComponentType) -> Seq<Seq<char>> {
    match t {
        ComponentType::Resistor => seq!["pin1"@, "pin2"@],
        ComponentType::Led => seq!["anode"@, "cathode"@],
        ComponentType::Capacitor => seq!["pin1"@, "pin2"@],
        ComponentType::OpAmp => seq![
            "out_a"@,
            "in-_a"@,
            "in+_a"@,
            "vee"@,
            "in+_b"@,
            "in-_b"@,
            "out_b"@,
            "vcc"@,
        ],
        ComponentType::Wire => seq!["pin1"@, "pin2"@],
        ComponentType::Battery => seq!["positive"@, "negative"@],
        ComponentType::Diode => seq!["anode"@, "cathode"@],
    }
}

fn strings_of(lits: &[&str]) -> (r: Vec<String>)
    ensures
        views(r@) == lits@.map_values(|l: &str| l@),
{
    let mut r: Vec<String> = Vec::new();
    let mut i: usize = 0;
    while i < lits.len()
        invariant
            i <= lits.len(),
            views(r@) == lits@.take(i as int).map_values(|l: &str| l@),
        decreases lits.len() - i,
    {
        let ghost r0 = r@;
        r.push(String::from_str(lits[i]));
        assert(views(r@) =~= views(r0).push(lits@[i as int]@));
        assert(lits@.take(i + 1) =~= lits@.take(i as int).push(lits@[i as int]));
        assert(lits@.take(i + 1).map_values(|l: &str| l@) =~= lits@.take(i as int).map_values(
            |l: &str| l@,
        ).push(lits@[i as int]@));
        i = i + 1;
    }
    assert(lits@.take(i as int) =~= lits@);
    r
}

/// The pin names that a component of type `t` has, in order.
pub fn expected_pin_names(t: ComponentType) -> (r: Vec<String>)
    ensures
        views(r@) == pin_names_of(t),
{
    let names = match t {
        ComponentType::Resistor => strings_of(&["pin1", "pin2"]),
        ComponentType::Led => strings_of(&["anode", "cathode"]),
        ComponentType::Capacitor => strings_of(&["pin1", "pin2"]),
        ComponentType::OpAmp => strings_of(
            &["out_a", "in-_a", "in+_a", "vee", "in+_b", "in-_b", "out_b", "vcc"],
        ),
        ComponentType::Wire => strings_of(&["pin1", "pin2"]),
        ComponentType::Battery => strings_of(&["positive", "negative"]),
        ComponentType::Diode => strings_of(&["anode", "cathode"]),
    };
    proof {
        assert(views(names@) =~= pin_names_of(t));
    }
    names
}

/// What the checks need to know of a component's specification: its type, its
/// human-readable name and the pins it is expected to have.
#[derive(Debug)]
pub struct ComponentSpec {
    pub component_type: ComponentType,
    /// Human-readable name, e.g. "330Ω Resistor" or "LED".
    pub name: String,
    /// Number of pins expected.
    pub pin_count: usize,
    /// Expected pin names.
    pub pin_names: Vec<String>,
}

impl ComponentSpec {
    /// The specification of a component of type `t` with the given display name.
    pub fn for_type(t: ComponentType, name: String) -> (r: ComponentSpec)
        ensures
            r.component_type == t,
            r.name == name,
            views(r.pin_names@) == pin_names_of(t),
            r.pin_count == pin_names_of(t).len(),
    {
        let pin_names = expected_pin_names(t);
        let pin_count = pin_names.len();
        proof {
            assert(views(pin_names@).len() == pin_names@.len());
        }
        ComponentSpec { component_type: t, name, pin_count, pin_names }
    }
}

/// The display name of a component type whose name does not depend on a value.
pub open spec fn fixed_name_of(t: ComponentType) -> Option<Seq<char>> {
    match t {
        ComponentType::Led => Some("LED"@),
        ComponentType::Diode => Some("Diode"@),
        ComponentType::Wire => Some("Jumper Wire"@),
        ComponentType::OpAmp => Some("Op-Amp"@),
        _ => None,
    }
}

/// The display name of a component type whose name does not depend on a value;
/// `None` for resistors, capacitors and batteries, which are named by their value.
pub fn fixed_name(t: ComponentType) -> (r: Option<String>)
    ensures
        r matches Some(s) ==> fixed_name_of(t) == Some(s@),
        r is None ==> fixed_name_of(t) is None,
{
    match t {
        ComponentType::Led => Some(String::from_str("LED")),
        ComponentType::Diode => Some(String::from_str("Diode")),
        ComponentType::Wire => Some(String::from_str("Jumper Wire")),
        ComponentType::OpAmp => Some(String::from_str("Op-Amp")),
        _ => None,
    }
}

/// The message for a component of type `t` that lacks the value its type needs;
/// `None` when the type needs no value.
pub open spec fn missing_value_message(t: ComponentType) -> Option<Seq<char>> {
    match t {
        ComponentType::Resistor => Some("Resistor must have a resistance value (ohms)"@),
        ComponentType::Capacitor => Some("Capacitor must have a capacitance value (farads)"@),
        ComponentType::Battery => Some("Battery/voltage source must have a voltage value"@),
        _ => None,
    }
}

/// The error for a component of type `t` given without a value: `InvalidValue` for the
/// types that need one (resistors, capacitors, batteries), `None` for the others.
pub fn missing_value_error(t: ComponentType, component_id: &str) -> (r: Option<
    ComponentValidationError,
>)
    ensures
        missing_value_message(t) is None <==> r is None,
        r matches Some(e) ==> e matches ComponentValidationError::InvalidValue {
            component_id: id,
            message,
        } && id@ == component_id@ && Some(message@) == missing_value_message(t),
{
    let msg = match t {
        ComponentType::Resistor => "Resistor must have a resistance value (ohms)",
        ComponentType::Capacitor => "Capacitor must have a capacitance value (farads)",
        ComponentType::Battery => "Battery/voltage source must have a voltage value",
        _ => {
            return None;
        },
    };
    Some(
        ComponentValidationError::InvalidValue {
            component_id: String::from_str(component_id),
            message: String::from_str(msg),
        },
    )
}

} // verus!
