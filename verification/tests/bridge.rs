use labwise_kernel::bridge::{add, circuit_report, greet, CircuitReport};
use labwise_kernel::governance::{GovernanceManager, PhysicsError};
use labwise_kernel::netlist::{Metadata, Netlist};

#[test]
fn test_add() {
    assert_eq!(add(2, 3), 5);
    assert_eq!(add(-1, 1), 0);
    assert_eq!(add(0, 0), 0);
}

#[test]
fn test_greet() {
    assert_eq!(greet("World"), "Hello from LabWise Kernel, World!");
}

#[test]
fn report_of_a_rejected_circuit_lists_messages() {
    let netlist = Netlist {
        components: vec![],
        connections: vec![],
        metadata: Metadata { name: None, description: None, source: None },
    };
    let result = GovernanceManager::new().validate(netlist, vec![]);
    let report = circuit_report(&result);
    assert_eq!(report.status(), "rejected");
    assert_eq!(report.message(), "400 Bad Physics");
    match report {
        CircuitReport::Rejected { errors } => {
            assert_eq!(errors.len(), 3);
            assert_eq!(errors[0], "INVALID NETLIST: Circuit has no components");
        }
        CircuitReport::Valid { .. } => panic!("expected a rejection"),
    }
}

#[test]
fn report_of_an_error_list() {
    let result = Err(vec![PhysicsError::NoPowerSource]);
    let report = circuit_report(&result);
    match report {
        CircuitReport::Rejected { errors } => {
            assert_eq!(errors, vec!["NO POWER: Circuit has no power source".to_string()]);
        }
        CircuitReport::Valid { .. } => panic!("expected a rejection"),
    }
}
