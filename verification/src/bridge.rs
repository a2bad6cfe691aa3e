//! The operations offered to the browser front end: the integrity checks of the
//! boundary and the summary of a circuit's validation.

use vstd::prelude::*;
use vstd::string::*;
use crate::governance::{PhysicsError, ValidatedNetlist, fault_text};

verus! {

/// Adds two numbers; used by the front end to check the boundary works.
pub fn add(a: i32, b: i32) -> (r: i32)
    requires
        i32::MIN <= a + b <= i32::MAX,
    ensures
        r == a + b,
{
    a + b
}

/// A greeting that carries a string across the boundary and back.
pub fn greet(name: &str) -> (r: String)
    ensures
        r@ == "Hello from LabWise Kernel, "@ + name@ + "!"@,
{
    let mut s = String::from_str("Hello from LabWise Kernel, ");
    s.append(name);
    s.append("!");
    s
}

/// The summary of a circuit's validation that the front end shows.
#[derive(Debug)]
pub enum CircuitReport {
    /// The circuit passed: its number of components and of distinct nodes.
    Valid { components: usize, nodes: usize },
    /// The circuit was rejected: the message of each error, in order.
    Rejected { errors: Vec<String> },
}

/// The messages of a list of governance errors.
pub open spec fn error_texts(errs: Seq<PhysicsError>) -> Seq<Seq<char>> {
    errs.map_values(|e: PhysicsError| fault_text(e@))
}

impl CircuitReport {
    /// "valid" or "rejected".
    pub fn status(&self) -> (s: String)
        ensures
            s@ == (if self is Valid {
                "valid"@
            } else {
                "rejected"@
            }),
    {
        match self {
            CircuitReport::Valid { .. } => String::from_str("valid"),
            CircuitReport::Rejected { .. } => String::from_str("rejected"),
        }
    }

    /// The headline shown with the report.
    pub fn message(&self) -> (s: String)
        ensures
            s@ == (if self is Valid {
                "Circuit passed all governance checks"@
            } else {
                "400 Bad Physics"@
            }),
    {
        match self {
            CircuitReport::Valid { .. } => String::from_str("Circuit passed all governance checks"),
            CircuitReport::Rejected { .. } => String::from_str("400 Bad Physics"),
        }
    }
}

/// Summarises the outcome of a validation for the front end.
pub fn circuit_report(result: &Result<ValidatedNetlist, Vec<PhysicsError>>) -> (r: CircuitReport)
    ensures
        match result {
            Ok(v) => r == (CircuitReport::Valid {
                components: v.netlist.components@.len() as usize,
                nodes: v.node_ids@.len() as usize,
            }),
            Err(errs) => r matches CircuitReport::Rejected { errors } && crate::text::views(errors@)
                == error_texts(errs@),
        },
{
    match result {
        Ok(v) => CircuitReport::Valid {
            components: v.netlist.components.len(),
            nodes: v.node_ids.len(),
        },
        Err(errs) => {
            let mut errors: Vec<String> = Vec::new();
            let mut i: usize = 0;
            while i < errs.len()
                invariant
                    i <= errs@.len(),
                    crate::text::views(errors@) == error_texts(errs@.take(i as int)),
                decreases errs.len() - i,
            {
                let m = errs[i].message();
                let ghost e0 = errors@;
                errors.push(m);
                proof {
                    crate::text::lemma_views_push(e0, m);
                    assert(errs@.take(i + 1) =~= errs@.take(i as int).push(errs@[i as int]));
                    assert(error_texts(errs@.take(i + 1)) =~= error_texts(errs@.take(i as int)).push(
                        fault_text(errs@[i as int]@),
                    ));
                }
                i = i + 1;
            }
            assert(errs@.take(i as int) =~= errs@);
            CircuitReport::Rejected { errors }
        },
    }
}

} // verus!
