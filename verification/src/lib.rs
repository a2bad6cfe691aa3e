//! Deterministic governance of DC circuit netlists and the layout of their nodal equations.

pub mod text;
pub mod netlist;
pub mod component_library;
pub mod names;
pub mod wires;
pub mod governance;
pub mod mna;
pub mod bridge;
pub mod laws;
