# labwise_kernel

Deterministic governance of DC circuit netlists, verified with Verus.

- `src/` is the verified library:
  - `netlist` — components, pins, connections; every node mention in order.
  - `component_library` — the pins of each component type, value requirements, errors.
  - `names` — ground and supply-rail names (case-insensitive), distinct names in order.
  - `wires` — the graph of zero-resistance links and which nodes it joins.
  - `governance` — the rules a netlist must obey; `validate` reports every violation.
  - `mna` — the layout of the nodal equations and the signed entries each component stamps.
  - `bridge` — the summary shown by the front end.
  - `laws` — properties of the whole: what acceptance guarantees, that reported errors are
    real, that every node gets an index, that stamps keep the matrix symmetric.
- `app/` holds JSON parsing, the floating-point ratings of components and the solution of
  the equations (with `nalgebra`), and the functions exported to the browser.
- `tests/` exercises the library on concrete circuits.
