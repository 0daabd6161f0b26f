# cloth_core

The integer structure of a real-time cloth simulation on a rectangular particle grid,
verified with Verus.

- `src/config.rs`: solver configuration (`SolverConfig` and its builders and switches)
  and the decisions a step takes from it: how many substeps and passes, whether
  multipliers reset, which distance constraints are projected.
- `src/topology.rs`: the grid (`Topology`): row-major particle ids, the structural,
  shear and bend constraints of each cell, the triangle list, and which particles an
  `Attachment` pins.
- `src/bends.rs`: pairing the triangles that share an edge into four-particle stencils
  for isometric bending, with laws on what the stencils are and how many there are.
- `src/grid_laws.rs`: closed-form counts of constraints, triangles and pins, and the
  facts that every constraint and every vertex index lies inside the grid.
- `src/material.rs`: the fabric kinds.

`app/` holds the floating-point half (vector math, material parameters, integration,
projection, aerodynamics, normals) and the WebAssembly interface, built on the verified
topology.
