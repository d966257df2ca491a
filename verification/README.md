# wind_tunnel

A 2D wind tunnel on a D2Q9 lattice-Boltzmann grid.

- `src/lattice.rs`: the nine directions, their slot order, unit vectors and opposites, with laws on them.
- `src/streaming.rs`: streaming of distributions between cells (vertical wrap, open side edges,
  bounce-back at solid cells) for any `Copy` slot value, with the law that streaming moves every
  distribution to exactly one slot and fills every slot from at most one source.
- `src/simulation.rs`: the row-major grid with its solid mask, and the step that collides every
  cell with a caller-supplied rule, streams, then applies the inlet (left) and outflow (right) edges.
- `app/`: the program: floating-point collision and equilibrium, the car-shaped obstacle, the
  window and the drawing.
