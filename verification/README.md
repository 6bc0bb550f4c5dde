# katgpt-core

Verified core of a set of modelless inference primitives.

- `src/` — the library, verified with Verus:
  - `structural_cot_halt` — the structural trace-halt monitor (answer ring,
    answer histogram, self-loop / backtrack / pattern-conditional policies),
    answer normalization and hashing, and halt-vote composition, with the
    monitor's reachable-state invariant and transition laws;
  - `swe_trajectory_freeze` — the BLAKE3 commitment envelope;
  - `switch_cost`, `sterling` — the counter cores of the switch-difficulty
    tables and the lift-set builder;
  - `similarity_inference`, `spectral_pencil`, `sphere_sampling`,
    `gain_cost_halt` — integer helpers and error/decision types;
  - `digest` — the one trusted call into `blake3`.
- `tests/` — integration tests against the library.
- `app/` — the unverified floating-point numerics around the library.
