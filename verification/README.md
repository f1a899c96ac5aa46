# symbolic_mr

Fermionic normal ordering and CAS-aware symbolic reduction of operator strings,
written in Verus and verified.

## Layout

- `src/ast.rs`, `src/api.rs` — indices, operators, operator strings and their builders.
- `src/text.rs`, `src/sorting.rs` — text comparison and rendering helpers, a verified
  stable insertion sort.
- `src/canonicalize.rs`, `src/constraints.rs` — canonical operator order, delta constraints.
- `src/rewrite.rs` — normal ordering: the rewrite rules as spec functions, the executable
  rewriting, combining of like terms, rendering.
- `src/reference.rs` — reduction in the CAS reference state into deltas, one- and
  two-body density matrices and unresolved higher-order structure; traces; matrix elements.
- `src/fock.rs`, `src/reference_model.rs` — determinants, the action of operator strings on
  them, and the reference space of determinants with core orbitals filled and virtual
  orbitals empty.
- `src/laws.rs` — properties of the library as a whole, among them that normal ordering
  keeps the action of a string on every determinant and that the reduced form, read
  between determinants of the reference space, gives what the string gives.
- `src/fixtures.rs` — the fixture suites and the decoding of fixture operators.
- `src/showcase.rs` — the demonstration's sample expressions, its generator, and the layout
  of reduced forms.
- `app/` — the demonstration program, JSON fixture files, and exact floating-point
  cross-checks.
- `tests/` — the test suite.
