# strata_core

The compute core of the Faultline cloud-architecture studio, written in Verus:
an in-memory architecture graph with validation, failure analysis (blast
radius, single points of failure), resilience lint, a cost estimate, plain
language explanations, keyword-driven proposals and a Terraform emitter. Every
function under `src/` carries a contract that Verus proves, except three small
trusted wrappers around std (`String::push`, `str::to_lowercase`,
`char::is_alphanumeric`), whose contracts are assumed.

Layout:

- `src/lib.rs` — resource kinds, resources, edges, the `Architecture` graph and
  its editing operations, with the well-formedness invariant they keep.
- `src/analysis.rs` — blast radius as the least closed down-set, SPOF scan.
- `src/lint.rs`, `src/cost.rs`, `src/explain.rs` — the rule set, the estimate
  (in cents) and explanations.
- `src/profile.rs` — the bundled AWS service catalogue and region topology.
- `src/propose.rs` — requirements sentence to starting architecture.
- `src/iac.rs`, `src/iac/` — the HCL writer (an operation log whose rendering
  is the text), dependency resolution, per-service blocks and `=` alignment.
- `src/studio.rs` — the editable document with the profile it is checked
  against.
- `src/text.rs`, `src/order.rs`, `src/seqs.rs` — strings, stable sorting and
  sequence facts shared by the above.
- `app/` — the `wasm-bindgen` binding: JSON in and out, errors as `JsError`.

Canvas coordinates are kept as `f64` bit patterns and prices as integer cents;
the binding converts both at the boundary.
